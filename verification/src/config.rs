use vstd::prelude::*;

verus! {

/// Lint settings, as read from `.rlint.toml`.
#[derive(Debug)]
pub struct Config {
    /// Maximum line length (default: 120).
    pub line_length: usize,
    /// Maximum method length in lines (default: 30).
    pub max_method_lines: usize,
    /// Maximum class length in lines (default: 300).
    pub max_class_lines: usize,
    /// Maximum cyclomatic complexity (default: 10).
    pub max_complexity: usize,
    /// Select only these rules (empty = all rules).
    pub select: Vec<String>,
    /// Ignore these rules.
    pub ignore: Vec<String>,
    /// Additional rules to enable on top of the defaults.
    pub extend_select: Vec<String>,
    /// Glob patterns for files/directories to exclude.
    pub exclude: Vec<String>,
}

/// The texts of a list of strings.
pub open spec fn texts(v: Seq<String>) -> Seq<Seq<char>> {
    v.map_values(|s: String| s@)
}

/// The default settings.
pub open spec fn is_default_config(c: Config) -> bool {
    &&& c.line_length == 120
    &&& c.max_method_lines == 30
    &&& c.max_class_lines == 300
    &&& c.max_complexity == 10
    &&& c.select@.len() == 0
    &&& c.ignore@.len() == 0
    &&& c.extend_select@.len() == 0
    &&& c.exclude@.len() == 0
}

impl Default for Config {
    fn default() -> (c: Config)
        ensures
            is_default_config(c),
    {
        Config {
            line_length: 120,
            max_method_lines: 30,
            max_class_lines: 300,
            max_complexity: 10,
            select: Vec::new(),
            ignore: Vec::new(),
            extend_select: Vec::new(),
            exclude: Vec::new(),
        }
    }
}

/// Where the settings of a directory tree come from.
#[derive(Debug, Clone, Copy, PartialEq, Eq, Structural)]
pub enum SettingsSource {
    /// The `.rlint.toml` of the directory at this distance up the tree.
    Toml(usize),
    /// The `.rubocop.yml` of the directory at this distance up the tree.
    Rubocop(usize),
    /// Neither file exists anywhere up the tree.
    Default,
}

/// `i` is the first index at which `flags` holds.
pub open spec fn is_first_set(flags: Seq<bool>, i: int) -> bool {
    &&& 0 <= i < flags.len()
    &&& flags[i]
    &&& forall|j: int| 0 <= j < i ==> !flags[j]
}

pub open spec fn none_set(flags: Seq<bool>) -> bool {
    forall|j: int| 0 <= j < flags.len() ==> !flags[j]
}

/// The index of the first `true`, if any.
fn first_true(flags: &[bool]) -> (r: Option<usize>)
    ensures
        match r {
            Some(i) => is_first_set(flags@, i as int),
            None => none_set(flags@),
        },
{
    let mut i: usize = 0;
    while i < flags.len()
        invariant
            i <= flags@.len(),
            forall|j: int| 0 <= j < i ==> !flags@[j],
        decreases flags@.len() - i,
    {
        if flags[i] {
            return Some(i);
        }
        i = i + 1;
    }
    None
}

impl Config {
    /// The search that walks up from the start directory: the nearest
    /// `.rlint.toml` anywhere up the tree wins; only when there is none does
    /// the nearest `.rubocop.yml` count; with neither, the defaults.
    /// `has_toml[d]` and `has_rubocop[d]` tell whether the directory `d`
    /// levels above the start directory holds the file.
    pub fn settings_source(has_toml: &[bool], has_rubocop: &[bool]) -> (s: SettingsSource)
        ensures
            match s {
                SettingsSource::Toml(i) => is_first_set(has_toml@, i as int),
                SettingsSource::Rubocop(k) => none_set(has_toml@) && is_first_set(
                    has_rubocop@,
                    k as int,
                ),
                SettingsSource::Default => none_set(has_toml@) && none_set(has_rubocop@),
            },
    {
        match first_true(has_toml) {
            Some(i) => SettingsSource::Toml(i),
            None => match first_true(has_rubocop) {
                Some(k) => SettingsSource::Rubocop(k),
                None => SettingsSource::Default,
            },
        }
    }

    /// The settings converted from a `.rubocop.yml`: the converted settings,
    /// or the defaults when the file could not be read or parsed.
    pub fn from_rubocop(converted: Option<Config>) -> (c: Config)
        ensures
            match converted {
                Some(p) => c == p,
                None => is_default_config(c),
            },
    {
        match converted {
            Some(p) => p,
            None => Config::default(),
        }
    }
}

} // verus!
