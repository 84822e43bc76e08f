//! Per-file cache of lint results, keyed by file and checked against the
//! hashes of the file's content and of the settings.
use vstd::prelude::*;

use crate::config::{texts, Config};
use crate::diagnostic::{diags_model, Diagnostic, DiagnosticModel, FixKind, Severity};
use crate::path::{path_key, path_key_of, texts_eq};
use crate::text::{decimal, push_decimal, push_text};

verus! {

// ── stored forms ──────────────────────────────────────────────────────────────

/// A fix as stored in the cache.
#[derive(Debug, Clone)]
pub struct CachedFix {
    pub text: String,
    pub insert_before: bool,
}

/// A diagnostic as stored in the cache; the file is the entry's key.
#[derive(Debug, Clone)]
pub struct CachedDiagnostic {
    pub rule: String,
    pub message: String,
    pub line: usize,
    pub col: usize,
    /// 0 = Error, 1 = Warning, 2 = Info
    pub severity: u8,
    pub fix: Option<CachedFix>,
}

/// The stored result of one file.
#[derive(Debug)]
pub struct CacheEntry {
    pub content_hash: u64,
    pub config_hash: u64,
    pub diagnostics: Vec<CachedDiagnostic>,
}

pub struct CachedFixModel {
    pub text: Seq<char>,
    pub insert_before: bool,
}

pub struct CachedDiagnosticModel {
    pub rule: Seq<char>,
    pub message: Seq<char>,
    pub line: usize,
    pub col: usize,
    pub severity: u8,
    pub fix: Option<CachedFixModel>,
}

pub struct EntryModel {
    pub content_hash: u64,
    pub config_hash: u64,
    pub diagnostics: Seq<CachedDiagnosticModel>,
}

impl View for CachedDiagnostic {
    type V = CachedDiagnosticModel;

    open spec fn view(&self) -> CachedDiagnosticModel {
        CachedDiagnosticModel {
            rule: self.rule@,
            message: self.message@,
            line: self.line,
            col: self.col,
            severity: self.severity,
            fix: match self.fix {
                Some(f) => Some(CachedFixModel { text: f.text@, insert_before: f.insert_before }),
                None => None,
            },
        }
    }
}

impl View for CacheEntry {
    type V = EntryModel;

    open spec fn view(&self) -> EntryModel {
        EntryModel {
            content_hash: self.content_hash,
            config_hash: self.config_hash,
            diagnostics: self.diagnostics@.map_values(|c: CachedDiagnostic| c@),
        }
    }
}

// ── conversion ────────────────────────────────────────────────────────────────

pub open spec fn severity_code(s: Severity) -> u8 {
    match s {
        Severity::Error => 0,
        Severity::Warning => 1,
        Severity::Info => 2,
    }
}

/// 0 is an error, 1 a warning, and every other code information.
pub open spec fn severity_of_code(v: u8) -> Severity {
    if v == 0 {
        Severity::Error
    } else if v == 1 {
        Severity::Warning
    } else {
        Severity::Info
    }
}

/// The stored form of a diagnostic: everything but the file, with the fix
/// kind kept only where there is a fix.
pub open spec fn to_cached(d: DiagnosticModel) -> CachedDiagnosticModel {
    CachedDiagnosticModel {
        rule: d.rule,
        message: d.message,
        line: d.line,
        col: d.col,
        severity: severity_code(d.severity),
        fix: match d.fix {
            Some(t) => Some(
                CachedFixModel { text: t, insert_before: d.fix_kind == FixKind::InsertBefore },
            ),
            None => None,
        },
    }
}

/// The diagnostic of `file` that a stored form stands for.
pub open spec fn from_cached(file: Seq<char>, c: CachedDiagnosticModel) -> DiagnosticModel {
    DiagnosticModel {
        file,
        line: c.line,
        col: c.col,
        rule: c.rule,
        message: c.message,
        severity: severity_of_code(c.severity),
        fix: match c.fix {
            Some(f) => Some(f.text),
            None => None,
        },
        fix_kind: match c.fix {
            Some(f) => if f.insert_before {
                FixKind::InsertBefore
            } else {
                FixKind::ReplaceLine
            },
            None => FixKind::ReplaceLine,
        },
    }
}

/// `d` as reported for `file`, with the fix kind of a diagnostic without a
/// fix set to the default.
pub open spec fn restored(d: DiagnosticModel, file: Seq<char>) -> DiagnosticModel {
    DiagnosticModel {
        file,
        fix_kind: if d.fix is Some {
            d.fix_kind
        } else {
            FixKind::ReplaceLine
        },
        ..d
    }
}

pub fn severity_to_u8(s: &Severity) -> (v: u8)
    ensures
        v == severity_code(*s),
{
    match s {
        Severity::Error => 0,
        Severity::Warning => 1,
        Severity::Info => 2,
    }
}

pub fn u8_to_severity(v: u8) -> (s: Severity)
    ensures
        s == severity_of_code(v),
{
    match v {
        0 => Severity::Error,
        1 => Severity::Warning,
        _ => Severity::Info,
    }
}

pub fn diagnostic_to_cached(d: &Diagnostic) -> (c: CachedDiagnostic)
    ensures
        c@ == to_cached(d@),
{
    CachedDiagnostic {
        rule: d.rule.clone(),
        message: d.message.clone(),
        line: d.line,
        col: d.col,
        severity: severity_to_u8(&d.severity),
        fix: match &d.fix {
            Some(text) => Some(
                CachedFix {
                    text: text.clone(),
                    insert_before: match d.fix_kind {
                        FixKind::InsertBefore => true,
                        FixKind::ReplaceLine => false,
                    },
                },
            ),
            None => None,
        },
    }
}

pub fn cached_to_diagnostic(file: &str, c: CachedDiagnostic) -> (d: Diagnostic)
    ensures
        d@ == from_cached(file@, c@),
{
    let mut d = Diagnostic::new(
        file,
        c.line,
        c.col,
        c.rule.as_str(),
        c.message.as_str(),
        u8_to_severity(c.severity),
    );
    if let Some(fix) = c.fix {
        if fix.insert_before {
            d = d.with_insert_before_fix(fix.text.as_str());
        } else {
            d = d.with_fix(fix.text.as_str());
        }
    }
    d
}

/// Reading back a stored severity gives the severity that was stored.
pub proof fn law_severity_roundtrip(s: Severity)
    ensures
        severity_of_code(severity_code(s)) == s,
{
}

/// Codes 0, 1 and 2 are the stored forms of the three severities.
pub proof fn law_severity_code_roundtrip(v: u8)
    requires
        v <= 2,
    ensures
        severity_code(severity_of_code(v)) == v,
{
}

/// Reading back a stored diagnostic gives the diagnostic that was stored,
/// reported for the file it is read for; of a diagnostic without a fix the
/// fix kind is not stored and comes back as the default.
pub proof fn law_diagnostic_roundtrip(d: DiagnosticModel, file: Seq<char>)
    ensures
        from_cached(file, to_cached(d)) == restored(d, file),
        (d.fix is Some || d.fix_kind == FixKind::ReplaceLine) && d.file == file ==> from_cached(
            file,
            to_cached(d),
        ) == d,
{
}


// ── hashing ───────────────────────────────────────────────────────────────────

/// What `xxhash_rust::xxh3::xxh3_64` returns for these bytes.
pub uninterp spec fn xxh3_64_of(bytes: Seq<u8>) -> u64;

/// What `format!("{:?}", v)` gives for a `Vec<String>` holding these texts.
pub uninterp spec fn debug_text_of_strings(items: Seq<Seq<char>>) -> Seq<char>;

/// Calls `xxhash_rust::xxh3::xxh3_64` (seed 0, default secret); the result
/// is the name `xxh3_64_of` applied to the bytes, nothing more is stated.
#[verifier::external_body]
fn xxh3_64_bytes(bytes: &[u8]) -> (h: u64)
    ensures
        h == xxh3_64_of(bytes@),
{
    xxhash_rust::xxh3::xxh3_64(bytes)
}

/// Formats a list of strings with `{:?}` (std's `Debug` for `Vec<String>`);
/// the text is the name `debug_text_of_strings` applied to the items.
#[verifier::external_body]
fn debug_strings(v: &Vec<String>) -> (s: String)
    ensures
        s@ == debug_text_of_strings(texts(v@)),
{
    format!("{:?}", v)
}

/// The key of the settings that affect lint results.
pub open spec fn config_key(c: Config) -> Seq<char> {
    "ll="@ + decimal(c.line_length as nat) + ",mml="@ + decimal(c.max_method_lines as nat)
        + ",mcl="@ + decimal(c.max_class_lines as nat) + ",mc="@ + decimal(
        c.max_complexity as nat,
    ) + ",sel="@ + debug_text_of_strings(texts(c.select@)) + ",ign="@ + debug_text_of_strings(
        texts(c.ignore@),
    ) + ",esel="@ + debug_text_of_strings(texts(c.extend_select@))
}

fn config_key_text(config: &Config) -> (key: String)
    ensures
        key@ == config_key(*config),
{
    let mut key = String::new();
    push_text(&mut key, "ll=");
    push_decimal(&mut key, config.line_length);
    push_text(&mut key, ",mml=");
    push_decimal(&mut key, config.max_method_lines);
    push_text(&mut key, ",mcl=");
    push_decimal(&mut key, config.max_class_lines);
    push_text(&mut key, ",mc=");
    push_decimal(&mut key, config.max_complexity);
    push_text(&mut key, ",sel=");
    let sel = debug_strings(&config.select);
    push_text(&mut key, sel.as_str());
    push_text(&mut key, ",ign=");
    let ign = debug_strings(&config.ignore);
    push_text(&mut key, ign.as_str());
    push_text(&mut key, ",esel=");
    let esel = debug_strings(&config.extend_select);
    push_text(&mut key, esel.as_str());
    proof {
        assert(key@ =~= config_key(*config));
    }
    key
}

/// xxh3 hash of the UTF-8 bytes of a file's content.
pub fn hash_content(content: &str) -> (h: u64)
    ensures
        h == xxh3_64_of(vstd::utf8::encode_utf8(content@)),
{
    xxh3_64_bytes(content.as_bytes())
}

/// xxh3 hash of the key of the settings that affect lint results (all but
/// `exclude`).
pub fn hash_config(config: &Config) -> (h: u64)
    ensures
        h == xxh3_64_of(vstd::utf8::encode_utf8(config_key(*config))),
{
    let key = config_key_text(config);
    xxh3_64_bytes(key.as_str().as_bytes())
}


/// After storing the result of `file` under two hashes, a lookup of the
/// same file (under any spelling of its path) with the same hashes gives
/// back the stored diagnostics, reported for the path looked up (a
/// diagnostic without a fix comes back with the default fix kind).
pub proof fn law_lookup_after_store(
    m: Map<Seq<Seq<char>>, EntryModel>,
    file: Seq<char>,
    content_hash: u64,
    config_hash: u64,
    diags: Seq<DiagnosticModel>,
    looked_up: Seq<char>,
)
    requires
        path_key(looked_up) == path_key(file),
    ensures
        lookup_result(
            m.insert(path_key(file), stored_entry(content_hash, config_hash, diags)),
            looked_up,
            content_hash,
            config_hash,
        ) == Some(diags.map_values(|d: DiagnosticModel| restored(d, looked_up))),
{
    let got = m.insert(path_key(file), stored_entry(content_hash, config_hash, diags))[path_key(
        file,
    )].diagnostics.map_values(|c: CachedDiagnosticModel| from_cached(looked_up, c));
    assert(got =~= diags.map_values(|d: DiagnosticModel| restored(d, looked_up)));
}

/// A lookup of a stored file with a content hash or a settings hash other
/// than the stored ones misses.
pub proof fn law_lookup_misses_on_changed_hash(
    m: Map<Seq<Seq<char>>, EntryModel>,
    file: Seq<char>,
    content_hash: u64,
    config_hash: u64,
    diags: Seq<DiagnosticModel>,
    looked_up: Seq<char>,
    other_content_hash: u64,
    other_config_hash: u64,
)
    requires
        path_key(looked_up) == path_key(file),
        other_content_hash != content_hash || other_config_hash != config_hash,
    ensures
        lookup_result(
            m.insert(path_key(file), stored_entry(content_hash, config_hash, diags)),
            looked_up,
            other_content_hash,
            other_config_hash,
        ) is None,
{
}

/// Storing the result of one file leaves the lookups of every other file
/// as they were.
pub proof fn law_store_keeps_other_files(
    m: Map<Seq<Seq<char>>, EntryModel>,
    file: Seq<char>,
    content_hash: u64,
    config_hash: u64,
    diags: Seq<DiagnosticModel>,
    other: Seq<char>,
    other_content_hash: u64,
    other_config_hash: u64,
)
    requires
        path_key(other) != path_key(file),
    ensures
        lookup_result(
            m.insert(path_key(file), stored_entry(content_hash, config_hash, diags)),
            other,
            other_content_hash,
            other_config_hash,
        ) == lookup_result(m, other, other_content_hash, other_config_hash),
{
}

/// An empty cache has nothing to give back.
pub proof fn law_empty_cache_misses(file: Seq<char>, content_hash: u64, config_hash: u64)
    ensures
        lookup_result(Map::<Seq<Seq<char>>, EntryModel>::empty(), file, content_hash, config_hash)
            is None,
{
}

/// Only the settings that affect lint results go into the settings hash:
/// two settings that differ in `exclude` alone hash alike.
pub proof fn law_config_hash_ignores_exclude(a: Config, b: Config)
    requires
        a.line_length == b.line_length,
        a.max_method_lines == b.max_method_lines,
        a.max_class_lines == b.max_class_lines,
        a.max_complexity == b.max_complexity,
        texts(a.select@) == texts(b.select@),
        texts(a.ignore@) == texts(b.ignore@),
        texts(a.extend_select@) == texts(b.extend_select@),
    ensures
        xxh3_64_of(vstd::utf8::encode_utf8(config_key(a))) == xxh3_64_of(
            vstd::utf8::encode_utf8(config_key(b)),
        ),
{
}

// ── Cache ─────────────────────────────────────────────────────────────────────

/// No file occurs twice among the entries: no two paths have the same
/// components.
pub open spec fn keys_distinct(e: Seq<(String, CacheEntry)>) -> bool {
    forall|i: int, j: int|
        0 <= i < e.len() && 0 <= j < e.len() && i != j ==> path_key(#[trigger] e[i].0@)
            != path_key(#[trigger] e[j].0@)
}

/// The entries as a map from the components of a file's path to the stored
/// result.
pub open spec fn entries_map(e: Seq<(String, CacheEntry)>) -> Map<Seq<Seq<char>>, EntryModel> {
    Map::new(
        |k: Seq<Seq<char>>| exists|i: int| 0 <= i < e.len() && path_key(#[trigger] e[i].0@) == k,
        |k: Seq<Seq<char>>| e[choose|i: int| 0 <= i < e.len() && path_key(#[trigger] e[i].0@) == k].1@,
    )
}

/// The spelling of each stored path, by its components.
pub open spec fn entry_paths(e: Seq<(String, CacheEntry)>) -> Map<Seq<Seq<char>>, Seq<char>> {
    Map::new(
        |k: Seq<Seq<char>>| exists|i: int| 0 <= i < e.len() && path_key(#[trigger] e[i].0@) == k,
        |k: Seq<Seq<char>>| e[choose|i: int| 0 <= i < e.len() && path_key(#[trigger] e[i].0@) == k].0@,
    )
}

/// The spellings after storing `file` under the components `key`: a path
/// already stored keeps the spelling it was first stored under, as a hash
/// map keeps the key it holds.
pub open spec fn kept_paths(
    paths: Map<Seq<Seq<char>>, Seq<char>>,
    key: Seq<Seq<char>>,
    file: Seq<char>,
) -> Map<Seq<Seq<char>>, Seq<char>> {
    if paths.contains_key(key) {
        paths
    } else {
        paths.insert(key, file)
    }
}

/// The stored form of a file's result.
pub open spec fn stored_entry(content_hash: u64, config_hash: u64, diags: Seq<DiagnosticModel>) -> EntryModel {
    EntryModel {
        content_hash,
        config_hash,
        diagnostics: diags.map_values(|d: DiagnosticModel| to_cached(d)),
    }
}

/// What a lookup returns: the stored diagnostics, reported for `file`,
/// when there is an entry for `file`'s path and both hashes match; else
/// nothing.
pub open spec fn lookup_result(
    m: Map<Seq<Seq<char>>, EntryModel>,
    file: Seq<char>,
    content_hash: u64,
    config_hash: u64,
) -> Option<Seq<DiagnosticModel>> {
    let k = path_key(file);
    if m.contains_key(k) && m[k].content_hash == content_hash && m[k].config_hash == config_hash {
        Some(m[k].diagnostics.map_values(|c: CachedDiagnosticModel| from_cached(file, c)))
    } else {
        None
    }
}

/// Setting the entry at `at` (an existing entry of path `key`, or a new one
/// at the end when no entry has that path) keeps the paths distinct and
/// sets the result of `key` in the map.
proof fn lemma_set_entry(
    old_e: Seq<(String, CacheEntry)>,
    e: Seq<(String, CacheEntry)>,
    at: int,
    key: Seq<Seq<char>>,
    v: EntryModel,
)
    requires
        keys_distinct(old_e),
        0 <= at <= old_e.len(),
        e.len() == if at < old_e.len() {
            old_e.len() as int
        } else {
            old_e.len() + 1int
        },
        forall|j: int| 0 <= j < e.len() && j != at ==> e[j] == old_e[j],
        path_key(e[at].0@) == key,
        e[at].1@ == v,
        at < old_e.len() ==> path_key(old_e[at].0@) == key,
        at == old_e.len() ==> forall|j: int|
            0 <= j < old_e.len() ==> path_key(#[trigger] old_e[j].0@) != key,
        at < old_e.len() ==> e[at].0@ == old_e[at].0@,
    ensures
        keys_distinct(e),
        entries_map(e) == entries_map(old_e).insert(key, v),
        entry_paths(e) == kept_paths(entry_paths(old_e), key, e[at].0@),
{
    assert forall|a: int, b: int|
        0 <= a < e.len() && 0 <= b < e.len() && a != b implies path_key(#[trigger] e[a].0@)
        != path_key(#[trigger] e[b].0@) by {
        if a != at && b != at {
            assert(e[a] == old_e[a] && e[b] == old_e[b]);
        } else if a == at {
            assert(e[b] == old_e[b]);
        } else {
            assert(e[a] == old_e[a]);
        }
    }
    let m = entries_map(e);
    let om = entries_map(old_e).insert(key, v);
    assert forall|q: Seq<Seq<char>>| #[trigger] m.contains_key(q) == om.contains_key(q) by {
        if q == key {
            assert(path_key(e[at].0@) == q);
        } else {
            if exists|j: int| 0 <= j < e.len() && path_key(#[trigger] e[j].0@) == q {
                let j = choose|j: int| 0 <= j < e.len() && path_key(#[trigger] e[j].0@) == q;
                assert(e[j] == old_e[j]);
            }
            if exists|j: int| 0 <= j < old_e.len() && path_key(#[trigger] old_e[j].0@) == q {
                let j = choose|j: int| 0 <= j < old_e.len() && path_key(#[trigger] old_e[j].0@) == q;
                assert(e[j] == old_e[j]);
            }
        }
    }
    assert forall|q: Seq<Seq<char>>| #[trigger] m.contains_key(q) implies m[q] == om[q] by {
        let j = choose|j: int| 0 <= j < e.len() && path_key(#[trigger] e[j].0@) == q;
        if q == key {
            assert(path_key(e[at].0@) == q);
            assert(j == at);
        } else {
            assert(e[j] == old_e[j]);
            let j2 = choose|j: int| 0 <= j < old_e.len() && path_key(#[trigger] old_e[j].0@) == q;
            assert(j2 == j);
        }
    }
    assert(m =~= om);
    let p = entry_paths(e);
    let op = kept_paths(entry_paths(old_e), key, e[at].0@);
    if at < old_e.len() {
        assert(entry_paths(old_e).contains_key(key)) by {
            assert(path_key(old_e[at].0@) == key);
        }
    } else {
        assert(!entry_paths(old_e).contains_key(key));
    }
    assert forall|q: Seq<Seq<char>>| #[trigger] p.contains_key(q) == op.contains_key(q) by {
        assert(m.contains_key(q) == p.contains_key(q));
        assert(om.contains_key(q) == op.contains_key(q));
    }
    assert forall|q: Seq<Seq<char>>| #[trigger] p.contains_key(q) implies p[q] == op[q] by {
        let j = choose|j: int| 0 <= j < e.len() && path_key(#[trigger] e[j].0@) == q;
        if q == key {
            assert(path_key(e[at].0@) == q);
            assert(j == at);
            if at < old_e.len() {
                let j2 = choose|j: int| 0 <= j < old_e.len() && path_key(#[trigger] old_e[j].0@) == q;
                assert(path_key(old_e[at].0@) == q);
                assert(j2 == at);
            }
        } else {
            assert(e[j] == old_e[j]);
            let j2 = choose|j: int| 0 <= j < old_e.len() && path_key(#[trigger] old_e[j].0@) == q;
            assert(j2 == j);
        }
    }
    assert(p =~= op);
}

/// Cached lint results, one entry per file.
///
/// The entries are a `Vec` with distinct paths: vstd gives `HashMap` no key
/// model for `PathBuf` or `String` keys.
pub struct Cache {
    entries: Vec<(String, CacheEntry)>,
    path: String,
}

impl View for Cache {
    type V = Map<Seq<Seq<char>>, EntryModel>;

    closed spec fn view(&self) -> Map<Seq<Seq<char>>, EntryModel> {
        entries_map(self.entries@)
    }
}

impl Cache {
    #[verifier::type_invariant]
    closed spec fn wf(self) -> bool {
        keys_distinct(self.entries@)
    }

    /// Where the cache is kept on disk.
    pub closed spec fn spec_path(&self) -> Seq<char> {
        self.path@
    }

    /// The spelling under which each stored path is kept.
    pub closed spec fn spec_paths(&self) -> Map<Seq<Seq<char>>, Seq<char>> {
        entry_paths(self.entries@)
    }

    /// An empty cache kept at `path`.
    pub fn new(path: String) -> (c: Cache)
        ensures
            c@ == Map::<Seq<Seq<char>>, EntryModel>::empty(),
            c.spec_paths() == Map::<Seq<Seq<char>>, Seq<char>>::empty(),
            c.spec_path() == path@,
    {
        let c = Cache { entries: Vec::new(), path };
        assert(c@ =~= Map::<Seq<Seq<char>>, EntryModel>::empty());
        assert(c.spec_paths() =~= Map::<Seq<Seq<char>>, Seq<char>>::empty());
        c
    }

    /// Where the cache is kept on disk.
    pub fn path(&self) -> (p: &str)
        ensures
            p@ == self.spec_path(),
    {
        self.path.as_str()
    }

    /// The entries, each file once.
    pub fn entries(&self) -> (e: &Vec<(String, CacheEntry)>)
        ensures
            keys_distinct(e@),
            entries_map(e@) == self@,
            entry_paths(e@) == self.spec_paths(),
    {
        proof {
            use_type_invariant(self);
        }
        &self.entries
    }

    /// The index of the entry whose path has the components `key`, if any.
    fn find(&self, key: &Vec<String>) -> (r: Option<usize>)
        ensures
            match r {
                Some(i) => i < self.entries@.len() && path_key(self.entries@[i as int].0@)
                    == texts(key@),
                None => forall|i: int|
                    0 <= i < self.entries@.len() ==> path_key(#[trigger] self.entries@[i].0@)
                        != texts(key@),
            },
    {
        let mut i: usize = 0;
        while i < self.entries.len()
            invariant
                i <= self.entries@.len(),
                forall|k: int|
                    0 <= k < i ==> path_key(#[trigger] self.entries@[k].0@) != texts(key@),
            decreases self.entries@.len() - i,
        {
            let entry_key = path_key_of(self.entries[i].0.as_str());
            if texts_eq(&entry_key, key) {
                return Some(i);
            }
            i = i + 1;
        }
        None
    }

    /// Sets the stored result of `file`, replacing any earlier one of the
    /// same path; a path already stored keeps its first spelling.
    pub fn insert_entry(&mut self, file: String, entry: CacheEntry)
        ensures
            final(self)@ == old(self)@.insert(path_key(file@), entry@),
            final(self).spec_paths() == kept_paths(old(self).spec_paths(), path_key(file@), file@),
            final(self).spec_path() == old(self).spec_path(),
    {
        proof {
            use_type_invariant(&*self);
        }
        let ghost old_e = self.entries@;
        let ghost v = entry@;
        let key = path_key_of(file.as_str());
        let found = self.find(&key);
        let mut entries: Vec<(String, CacheEntry)> = Vec::new();
        std::mem::swap(&mut entries, &mut self.entries);
        match found {
            Some(i) => {
                let kept = entries[i].0.clone();
                entries.set(i, (kept, entry));
                proof {
                    lemma_set_entry(old_e, entries@, i as int, path_key(file@), v);
                }
            },
            None => {
                entries.push((file, entry));
                proof {
                    lemma_set_entry(old_e, entries@, old_e.len() as int, path_key(file@), v);
                }
            },
        }
        self.entries = entries;
    }

    /// The cached diagnostics of `file` when both hashes match, otherwise
    /// `None`.
    pub fn lookup(&self, file: &str, content_hash: u64, config_hash: u64) -> (r: Option<
        Vec<Diagnostic>,
    >)
        ensures
            match r {
                Some(v) => lookup_result(self@, file@, content_hash, config_hash) == Some(
                    diags_model(v@),
                ),
                None => lookup_result(self@, file@, content_hash, config_hash) is None,
            },
    {
        proof {
            use_type_invariant(self);
        }
        let key = path_key_of(file);
        let i = match self.find(&key) {
            Some(i) => i,
            None => {
                return None;
            },
        };
        let entry = &self.entries[i].1;
        proof {
            let e = self.entries@;
            let k = path_key(file@);
            assert(path_key(e[i as int].0@) == k);
            let j = choose|j: int| 0 <= j < e.len() && path_key(#[trigger] e[j].0@) == k;
            assert(j == i);
            assert(self@[k] == entry@);
        }
        if entry.content_hash != content_hash || entry.config_hash != config_hash {
            return None;
        }
        let ghost stored = entry@.diagnostics;
        let mut diags: Vec<Diagnostic> = Vec::new();
        let n = entry.diagnostics.len();
        let mut k: usize = 0;
        while k < n
            invariant
                n == entry.diagnostics@.len(),
                stored == entry@.diagnostics,
                k <= n,
                diags@.len() == k,
                forall|m: int|
                    0 <= m < k ==> #[trigger] diags@[m]@ == from_cached(file@, stored[m]),
            decreases n - k,
        {
            let c = &entry.diagnostics[k];
            let copy = CachedDiagnostic {
                rule: c.rule.clone(),
                message: c.message.clone(),
                line: c.line,
                col: c.col,
                severity: c.severity,
                fix: match &c.fix {
                    Some(f) => Some(CachedFix { text: f.text.clone(), insert_before: f.insert_before }),
                    None => None,
                },
            };
            assert(copy@ == stored[k as int]);
            diags.push(cached_to_diagnostic(file, copy));
            k = k + 1;
        }
        assert(diags_model(diags@) =~= stored.map_values(
            |c: CachedDiagnosticModel| from_cached(file@, c),
        ));
        Some(diags)
    }

    /// Stores the result of `file`, replacing any earlier one of the same
    /// path.
    pub fn store(
        &mut self,
        file: String,
        content_hash: u64,
        config_hash: u64,
        diagnostics: &[Diagnostic],
    )
        ensures
            final(self)@ == old(self)@.insert(
                path_key(file@),
                stored_entry(content_hash, config_hash, diags_model(diagnostics@)),
            ),
            final(self).spec_paths() == kept_paths(old(self).spec_paths(), path_key(file@), file@),
            final(self).spec_path() == old(self).spec_path(),
    {
        let mut cached: Vec<CachedDiagnostic> = Vec::new();
        let n = diagnostics.len();
        let mut k: usize = 0;
        while k < n
            invariant
                n == diagnostics@.len(),
                k <= n,
                cached@.len() == k,
                forall|m: int|
                    0 <= m < k ==> #[trigger] cached@[m]@ == to_cached(diagnostics@[m]@),
            decreases n - k,
        {
            cached.push(diagnostic_to_cached(&diagnostics[k]));
            k = k + 1;
        }
        let entry = CacheEntry { content_hash, config_hash, diagnostics: cached };
        assert(entry@.diagnostics =~= diags_model(diagnostics@).map_values(
            |d: DiagnosticModel| to_cached(d),
        ));
        assert(entry@ == stored_entry(content_hash, config_hash, diags_model(diagnostics@)));
        self.insert_entry(file, entry);
    }
}

} // verus!
