use rblint::path::path_key_of;
use std::path::{Component, Path};
use rblint::cache::{
    cached_to_diagnostic, diagnostic_to_cached, hash_config, hash_content, severity_to_u8,
    u8_to_severity, Cache,
};
use rblint::config::Config;
use rblint::diagnostic::{Diagnostic, FixKind, Severity};

fn make_diag(rule: &str) -> Diagnostic {
    Diagnostic::new("test.rb", 1, 0, rule, "test message", Severity::Warning)
}

fn make_diag_with_fix(rule: &str) -> Diagnostic {
    make_diag(rule).with_fix("fixed line")
}

fn make_diag_insert(rule: &str) -> Diagnostic {
    make_diag(rule).with_insert_before_fix("# inserted")
}

#[test]
fn cache_miss_on_empty() {
    let cache = Cache::new(".rblint_cache".to_string());
    let result = cache.lookup(
        "test.rb",
        hash_content("hello"),
        hash_config(&Config::default()),
    );
    assert!(result.is_none());
}

#[test]
fn cache_hit_after_store() {
    let mut cache = Cache::new(".rblint_cache".to_string());

    let file = "test.rb".to_string();
    let content_hash = hash_content("puts 'hello'");
    let config_hash = hash_config(&Config::default());
    let diags = vec![make_diag("R001")];

    cache.store(file.clone(), content_hash, config_hash, &diags);
    let result = cache.lookup(&file, content_hash, config_hash);
    assert!(result.is_some());
    let returned = result.unwrap();
    assert_eq!(returned.len(), 1);
    assert_eq!(returned[0].rule, "R001");
}

#[test]
fn cache_miss_on_content_change() {
    let mut cache = Cache::new(".rblint_cache".to_string());

    let file = "test.rb".to_string();
    let config_hash = hash_config(&Config::default());
    let old_hash = hash_content("old content");
    let new_hash = hash_content("new content");
    let diags = vec![make_diag("R002")];

    cache.store(file.clone(), old_hash, config_hash, &diags);
    let result = cache.lookup(&file, new_hash, config_hash);
    assert!(result.is_none());
}

#[test]
fn cache_miss_on_config_change() {
    let mut cache = Cache::new(".rblint_cache".to_string());

    let file = "test.rb".to_string();
    let content_hash = hash_content("puts 'hi'");
    let config1 = Config::default();
    let mut config2 = Config::default();
    config2.line_length = 80;

    let diags = vec![make_diag("R001")];
    cache.store(file.clone(), content_hash, hash_config(&config1), &diags);

    let result = cache.lookup(&file, content_hash, hash_config(&config2));
    assert!(result.is_none());
}

#[test]
fn roundtrip_diagnostic_with_fix() {
    let d = make_diag_with_fix("R002");
    let cached = diagnostic_to_cached(&d);
    let restored = cached_to_diagnostic("test.rb", cached);
    assert_eq!(restored.rule, "R002");
    assert_eq!(restored.fix.as_deref(), Some("fixed line"));
    assert_eq!(restored.fix_kind, FixKind::ReplaceLine);
}

#[test]
fn roundtrip_diagnostic_insert_before() {
    let d = make_diag_insert("R003");
    let cached = diagnostic_to_cached(&d);
    let restored = cached_to_diagnostic("test.rb", cached);
    assert_eq!(restored.rule, "R003");
    assert_eq!(restored.fix.as_deref(), Some("# inserted"));
    assert_eq!(restored.fix_kind, FixKind::InsertBefore);
}

#[test]
fn roundtrip_severity_all_variants() {
    for (sev, expected) in [
        (Severity::Error, 0u8),
        (Severity::Warning, 1u8),
        (Severity::Info, 2u8),
    ] {
        assert_eq!(severity_to_u8(&sev), expected);
        assert_eq!(u8_to_severity(expected), sev);
    }
}

// ---- further cases ----

#[test]
fn unknown_severity_codes_read_as_info() {
    assert_eq!(u8_to_severity(3), Severity::Info);
    assert_eq!(u8_to_severity(255), Severity::Info);
}

#[test]
fn roundtrip_keeps_every_field() {
    let d = Diagnostic::new("a.rb", 7, 3, "R010", "bad name", Severity::Error).with_fix("def ok");
    let c = diagnostic_to_cached(&d);
    assert_eq!(c.severity, 0);
    assert_eq!(c.line, 7);
    assert_eq!(c.col, 3);
    let back = cached_to_diagnostic("b.rb", c);
    assert_eq!(back.file, "b.rb");
    assert_eq!(back.line, 7);
    assert_eq!(back.col, 3);
    assert_eq!(back.rule, "R010");
    assert_eq!(back.message, "bad name");
    assert_eq!(back.severity, Severity::Error);
    assert_eq!(back.fix.as_deref(), Some("def ok"));
}

#[test]
fn lookup_reports_for_the_looked_up_file() {
    let mut cache = Cache::new("c".to_string());
    let diags = vec![Diagnostic::new("elsewhere.rb", 2, 1, "R002", "m", Severity::Info)];
    cache.store("x.rb".to_string(), 1, 2, &diags);
    let got = cache.lookup("x.rb", 1, 2).unwrap();
    assert_eq!(got.len(), 1);
    assert_eq!(got[0].file, "x.rb");
    assert_eq!(got[0].severity, Severity::Info);
    assert_eq!(got[0].line, 2);
}

#[test]
fn store_replaces_earlier_result_and_keeps_other_files() {
    let mut cache = Cache::new("c".to_string());
    cache.store("a.rb".to_string(), 1, 1, &[make_diag("R001")]);
    cache.store("b.rb".to_string(), 5, 5, &[make_diag("R002"), make_diag("R003")]);
    cache.store("a.rb".to_string(), 2, 1, &[]);
    assert!(cache.lookup("a.rb", 1, 1).is_none());
    assert_eq!(cache.lookup("a.rb", 2, 1).unwrap().len(), 0);
    let b = cache.lookup("b.rb", 5, 5).unwrap();
    assert_eq!(b.len(), 2);
    assert_eq!(b[1].rule, "R003");
    assert_eq!(cache.entries().len(), 2);
    assert_eq!(cache.path(), "c");
}

#[test]
fn content_hash_depends_on_content() {
    assert_eq!(hash_content("puts 1"), hash_content("puts 1"));
    assert_ne!(hash_content("puts 1"), hash_content("puts 2"));
    assert_ne!(hash_content(""), hash_content(" "));
}

#[test]
fn config_hash_ignores_exclude_only() {
    let base = hash_config(&Config::default());
    let mut c = Config::default();
    c.exclude.push("vendor/**".to_string());
    assert_eq!(hash_config(&c), base);
    let mut c = Config::default();
    c.ignore.push("R003".to_string());
    assert_ne!(hash_config(&c), base);
    let mut c = Config::default();
    c.max_complexity = 11;
    assert_ne!(hash_config(&c), base);
}

#[test]
fn hashes_are_xxh3_of_content_and_of_settings_key() {
    assert_eq!(hash_content("hello"), xxhash_rust::xxh3::xxh3_64(b"hello"));
    assert_eq!(
        hash_config(&Config::default()),
        xxhash_rust::xxh3::xxh3_64(b"ll=120,mml=30,mcl=300,mc=10,sel=[],ign=[],esel=[]")
    );
    let mut c = Config::default();
    c.select = vec!["R001".to_string(), "R0\"2".to_string()];
    c.line_length = 7;
    assert_eq!(
        hash_config(&c),
        xxhash_rust::xxh3::xxh3_64(
            b"ll=7,mml=30,mcl=300,mc=10,sel=[\"R001\", \"R0\\\"2\"],ign=[],esel=[]"
        )
    );
}

#[test]
fn lookup_matches_paths_by_components() {
    let mut cache = Cache::new("c".to_string());
    cache.store("a/b".to_string(), 1, 2, &[make_diag("R001")]);
    assert!(cache.lookup("a/b/", 1, 2).is_some());
    assert!(cache.lookup("a//b", 1, 2).is_some());
    assert!(cache.lookup("a/./b", 1, 2).is_some());
    assert_eq!(cache.lookup("a/b/", 1, 2).unwrap()[0].file, "a/b/");
    assert!(cache.lookup("./a/b", 1, 2).is_none());
    assert!(cache.lookup("/a/b", 1, 2).is_none());
    assert!(cache.lookup("a/c/../b", 1, 2).is_none());
    cache.store("a//b/".to_string(), 3, 4, &[]);
    assert_eq!(cache.entries().len(), 1);
    // the path keeps the spelling it was first stored under
    assert_eq!(cache.entries()[0].0, "a/b");
    assert!(cache.lookup("a/b", 1, 2).is_none());
    assert!(cache.lookup("a/b", 3, 4).is_some());
}

#[test]
fn path_components_follow_std() {
    for p in ["", ".", "./", "./a", "a/./b", "/", "//a//b/", "/./x", "a/../b", ".a", "a/.", "..", "x/y/"] {
        let ours = path_key_of(p);
        let std_parts: Vec<String> = Path::new(p)
            .components()
            .map(|c| match c {
                Component::RootDir => "/".to_string(),
                Component::CurDir => ".".to_string(),
                Component::ParentDir => "..".to_string(),
                Component::Normal(s) => s.to_string_lossy().into_owned(),
                Component::Prefix(_) => unreachable!(),
            })
            .collect();
        assert_eq!(ours, std_parts, "components of {:?}", p);
    }
}
