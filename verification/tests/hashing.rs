use std::collections::hash_map::DefaultHasher;
use std::hash::Hasher;
use xbuild::cargo::{Profile, Rustflags, Toml};
use xbuild::tree::ConfigValue;

fn flag_hash(tokens: Vec<&str>) -> u64 {
    let rf = Rustflags::new(tokens.into_iter().map(|s| s.to_string()).collect());
    let mut h = DefaultHasher::new();
    rf.hash(&mut h);
    h.finish()
}

#[test]
fn linker_argument_value_does_not_change_the_cache_key() {
    let a = flag_hash(vec!["-O", "-C", "link-arg=/tmp/one", "-g"]);
    let b = flag_hash(vec!["-O", "-C", "link-args=/somewhere/else entirely", "-g"]);
    assert_eq!(a, b);
}

#[test]
fn non_linker_flag_change_changes_the_cache_key() {
    let a = flag_hash(vec!["-C", "opt-level=3", "-C", "link-arg=/tmp/x"]);
    let b = flag_hash(vec!["-C", "opt-level=2", "-C", "link-arg=/tmp/x"]);
    assert_ne!(a, b);
    let c = flag_hash(vec!["-O"]);
    let d = flag_hash(vec!["-O2"]);
    assert_ne!(c, d);
}

#[test]
fn trailing_marker_is_hashed_alone() {
    let a = flag_hash(vec!["-O", "-C"]);
    let b = flag_hash(vec!["-O"]);
    assert_ne!(a, b);
}

fn str_value(s: &str) -> ConfigValue {
    ConfigValue::Str(s.to_string())
}

fn profile_table(entries: Vec<(&str, &str)>) -> ConfigValue {
    let mut t = ConfigValue::Table(Vec::new());
    for (k, v) in entries {
        t = t.insert(k.to_string(), str_value(v));
    }
    t
}

fn profile_hash(t: &ConfigValue) -> u64 {
    let p = Profile::from_value(t);
    let mut h = DefaultHasher::new();
    p.hash(&mut h);
    h.finish()
}

#[test]
fn lto_does_not_change_the_profile_digest() {
    let with_lto = profile_table(vec![("lto", "true"), ("opt-level", "3")]);
    let without_lto = profile_table(vec![("opt-level", "3")]);
    assert_eq!(profile_hash(&with_lto), profile_hash(&without_lto));
    assert_ne!(
        profile_hash(&without_lto),
        profile_hash(&profile_table(vec![("opt-level", "2")]))
    );
}

#[test]
fn profile_that_is_only_lto_contributes_nothing() {
    let only_lto = profile_table(vec![("lto", "true")]);
    let empty = profile_table(vec![]);
    assert_eq!(Profile::from_value(&only_lto).digest(), None);
    assert_eq!(Profile::from_value(&empty).digest(), None);
    let fresh = DefaultHasher::new().finish();
    assert_eq!(profile_hash(&only_lto), fresh);
}

#[test]
fn profile_digest_is_the_canonical_text() {
    let t = profile_table(vec![("opt-level", "3"), ("debug", "true")]);
    let p = Profile::from_value(&t);
    assert_eq!(
        p.digest(),
        Some("{debug=\"true\",opt-level=\"3\"}".to_string())
    );
}

#[test]
fn profile_of_manifest_is_the_release_subtree() {
    let mut manifest = ConfigValue::Table(Vec::new());
    manifest = manifest.insert(
        "profile".to_string(),
        ConfigValue::Table(Vec::new()).insert(
            "release".to_string(),
            profile_table(vec![("opt-level", "3")]),
        ),
    );
    let toml = Toml::new(manifest);
    let p = toml.profile().expect("release profile present");
    assert_eq!(p.digest(), Some("{opt-level=\"3\"}".to_string()));

    let no_profile = Toml::new(ConfigValue::Table(Vec::new()));
    assert!(no_profile.profile().is_none());
}
