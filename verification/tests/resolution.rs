use xbuild::cargo::{flags, rustflags, Config, TargetSpec};
use xbuild::errors::Error;
use xbuild::tree::ConfigValue;

fn table(entries: Vec<(&str, ConfigValue)>) -> ConfigValue {
    let mut t = ConfigValue::Table(Vec::new());
    for (k, v) in entries {
        t = t.insert(k.to_string(), v);
    }
    t
}

fn arr(items: Vec<&str>) -> ConfigValue {
    ConfigValue::Arr(items.into_iter().map(|s| s.to_string()).collect())
}

fn sample_config() -> Config {
    let tree = table(vec![
        (
            "target",
            table(vec![("mytriple", table(vec![("rustflags", arr(vec!["-x"]))]))]),
        ),
        ("build", table(vec![("rustflags", arr(vec!["-y"]))])),
    ]);
    Config::new("/proj".to_string(), tree)
}

#[test]
fn env_override_wins_over_any_config() {
    let cfg = sample_config();
    let r = flags(Some("foo bar"), Some(&cfg), "mytriple", "rustflags").unwrap();
    assert_eq!(r, vec!["foo".to_string(), "bar".to_string()]);
    let r2 = flags(Some("foo bar"), None, "mytriple", "rustflags").unwrap();
    assert_eq!(r2, vec!["foo".to_string(), "bar".to_string()]);
    let r3 = flags(Some("  foo\t bar "), Some(&cfg), "other", "rustflags").unwrap();
    assert_eq!(r3, vec!["foo".to_string(), "bar".to_string()]);
}

#[test]
fn target_scoped_entry_beats_build_wide() {
    let cfg = sample_config();
    let r = flags(None, Some(&cfg), "mytriple", "rustflags").unwrap();
    assert_eq!(r, vec!["-x".to_string()]);
}

#[test]
fn build_wide_entry_applies_to_unrelated_triple() {
    let cfg = sample_config();
    let r = flags(None, Some(&cfg), "othertriple", "rustflags").unwrap();
    assert_eq!(r, vec!["-y".to_string()]);
}

#[test]
fn no_config_resolves_to_empty() {
    let r = flags(None, None, "mytriple", "rustflags").unwrap();
    assert!(r.is_empty());
}

#[test]
fn absent_keys_resolve_to_empty() {
    let cfg = Config::new("/proj".to_string(), table(vec![]));
    let r = flags(None, Some(&cfg), "mytriple", "rustflags").unwrap();
    assert!(r.is_empty());
}

#[test]
fn string_entry_is_a_format_error_naming_the_target_key() {
    let tree = table(vec![(
        "target",
        table(vec![(
            "mytriple",
            table(vec![("rustflags", ConfigValue::Str("-x".to_string()))]),
        )]),
    )]);
    let cfg = Config::new("/proj".to_string(), tree);
    let e = flags(None, Some(&cfg), "mytriple", "rustflags").unwrap_err();
    assert_eq!(
        e,
        Error::ConfigKeyNotArray {
            key: "target.mytriple.rustflags".to_string()
        }
    );
}

#[test]
fn string_entry_is_a_format_error_naming_the_build_key() {
    let tree = table(vec![(
        "build",
        table(vec![("rustflags", ConfigValue::Str("-y".to_string()))]),
    )]);
    let cfg = Config::new("/proj".to_string(), tree);
    let e = flags(None, Some(&cfg), "mytriple", "rustflags").unwrap_err();
    assert_eq!(
        e,
        Error::ConfigKeyNotArray {
            key: "build.rustflags".to_string()
        }
    );
}

#[test]
fn rustflags_category_resolves_like_flags() {
    let cfg = sample_config();
    let rf = rustflags(None, Some(&cfg), "mytriple").unwrap();
    let rendered = rf
        .for_xargo(&xbuild::xargo::Home::new("/sys".to_string()), false)
        .unwrap();
    assert_eq!(rendered, "-x --sysroot /sys");
}

#[test]
fn plain_build_target_is_a_triple() {
    let tree = table(vec![(
        "build",
        table(vec![("target", ConfigValue::Str("mytriple".to_string()))]),
    )]);
    let cfg = Config::new("/proj".to_string(), tree);
    let t = cfg.target().unwrap();
    assert_eq!(t, Some(TargetSpec::Triple("mytriple".to_string())));
}

#[test]
fn json_build_target_is_joined_under_the_config_directory() {
    let tree = table(vec![(
        "build",
        table(vec![("target", ConfigValue::Str("my.json".to_string()))]),
    )]);
    let cfg = Config::new("/proj".to_string(), tree);
    let t = cfg.target().unwrap();
    assert_eq!(t, Some(TargetSpec::JsonFile("/proj/my.json".to_string())));
}

#[test]
fn non_string_build_target_is_a_format_error() {
    let tree = table(vec![("build", table(vec![("target", arr(vec!["x"]))]))]);
    let cfg = Config::new("/proj".to_string(), tree);
    let e = cfg.target().unwrap_err();
    assert_eq!(
        e,
        Error::ConfigKeyNotString {
            key: "build.target".to_string()
        }
    );
}

#[test]
fn absent_build_target_is_not_an_error() {
    let cfg = Config::new("/proj".to_string(), table(vec![]));
    assert_eq!(cfg.target().unwrap(), None);
}
