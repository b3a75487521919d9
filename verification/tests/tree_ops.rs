use xbuild::errors::{Error, LockMode};
use xbuild::tree::{serialize, ConfigValue};

fn str_value(s: &str) -> ConfigValue {
    ConfigValue::Str(s.to_string())
}

#[test]
fn insertion_keeps_keys_in_lexicographic_order() {
    let forward = ConfigValue::Table(Vec::new())
        .insert("alpha".to_string(), str_value("1"))
        .insert("beta".to_string(), str_value("2"))
        .insert("gamma".to_string(), str_value("3"));
    let backward = ConfigValue::Table(Vec::new())
        .insert("gamma".to_string(), str_value("3"))
        .insert("beta".to_string(), str_value("2"))
        .insert("alpha".to_string(), str_value("1"));
    assert_eq!(serialize(&forward), serialize(&backward));
    assert_eq!(
        serialize(&forward),
        "{alpha=\"1\",beta=\"2\",gamma=\"3\"}"
    );
}

#[test]
fn insertion_replaces_an_existing_binding() {
    let t = ConfigValue::Table(Vec::new())
        .insert("key".to_string(), str_value("old"))
        .insert("key".to_string(), str_value("new"));
    assert_eq!(serialize(&t), "{key=\"new\"}");
}

#[test]
fn lookup_finds_bound_values_and_nothing_else() {
    let t = ConfigValue::Table(Vec::new())
        .insert("one".to_string(), str_value("1"))
        .insert("two".to_string(), str_value("2"));
    assert_eq!(t.get("one"), Some(&str_value("1")));
    assert_eq!(t.get("two"), Some(&str_value("2")));
    assert_eq!(t.get("three"), None);
    assert_eq!(str_value("leaf").get("one"), None);
}

#[test]
fn serialization_is_exact_for_each_kind() {
    assert_eq!(serialize(&str_value("hi")), "\"hi\"");
    assert_eq!(
        serialize(&ConfigValue::Arr(vec!["x".to_string(), "y".to_string()])),
        "[\"x\",\"y\"]"
    );
    assert_eq!(serialize(&ConfigValue::Arr(Vec::new())), "[]");
    let nested = ConfigValue::Table(Vec::new()).insert(
        "outer".to_string(),
        ConfigValue::Table(Vec::new()).insert("inner".to_string(), str_value("v")),
    );
    assert_eq!(serialize(&nested), "{outer={inner=\"v\"}}");
}

#[test]
fn error_messages_are_exact() {
    let e1 = Error::ConfigKeyNotArray {
        key: "build.rustflags".to_string(),
    };
    assert_eq!(
        e1.message(),
        "configuration key build.rustflags must be an array of strings"
    );
    let e2 = Error::ConfigKeyNotString {
        key: "build.target".to_string(),
    };
    assert_eq!(e2.message(), "configuration key build.target must be a string");
    let e3 = Error::LockFailed {
        triple: "t1".to_string(),
        mode: LockMode::Shared,
        cause: "denied".to_string(),
    };
    assert_eq!(e3.message(), "couldn't lock t1's sysroot as read-only: denied");
    let e4 = Error::PathResolution {
        path: "/p/t.json".to_string(),
        cause: "missing".to_string(),
    };
    assert_eq!(
        e4.message(),
        "the target file `/p/t.json` could not be resolved: missing"
    );
    let e5 = Error::SysrootSpaces {
        sysroot: "/a b".to_string(),
    };
    assert!(e5.message().starts_with("the sysroot path `/a b` contains a space"));
}
