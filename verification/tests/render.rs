use xbuild::cargo::Rustflags;
use xbuild::errors::Error;
use xbuild::xargo::Home;

fn rf(tokens: Vec<&str>) -> Rustflags {
    Rustflags::new(tokens.into_iter().map(|s| s.to_string()).collect())
}

#[test]
fn sysroot_with_space_is_refused_without_the_override() {
    let home = Home::new("/tmp/my root".to_string());
    let e = rf(vec!["-O"]).for_xargo(&home, false).unwrap_err();
    assert_eq!(
        e,
        Error::SysrootSpaces {
            sysroot: "/tmp/my root".to_string()
        }
    );
}

#[test]
fn sysroot_with_space_is_accepted_with_the_override() {
    let home = Home::new("/tmp/my root".to_string());
    let s = rf(vec!["-O"]).for_xargo(&home, true).unwrap();
    assert_eq!(s, "-O --sysroot /tmp/my root");
}

#[test]
fn sysroot_without_space_renders_either_way() {
    let home = Home::new("/tmp/sysroot".to_string());
    let s = rf(vec!["-O", "-g"]).for_xargo(&home, false).unwrap();
    assert_eq!(s, "-O -g --sysroot /tmp/sysroot");
    let s2 = rf(vec![]).for_xargo(&home, true).unwrap();
    assert_eq!(s2, "--sysroot /tmp/sysroot");
}

#[test]
fn home_resolution_prefers_the_environment_override() {
    let h = xbuild::xargo::home("/proj", "target/sysroot", Some("/elsewhere".to_string()));
    assert_eq!(h.display(), "/elsewhere");
    let h2 = xbuild::xargo::home("/proj", "target/sysroot", None);
    assert_eq!(h2.display(), "/proj/target/sysroot");
}
