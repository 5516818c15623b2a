use rampage::project::{include_entry, language_for, toolchain_for};

#[test]
fn languages_follow_the_file_extension_case_insensitively() {
    assert_eq!(language_for("lib.rs"), Some("rust"));
    assert_eq!(language_for("MAIN.RS"), Some("rust"));
    assert_eq!(language_for("app.tsx"), Some("typescript"));
    assert_eq!(language_for("archive.tar.gz"), None);
    assert_eq!(language_for("header.hpp"), Some("cpp"));
    assert_eq!(language_for("Makefile"), None);
    assert_eq!(language_for(".rs"), None);
}

#[test]
fn toolchains_follow_the_manifest_name_exactly() {
    assert_eq!(toolchain_for("Cargo.toml"), Some("cargo"));
    assert_eq!(toolchain_for("cargo.toml"), None);
    assert_eq!(toolchain_for("uv.lock"), Some("python-uv"));
    assert_eq!(toolchain_for("build.gradle.kts"), Some("gradle"));
}

#[test]
fn discovery_skips_build_outputs_but_never_the_root() {
    assert!(include_entry(0, Some("target")));
    assert!(!include_entry(1, Some("target")));
    assert!(!include_entry(3, Some(".git")));
    assert!(include_entry(1, Some("src")));
    assert!(include_entry(2, None));
}
