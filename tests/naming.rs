use serveme::naming::{get_base_name, get_version};

#[test]
fn splits_name_and_version() {
    assert_eq!(get_base_name("Foo - 1.0.exe"), "Foo");
    assert_eq!(get_version("Foo - 1.0.exe"), "1.0");
}

#[test]
fn last_separator_wins() {
    assert_eq!(get_base_name("A - B - 2.bin"), "A - B");
    assert_eq!(get_version("A - B - 2.bin"), "2");
}

#[test]
fn halves_are_trimmed() {
    assert_eq!(get_base_name("My Tool  -  2.1 .exe"), "My Tool");
    assert_eq!(get_version("My Tool  -  2.1 .exe"), "2.1");
    assert_eq!(get_base_name("\u{3000}Name - 1\u{a0}.exe"), "Name");
    assert_eq!(get_version("\u{3000}Name - 1\u{a0}.exe"), "1");
}

#[test]
fn unversioned_name_is_whole_stem() {
    assert_eq!(get_base_name("Tool.exe"), "Tool");
    assert_eq!(get_version("Tool.exe"), "unknown");
    assert_eq!(get_base_name("noext"), "noext");
    assert_eq!(get_version("noext"), "unknown");
}

#[test]
fn only_last_extension_is_stripped() {
    assert_eq!(get_base_name("archive.tar.gz"), "archive.tar");
    assert_eq!(get_base_name("Pack - 3.1.2.zip"), "Pack");
    assert_eq!(get_version("Pack - 3.1.2.zip"), "3.1.2");
}

#[test]
fn leading_dot_is_not_an_extension() {
    assert_eq!(get_base_name(".hidden"), ".hidden");
    assert_eq!(get_version(".hidden"), "unknown");
    assert_eq!(get_base_name(".."), "..");
    assert_eq!(get_base_name(""), "");
    assert_eq!(get_version(""), "unknown");
}

#[test]
fn separator_in_extension_is_ignored() {
    assert_eq!(get_base_name("x.a - b"), "x");
    assert_eq!(get_version("x.a - b"), "unknown");
}

#[test]
fn name_and_version_rebuild_stem() {
    for (f, stem) in [
        ("Foo - 1.0.exe", "Foo - 1.0"),
        ("A - B - 2.bin", "A - B - 2"),
        ("Tool - beta", "Tool - beta"),
    ] {
        let rebuilt = format!("{} - {}", get_base_name(f), get_version(f));
        assert_eq!(rebuilt, stem);
    }
}

#[test]
fn unversioned_name_has_unknown_version() {
    for f in ["Tool.exe", "plain", "a-b.bin", "x -y.sh"] {
        assert_eq!(get_version(f), "unknown");
    }
    assert_eq!(get_base_name("a-b.bin"), "a-b");
    assert_eq!(get_base_name("x -y.sh"), "x -y");
}
