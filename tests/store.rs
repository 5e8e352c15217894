use serveme::store::{clean_old_versions, handle_single_version_constraint};

fn strings(v: &[&str]) -> Vec<String> {
    v.iter().map(|s| s.to_string()).collect()
}

fn install(store: &mut Vec<String>, name: &str) {
    let gone = handle_single_version_constraint(&name.to_string(), store);
    store.retain(|f| !gone.contains(f));
    if !store.iter().any(|f| f == name) {
        store.push(name.to_string());
    }
}

#[test]
fn superseded_files_share_the_display_name() {
    let installed = strings(&["A - 1.bin", "B - 1.bin", "A - 0.9.bin", "AB - 1.bin"]);
    let gone = handle_single_version_constraint(&"A - 2.bin".to_string(), &installed);
    assert_eq!(gone, strings(&["A - 1.bin", "A - 0.9.bin"]));
}

#[test]
fn same_version_is_superseded_too() {
    let installed = strings(&["A - 1.bin"]);
    let gone = handle_single_version_constraint(&"A - 1.bin".to_string(), &installed);
    assert_eq!(gone, strings(&["A - 1.bin"]));
}

#[test]
fn nothing_superseded_in_empty_store() {
    let gone = handle_single_version_constraint(&"A - 1.bin".to_string(), &Vec::new());
    assert!(gone.is_empty());
}

#[test]
fn clean_old_versions_filters_by_base_name() {
    let installed = strings(&["Tool.exe", "Tool - 2.exe", "Other - 2.exe"]);
    assert_eq!(clean_old_versions(&installed, "Tool"), strings(&["Tool.exe", "Tool - 2.exe"]));
    assert!(clean_old_versions(&installed, "tool").is_empty());
}

#[test]
fn newer_version_replaces_older() {
    let mut store = Vec::new();
    install(&mut store, "A - 1.bin");
    install(&mut store, "A - 2.bin");
    let with_a: Vec<&String> = store
        .iter()
        .filter(|f| serveme::naming::get_base_name(f) == "A")
        .collect();
    assert_eq!(with_a, vec!["A - 2.bin"]);
}

#[test]
fn installing_twice_leaves_one_file() {
    let mut store = strings(&["B - 1.bin"]);
    install(&mut store, "A - 1.bin");
    let once = store.clone();
    install(&mut store, "A - 1.bin");
    assert_eq!(store, once);
    assert_eq!(store.iter().filter(|f| f.as_str() == "A - 1.bin").count(), 1);
}
