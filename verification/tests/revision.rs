use fizzgig::names::strip_suffix;
use fizzgig::names::with_suffix;
use fizzgig::revision::check_for_conflict;
use fizzgig::root::DocImage;
use fizzgig::root::StoreRoot;

fn revs(list: &[&str]) -> Vec<String> {
    list.iter().map(|r| r.to_string()).collect()
}

#[test]
fn a_chain_that_extends_the_current_one_is_no_conflict() {
    let current = revs(&["r1", "r2"]);
    assert!(!check_for_conflict(&current, &"r3".to_string(), &revs(&["r1", "r2", "r3"]), &"r4".to_string()));
    assert!(!check_for_conflict(&current, &"r3".to_string(), &current, &"r3".to_string()));
    assert!(!check_for_conflict(&Vec::new(), &"r1".to_string(), &revs(&["r1"]), &"r2".to_string()));
    assert!(!check_for_conflict(
        &current,
        &"r3".to_string(),
        &revs(&["r1", "r2", "r3", "r4", "r5"]),
        &"r6".to_string()
    ));
}

#[test]
fn a_shorter_chain_is_a_conflict() {
    assert!(check_for_conflict(&revs(&["r1", "r2"]), &"r3".to_string(), &revs(&["r1"]), &"r2".to_string()));
    assert!(check_for_conflict(&revs(&["r1"]), &"r2".to_string(), &Vec::new(), &"r1".to_string()));
}

#[test]
fn a_chain_that_differs_at_some_index_is_a_conflict() {
    let current = revs(&["r1", "r2"]);
    assert!(check_for_conflict(&current, &"r3".to_string(), &revs(&["r1", "x2"]), &"r3".to_string()));
    assert!(check_for_conflict(&current, &"r3".to_string(), &revs(&["x1", "r2", "r3"]), &"r4".to_string()));
    assert!(check_for_conflict(&current, &"r3".to_string(), &current, &"x3".to_string()));
    assert!(check_for_conflict(&current, &"r3".to_string(), &revs(&["r1", "r2", "x3"]), &"r4".to_string()));
    assert!(check_for_conflict(&Vec::new(), &"r1".to_string(), &Vec::new(), &"x1".to_string()));
}

#[test]
fn suffixes_are_added_and_stripped() {
    assert_eq!(with_suffix("mail", "__temp"), "mail__temp");
    assert_eq!(with_suffix("", "_conflicts"), "_conflicts");
    assert_eq!(strip_suffix("mail__temp", "__temp"), Some("mail".to_string()));
    assert_eq!(strip_suffix("__temp", "__temp"), Some("".to_string()));
    assert_eq!(strip_suffix("mail__temp_", "__temp"), None);
    assert_eq!(strip_suffix("emp", "__temp"), None);
    assert_eq!(strip_suffix("héllo__temp", "__temp"), Some("héllo".to_string()));
    assert_eq!(strip_suffix("mail", ""), Some("mail".to_string()));
}

fn image(label: &str, uuid: &str, seq: i64) -> DocImage {
    DocImage {
        label: label.to_string(),
        uuid: uuid.to_string(),
        rev: format!("rev-{}", seq),
        data: b"{}".to_vec(),
        seq,
        encrypted_data: Vec::new(),
        encrypted: false,
        has_been_decrypted: false,
        rev_history: Vec::new(),
    }
}

#[test]
fn store_root_keeps_the_last_file_written_in_a_place() {
    let mut root = StoreRoot::new("/root/of/store");
    assert_eq!(root.path(), "/root/of/store");
    assert!(root.list_stems("A").is_none());
    assert!(root.read_file("A", "x").is_none());
    assert!(!root.remove_file("A", "x"));

    root.write_file("A", "x", image("A", "x", 1));
    root.write_file("A", "y", image("A", "y", 1));
    root.write_file("B", "x", image("B", "x", 7));
    root.write_file("A", "x", image("A", "x", 2));

    assert_eq!(root.read_file("A", "x").unwrap().seq, 2);
    assert_eq!(root.read_file("B", "x").unwrap().seq, 7);
    let mut stems = root.list_stems("A").unwrap();
    stems.sort();
    assert_eq!(stems, vec!["x".to_string(), "y".to_string()]);
    let mut dirs = root.dir_labels();
    dirs.sort();
    assert_eq!(dirs, vec!["A".to_string(), "B".to_string()]);

    assert!(root.remove_file("A", "x"));
    assert!(!root.file_exists("A", "x"));
    assert!(root.file_exists("A", "y"));
    assert!(root.file_exists("B", "x"));
    assert!(root.dir_exists("A"));
    assert_eq!(root.list_stems("A").unwrap(), vec!["y".to_string()]);

    root.create_dir("C");
    root.create_dir("C");
    assert_eq!(root.list_stems("C").unwrap(), Vec::<String>::new());
    assert_eq!(root.dir_labels().len(), 3);
}

#[test]
fn images_know_whether_another_extends_them() {
    let mut local = image("A", "x", 2);
    local.rev_history = revs(&["r1"]);
    local.rev = "r2".to_string();
    let mut incoming = image("A", "x", 3);
    incoming.rev_history = revs(&["r1", "r2"]);
    incoming.rev = "r3".to_string();
    assert!(!local.conflicts_with(&incoming));
    assert!(incoming.conflicts_with(&local));
    let copy = incoming.duplicate();
    assert_eq!(copy.rev_history, incoming.rev_history);
    assert_eq!(copy.rev, "r3");
    assert!(!copy.conflicts_with(&incoming));
}
