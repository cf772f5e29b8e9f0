use djinn::index::{is_temp_name, key_of, FileEntry, IndexManager};
use djinn::strmap::StrMap;

fn entry(names: &[&str], secs: u64) -> FileEntry {
    FileEntry { segments: names.iter().map(|s| s.to_string()).collect(), modified_secs: secs }
}

#[test]
fn build_index_lists_files_with_slash_paths() {
    let mut manager = IndexManager::new("/tmp/test_data".to_string());
    let files = vec![
        entry(&["test_file.txt"], 1700000000),
        entry(&["test_sub_dir", "test_sub_file.txt"], 1700000001),
    ];
    manager.build(&files, 1700000005);
    assert_eq!(manager.index.len(), 3);
    assert_eq!(*manager.get("/test_file.txt").unwrap(), 1700000000);
    assert_eq!(*manager.get("/test_sub_dir/test_sub_file.txt").unwrap(), 1700000001);
    assert_eq!(*manager.get("#timestamp").unwrap(), 1700000005);
}

#[test]
fn build_index_skips_files_in_progress() {
    let mut manager = IndexManager::new("root".to_string());
    let files = vec![
        entry(&["a.txt.djinn_temp"], 5),
        entry(&["dir.djinn_temp", "b.txt"], 6),
        entry(&["c.txt"], 7),
    ];
    manager.build(&files, 9);
    assert!(manager.get("/a.txt.djinn_temp").is_none());
    assert_eq!(*manager.get("/dir.djinn_temp/b.txt").unwrap(), 6);
    assert_eq!(*manager.get("/c.txt").unwrap(), 7);
    assert_eq!(manager.index.len(), 3);
}

#[test]
fn build_index_of_empty_root_has_only_timestamp() {
    let mut manager = IndexManager::new("root".to_string());
    manager.build(&Vec::new(), 42);
    assert_eq!(manager.index.len(), 1);
    assert_eq!(*manager.get("#timestamp").unwrap(), 42);
}

#[test]
fn rebuilding_starts_from_scratch() {
    let mut manager = IndexManager::new("root".to_string());
    manager.build(&vec![entry(&["old.txt"], 1)], 2);
    manager.build(&vec![entry(&["new.txt"], 3)], 4);
    assert!(manager.get("/old.txt").is_none());
    assert_eq!(*manager.get("/new.txt").unwrap(), 3);
}

#[test]
fn temp_names_and_keys() {
    assert!(is_temp_name("x.djinn_temp"));
    assert!(is_temp_name(".djinn_temp"));
    assert!(!is_temp_name("djinn_temp"));
    assert!(!is_temp_name("x.djinn_temp.txt"));
    assert_eq!(key_of(&vec!["a".to_string(), "b c".to_string()]), "/a/b c");
    assert_eq!(key_of(&vec![]), "");
}

#[test]
fn add_get_update() {
    let mut manager = IndexManager::new("root".to_string());
    manager.add("/a".to_string(), 1);
    manager.add("/b".to_string(), 2);
    let mut other = StrMap::new();
    other.insert("/b".to_string(), 20);
    other.insert("/c".to_string(), 30);
    manager.update(other);
    assert_eq!(*manager.get("/a").unwrap(), 1);
    assert_eq!(*manager.get("/b").unwrap(), 20);
    assert_eq!(*manager.get("/c").unwrap(), 30);
    assert_eq!(manager.index.len(), 3);
    assert_eq!(manager.root, "root");
}

#[test]
fn strmap_insert_replace_remove() {
    let mut m: StrMap<u64> = StrMap::new();
    m.insert("k".to_string(), 1);
    m.insert("k".to_string(), 2);
    assert_eq!(m.len(), 1);
    assert_eq!(*m.get("k").unwrap(), 2);
    assert!(m.contains_key("k"));
    m.remove("k");
    assert!(!m.contains_key("k"));
    assert_eq!(m.len(), 0);
}
