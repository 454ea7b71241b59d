use kelvin_submit::path::EntryPath;
use kelvin_submit::walk::{
    archive_path, exceeds_size_limit, is_valid_path, should_descend, should_include, EntryKind,
    WalkEntry, MAX_FILE_SIZE,
};

fn entry(parts: &[&str], kind: EntryKind, size: u64) -> WalkEntry {
    WalkEntry {
        path: EntryPath::new(parts.iter().map(|part| part.to_string()).collect()),
        kind,
        size,
    }
}

fn root() -> EntryPath {
    EntryPath::new(vec!["/".to_string(), "proj".to_string()])
}

#[test]
fn size_limit_is_one_mebibyte() {
    assert_eq!(MAX_FILE_SIZE, 1024 * 1024);
}

#[test]
fn directories_are_always_descended_into() {
    for name in ["src", "target", ".git", "node_modules", "a.rs", "x.jpg"] {
        let dir = entry(&["/", "proj", name], EntryKind::Directory, 4096);
        assert!(should_descend(&dir));
        assert!(is_valid_path(&dir));
        assert!(!should_include(&dir));
    }
}

#[test]
fn files_are_included_by_extension() {
    for name in ["Cargo.toml", "Cargo.lock", "main.rs", "README.md", "notes.txt"] {
        let file = entry(&["/", "proj", name], EntryKind::File, 10);
        assert!(should_include(&file), "{name}");
        assert!(is_valid_path(&file), "{name}");
        assert!(!should_descend(&file), "{name}");
    }
    for name in ["notes.jpg", "out.bin", "Makefile", ".gitignore", "main.RS", "lib.rs.bak"] {
        let file = entry(&["/", "proj", name], EntryKind::File, 10);
        assert!(!should_include(&file), "{name}");
        assert!(!is_valid_path(&file), "{name}");
    }
}

#[test]
fn other_kinds_are_never_valid() {
    let socket = entry(&["/", "proj", "ctl.rs"], EntryKind::Other, 0);
    assert!(!is_valid_path(&socket));
    assert!(!should_include(&socket));
    assert!(!should_descend(&socket));
}

#[test]
fn size_limit_is_strict_and_spares_directories() {
    assert!(!exceeds_size_limit(&entry(&["a.rs"], EntryKind::File, MAX_FILE_SIZE)));
    assert!(exceeds_size_limit(&entry(&["a.rs"], EntryKind::File, MAX_FILE_SIZE + 1)));
    assert!(exceeds_size_limit(&entry(&["a.rs"], EntryKind::Other, MAX_FILE_SIZE + 1)));
    assert!(!exceeds_size_limit(&entry(&["a"], EntryKind::Directory, u64::MAX)));
    assert!(!exceeds_size_limit(&entry(&["a.rs"], EntryKind::File, 0)));
}

#[test]
fn archive_path_is_relative_to_the_root() {
    let file = entry(&["/", "proj", "src", "main.rs"], EntryKind::File, 200);
    let below = archive_path(&root(), &file).expect("selected");
    assert_eq!(below.parts, vec!["src".to_string(), "main.rs".to_string()]);
}

#[test]
fn archive_path_leaves_out_the_build_directory() {
    let built = entry(&["/", "proj", "target", "debug", "build.rs"], EntryKind::File, 10);
    assert!(archive_path(&root(), &built).is_none());
    let direct = entry(&["/", "proj", "target", "x.rs"], EntryKind::File, 10);
    assert!(archive_path(&root(), &direct).is_none());
    let nested = entry(&["/", "proj", "src", "target", "x.rs"], EntryKind::File, 10);
    assert!(archive_path(&root(), &nested).is_some());
    let similar = entry(&["/", "proj", "targets", "x.rs"], EntryKind::File, 10);
    assert!(archive_path(&root(), &similar).is_some());
}

#[test]
fn archive_path_leaves_out_what_is_not_a_small_source_file_below_the_root() {
    let big = entry(&["/", "proj", "big.rs"], EntryKind::File, MAX_FILE_SIZE + 1);
    assert!(archive_path(&root(), &big).is_none());
    let edge = entry(&["/", "proj", "edge.rs"], EntryKind::File, MAX_FILE_SIZE);
    assert!(archive_path(&root(), &edge).is_some());
    let image = entry(&["/", "proj", "notes.jpg"], EntryKind::File, 30);
    assert!(archive_path(&root(), &image).is_none());
    let dir = entry(&["/", "proj", "src"], EntryKind::Directory, 0);
    assert!(archive_path(&root(), &dir).is_none());
    let outside = entry(&["/", "other", "main.rs"], EntryKind::File, 10);
    assert!(archive_path(&root(), &outside).is_none());
    let above = entry(&["/", "main.rs"], EntryKind::File, 10);
    assert!(archive_path(&root(), &above).is_none());
}

#[test]
fn archive_path_leaves_out_the_root_itself() {
    let odd_root = EntryPath::new(vec!["/".to_string(), "proj.rs".to_string()]);
    let itself = entry(&["/", "proj.rs"], EntryKind::File, 10);
    assert!(archive_path(&odd_root, &itself).is_none());
}
