use kelvin_submit::path::{
    extension, is_plain_name, is_source_extension, same_text, EntryPath,
};

fn path(parts: &[&str]) -> EntryPath {
    EntryPath::new(parts.iter().map(|part| part.to_string()).collect())
}

#[test]
fn extension_is_what_follows_the_last_dot() {
    assert_eq!(extension("main.rs"), Some("rs".to_string()));
    assert_eq!(extension("Cargo.toml"), Some("toml".to_string()));
    assert_eq!(extension("archive.tar.gz"), Some("gz".to_string()));
    assert_eq!(extension("a.b"), Some("b".to_string()));
}

#[test]
fn extension_is_absent_without_a_stem_or_a_dot() {
    assert_eq!(extension("Makefile"), None);
    assert_eq!(extension(""), None);
    assert_eq!(extension(".gitignore"), None);
    assert_eq!(extension(".."), None);
    assert_eq!(extension("."), None);
}

#[test]
fn extension_may_be_empty_or_follow_a_hidden_name() {
    assert_eq!(extension("trailing."), Some(String::new()));
    assert_eq!(extension(".hidden.txt"), Some("txt".to_string()));
    assert_eq!(extension("..rs"), Some("rs".to_string()));
    assert_eq!(extension("a..b"), Some("b".to_string()));
}

#[test]
fn extension_agrees_with_the_standard_library() {
    let names = [
        "main.rs", "Cargo.toml", "Cargo.lock", ".gitignore", "..", "a.", "a..", "...", ".a.",
        "x.y.z", "noext", "ünï.cödé", "día.md", ".", "", "a.b.", "..a",
    ];
    for name in names {
        let expected = std::path::Path::new(name)
            .extension()
            .map(|ext| ext.to_str().unwrap().to_string());
        if std::path::Path::new(name).file_name().is_some() || name == ".." {
            assert_eq!(extension(name), expected, "for {:?}", name);
        }
    }
}

#[test]
fn source_extensions_are_the_five_of_the_list() {
    for ext in ["toml", "lock", "rs", "md", "txt"] {
        assert!(is_source_extension(ext));
    }
    for ext in ["", "jpg", "bin", "r", "rss", "tom", "tomll", "c", "py", "json"] {
        assert!(!is_source_extension(ext));
    }
}

#[test]
fn source_extensions_are_case_sensitive() {
    for ext in ["RS", "Rs", "TOML", "Md", "TXT", "Lock"] {
        assert!(!is_source_extension(ext));
    }
}

#[test]
fn same_text_compares_character_by_character() {
    assert!(same_text("", ""));
    assert!(same_text("target", "target"));
    assert!(!same_text("target", "targets"));
    assert!(!same_text("targets", "target"));
    assert!(!same_text("target", "targeT"));
    assert!(!same_text("", "a"));
    assert!(same_text("žluťoučký", "žluťoučký"));
    assert!(!same_text("žluťoučký", "zlutoucky"));
}

#[test]
fn plain_names_hold_no_separator_and_are_no_dots() {
    assert!(is_plain_name("src"));
    assert!(is_plain_name("main.rs"));
    assert!(is_plain_name("..."));
    assert!(is_plain_name(".hidden"));
    assert!(is_plain_name("with space"));
    assert!(is_plain_name("a\\b"));
    assert!(!is_plain_name(""));
    assert!(!is_plain_name("."));
    assert!(!is_plain_name(".."));
    assert!(!is_plain_name("a/b"));
    assert!(!is_plain_name("/"));
}

#[test]
fn path_is_plain_when_every_part_is() {
    assert!(path(&["src", "main.rs"]).is_plain());
    assert!(path(&[]).is_plain());
    assert!(!path(&["src", "..", "main.rs"]).is_plain());
    assert!(!path(&["/", "src"]).is_plain());
}

#[test]
fn strip_prefix_gives_the_rest() {
    let root = path(&["/", "home", "proj"]);
    let file = path(&["/", "home", "proj", "src", "main.rs"]);
    let rest = file.strip_prefix(&root).expect("root is a prefix");
    assert_eq!(rest.parts, vec!["src".to_string(), "main.rs".to_string()]);
    let same = root.strip_prefix(&root).expect("a path is its own prefix");
    assert!(same.parts.is_empty());
    assert_eq!(same.len(), 0);
}

#[test]
fn strip_prefix_fails_off_the_prefix() {
    let root = path(&["/", "home", "proj"]);
    assert!(path(&["/", "home", "other", "main.rs"]).strip_prefix(&root).is_none());
    assert!(path(&["/", "home"]).strip_prefix(&root).is_none());
    assert!(path(&["/", "home", "project", "a.rs"]).strip_prefix(&root).is_none());
    assert!(path(&[]).strip_prefix(&root).is_none());
}

#[test]
fn starts_with_looks_at_the_whole_first_part() {
    assert!(path(&["target", "debug", "out.rs"]).starts_with("target"));
    assert!(path(&["target"]).starts_with("target"));
    assert!(!path(&["targets", "a.rs"]).starts_with("target"));
    assert!(!path(&["src", "target"]).starts_with("target"));
    assert!(!path(&[]).starts_with("target"));
}

#[test]
fn parent_drops_the_last_part() {
    let manifest = path(&["/", "proj", "Cargo.toml"]);
    assert_eq!(manifest.parent().unwrap().parts, vec!["/".to_string(), "proj".to_string()]);
    assert!(path(&["x"]).parent().unwrap().parts.is_empty());
    assert!(path(&[]).parent().is_none());
}

#[test]
fn join_adds_a_last_part() {
    let joined = path(&["/", "proj"]).join("Cargo.toml");
    assert_eq!(
        joined.parts,
        vec!["/".to_string(), "proj".to_string(), "Cargo.toml".to_string()]
    );
    assert_eq!(joined.len(), 3);
}

#[test]
fn same_as_compares_part_by_part() {
    assert!(path(&["a", "b"]).same_as(&path(&["a", "b"])));
    assert!(!path(&["a", "b"]).same_as(&path(&["a"])));
    assert!(!path(&["a", "b"]).same_as(&path(&["a", "c"])));
    assert!(!path(&["ab"]).same_as(&path(&["a", "b"])));
    assert!(path(&[]).same_as(&path(&[])));
}

#[test]
fn path_extension_is_that_of_the_last_part() {
    assert_eq!(path(&["src.d", "main.rs"]).extension(), Some("rs".to_string()));
    assert_eq!(path(&["src.rs", "Makefile"]).extension(), None);
    assert_eq!(path(&[]).extension(), None);
}

#[test]
fn archive_name_joins_with_forward_slashes() {
    assert_eq!(path(&["src", "bin", "main.rs"]).archive_name(), "src/bin/main.rs");
    assert_eq!(path(&["Cargo.toml"]).archive_name(), "Cargo.toml");
    assert_eq!(path(&[]).archive_name(), "");
}
