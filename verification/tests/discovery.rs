use sawskas_profiler::interrupt::discovery::{
    collect_files, collect_files_filtered, is_hidden, shown_path, text_path, DirEntry, Discovery,
    DiscoveryError, EntryKind, Filter, Name,
};

const ENOENT: i32 = 2;

/// A directory tree in memory.
enum Node {
    File,
    Dir(Vec<(&'static str, Node)>),
    Link,
    Locked,
}

fn kind(n: &Node) -> EntryKind {
    match n {
        Node::File => EntryKind::File,
        Node::Dir(_) | Node::Locked => EntryKind::Dir,
        Node::Link => EntryKind::Other,
    }
}

fn text(n: &Name) -> &str {
    match n {
        Name::Text(s) => s.as_str(),
        Name::Raw { shown, .. } => shown.as_str(),
    }
}

fn find<'a>(n: &'a Node, path: &[Name]) -> &'a Node {
    match path.split_first() {
        None => n,
        Some((first, rest)) => match n {
            Node::Dir(entries) => {
                find(&entries.iter().find(|e| e.0 == text(first)).unwrap().1, rest)
            }
            _ => panic!("no directory"),
        },
    }
}

fn walk(tree: &Node, mut d: Discovery) -> Vec<Vec<Name>> {
    while let Some(dir) = d.next_dir() {
        if let Node::Dir(entries) = find(tree, &dir) {
            let listing = entries
                .iter()
                .map(|e| DirEntry { name: Name::Text(e.0.to_string()), kind: kind(&e.1) })
                .collect();
            d.listed(&dir, &listing);
        }
    }
    d.finish()
}

fn shown(root: &str, files: &Vec<Vec<Name>>) -> Vec<String> {
    files.iter().map(|f| shown_path(root, f)).collect()
}

fn sources() -> Node {
    Node::Dir(vec![
        ("report", Node::Dir(vec![("mod.rs", Node::File), ("notes.txt", Node::File)])),
        ("main.rs", Node::File),
        ("interrupt", Node::Dir(vec![("hardware_interrupt.rs", Node::File)])),
        ("frontend", Node::Dir(vec![("ui.rs", Node::File), ("old", Node::Link)])),
        ("README", Node::File),
        ("locked", Node::Locked),
    ])
}

#[test]
fn collect_single_file_returns_one() {
    let files = shown("Cargo.toml", &walk(&Node::File, collect_files(Ok(EntryKind::File)).ok().unwrap()));
    assert_eq!(files.len(), 1);
    assert!(files[0].ends_with("Cargo.toml"));
}

#[test]
fn collect_directory_walks_recursively() {
    let tree = sources();
    let files = shown("src", &walk(&tree, collect_files(Ok(kind(&tree))).ok().unwrap()));
    assert!(files.iter().any(|p| p.ends_with("frontend/ui.rs")));
    assert!(files
        .iter()
        .any(|p| p.ends_with("interrupt/hardware_interrupt.rs")));
    assert!(files.len() >= 3, "expected several source files");
    // Sorted + no directories slipped through.
    let mut sorted = files.clone();
    sorted.sort();
    assert_eq!(files, sorted);
    assert_eq!(files, vec![
        "src/README",
        "src/frontend/ui.rs",
        "src/interrupt/hardware_interrupt.rs",
        "src/main.rs",
        "src/report/mod.rs",
        "src/report/notes.txt",
    ]);
}

#[test]
fn collect_missing_path_is_an_error() {
    // "definitely/not/here"
    let r = collect_files(Err(ENOENT));
    assert!(r.is_err());
    assert_eq!(r.err(), Some(DiscoveryError::Os(ENOENT)));
    assert_eq!(DiscoveryError::Os(ENOENT).message(), None);
}

#[test]
fn filter_by_extension_keeps_only_matches() {
    let f = Filter {
        skip_hidden: true,
        extensions: vec!["rs".into()],
    };
    let tree = sources();
    let files = shown("src", &walk(&tree, collect_files_filtered(Ok(kind(&tree)), f).ok().unwrap()));
    assert!(!files.is_empty());
    assert!(files
        .iter()
        .all(|p| std::path::Path::new(p).extension().and_then(|e| e.to_str()) == Some("rs")));
    assert!(files.iter().any(|p| p.ends_with("main.rs")));
}

#[test]
fn filter_skips_hidden_entries() {
    let tree = Node::Dir(vec![
        (".hidden", Node::File),
        ("visible.rs", Node::File),
        (".git", Node::Dir(vec![("config", Node::File)])),
    ]);
    let f = Filter {
        skip_hidden: true,
        extensions: vec![],
    };
    let files = shown("sawskas_filter_test", &walk(&tree, collect_files_filtered(Ok(kind(&tree)), f).ok().unwrap()));
    assert!(files.iter().any(|p| p.ends_with("visible.rs")));
    assert!(!files.iter().any(|p| p.ends_with(".hidden")));
    assert_eq!(files.len(), 1);
    let all = shown("x", &walk(&tree, collect_files(Ok(kind(&tree))).ok().unwrap()));
    assert_eq!(all, vec!["x/.git/config", "x/.hidden", "x/visible.rs"]);
}

#[test]
fn hidden_names_begin_with_a_dot() {
    for (name, hidden) in
        [(".git", true), (".b", true), ("config", false), ("..", false), (".", false), ("...", true)]
    {
        let name = Name::Text(name.to_string());
        let f = Filter { skip_hidden: true, extensions: vec![] };
        assert_eq!(is_hidden(&name), hidden);
        assert_eq!(f.accepts_file(&name), !hidden);
        assert_eq!(f.enters_dir(&name), !hidden);
    }
    assert!(!is_hidden(&Name::Text("".to_string())));
}

#[test]
fn a_filtered_walk_finds_the_matching_part() {
    let tree = Node::Dir(vec![
        ("b.rs", Node::File),
        (".c.rs", Node::File),
        ("a", Node::Dir(vec![("x.RS", Node::File), (".y", Node::Dir(vec![("z.rs", Node::File)]))])),
        ("d.txt", Node::File),
    ]);
    let all = shown("", &walk(&tree, collect_files(Ok(kind(&tree))).ok().unwrap()));
    assert_eq!(all, vec![".c.rs", "a/.y/z.rs", "a/x.RS", "b.rs", "d.txt"]);
    for skip_hidden in [false, true] {
        let f = Filter { skip_hidden, extensions: vec!["rs".to_string()] };
        let part = shown("", &walk(&tree, collect_files_filtered(Ok(kind(&tree)), f).ok().unwrap()));
        let want: Vec<String> = all
            .iter()
            .filter(|p| p.to_lowercase().ends_with(".rs"))
            .filter(|p| !skip_hidden || p.split('/').all(|n| !n.starts_with('.')))
            .cloned()
            .collect();
        assert_eq!(part, want);
    }
}

#[test]
fn a_special_file_is_refused() {
    let r = collect_files(Ok(EntryKind::Other));
    assert_eq!(
        r.err().unwrap().message(),
        Some("path is neither a regular file nor a directory")
    );
}

#[test]
fn paths_are_ordered_name_by_name() {
    let tree = Node::Dir(vec![
        ("a", Node::Dir(vec![("z", Node::File)])),
        ("a-b", Node::File),
        ("a.c", Node::File),
        ("B", Node::File),
    ]);
    let found = walk(&tree, collect_files(Ok(kind(&tree))).ok().unwrap());
    let files = shown("r", &found);
    let mut paths: Vec<std::path::PathBuf> = files.iter().map(std::path::PathBuf::from).collect();
    paths.sort();
    assert_eq!(
        files,
        paths.iter().map(|p| p.to_str().unwrap().to_string()).collect::<Vec<_>>()
    );
    assert_eq!(files, vec!["r/B", "r/a/z", "r/a-b", "r/a.c"]);
}

#[test]
fn extensions_are_those_of_paths() {
    for name in [
        "a.rs", "a", ".rs", "..rs", "a.", "a.tar.gz", "A.RS", "..", ".a.rs", "ä.Rs", "a.rs.txt", "...",
    ] {
        let f = Filter { skip_hidden: false, extensions: vec!["rs".into(), "GZ".into(), "".into()] };
        let got = f.accepts_file(&Name::Text(name.to_string()));
        let want = std::path::Path::new(name)
            .extension()
            .and_then(|e| e.to_str())
            .map(|e| ["rs", "gz", ""].iter().any(|w| e.eq_ignore_ascii_case(w)))
            .unwrap_or(false);
        assert_eq!(got, want, "{}", name);
    }
}

#[test]
fn names_that_are_no_text_are_kept() {
    let raw = Name::Raw { bytes: vec![46, 255, 46, 82, 83], shown: ".\u{fffd}.RS".to_string() };
    assert!(!is_hidden(&raw));
    assert!(is_hidden(&Name::Text(".x".to_string())));
    let f = Filter { skip_hidden: true, extensions: vec!["rs".into()] };
    assert!(f.accepts_file(&raw));
    assert!(f.enters_dir(&raw));
    assert!(!f.enters_dir(&Name::Text(".x".to_string())));
    let path = vec![Name::Text("a".to_string()), raw.copy()];
    assert_eq!(text_path("r/", &path), None);
    assert_eq!(shown_path("r/", &path), "r/a/.\u{fffd}.RS");
    assert_eq!(text_path("", &vec![Name::Text("a".to_string())]), Some("a".to_string()));
    assert!(Filter::default().accepts_file(&Name::Text(".x".to_string())));
}
