use aperio::paths::{file_name, path_join, path_less};
use aperio::vault::{
    resolve_frontmatter, scan_folder, split_frontmatter, sub_prefix, walk_step, DirEntryInfo,
    Frontmatter, FrontmatterSplit, NoteSummary, NoteWalk, TrashStep, VaultReader, WalkAction,
    WalkStep,
};

fn fm(title: Option<&str>, tags: &[&str]) -> Frontmatter {
    Frontmatter {
        title: title.map(|t| t.to_string()),
        tags: tags.iter().map(|t| t.to_string()).collect(),
        extra: serde_json::Value::Null,
    }
}

fn summary(path: &str) -> NoteSummary {
    NoteSummary { path: path.to_string(), title: path.to_string(), tags: Vec::new() }
}

#[test]
fn split_frontmatter_finds_fenced_block() {
    let content = "  \n---\ntitle: Plan\ntags: [a, b]\n---\n\n# Plan\nBody text\n\n";
    match split_frontmatter(content) {
        FrontmatterSplit::Fenced { yaml, body, text } => {
            assert_eq!(yaml, "\ntitle: Plan\ntags: [a, b]");
            assert_eq!(body, "# Plan\nBody text");
            assert_eq!(text, "---\ntitle: Plan\ntags: [a, b]\n---\n\n# Plan\nBody text\n\n");
        }
        FrontmatterSplit::Plain { .. } => panic!("expected a fenced block"),
    }
}

#[test]
fn split_frontmatter_without_fence_is_plain() {
    match split_frontmatter("\t\n# Title\n---\nrest") {
        FrontmatterSplit::Plain { text } => assert_eq!(text, "# Title\n---\nrest"),
        FrontmatterSplit::Fenced { .. } => panic!("no fence at the start"),
    }
}

#[test]
fn split_frontmatter_unclosed_fence_is_plain() {
    match split_frontmatter("---\ntitle: x\nno end") {
        FrontmatterSplit::Plain { text } => assert_eq!(text, "---\ntitle: x\nno end"),
        FrontmatterSplit::Fenced { .. } => panic!("the fence is not closed"),
    }
}

#[test]
fn split_frontmatter_closing_fence_at_end() {
    match split_frontmatter("---\na: 1\n---") {
        FrontmatterSplit::Fenced { yaml, body, .. } => {
            assert_eq!(yaml, "\na: 1");
            assert_eq!(body, "");
        }
        FrontmatterSplit::Plain { .. } => panic!("expected a fenced block"),
    }
}

#[test]
fn unparsed_yaml_leaves_whole_text_as_body() {
    let split = split_frontmatter("---\n: :\n---\nbody");
    let (f, body) = resolve_frontmatter(split, None);
    assert!(f.is_none());
    assert_eq!(body, "---\n: :\n---\nbody");
}

#[test]
fn parsed_yaml_gives_frontmatter_and_body() {
    let split = split_frontmatter("---\ntitle: T\n---\n  body  ");
    let (f, body) = resolve_frontmatter(split, Some(fm(Some("T"), &["x"])));
    assert_eq!(f.unwrap().title.as_deref(), Some("T"));
    assert_eq!(body, "body");
}

#[test]
fn read_note_uses_frontmatter_title() {
    let vault = VaultReader::new("/vault".to_string());
    let split = split_frontmatter("---\ntitle: Real Title\n---\nText");
    let note = vault.read_note("Daily/2025-01-15.md", split, Some(fm(Some("Real Title"), &[])));
    assert_eq!(note.title, "Real Title");
    assert_eq!(note.path, "Daily/2025-01-15.md");
    assert_eq!(note.content, "Text");
    assert!(note.frontmatter.is_some());
}

#[test]
fn read_note_falls_back_to_file_stem() {
    let vault = VaultReader::new("/vault".to_string());
    let split = split_frontmatter("Just text");
    let note = vault.read_note("Projects/aperio-mvp.md", split, None);
    assert_eq!(note.title, "aperio-mvp");
    assert_eq!(note.content, "Just text");
    assert!(note.frontmatter.is_none());
}

#[test]
fn write_note_reports_written_note() {
    let vault = VaultReader::new("/vault/".to_string());
    let split = split_frontmatter("---\ntags: [x]\n---\nhello");
    let note = vault.write_note("new.md", split, Some(fm(None, &["x"])));
    assert_eq!(note.title, "new");
    assert_eq!(note.path, "new.md");
    assert_eq!(note.content, "hello");
}

#[test]
fn note_metadata_reads_tags() {
    let vault = VaultReader::new("/vault".to_string());
    let split = split_frontmatter("---\ntags: [a, b]\n---\nx");
    let s = vault.note_metadata("a/b.c.md", split, Some(fm(None, &["a", "b"])));
    assert_eq!(s.title, "b.c");
    assert_eq!(s.tags, vec!["a".to_string(), "b".to_string()]);
    assert_eq!(s.path, "a/b.c.md");
}

#[test]
fn note_metadata_without_frontmatter_has_no_tags() {
    let vault = VaultReader::new("/vault".to_string());
    let s = vault.note_metadata(".hidden.md", split_frontmatter("x"), None);
    assert_eq!(s.title, ".hidden");
    assert!(s.tags.is_empty());
}

#[test]
fn list_notes_orders_by_path_components() {
    let vault = VaultReader::new("/vault".to_string());
    let found = vec![summary("b.md"), summary("a.b.md"), summary("a/z.md"), summary("A.md")];
    let listed = vault.list_notes(found);
    let paths: Vec<&str> = listed.iter().map(|n| n.path.as_str()).collect();
    assert_eq!(paths, vec!["A.md", "a/z.md", "a.b.md", "b.md"]);
}

#[test]
fn list_notes_of_nothing_is_empty() {
    let vault = VaultReader::new("/vault".to_string());
    assert!(vault.list_notes(Vec::new()).is_empty());
}

#[test]
fn vault_root_and_search_dir() {
    let vault = VaultReader::new("/vault".to_string());
    assert_eq!(vault.root(), "/vault");
    assert_eq!(vault.search_dir(None), "/vault");
    assert_eq!(vault.search_dir(Some("Daily")), "/vault/Daily");
    assert_eq!(vault.search_dir(Some("/etc")), "/etc");
}

#[test]
fn walk_steps() {
    let e = |name: &str, is_dir: bool| DirEntryInfo { name: name.to_string(), is_dir };
    assert!(walk_step(&e(".obsidian", true)) == WalkStep::Skip);
    assert!(walk_step(&e("Daily", true)) == WalkStep::Descend);
    assert!(walk_step(&e("note.md", false)) == WalkStep::ReadNote);
    assert!(walk_step(&e(".hidden.md", false)) == WalkStep::ReadNote);
    assert!(walk_step(&e(".md", false)) == WalkStep::Skip);
    assert!(walk_step(&e("image.png", false)) == WalkStep::Skip);
    assert!(walk_step(&e("a.MD", false)) == WalkStep::Skip);
}

#[test]
fn scan_folder_counts_notes_and_subdirs() {
    let e = |name: &str, is_dir: bool| DirEntryInfo { name: name.to_string(), is_dir };
    let entries = vec![
        e("a.md", false),
        e(".trash", true),
        e("Daily", true),
        e(".secret.md", false),
        e("b.md", false),
        e("c.txt", false),
        e("Projects", true),
    ];
    let scan = scan_folder("", &entries);
    assert_eq!(scan.note_count, 2);
    assert_eq!(scan.subdirs, vec![2, 6]);
    assert_eq!(scan.record, Some((String::new(), 2)));
}

#[test]
fn scan_folder_without_content_has_no_record() {
    let entries = vec![DirEntryInfo { name: "x.png".to_string(), is_dir: false }];
    let scan = scan_folder("Daily", &entries);
    assert_eq!(scan.note_count, 0);
    assert!(scan.subdirs.is_empty());
    assert!(scan.record.is_none());
}

#[test]
fn scan_folder_with_only_subdir_is_recorded() {
    let entries = vec![DirEntryInfo { name: "Sub".to_string(), is_dir: true }];
    let scan = scan_folder("Top", &entries);
    assert_eq!(scan.record, Some(("Top".to_string(), 0)));
}

#[test]
fn sub_prefixes() {
    assert_eq!(sub_prefix("", "Daily"), "Daily");
    assert_eq!(sub_prefix("Projects", "2025"), "Projects/2025");
}

#[test]
fn trash_candidates() {
    let vault = VaultReader::new("/vault".to_string());
    assert_eq!(vault.trash_dir(), "/vault/.trash");
    assert_eq!(vault.trash_candidate("Daily/note.md", 0), "/vault/.trash/note.md");
    assert_eq!(vault.trash_candidate("Daily/note.md", 1), "/vault/.trash/note_1.md");
    assert_eq!(vault.trash_candidate("Daily/note.md", 12), "/vault/.trash/note_12.md");
    assert_eq!(vault.trash_candidate("README", 3), "/vault/.trash/README_3");
    assert_eq!(vault.trash_candidate("a/.env", 2), "/vault/.trash/.env_2");
    assert_eq!(vault.trashed_path("/vault/.trash/note_1.md"), ".trash/note_1.md");
}

#[test]
fn path_helpers() {
    assert_eq!(path_join("a", "b"), "a/b");
    assert_eq!(path_join("a/", "b"), "a/b");
    assert_eq!(path_join("", "b"), "b");
    assert_eq!(path_join("a", "/b"), "/b");
    let name = |p: &str| file_name(&p.chars().collect()).map(|v| v.into_iter().collect::<String>());
    assert_eq!(name("a/b.md"), Some("b.md".to_string()));
    assert_eq!(name("a/b/"), Some("b".to_string()));
    assert_eq!(name("a/."), Some("a".to_string()));
    assert_eq!(name("a/.."), None);
    assert_eq!(name("/"), None);
    assert!(path_less("a/z.md", "a.b.md"));
    assert!(!path_less("a.b.md", "a/z.md"));
    assert!(!path_less("a//b", "a/b"));
    let vault = VaultReader::new("/vault".to_string());
    assert_eq!(vault.trashed_path("/vault/x/y.md"), "x/y.md");
    assert_eq!(vault.trashed_path("/other/y.md"), "/other/y.md");
    let note = vault.read_note("/other/n.md", split_frontmatter("x"), None);
    assert_eq!(note.path, "/other/n.md");
}

#[test]
fn list_notes_keeps_equal_paths_in_order() {
    let vault = VaultReader::new("/v".to_string());
    let found = vec![
        NoteSummary { path: "a//b.md".to_string(), title: "2".to_string(), tags: Vec::new() },
        NoteSummary { path: "a.md".to_string(), title: "3".to_string(), tags: Vec::new() },
        NoteSummary { path: "a/b.md".to_string(), title: "1".to_string(), tags: Vec::new() },
    ];
    let titles: Vec<String> = vault.list_notes(found).into_iter().map(|n| n.title).collect();
    assert_eq!(titles, vec!["2".to_string(), "1".to_string(), "3".to_string()]);
}

#[test]
fn trash_search_steps() {
    let vault = VaultReader::new("/vault".to_string());
    let (attempt, place) = match vault.trash_start("Daily/note.md") {
        TrashStep::Look { attempt, place } => (attempt, place),
        TrashStep::MoveTo(_) => panic!("expected a place to look at"),
    };
    assert_eq!(attempt, 0);
    assert_eq!(place, "/vault/.trash/note.md");
    let (attempt, place) = match vault.trash_step("Daily/note.md", attempt, place, true) {
        TrashStep::Look { attempt, place } => (attempt, place),
        TrashStep::MoveTo(_) => panic!("expected the next place"),
    };
    assert_eq!(attempt, 1);
    assert_eq!(place, "/vault/.trash/note_1.md");
    match vault.trash_step("Daily/note.md", attempt, place, false) {
        TrashStep::MoveTo(p) => assert_eq!(p, "/vault/.trash/note_1.md"),
        TrashStep::Look { .. } => panic!("expected the move"),
    }
    match vault.trash_step("Daily/note.md", usize::MAX, vault.trash_candidate("Daily/note.md", usize::MAX), true) {
        TrashStep::Look { attempt, .. } => assert_eq!(attempt, usize::MAX),
        TrashStep::MoveTo(_) => panic!("expected the same place again"),
    }
}

#[test]
fn folder_walk_is_depth_first() {
    let vault = VaultReader::new("/v".to_string());
    let mut walk = vault.folder_walk(None);
    let root = walk.next().unwrap();
    assert_eq!(root.dir, "/v");
    assert_eq!(root.prefix, "");
    let entries = vec![
        DirEntryInfo { name: "a.md".to_string(), is_dir: false },
        DirEntryInfo { name: "Sub".to_string(), is_dir: true },
        DirEntryInfo { name: ".hidden".to_string(), is_dir: true },
        DirEntryInfo { name: "Other".to_string(), is_dir: true },
    ];
    walk.visit(&root, &entries);
    let sub = walk.next().unwrap();
    assert_eq!(sub.dir, "/v/Sub");
    assert_eq!(sub.prefix, "Sub");
    walk.visit(&sub, &vec![DirEntryInfo { name: "Deep".to_string(), is_dir: true }]);
    let deep = walk.next().unwrap();
    assert_eq!(deep.prefix, "Sub/Deep");
    walk.visit(&deep, &vec![DirEntryInfo { name: "n.md".to_string(), is_dir: false }]);
    let other = walk.next().unwrap();
    assert_eq!(other.prefix, "Other");
    walk.visit(&other, &Vec::new());
    assert!(walk.next().is_none());
    assert_eq!(
        walk.into_folders(),
        vec![("".to_string(), 1), ("Sub".to_string(), 0), ("Sub/Deep".to_string(), 1)]
    );
}

#[test]
fn folder_walk_of_a_subfolder_names_it() {
    let vault = VaultReader::new("/v".to_string());
    let mut walk = vault.folder_walk(Some("Daily"));
    let start = walk.next().unwrap();
    assert_eq!(start.dir, "/v/Daily");
    assert_eq!(start.prefix, "Daily");
    walk.visit(&start, &vec![DirEntryInfo { name: "x".to_string(), is_dir: true }]);
    assert_eq!(walk.next().unwrap().prefix, "Daily/x");
}

#[test]
fn note_walk_is_depth_first_in_entry_order() {
    let e = |name: &str, is_dir: bool| DirEntryInfo { name: name.to_string(), is_dir };
    let mut walk = NoteWalk::new();
    walk.enter("/v".to_string(), vec![e("a.md", false), e("Sub", true), e(".git", true), e("x.txt", false), e("b.md", false)]);
    let mut actions = Vec::new();
    loop {
        match walk.step() {
            WalkAction::ReadDir(d) => {
                actions.push(format!("dir {d}"));
                walk.enter(d, vec![e("c.md", false), e(".h.md", false)]);
            }
            WalkAction::ReadNote(p) => actions.push(format!("note {p}")),
            WalkAction::Nothing => {}
            WalkAction::Done => break,
        }
    }
    assert_eq!(
        actions,
        vec![
            "note /v/a.md",
            "dir /v/Sub",
            "note /v/Sub/c.md",
            "note /v/Sub/.h.md",
            "note /v/b.md",
        ]
    );
    assert!(matches!(walk.step(), WalkAction::Done));
}
