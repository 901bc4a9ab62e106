use dir2prompt::assemble::assemble;
use dir2prompt::cleanup::cleanup_plan;
use dir2prompt::merge;
use dir2prompt::pattern::compile;
use dir2prompt::pattern::ext_matches;
use dir2prompt::prompt::build_prompt;
use dir2prompt::prompt::IgnoreConfig;
use dir2prompt::tree::FileContent;
use dir2prompt::tree::FileRecord;
use dir2prompt::tree::FsEntry;
use dir2prompt::walker::walk;
use dir2prompt::walker::MatchMode;
use dir2prompt::walker::WalkConfig;
use dir2prompt::EngineError;

fn dir(name: &str, children: Vec<FsEntry>) -> FsEntry {
    FsEntry::Dir { dname: name.to_string(), children }
}

fn file(name: &str, text: &str) -> FsEntry {
    FsEntry::File { fname: name.to_string(), content: FileContent::Text(text.to_string()) }
}

fn strings(xs: &[&str]) -> Vec<String> {
    xs.iter().map(|s| s.to_string()).collect()
}

fn cfg(dirs: &[&str], files: &[&str], autos: &[&str], mode: MatchMode) -> WalkConfig {
    WalkConfig {
        dir_patterns: compile(&strings(dirs)).unwrap(),
        file_patterns: compile(&strings(files)).unwrap(),
        ext_entries: strings(files),
        auto_excludes: strings(autos),
        mode,
    }
}

#[test]
fn scenario_ignored_dir_and_dotfile() {
    let root = dir(
        "proj",
        vec![
            dir("src", vec![file("a.py", "print(1)\n"), file(".hidden", "x")]),
            dir("node_modules", vec![file("x.js", "var x;")]),
        ],
    );
    let c = cfg(&["node_modules"], &[], &[], MatchMode::Name);
    let (tree, records) = walk(&root, &c).unwrap();
    assert_eq!(tree, "proj/\n└── src/\n    └── a.py\n");
    let paths: Vec<&str> = records.iter().map(|r| r.path.as_str()).collect();
    assert_eq!(paths, vec!["src/a.py"]);
    assert!(!tree.contains(".hidden"));
    assert!(!tree.contains("node_modules"));
    assert!(!tree.contains("x.js"));
}

#[test]
fn whitespace_content_becomes_empty_placeholder() {
    let root = dir("proj", vec![file("empty.txt", " \t\n")]);
    let doc = build_prompt(&root, &vec![], &vec![], &vec![], false, MatchMode::Name).unwrap();
    assert!(doc.contains("<path>empty.txt</path>\n<content>\nEMPTY FILE\n</content>"));
}

#[test]
fn unicode_whitespace_counts_as_blank() {
    let root = dir("proj", vec![file("blank.txt", "\u{a0}\u{2003}\u{3000}")]);
    let doc = build_prompt(&root, &vec![], &vec![], &vec![], false, MatchMode::Name).unwrap();
    assert!(doc.contains("<path>blank.txt</path>\n<content>\nEMPTY FILE\n</content>"));
}

#[test]
fn unreadable_content_becomes_placeholder() {
    let root = dir(
        "proj",
        vec![FsEntry::File { fname: "blob.bin".to_string(), content: FileContent::Unreadable }],
    );
    let doc = build_prompt(&root, &vec![], &vec![], &vec![], false, MatchMode::Name).unwrap();
    assert!(doc.contains("<path>blob.bin</path>\n<content>\nBINARY OR UNREADABLE\n</content>"));
}

#[test]
fn cleanup_removes_only_valid_base_names() {
    let root = dir(
        "ws",
        vec![
            dir("proj", vec![]),
            file("proj_prompt.txt", "old"),
            file("oldname_prompt.txt", "stale"),
        ],
    );
    let plan = cleanup_plan(&root, &vec![]).unwrap();
    assert_eq!(plan, vec!["proj_prompt.txt".to_string()]);
    assert_eq!(plan.len(), 1);
}

#[test]
fn cleanup_accepts_root_name_and_descends_ignored_dirs() {
    let root = dir(
        "proj",
        vec![
            file("proj_prompt.txt", "old"),
            dir("node_modules", vec![file("proj_prompt.txt", "deep")]),
        ],
    );
    let plan = cleanup_plan(&root, &strings(&["node_modules"])).unwrap();
    assert_eq!(
        plan,
        vec!["proj_prompt.txt".to_string(), "node_modules/proj_prompt.txt".to_string()]
    );
}

#[test]
fn ignored_directory_names_are_not_valid_cleanup_targets() {
    // The collector does not descend into, nor list, ignored directories,
    // so a prompt file named after one is left alone.
    let root = dir(
        "proj",
        vec![dir("node_modules", vec![dir("pkg", vec![])]), file("node_modules_prompt.txt", "s"), file("pkg_prompt.txt", "t")],
    );
    let plan = cleanup_plan(&root, &strings(&["node_modules"])).unwrap();
    assert!(plan.is_empty());
}

#[test]
fn dot_directory_names_are_never_collected() {
    // The walker's example-env exceptions are for entries in the tree;
    // the collector skips every dot name without exception, so a prompt
    // file named after a dot directory is no cleanup target.
    let root = dir(
        "proj",
        vec![dir(".env.example", vec![]), file(".env.example_prompt.txt", "s")],
    );
    let plan = cleanup_plan(&root, &vec![]).unwrap();
    assert!(plan.is_empty());
}

#[test]
fn cleanup_rejects_file_root_and_bad_pattern() {
    let f = file("a.txt", "x");
    assert_eq!(cleanup_plan(&f, &vec![]).unwrap_err(), EngineError::InvalidInput);
    let root = dir("proj", vec![]);
    assert_eq!(
        cleanup_plan(&root, &strings(&["[unclosed"])).unwrap_err(),
        EngineError::InvalidPattern
    );
}

#[test]
fn walk_rejects_file_root() {
    let f = file("a.txt", "x");
    let c = cfg(&[], &[], &[], MatchMode::Name);
    assert_eq!(walk(&f, &c).unwrap_err(), EngineError::InvalidInput);
}

#[test]
fn build_prompt_error_variants() {
    let f = file("a.txt", "x");
    assert_eq!(
        build_prompt(&f, &vec![], &vec![], &vec![], false, MatchMode::Name).unwrap_err(),
        EngineError::InvalidInput
    );
    let root = dir("proj", vec![file("a.txt", "x")]);
    assert_eq!(
        build_prompt(&root, &vec![], &strings(&["[a"]), &vec![], false, MatchMode::Name)
            .unwrap_err(),
        EngineError::InvalidPattern
    );
    assert_eq!(
        build_prompt(&root, &vec![], &vec![], &strings(&["[a"]), false, MatchMode::Name)
            .unwrap_err(),
        EngineError::InvalidPattern
    );
    assert_eq!(
        EngineError::InvalidInput.message(),
        "the scan root is not a directory"
    );
    assert_eq!(
        EngineError::InvalidPattern.message(),
        "an ignore entry is not a valid glob pattern"
    );
}

#[test]
fn document_format_is_exact() {
    let root = dir("proj", vec![file("a.txt", "hello")]);
    let doc = build_prompt(&root, &vec![], &vec![], &vec![], false, MatchMode::Name).unwrap();
    assert_eq!(
        doc,
        "<context>\n<directory_tree>\nproj/\n└── a.txt\n</directory_tree>\n\n<files>\n\n\
         <file>\n<path>a.txt</path>\n<content>\nhello\n</content>\n</file>\n\n\
         </files>\n</context>"
    );
}

#[test]
fn tree_only_returns_bare_tree() {
    let root = dir("proj", vec![file("b.txt", "y"), dir("a", vec![])]);
    let tree = build_prompt(&root, &vec![], &vec![], &vec![], true, MatchMode::Name).unwrap();
    assert_eq!(tree, "proj/\n├── a/\n└── b.txt\n");
}

#[test]
fn siblings_sorted_and_repeatable() {
    let root = dir(
        "proj",
        vec![file("zeta.txt", "z"), dir("beta", vec![file("inner.txt", "i")]), file("alpha.txt", "a")],
    );
    let first = build_prompt(&root, &vec![], &vec![], &vec![], true, MatchMode::Name).unwrap();
    let second = build_prompt(&root, &vec![], &vec![], &vec![], true, MatchMode::Name).unwrap();
    assert_eq!(first, second);
    assert_eq!(first, "proj/\n├── alpha.txt\n├── beta/\n│   └── inner.txt\n└── zeta.txt\n");
}

#[test]
fn filters_keep_exactly_suffix_matches() {
    let root = dir(
        "proj",
        vec![file("a.py", "pa"), file("b.rs", "rb"), dir("src", vec![file("c.py", "pc")])],
    );
    let all = build_prompt(&root, &vec![], &vec![], &vec![], false, MatchMode::Name).unwrap();
    assert!(all.contains("<path>a.py</path>"));
    assert!(all.contains("<path>b.rs</path>"));
    assert!(all.contains("<path>src/c.py</path>"));
    let only_py =
        build_prompt(&root, &strings(&["py"]), &vec![], &vec![], false, MatchMode::Name).unwrap();
    assert!(only_py.contains("<path>a.py</path>"));
    assert!(only_py.contains("<path>src/c.py</path>"));
    assert!(!only_py.contains("<path>b.rs</path>"));
}

#[test]
fn assemble_standalone_matches_format() {
    let records = vec![
        FileRecord { path: "x.txt".to_string(), content: FileContent::Text("body".to_string()) },
    ];
    let doc = assemble("root/\n", &records, &vec![]);
    assert_eq!(
        doc,
        "<context>\n<directory_tree>\nroot/\n</directory_tree>\n\n<files>\n\n\
         <file>\n<path>x.txt</path>\n<content>\nbody\n</content>\n</file>\n\n\
         </files>\n</context>"
    );
}

#[test]
fn generation_is_idempotent_on_unchanged_tree() {
    let root = dir("proj", vec![dir("src", vec![file("a.py", "x = 1\n")]), file("readme.md", "hi")]);
    let first = build_prompt(&root, &vec![], &vec![], &vec![], false, MatchMode::Name).unwrap();
    let grown = dir(
        "proj",
        vec![
            dir("src", vec![file("a.py", "x = 1\n")]),
            file("readme.md", "hi"),
            file("proj_prompt.txt", &first),
        ],
    );
    let second = build_prompt(&grown, &vec![], &vec![], &vec![], false, MatchMode::Name).unwrap();
    assert_eq!(first, second);
}

#[test]
fn auto_exclusion_covers_subdirectory_names() {
    let root = dir(
        "proj",
        vec![
            dir("sub", vec![]),
            file("sub_prompt.txt", "stale"),
            file("other_prompt.txt", "kept"),
        ],
    );
    let doc = build_prompt(&root, &vec![], &vec![], &vec![], false, MatchMode::Name).unwrap();
    assert!(!doc.contains("<path>sub_prompt.txt</path>"));
    assert!(doc.contains("<path>other_prompt.txt</path>"));
}

#[test]
fn glob_matching_behaviour() {
    let pats = compile(&strings(&["*.rs", "ma?n.py", "[a-c]x", "[!a-c]y", "[]]z"])).unwrap();
    assert!(pats[0].matches("main.rs"));
    assert!(!pats[0].matches("main.py"));
    assert!(pats[1].matches("main.py"));
    assert!(pats[1].matches("mavn.py"));
    assert!(!pats[1].matches("mnn.py"));
    assert!(pats[2].matches("bx"));
    assert!(!pats[2].matches("dx"));
    assert!(pats[3].matches("dy"));
    assert!(!pats[3].matches("by"));
    assert!(pats[4].matches("]z"));
    assert!(compile(&strings(&["[oops"])).is_err());
    assert!(compile(&strings(&["plain_name"])).unwrap()[0].matches("plain_name"));
    assert!(!compile(&strings(&["plain_name"])).unwrap()[0].matches("plain_names"));
}

#[test]
fn extension_matching_is_case_insensitive_and_dot_optional() {
    assert!(ext_matches("py", "a.py"));
    assert!(ext_matches(".py", "a.py"));
    assert!(ext_matches("PY", "a.py"));
    assert!(ext_matches("py", "a.PY"));
    assert!(!ext_matches("py", "apy"));
    assert!(!ext_matches("py", ".py"));
    assert!(ext_matches("gz", "archive.tar.gz"));
}

#[test]
fn extension_ignores_apply_to_walk() {
    let root = dir("proj", vec![file("keep.md", "k"), file("drop.PY", "d"), file("py", "bare")]);
    let tree =
        build_prompt(&root, &vec![], &vec![], &strings(&["py"]), true, MatchMode::Name).unwrap();
    assert!(tree.contains("keep.md"));
    assert!(!tree.contains("drop.PY"));
    // the bare name "py" is also matched literally by the same entry
    assert!(!tree.contains("├── py"));
}

#[test]
fn dotfile_exceptions_are_visible() {
    let root = dir(
        "proj",
        vec![file(".env.example", "A=1"), file(".example.env", "B=2"), file(".secret", "C=3")],
    );
    let tree = build_prompt(&root, &vec![], &vec![], &vec![], true, MatchMode::Name).unwrap();
    assert!(tree.contains(".env.example"));
    assert!(tree.contains(".example.env"));
    assert!(!tree.contains(".secret"));
}

#[test]
fn relative_path_mode_matches_nested_paths() {
    let root = dir(
        "proj",
        vec![dir("src", vec![file("a.py", "pa"), file("b.txt", "tb")]), file("c.py", "pc")],
    );
    let tree = build_prompt(
        &root,
        &vec![],
        &vec![],
        &strings(&["src/*.py"]),
        true,
        MatchMode::RelativePath,
    )
    .unwrap();
    assert!(!tree.contains("a.py"));
    assert!(tree.contains("b.txt"));
    assert!(tree.contains("c.py"));
    // the same pattern in name mode matches nothing
    let tree_name = build_prompt(
        &root,
        &vec![],
        &vec![],
        &strings(&["src/*.py"]),
        true,
        MatchMode::Name,
    )
    .unwrap();
    assert!(tree_name.contains("a.py"));
}

#[test]
fn merge_appends_extras_after_base() {
    let merged = merge(&strings(&["a", "b"]), &strings(&["c"]));
    assert_eq!(merged, strings(&["a", "b", "c"]));
    assert_eq!(merge(&vec![], &vec![]), Vec::<String>::new());
}

#[test]
fn default_config_lists() {
    let c = IgnoreConfig::default_config();
    assert_eq!(
        c.dirs,
        strings(&["node_modules", "__pycache__", "venv", "env", "target", "dist", "build"])
    );
    assert_eq!(c.files, strings(&["package-lock.json", "yarn.lock", "Cargo.lock", "pyc"]));
}

#[test]
fn empty_directory_renders_bare_root() {
    let root = dir("proj", vec![]);
    let doc = build_prompt(&root, &vec![], &vec![], &vec![], false, MatchMode::Name).unwrap();
    assert_eq!(
        doc,
        "<context>\n<directory_tree>\nproj/\n</directory_tree>\n\n<files>\n\n</files>\n</context>"
    );
}
