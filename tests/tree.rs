use std::io::Error;
use std::io::ErrorKind;

use dirtree::app::run_tree_command;
use dirtree::app::TreeArgs;
use dirtree::config::TreeConfig;
use dirtree::config::TreeIndentType;
use dirtree::entry::FsNode;
use dirtree::error::TreeError;
use dirtree::filter::filter_entries_by_config;
use dirtree::filter::file_name_of;
use dirtree::filter::GitignoreFilter;
use dirtree::fmt::print_tree_with_config;
use dirtree::fmt::Emphasis;
use dirtree::fmt::TreeLine;
use dirtree::fmt::TreeTraversalState;
use dirtree::paint::line_text;
use dirtree::sort::sort_by_file_name;

fn os_error() -> Error {
    Error::new(ErrorKind::PermissionDenied, "denied")
}

fn file(path: &str, name: &str) -> FsNode {
    FsNode {
        path: path.to_string(),
        name: name.to_string(),
        file_type: Ok(false),
        is_dir: false,
        is_symlink: false,
        readonly: Ok(false),
        children: Ok(Vec::new()),
    }
}

fn dir(path: &str, name: &str, children: Vec<FsNode>) -> FsNode {
    FsNode {
        path: path.to_string(),
        name: name.to_string(),
        file_type: Ok(true),
        is_dir: true,
        is_symlink: false,
        readonly: Ok(false),
        children: Ok(children),
    }
}

fn config() -> TreeConfig {
    TreeConfig {
        max_depth: None,
        show_hidden: false,
        dirs_only: false,
        with_color: false,
        ascii_only: true,
        sort: true,
        ignore_gitignore: false,
    }
}

fn texts(lines: &Vec<TreeLine>) -> Vec<String> {
    lines.iter().map(|l| line_text(l)).collect()
}

fn matches(text: &str, pattern: &str) -> bool {
    GitignoreFilter::parse("").wildcard_match(text, pattern)
}

fn sample_tree() -> FsNode {
    dir(
        "root",
        "root",
        vec![
            file("root/y.txt", "y.txt"),
            dir("root/sub", "sub", vec![file("root/sub/x.txt", "x.txt")]),
        ],
    )
}

#[test]
fn wildcard_examples() {
    assert!(matches("file.txt", "*.txt"));
    assert!(matches("a", "?"));
    assert!(!matches("ab", "?"));
    assert!(matches("", "*"));
    assert!(matches("anything", "*"));
    assert!(matches("abc", "a*c"));
    assert!(!matches("abc", "a*d"));
}

#[test]
fn wildcard_edge_cases() {
    assert!(matches("", ""));
    assert!(!matches("a", ""));
    assert!(!matches("", "?"));
    assert!(matches("abcbd", "a*b?"));
    assert!(matches("mississippi", "m*ss*p*i"));
    assert!(!matches("mississippi", "m*ss*x*i"));
    assert!(matches("ab", "a**"));
    assert!(matches("*a", "*"));
    assert!(!matches("File.txt", "file.txt"));
    assert!(matches("\u{e9}t\u{e9}", "?t?"));
}

#[test]
fn parse_skips_blank_and_comment_lines() {
    let f = GitignoreFilter::parse("  target/ \n\n# comment\r\n*.log\r\n   \n/build");
    assert!(f.should_ignore("a/target", true));
    assert!(!f.should_ignore("a/target", false));
    assert!(f.should_ignore("app.log", false));
    assert!(f.should_ignore("x/build", false));
    assert!(!f.should_ignore("x/comment", false));
    assert!(!f.should_ignore("x/# comment", false));
}

#[test]
fn dir_rule_only_excludes_directories() {
    let f = GitignoreFilter::parse("build/\n");
    assert!(f.should_ignore("root/build", true));
    assert!(!f.should_ignore("root/build", false));
    assert!(!f.should_ignore("root/builds", true));
}

#[test]
fn star_rule_excludes_anywhere() {
    let f = GitignoreFilter::parse("*.log");
    assert!(f.should_ignore("app.log", false));
    assert!(f.should_ignore("root/deep/app.log", false));
    assert!(f.should_ignore("root/app.log", true));
    assert!(!f.should_ignore("root/app.txt", false));
    assert!(!f.should_ignore("root/app.log/inner", false));
}

#[test]
fn matches_rule_strips_anchor() {
    let f = GitignoreFilter::parse("");
    assert!(f.matches_rule("a/b/target", "/target", false));
    assert!(f.matches_rule("target", "/t*/", true));
    assert!(!f.matches_rule("target", "/t*/", false));
}

#[test]
fn gitignore_absent_is_not_an_error() {
    let r = GitignoreFilter::build_from_gitignore("root/.gitignore", None);
    assert!(matches!(r, Ok(None)));
}

#[test]
fn gitignore_read_failure() {
    let r = GitignoreFilter::build_from_gitignore("root/.gitignore", Some(Err(os_error())));
    match r {
        Err(TreeError::ReadGitignore(p, _)) => assert_eq!(p, "root/.gitignore"),
        _ => panic!("expected a read error"),
    }
}

#[test]
fn gitignore_content_is_parsed() {
    let r = GitignoreFilter::build_from_gitignore("root/.gitignore", Some(Ok("*.tmp\n".to_string())));
    match r {
        Ok(Some(f)) => {
            assert!(f.should_ignore("root/a.tmp", false));
            assert!(!f.should_ignore("root/a.txt", false));
        }
        _ => panic!("expected rules"),
    }
}

#[test]
fn hidden_entries_follow_show_hidden() {
    let entries = vec![
        dir("d/.git", ".git", Vec::new()),
        file("d/a.txt", "a.txt"),
        file("d/b.txt", "b.txt"),
    ];
    let mut c = config();
    let v = filter_entries_by_config(&entries, &c, None).unwrap();
    assert_eq!(v, vec![1, 2]);
    c.show_hidden = true;
    let v = filter_entries_by_config(&entries, &c, None).unwrap();
    assert_eq!(v, vec![0, 1, 2]);
}

#[test]
fn dirs_only_and_rules_filter_entries() {
    let entries = vec![
        dir("d/build", "build", Vec::new()),
        file("d/a.log", "a.log"),
        dir("d/src", "src", Vec::new()),
    ];
    let mut c = config();
    c.dirs_only = true;
    assert_eq!(filter_entries_by_config(&entries, &c, None).unwrap(), vec![0, 2]);
    let f = GitignoreFilter::parse("build/\n*.log");
    let c = config();
    assert_eq!(filter_entries_by_config(&entries, &c, Some(&f)).unwrap(), vec![2]);
}

#[test]
fn file_type_failure_stops_filtering() {
    let mut bad = file("d/b", "b");
    bad.file_type = Err(TreeError::GetFileType("d/b".to_string(), os_error()));
    let mut hidden_bad = file("d/.h", ".h");
    hidden_bad.file_type = Err(TreeError::GetFileType("d/.h".to_string(), os_error()));
    let entries = vec![hidden_bad, file("d/a", "a"), bad];
    match filter_entries_by_config(&entries, &config(), None) {
        Err(TreeError::GetFileType(p, _)) => assert_eq!(p, "d/b"),
        _ => panic!("expected a file type error"),
    }
}

#[test]
fn sorting_orders_by_name() {
    let entries = vec![file("b.txt", "b.txt"), file("a.txt", "a.txt"), file("c.txt", "c.txt")];
    let idx = vec![0, 1, 2];
    assert_eq!(sort_by_file_name(&entries, &idx), vec![1, 0, 2]);
    let root = dir("r", "r", entries);
    let mut c = config();
    let (lines, res) = print_tree_with_config(&root, &c, None);
    assert!(res.is_ok());
    assert_eq!(texts(&lines), vec!["r", "|-- a.txt", "|-- b.txt", "`-- c.txt"]);
    c.sort = false;
    let (lines, _) = print_tree_with_config(&root, &c, None);
    assert_eq!(texts(&lines), vec!["r", "|-- b.txt", "|-- a.txt", "`-- c.txt"]);
}

#[test]
fn sorting_is_by_code_point() {
    let entries = vec![file("b", "b"), file("B", "B"), file("ab", "ab"), file("a", "a")];
    assert_eq!(sort_by_file_name(&entries, &vec![0, 1, 2, 3]), vec![1, 3, 2, 0]);
}

#[test]
fn depth_one_shows_only_root() {
    let mut c = config();
    c.max_depth = Some(1);
    let tree = sample_tree();
    let (lines, res) = print_tree_with_config(&tree, &c, None);
    assert!(res.is_ok());
    assert_eq!(texts(&lines), vec!["root"]);
}

#[test]
fn depth_zero_still_shows_root() {
    let mut c = config();
    c.max_depth = Some(0);
    let tree = sample_tree();
    let (lines, res) = print_tree_with_config(&tree, &c, None);
    assert!(res.is_ok());
    assert_eq!(texts(&lines), vec!["root"]);
}

#[test]
fn depth_two_shows_children() {
    let mut c = config();
    c.max_depth = Some(2);
    let (lines, _) = print_tree_with_config(&sample_tree(), &c, None);
    assert_eq!(texts(&lines), vec!["root", "|-- sub", "`-- y.txt"]);
}

#[test]
fn end_to_end_ascii() {
    let tree = sample_tree();
    let (lines, res) = print_tree_with_config(&tree, &config(), None);
    assert!(res.is_ok());
    assert_eq!(texts(&lines), vec!["root", "|-- sub", "|   `-- x.txt", "`-- y.txt"]);
}

#[test]
fn end_to_end_box_drawing() {
    let mut c = config();
    c.ascii_only = false;
    let (lines, _) = print_tree_with_config(&sample_tree(), &c, None);
    assert_eq!(
        texts(&lines),
        vec!["root", "\u{251c}\u{2500}\u{2500} sub", "\u{2502}   \u{2514}\u{2500}\u{2500} x.txt", "\u{2514}\u{2500}\u{2500} y.txt"]
    );
}

#[test]
fn last_directory_children_get_blank_indent() {
    let root = dir("r", "r", vec![dir("r/d", "d", vec![file("r/d/f", "f"), file("r/d/g", "g")])]);
    let (lines, _) = print_tree_with_config(&root, &config(), None);
    assert_eq!(texts(&lines), vec!["r", "`-- d", "    |-- f", "    `-- g"]);
}

#[test]
fn repeated_runs_are_identical() {
    let tree = sample_tree();
    let (a, _) = print_tree_with_config(&tree, &config(), None);
    let (b, _) = print_tree_with_config(&tree, &config(), None);
    assert_eq!(texts(&a), texts(&b));
}

#[test]
fn read_dir_failure_after_root_line() {
    let mut root = dir("root", "root", Vec::new());
    root.children = Err(TreeError::ReadDir("root".to_string(), os_error()));
    let (lines, res) = print_tree_with_config(&root, &config(), None);
    assert_eq!(texts(&lines), vec!["root"]);
    assert!(matches!(res, Err(TreeError::ReadDir(_, _))));
}

#[test]
fn read_dir_entry_failure_in_subdirectory() {
    let mut sub = dir("root/a", "a", Vec::new());
    sub.children = Err(TreeError::ReadDirEntry("root/a".to_string(), os_error()));
    let root = dir("root", "root", vec![sub, file("root/b", "b")]);
    let (lines, res) = print_tree_with_config(&root, &config(), None);
    assert_eq!(texts(&lines), vec!["root", "|-- a"]);
    match res {
        Err(TreeError::ReadDirEntry(p, _)) => assert_eq!(p, "root/a"),
        _ => panic!("expected a listing error"),
    }
}

#[test]
fn metadata_failure_only_with_color() {
    let mut f = file("root/a", "a");
    f.readonly = Err(TreeError::GetMetadata("root/a".to_string(), os_error()));
    let root = dir("root", "root", vec![f]);
    let (lines, res) = print_tree_with_config(&root, &config(), None);
    assert!(res.is_ok());
    assert_eq!(lines.len(), 2);
    let mut c = config();
    c.with_color = true;
    let (lines, res) = print_tree_with_config(&root, &c, None);
    assert_eq!(lines.len(), 1);
    assert_eq!(lines[0].emphasis, Emphasis::Directory);
    assert!(matches!(res, Err(TreeError::GetMetadata(_, _))));
}

#[test]
fn emphasis_by_kind() {
    let mut link = file("r/l", "l");
    link.is_symlink = true;
    let mut ro = file("r/ro", "ro");
    ro.readonly = Ok(true);
    let root = dir("r", "r", vec![dir("r/d", "d", Vec::new()), link, ro, file("r/p", "p")]);
    let mut c = config();
    c.with_color = true;
    let (lines, _) = print_tree_with_config(&root, &c, None);
    let kinds: Vec<Emphasis> = lines.iter().map(|l| l.emphasis).collect();
    assert_eq!(
        kinds,
        vec![Emphasis::Directory, Emphasis::Directory, Emphasis::Symlink, Emphasis::Plain, Emphasis::ReadOnly]
    );
}

#[test]
fn colored_line_text() {
    colored::control::set_override(true);
    let line = TreeLine { prefix: "|-- ".to_string(), name: "src".to_string(), emphasis: Emphasis::Directory };
    assert_eq!(line_text(&line), "|-- \u{1b}[1;34msrc\u{1b}[0m");
    let line = TreeLine { prefix: String::new(), name: "l".to_string(), emphasis: Emphasis::Symlink };
    assert_eq!(line_text(&line), "\u{1b}[1;36ml\u{1b}[0m");
    let line = TreeLine { prefix: String::new(), name: "r".to_string(), emphasis: Emphasis::ReadOnly };
    assert_eq!(line_text(&line), "\u{1b}[1;31mr\u{1b}[0m");
    colored::control::set_override(false);
    let line = TreeLine { prefix: String::new(), name: "r".to_string(), emphasis: Emphasis::ReadOnly };
    assert_eq!(line_text(&line), "r");
}

#[test]
fn gitignore_respected_only_when_asked() {
    let root = dir("r", "r", vec![file("r/a.log", "a.log"), file("r/b", "b")]);
    let f = GitignoreFilter::parse("*.log");
    let mut c = config();
    c.ignore_gitignore = true;
    let (lines, _) = print_tree_with_config(&root, &c, Some(&f));
    assert_eq!(texts(&lines), vec!["r", "`-- b"]);
    c.ignore_gitignore = false;
    let (lines, _) = print_tree_with_config(&root, &c, Some(&f));
    assert_eq!(texts(&lines), vec!["r", "|-- a.log", "`-- b"]);
}

#[test]
fn run_tree_command_uses_args() {
    let args = TreeArgs {
        path: "root".to_string(),
        all: false,
        level: Some(2),
        directories_only: true,
        no_color: true,
        ascii: true,
        no_sorting: false,
        show_gitignore: false,
    };
    let c = args.to_config();
    assert_eq!(c.max_depth, Some(2));
    assert!(c.dirs_only && !c.with_color && c.sort && c.ignore_gitignore);
    let tree = sample_tree();
    let (lines, res) = run_tree_command(&args, &tree, None);
    assert!(res.is_ok());
    assert_eq!(texts(&lines), vec!["root", "`-- sub"]);
}

#[test]
fn indent_pieces() {
    let mut c = config();
    assert_eq!(c.get_indent(TreeIndentType::Space), "    ");
    assert_eq!(c.get_indent(TreeIndentType::Vertical), "|   ");
    assert_eq!(c.get_indent(TreeIndentType::Last), "`-- ");
    assert_eq!(c.get_indent(TreeIndentType::Continue), "|-- ");
    c.ascii_only = false;
    assert_eq!(c.get_indent(TreeIndentType::Vertical), "\u{2502}   ");
    assert_eq!(c.get_indent(TreeIndentType::Last), "\u{2514}\u{2500}\u{2500} ");
}

#[test]
fn traversal_state_indentation() {
    let c = config();
    let mut s = TreeTraversalState::new(&c, None);
    assert_eq!(s.current_indent(), "");
    s.prepare_parent_indent();
    assert_eq!(s.current_indent(), "");
    s.add_child_indent(false);
    assert_eq!(s.current_indent(), "|-- ");
    s.prepare_parent_indent();
    assert_eq!(s.current_indent(), "|   ");
    s.add_child_indent(true);
    assert_eq!(s.current_indent(), "|   `-- ");
    s.prepare_parent_indent();
    assert_eq!(s.current_indent(), "|       ");
    s.remove_indent();
    assert_eq!(s.current_indent(), "|   ");
    s.remove_indent();
    s.remove_indent();
    assert_eq!(s.current_indent(), "");
}

#[test]
fn nameless_paths_are_never_ignored() {
    let f = GitignoreFilter::parse("*\n..\n.");
    assert!(!f.should_ignore("/", false));
    assert!(!f.should_ignore("", true));
    assert!(!f.should_ignore("..", true));
    assert!(!f.should_ignore("a/..", false));
    assert!(!f.should_ignore("./", false));
    assert!(f.should_ignore("a/b", false));
}

#[test]
fn trailing_slash_keeps_the_name() {
    let f = GitignoreFilter::parse("foo");
    assert!(f.should_ignore("x/foo/", true));
    assert!(f.should_ignore("x/foo/.", true));
    assert!(!f.should_ignore("x/foo/bar", true));
}

#[test]
fn file_names_follow_path_rules() {
    assert_eq!(file_name_of("a/b.txt"), Some("b.txt"));
    assert_eq!(file_name_of("a/b//"), Some("b"));
    assert_eq!(file_name_of("a/./"), Some("a"));
    assert_eq!(file_name_of("."), None);
    assert_eq!(file_name_of(".."), None);
    assert_eq!(file_name_of("a/.."), None);
    assert_eq!(file_name_of("/"), None);
    assert_eq!(file_name_of(""), None);
    assert_eq!(file_name_of(".hidden"), Some(".hidden"));
    assert_eq!(file_name_of("a/...") , Some("..."));
}
