use treee::agg::{fix_tree, raw_totals};
use treee::predicate::{Config, Meta};
use treee::render::render_tree_recursive;
use treee::tree::{build_directory_tree, DirEntry, FileEntry};

fn meta(size: u64) -> Meta {
    Meta {
        size,
        modified: "2023-05-06T07:08:09Z".to_string(),
        created: "2022-01-02T03:04:05Z".to_string(),
        accessed: "2024-11-12T13:14:15Z".to_string(),
        readonly: false,
    }
}

fn file(name: &str, path: &str, size: u64) -> FileEntry {
    FileEntry { name: name.to_string(), path: path.to_string(), size, meta: meta(size) }
}

fn dir(name: &str, path: &str, files: Vec<FileEntry>, dirs: Vec<DirEntry>) -> DirEntry {
    DirEntry { name: name.to_string(), path: path.to_string(), meta: meta(0), files, dirs }
}

fn log_config() -> Config {
    Config::new(
        vec![".*log$".to_string()],
        vec![],
        vec![],
        vec![],
        vec![],
        false,
    )
    .expect("configuration should compile")
}

fn empty_config() -> Config {
    Config::new(vec![], vec![], vec![], vec![], vec![], false).expect("configuration")
}

/// root holds a.txt (1000, unmatched), b.log (500, matched) and sub/ with
/// c.log (200, matched).
fn scenario_tree() -> DirEntry {
    dir(
        "root",
        "root",
        vec![file("a.txt", "root/a.txt", 1000), file("b.log", "root/b.log", 500)],
        vec![dir("sub", "root/sub", vec![file("c.log", "root/sub/c.log", 200)], vec![])],
    )
}

#[test]
fn scenario_filtered_and_raw_totals() {
    let built = build_directory_tree(scenario_tree(), 0, 100, &log_config());
    let fixed = fix_tree(built).expect("totals fit");
    assert_eq!(fixed.total_size, 1700);
    assert_eq!(fixed.p_total_size, 700);
    assert_eq!(fixed.total_files, 3);
    assert_eq!(fixed.p_total_files, 2);
    assert_eq!(fixed.total_dirs, 1);
    assert_eq!(fixed.p_total_dirs, 1);
    assert_eq!(fixed.immediate_files_size, 1500);
    assert_eq!(fixed.p_immediate_files_size, 500);
    // sub survives though the directory itself never matched
    assert_eq!(fixed.sub_dirs.len(), 1);
    assert_eq!(fixed.sub_dirs[0].name, "sub");
    assert_eq!(fixed.sub_dirs[0].total_size, 200);
    assert_eq!(fixed.sub_dirs[0].p_total_size, 200);
    // the unmatched file was removed, the matched one kept
    assert_eq!(fixed.sub_files.len(), 1);
    assert_eq!(fixed.sub_files[0].name, "b.log");
}

#[test]
fn scenario_flags_after_build() {
    let built = build_directory_tree(scenario_tree(), 0, 100, &log_config());
    // the root and the intermediate directory both see the deep file match
    assert!(built.subtree_has_file_match);
    assert_eq!(built.sub_dirs.len(), 1);
    assert!(built.sub_dirs[0].subtree_has_file_match);
    assert!(!built.subtree_has_dir_match);
    // statistics are still zero before aggregation
    assert_eq!(built.total_size, 0);
    assert_eq!(built.p_total_size, 0);
}

#[test]
fn depth_limit_zero_yields_childless_root() {
    let built = build_directory_tree(scenario_tree(), 0, 0, &log_config());
    assert_eq!(built.sub_files.len(), 0);
    assert_eq!(built.sub_dirs.len(), 0);
    assert_eq!(built.total_size, 0);
    assert_eq!(built.immediate_files_size, 0);
    assert_eq!(built.depth, 0);
    assert_eq!(built.name, "root");
}

#[test]
fn depth_limit_one_keeps_files_but_cuts_grandchildren() {
    let built = build_directory_tree(scenario_tree(), 0, 1, &log_config());
    assert_eq!(built.sub_files.len(), 2);
    assert_eq!(built.sub_dirs.len(), 1);
    assert_eq!(built.sub_dirs[0].sub_files.len(), 0);
}

#[test]
fn pure_listing_mode_filtered_equals_raw() {
    let built = build_directory_tree(scenario_tree(), 0, 100, &empty_config());
    let fixed = fix_tree(built).expect("totals fit");
    assert_eq!(fixed.total_size, fixed.p_total_size);
    assert_eq!(fixed.total_files, fixed.p_total_files);
    assert_eq!(fixed.total_dirs, fixed.p_total_dirs);
    assert_eq!(fixed.immediate_files_size, fixed.p_immediate_files_size);
    assert_eq!(fixed.sub_files.len(), 2);
    assert_eq!(fixed.sub_dirs.len(), 1);
    assert_eq!(fixed.sub_dirs[0].total_size, fixed.sub_dirs[0].p_total_size);
}

#[test]
fn branch_without_any_match_is_pruned_but_counted() {
    let tree = dir(
        "root",
        "root",
        vec![file("keep.log", "root/keep.log", 10)],
        vec![dir(
            "dead",
            "root/dead",
            vec![file("junk.txt", "root/dead/junk.txt", 100)],
            vec![],
        )],
    );
    let built = build_directory_tree(tree, 0, 100, &log_config());
    let fixed = fix_tree(built).expect("totals fit");
    assert_eq!(fixed.sub_dirs.len(), 0);
    assert_eq!(fixed.total_size, 110);
    assert_eq!(fixed.p_total_size, 10);
    assert_eq!(fixed.total_dirs, 1);
    assert_eq!(fixed.p_total_dirs, 0);
}

#[test]
fn children_are_sorted_whatever_the_input_order() {
    let tree = dir(
        "root",
        "root",
        vec![
            file("zeta.log", "root/zeta.log", 1),
            file("alpha.log", "root/alpha.log", 1),
            file("mid.log", "root/mid.log", 1),
        ],
        vec![
            dir("zz", "root/zz", vec![file("x.log", "root/zz/x.log", 1)], vec![]),
            dir("aa", "root/aa", vec![file("y.log", "root/aa/y.log", 1)], vec![]),
        ],
    );
    let built = build_directory_tree(tree, 0, 100, &log_config());
    assert_eq!(built.sub_files[0].name, "alpha.log");
    assert_eq!(built.sub_files[1].name, "mid.log");
    assert_eq!(built.sub_files[2].name, "zeta.log");
    assert_eq!(built.sub_dirs[0].path, "root/aa");
    assert_eq!(built.sub_dirs[1].path, "root/zz");
}

#[test]
fn raw_totals_overflow_is_reported() {
    let tree = dir(
        "root",
        "root",
        vec![
            file("huge.log", "root/huge.log", u64::MAX),
            file("one.log", "root/one.log", 1),
        ],
        vec![],
    );
    let built = build_directory_tree(tree, 0, 100, &log_config());
    assert!(raw_totals(&built).is_none());
    let built = build_directory_tree(
        dir(
            "root",
            "root",
            vec![
                file("huge.log", "root/huge.log", u64::MAX),
                file("one.log", "root/one.log", 1),
            ],
            vec![],
        ),
        0,
        100,
        &log_config(),
    );
    assert!(fix_tree(built).is_none());
}

#[test]
fn rendered_lines_follow_files_then_directories() {
    let built = build_directory_tree(scenario_tree(), 0, 100, &log_config());
    let fixed = fix_tree(built).expect("totals fit");
    let mut lines = Vec::new();
    render_tree_recursive(&fixed, "", false, "", "", &log_config(), &mut lines);
    assert_eq!(lines.len(), 3);
    assert_eq!(lines[0].name, "b.log");
    assert!(!lines[0].is_dir);
    assert_eq!(lines[0].prefix, "├── ");
    assert_eq!(lines[1].name, "sub");
    assert!(lines[1].is_dir);
    assert_eq!(lines[1].prefix, "└── ");
    assert_eq!(lines[2].name, "c.log");
    assert_eq!(lines[2].prefix, "    └── ");
    // the file detail vector marks the single matching pattern
    assert_eq!(lines[0].details, vec![true]);
}

#[test]
fn flat_mode_renders_without_connectors() {
    let built = build_directory_tree(scenario_tree(), 0, 100, &log_config());
    let fixed = fix_tree(built).expect("totals fit");
    let mut lines = Vec::new();
    render_tree_recursive(&fixed, "", true, "", "", &log_config(), &mut lines);
    assert_eq!(lines.len(), 3);
    assert_eq!(lines[0].prefix, "");
    assert_eq!(lines[1].prefix, "");
    assert_eq!(lines[2].prefix, "");
}

#[test]
fn last_file_gets_elbow_only_without_directories() {
    let tree = dir(
        "root",
        "root",
        vec![file("a.log", "root/a.log", 1), file("b.log", "root/b.log", 1)],
        vec![],
    );
    let built = build_directory_tree(tree, 0, 100, &log_config());
    let fixed = fix_tree(built).expect("totals fit");
    let mut lines = Vec::new();
    render_tree_recursive(&fixed, "", false, "", "", &log_config(), &mut lines);
    assert_eq!(lines[0].prefix, "├── ");
    assert_eq!(lines[1].prefix, "└── ");
}

#[test]
fn directory_predicates_prune_unmatched_branches() {
    let tree = dir(
        "root",
        "root",
        vec![],
        vec![
            dir("keepme", "root/keepme", vec![file("f.txt", "root/keepme/f.txt", 5)], vec![]),
            dir("dropme", "root/dropme", vec![], vec![]),
        ],
    );
    let cfg = Config::new(
        vec![],
        vec![],
        vec!["keep.*".to_string()],
        vec![],
        vec![],
        false,
    )
    .expect("configuration");
    let built = build_directory_tree(tree, 0, 100, &cfg);
    assert!(built.sub_dirs[1].self_matched);
    assert!(!built.sub_dirs[0].self_matched);
    assert!(built.subtree_has_dir_match);
    let fixed = fix_tree(built).expect("totals fit");
    assert_eq!(fixed.sub_dirs.len(), 1);
    assert_eq!(fixed.sub_dirs[0].name, "keepme");
    // the pruned branch still counts towards the raw directory total
    assert_eq!(fixed.total_size, 5);
    assert_eq!(fixed.p_total_size, 5);
    assert_eq!(fixed.p_total_dirs, 1);
    assert_eq!(fixed.total_dirs, 2);
}
