use treee::agg::fix_tree;
use treee::parent_ref::{Arena, ParentRef};
use treee::predicate::Config;
use treee::tree::{build_directory_tree, DirEntry, FileEntry};
use treee::predicate::Meta;
use treee::render::{
    combined_color_index, format_string, get_dir_format_values, get_file_format_values,
    get_format_string,
};
use treee::strutil::{contains_str, find_char, parse_u64, str_eq_str, str_le, u64_to_string};
use treee::tree::FileNode;

fn meta(size: u64) -> Meta {
    Meta {
        size,
        modified: "2023-05-06T07:08:09Z".to_string(),
        created: "2022-01-02T03:04:05Z".to_string(),
        accessed: "2024-11-12T13:14:15Z".to_string(),
        readonly: true,
    }
}

#[test]
fn u64_renders_in_decimal() {
    assert_eq!(u64_to_string(0), "0");
    assert_eq!(u64_to_string(1700), "1700");
    assert_eq!(u64_to_string(u64::MAX), "18446744073709551615");
}

#[test]
fn parse_u64_accepts_plus_and_rejects_junk() {
    assert_eq!(parse_u64("190000"), Some(190000));
    assert_eq!(parse_u64("+42"), Some(42));
    assert_eq!(parse_u64(""), None);
    assert_eq!(parse_u64("-1"), None);
    assert_eq!(parse_u64("12a"), None);
    assert_eq!(parse_u64("18446744073709551616"), None);
}

#[test]
fn string_helpers_behave() {
    assert!(contains_str("12345", "234"));
    assert!(!contains_str("12345", "43"));
    assert!(contains_str("anything", ""));
    assert_eq!(find_char("a:b:c", ':'), Some(1));
    assert_eq!(find_char("abc", ':'), None);
    assert!(str_eq_str("abc", "abc"));
    assert!(!str_eq_str("abc", "abd"));
    assert!(str_le("abc", "abd"));
    assert!(str_le("ab", "abc"));
    assert!(!str_le("b", "abc"));
}

#[test]
fn format_string_substitutes_known_tokens() {
    let values = vec![
        ("size".to_string(), "42".to_string()),
        ("name".to_string(), "x.log".to_string()),
    ];
    assert_eq!(
        format_string("size=%size%, name=%name%", &values),
        "size=42, name=x.log"
    );
}

#[test]
fn format_string_leaves_unknown_tokens_verbatim() {
    let values = vec![("size".to_string(), "42".to_string())];
    assert_eq!(format_string("a %size% b %nope% c", &values), "a 42 b %nope% c");
}

#[test]
fn format_string_leaves_unclosed_percent_verbatim() {
    let values = vec![("size".to_string(), "42".to_string())];
    assert_eq!(format_string("tail %size", &values), "tail %size");
}

#[test]
fn file_format_values_expose_the_documented_fields() {
    let f = FileNode {
        name: "x.log".to_string(),
        path: "root/x.log".to_string(),
        size: 42,
        meta: meta(42),
        self_matched: true,
    };
    let values = get_file_format_values(&f);
    let line = format_string("%name% %size% %path% %is_dir% %readonly%", &values);
    assert_eq!(line, "x.log 42 root/x.log false true");
    let stamped = format_string("%modified%", &values);
    assert_eq!(stamped, "2023-05-06T07:08:09Z");
}

#[test]
fn dir_format_values_expose_both_statistic_sets() {
    let entry = DirEntry {
        name: "root".to_string(),
        path: "root".to_string(),
        meta: meta(0),
        files: vec![FileEntry {
            name: "a.log".to_string(),
            path: "root/a.log".to_string(),
            size: 70,
            meta: meta(70),
        }],
        dirs: vec![],
    };
    let cfg = Config::new(
        vec![".*log$".to_string()],
        vec![],
        vec![],
        vec![],
        vec![],
        false,
    )
    .unwrap();
    let fixed = fix_tree(build_directory_tree(entry, 0, 100, &cfg)).unwrap();
    let values = get_dir_format_values(&fixed);
    let line = format_string(
        "%total_size%/%p_total_size% %total_files%/%p_total_files% %sub_files_count% %depth%",
        &values,
    );
    assert_eq!(line, "70/70 1/1 1 0");
}

#[test]
fn format_selection_prefers_explicit_then_default_then_fallback() {
    let explicit: Option<Option<String>> = Some(Some("custom %size%".to_string()));
    assert_eq!(get_format_string(&explicit, "env", false), "custom %size%");
    let bare: Option<Option<String>> = Some(None);
    assert_eq!(
        get_format_string(&bare, "env", false),
        " (size = %size%, created %created%, accessed %accessed%, modified %modified%)"
    );
    assert_eq!(
        get_format_string(&bare, "env", true),
        " (size = %p_total_size%/%total_size%, dirs = %sub_dirs_count%/%p_total_dirs%, files = %sub_files_count%/%p_total_files%)"
    );
    let absent: Option<Option<String>> = None;
    assert_eq!(get_format_string(&absent, "from env %size%", false), "from env %size%");
}

#[test]
fn color_index_picks_first_match_modulo_palette() {
    assert_eq!(combined_color_index(&vec![false, true, false, true], 8), Some(1));
    assert_eq!(combined_color_index(&vec![false, false], 8), None);
    let mut details = vec![false; 9];
    details.push(true);
    assert_eq!(combined_color_index(&details, 8), Some(1));
}

#[test]
fn parent_ref_none_is_empty() {
    let p: ParentRef<u32> = ParentRef::none();
    assert!(p.is_none());
    assert!(!p.is_some());
    let q: ParentRef<u32> = Default::default();
    assert!(q.is_none());
}

#[test]
fn parent_ref_upgrades_while_parent_lives() {
    let mut arena: Arena<u32> = Arena::new();
    let i = arena.store(7);
    let p = ParentRef::from_rc(&arena, i);
    assert!(p.is_some());
    assert!(p.is_valid(&arena));
    assert_eq!(p.upgrade(&arena), Some(i));
    assert_eq!(p.with(&arena).copied(), Some(7));
}

#[test]
fn parent_ref_reports_parent_gone_after_removal() {
    let mut arena: Arena<u32> = Arena::new();
    let i = arena.store(7);
    let p = ParentRef::from_rc(&arena, i);
    let taken = arena.remove(i);
    assert_eq!(taken, Some(7));
    assert!(!p.is_valid(&arena));
    assert_eq!(p.upgrade(&arena), None);
    assert!(p.with(&arena).is_none());
    assert!(p.is_some());
}

#[test]
fn parent_ref_equality_compares_targets() {
    let mut arena: Arena<u32> = Arena::new();
    let i = arena.store(1);
    let j = arena.store(2);
    let p = ParentRef::from_rc(&arena, i);
    let q = ParentRef::from_rc(&arena, i);
    let r = ParentRef::from_rc(&arena, j);
    assert!(p == q);
    assert!(p != r);
    let n1: ParentRef<u32> = ParentRef::none();
    let n2: ParentRef<u32> = ParentRef::none();
    assert!(n1 == n2);
    assert!(n1 != p);
}

#[test]
fn parent_ref_with_mut_replaces_the_parent_value() {
    let mut arena: Arena<u32> = Arena::new();
    let i = arena.store(7);
    let p = ParentRef::from_rc(&arena, i);
    let old = p.with_mut(&mut arena, 9);
    assert_eq!(old, Some(7));
    assert_eq!(p.with(&arena).copied(), Some(9));
    // a clone of the handle sees the same slot
    let q = p.clone();
    assert_eq!(q.with(&arena).copied(), Some(9));
    arena.remove(i);
    assert_eq!(q.with_mut(&mut arena, 11), None);
}
