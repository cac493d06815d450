use treee::predicate::{matches_metadata, parse_meta_search, Config, Meta, MetaOperator, MetaSearch};

fn meta(size: u64) -> Meta {
    Meta {
        size,
        modified: "2023-05-06T07:08:09Z".to_string(),
        created: "2022-01-02T03:04:05Z".to_string(),
        accessed: "2024-11-12T13:14:15Z".to_string(),
        readonly: false,
    }
}

fn cfg(
    files: Vec<&str>,
    files_cs: Vec<&str>,
    dirs: Vec<&str>,
    dirs_cs: Vec<&str>,
    metas: Vec<&str>,
    all: bool,
) -> Config {
    Config::new(
        files.into_iter().map(|s| s.to_string()).collect(),
        files_cs.into_iter().map(|s| s.to_string()).collect(),
        dirs.into_iter().map(|s| s.to_string()).collect(),
        dirs_cs.into_iter().map(|s| s.to_string()).collect(),
        metas.into_iter().map(|s| s.to_string()).collect(),
        all,
    )
    .expect("configuration should compile")
}

#[test]
fn parse_meta_two_parts_defaults_to_contains() {
    let ms = parse_meta_search("size:100").expect("should parse");
    assert_eq!(ms.field, "size");
    assert!(matches!(ms.operator, MetaOperator::Contains));
    assert_eq!(ms.pattern, "100");
}

#[test]
fn parse_meta_three_parts_greater_than() {
    let ms = parse_meta_search("size:>:190000").expect("should parse");
    assert_eq!(ms.field, "size");
    assert!(matches!(ms.operator, MetaOperator::GreaterThan));
    assert_eq!(ms.pattern, "190000");
}

#[test]
fn parse_meta_caret_operators() {
    let ms = parse_meta_search("size:^<:42").expect("should parse");
    assert!(matches!(ms.operator, MetaOperator::LessThan));
    assert_eq!(ms.pattern, "42");
    let ms = parse_meta_search("modified:^=:2023").expect("should parse");
    assert!(matches!(ms.operator, MetaOperator::Equals));
    let ms = parse_meta_search("modified:^~:2023").expect("should parse");
    assert!(matches!(ms.operator, MetaOperator::Contains));
}

#[test]
fn parse_meta_unknown_operator_is_regex_and_keeps_colons() {
    let ms = parse_meta_search("modified:20..-05:.*Z").expect("should parse");
    assert!(matches!(ms.operator, MetaOperator::Regex));
    assert_eq!(ms.pattern, "20..-05:.*Z");
}

#[test]
fn parse_meta_without_colon_is_an_error() {
    let e = match parse_meta_search("justafield") {
        Err(e) => e,
        Ok(_) => panic!("expected an error"),
    };
    assert_eq!(e, "Invalid meta search format");
}

#[test]
fn size_equals_is_substring_containment() {
    let ms = MetaSearch {
        field: "size".to_string(),
        operator: MetaOperator::Equals,
        pattern: "234".to_string(),
    };
    assert!(matches_metadata(&meta(12345), &ms));
    assert!(!matches_metadata(&meta(999), &ms));
}

#[test]
fn size_greater_than_is_inclusive() {
    let ms = MetaSearch {
        field: "size".to_string(),
        operator: MetaOperator::GreaterThan,
        pattern: "100".to_string(),
    };
    assert!(matches_metadata(&meta(100), &ms));
    assert!(matches_metadata(&meta(101), &ms));
    assert!(!matches_metadata(&meta(99), &ms));
}

#[test]
fn size_bound_unparseable_never_matches() {
    let ms = MetaSearch {
        field: "size".to_string(),
        operator: MetaOperator::LessThan,
        pattern: "ten".to_string(),
    };
    assert!(!matches_metadata(&meta(1), &ms));
}

#[test]
fn size_invalid_regex_matches_everything() {
    let ms = MetaSearch {
        field: "size".to_string(),
        operator: MetaOperator::Regex,
        pattern: "(".to_string(),
    };
    assert!(matches_metadata(&meta(7), &ms));
}

#[test]
fn timestamp_regex_and_equals() {
    let rx = MetaSearch {
        field: "modified".to_string(),
        operator: MetaOperator::Contains,
        pattern: ".*2023.*".to_string(),
    };
    assert!(matches_metadata(&meta(1), &rx));
    let eq = MetaSearch {
        field: "modified".to_string(),
        operator: MetaOperator::Equals,
        pattern: "2023-05-06T07:08:09Z".to_string(),
    };
    assert!(matches_metadata(&meta(1), &eq));
    let eq_miss = MetaSearch {
        field: "modified".to_string(),
        operator: MetaOperator::Equals,
        pattern: "2023".to_string(),
    };
    assert!(!matches_metadata(&meta(1), &eq_miss));
}

#[test]
fn timestamp_other_operator_is_containment() {
    let ms = MetaSearch {
        field: "created".to_string(),
        operator: MetaOperator::GreaterThan,
        pattern: "2022".to_string(),
    };
    assert!(matches_metadata(&meta(1), &ms));
}

#[test]
fn readonly_field_compares_boolean_text() {
    let ms = MetaSearch {
        field: "readonly".to_string(),
        operator: MetaOperator::Equals,
        pattern: "false".to_string(),
    };
    assert!(matches_metadata(&meta(1), &ms));
    let mut m = meta(1);
    m.readonly = true;
    assert!(!matches_metadata(&m, &ms));
}

#[test]
fn unknown_field_never_matches() {
    let ms = MetaSearch {
        field: "owner".to_string(),
        operator: MetaOperator::Contains,
        pattern: ".*".to_string(),
    };
    assert!(!matches_metadata(&meta(1), &ms));
}

#[test]
fn invalid_name_pattern_is_a_configuration_error() {
    let e = match Config::new(vec!["(".to_string()], vec![], vec![], vec![], vec![], false) {
        Err(e) => e,
        Ok(_) => panic!("expected an error"),
    };
    assert_eq!(e, "(");
}

#[test]
fn empty_name_never_matches() {
    let c = cfg(vec![".*"], vec![], vec![], vec![], vec![], false);
    assert!(!c.evaluate_file("", &meta(1)).0);
    assert!(!c.evaluate_dir("", &meta(1)).0);
}

#[test]
fn no_predicates_at_all_matches_everything() {
    let c = cfg(vec![], vec![], vec![], vec![], vec![], false);
    assert!(c.evaluate_file("whatever.bin", &meta(1)).0);
    assert!(c.evaluate_dir("somewhere", &meta(1)).0);
}

#[test]
fn only_dir_patterns_still_match_every_file() {
    let c = cfg(vec![], vec![], vec![".*src.*"], vec![], vec![], false);
    assert!(c.evaluate_file("anything.txt", &meta(1)).0);
    assert!(c.evaluate_dir("library-src", &meta(1)).0);
    assert!(!c.evaluate_dir("other", &meta(1)).0);
}

#[test]
fn only_file_patterns_never_match_directories() {
    let c = cfg(vec![".*log$"], vec![], vec![], vec![], vec![], false);
    assert!(!c.evaluate_dir("logs", &meta(1)).0);
    assert!(c.evaluate_file("a.log", &meta(1)).0);
    assert!(!c.evaluate_file("a.txt", &meta(1)).0);
}

#[test]
fn case_insensitive_patterns_fold_both_sides() {
    let c = cfg(vec![".*LOG$"], vec![], vec![], vec![], vec![], false);
    assert!(c.evaluate_file("NOISE.LOG", &meta(1)).0);
    assert!(c.evaluate_file("noise.log", &meta(1)).0);
}

#[test]
fn case_sensitive_patterns_do_not_fold() {
    let c = cfg(vec![], vec![".*LOG$"], vec![], vec![], vec![], false);
    assert!(c.evaluate_file("NOISE.LOG", &meta(1)).0);
    assert!(!c.evaluate_file("noise.log", &meta(1)).0);
}

#[test]
fn all_mode_intersects_detail_vector() {
    let c = cfg(
        vec![".*log$"],
        vec![],
        vec![],
        vec![],
        vec!["size:>:100"],
        true,
    );
    let (ok, details) = c.evaluate_file("big.log", &meta(500));
    assert!(ok);
    assert_eq!(details, vec![true, true]);
    let (ok, details) = c.evaluate_file("big.txt", &meta(500));
    assert!(!ok);
    assert_eq!(details, vec![false, true]);
}

#[test]
fn any_mode_unions_detail_vector() {
    let c = cfg(
        vec![".*log$"],
        vec![],
        vec![],
        vec![],
        vec!["size:>:100"],
        false,
    );
    let (ok, details) = c.evaluate_file("small.log", &meta(10));
    assert!(ok);
    assert_eq!(details, vec![true, false]);
}

#[test]
fn evaluator_is_idempotent() {
    let c = cfg(
        vec![".*log$", "data"],
        vec!["CASE"],
        vec![],
        vec![],
        vec!["size:>:100", "modified:.*2023.*"],
        false,
    );
    let first = c.evaluate_file("myDATA.log", &meta(250));
    let second = c.evaluate_file("myDATA.log", &meta(250));
    assert_eq!(first.0, second.0);
    assert_eq!(first.1, second.1);
    let d1 = c.evaluate_dir("somewhere", &meta(0));
    let d2 = c.evaluate_dir("somewhere", &meta(0));
    assert_eq!(d1.0, d2.0);
    assert_eq!(d1.1, d2.1);
}

#[test]
fn unparseable_meta_rule_is_dropped_but_still_counts_as_specified() {
    let c = cfg(vec![], vec![], vec![], vec![], vec!["nocolon"], false);
    // metadata was specified, so the pure-listing default is off and the
    // (empty) detail vector unions to false
    assert!(!c.evaluate_file("a.txt", &meta(1)).0);
}
