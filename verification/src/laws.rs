//! The library's general laws, stated over the spec-level tree: how raw
//! totals decompose, that pruning keeps exactly the branches with a match,
//! that the subtree-match flags a build computes are complete, and that
//! children are ordered at every level of a built and of a pruned tree.

use vstd::prelude::*;

use crate::agg::{
    files_matched_count, files_matched_size, files_size, keep_dirs, kept, kept_files, prune_seq, prune_spec,
    sum_p_dirs, sum_p_files, sum_p_size, sum_total_dirs, sum_total_files, sum_total_size,
};
use crate::predicate::GConfig;
use crate::strutil::lex_le;
use crate::tree::{
    any_child_dir_match, any_child_file_match, any_file_matched, build_seq, build_spec,
    dirs_sorted, files_sorted, sort_dirs, sort_files, GDir, GDirEntry, GFile, GFileEntry,
};

verus! {

// ---------------------------------------------------------------------------
// Raw totals decompose over the pre-prune children (the scan-time snapshot)
// ---------------------------------------------------------------------------

/// In the aggregated tree, a directory's raw totals equal its immediate
/// file total plus the raw totals of every child that existed at scan
/// time, pruned or not.
pub proof fn lemma_raw_totals_decompose(d: GDir)
    ensures
        prune_spec(d).total_size == prune_spec(d).immediate_files_size + sum_total_size(
            prune_seq(d.dirs),
        ),
        prune_spec(d).total_files == d.files.len() + sum_total_files(prune_seq(d.dirs)),
        prune_spec(d).total_dirs == sum_total_dirs(prune_seq(d.dirs)),
{
}

// ---------------------------------------------------------------------------
// Pruning correctness
// ---------------------------------------------------------------------------

/// The elements surviving `keep_dirs` are exactly the kept elements of the
/// input, in order.
pub proof fn lemma_keep_dirs_elems(s: Seq<GDir>)
    ensures
        forall|i: int|
            0 <= i < keep_dirs(s).len() ==> kept(#[trigger] keep_dirs(s)[i]) && exists|j: int|
                0 <= j < s.len() && s[j] == keep_dirs(s)[i],
        forall|j: int| 0 <= j < s.len() && kept(#[trigger] s[j]) ==> keep_dirs(s).contains(s[j]),
    decreases s.len(),
{
    if s.len() > 0 {
        lemma_keep_dirs_elems(s.drop_last());
        let t = s.drop_last();
        assert(forall|j: int| 0 <= j < t.len() ==> t[j] == s[j]);
        let k = keep_dirs(s);
        let kt = keep_dirs(t);
        assert forall|i: int| 0 <= i < k.len() implies kept(#[trigger] k[i]) && exists|j: int|
            0 <= j < s.len() && s[j] == k[i] by {
            if i < kt.len() {
                assert(k[i] == kt[i]);
                let j = choose|j: int| 0 <= j < t.len() && t[j] == kt[i];
                assert(s[j] == k[i]);
            } else {
                assert(kept(s.last()));
                assert(k[i] == s.last());
                assert(s[s.len() - 1] == k[i]);
            }
        }
        assert forall|j: int| 0 <= j < s.len() && kept(#[trigger] s[j]) implies k.contains(
            s[j],
        ) by {
            if j < s.len() - 1 {
                assert(kt.contains(t[j]));
                let i = choose|i: int| 0 <= i < kt.len() && kt[i] == t[j];
                assert(k[i] == s[j]);
            } else {
                assert(k[k.len() - 1] == s[j]);
            }
        }
    }
}

/// Pruning correctness: every directory in the aggregated child list is
/// kept (it matched, or holds a file or directory match below); every kept
/// scan-time child survives, aggregated; and the raw totals still count
/// every scan-time child, surviving or not.
pub proof fn lemma_pruning_correct(d: GDir)
    ensures
        forall|i: int| 0 <= i < prune_spec(d).dirs.len() ==> kept(#[trigger] prune_spec(d).dirs[i]),
        forall|j: int|
            0 <= j < d.dirs.len() && kept(#[trigger] prune_spec(d.dirs[j])) ==> prune_spec(
                d,
            ).dirs.contains(prune_spec(d.dirs[j])),
        prune_spec(d).total_size == prune_spec(d).immediate_files_size + sum_total_size(
            prune_seq(d.dirs),
        ),
{
    let cs = prune_seq(d.dirs);
    lemma_keep_dirs_elems(cs);
    crate::agg::lemma_prune_seq_index(d.dirs);
    assert forall|j: int|
        0 <= j < d.dirs.len() && kept(#[trigger] prune_spec(d.dirs[j])) implies prune_spec(
        d,
    ).dirs.contains(prune_spec(d.dirs[j])) by {
        assert(cs[j] == prune_spec(d.dirs[j]));
        assert(kept(cs[j]));
        assert(keep_dirs(cs).contains(cs[j]));
    }
}

// ---------------------------------------------------------------------------
// Propagation completeness of the build pass
// ---------------------------------------------------------------------------

/// Whether some file anywhere in the subtree matched.
pub open spec fn subtree_file_match(d: GDir) -> bool
    decreases d,
{
    any_file_matched(d.files) || subtree_file_match_seq(d.dirs)
}

/// `subtree_file_match` over a child list.
pub open spec fn subtree_file_match_seq(s: Seq<GDir>) -> bool
    decreases s,
{
    if s.len() == 0 {
        false
    } else {
        subtree_file_match_seq(s.drop_last()) || subtree_file_match(s.last())
    }
}

/// Whether some directory strictly below matched.
pub open spec fn subtree_dir_match(d: GDir) -> bool
    decreases d,
{
    subtree_dir_match_seq(d.dirs)
}

/// `subtree_dir_match` over a child list: a child that matched itself, or
/// one with a matching directory below it.
pub open spec fn subtree_dir_match_seq(s: Seq<GDir>) -> bool
    decreases s,
{
    if s.len() == 0 {
        false
    } else {
        subtree_dir_match_seq(s.drop_last()) || s.last().matched || subtree_dir_match(s.last())
    }
}

/// Whether the two subtree-match flags are truthful at this node and at
/// every node below it.
pub open spec fn flags_correct(d: GDir) -> bool
    decreases d,
{
    d.has_file_match == subtree_file_match(d) && d.has_dir_match == subtree_dir_match(d)
        && flags_correct_seq(d.dirs)
}

/// `flags_correct` over a child list.
pub open spec fn flags_correct_seq(s: Seq<GDir>) -> bool
    decreases s,
{
    if s.len() == 0 {
        true
    } else {
        flags_correct_seq(s.drop_last()) && flags_correct(s.last())
    }
}

/// `flags_correct_seq` is the pointwise statement.
pub proof fn lemma_flags_correct_seq_index(s: Seq<GDir>)
    ensures
        flags_correct_seq(s) <==> (forall|i: int| 0 <= i < s.len() ==> flags_correct(#[trigger] s[i])),
    decreases s.len(),
{
    if s.len() > 0 {
        lemma_flags_correct_seq_index(s.drop_last());
        assert(forall|i: int| 0 <= i < s.len() - 1 ==> s.drop_last()[i] == s[i]);
        assert(s[s.len() - 1] == s.last());
    }
}

/// With truthful flags on every element, the flag disjunctions over a list
/// agree with the subtree statements.
proof fn lemma_flag_or_seq(s: Seq<GDir>)
    requires
        forall|i: int| 0 <= i < s.len() ==> flags_correct(#[trigger] s[i]),
    ensures
        any_child_file_match(s) == subtree_file_match_seq(s),
        any_child_dir_match(s) == subtree_dir_match_seq(s),
    decreases s.len(),
{
    if s.len() > 0 {
        assert(forall|i: int| 0 <= i < s.len() - 1 ==> s.drop_last()[i] == s[i]);
        lemma_flag_or_seq(s.drop_last());
        assert(flags_correct(s[s.len() - 1]));
    }
}

/// Truthful flags carry over to any list drawn from the same elements.
proof fn lemma_flags_correct_transfer(s: Seq<GDir>, t: Seq<GDir>)
    requires
        flags_correct_seq(s),
        forall|i: int|
            0 <= i < t.len() ==> exists|j: int| 0 <= j < s.len() && s[j] == #[trigger] t[i],
    ensures
        flags_correct_seq(t),
{
    lemma_flags_correct_seq_index(s);
    lemma_flags_correct_seq_index(t);
    assert forall|i: int| 0 <= i < t.len() implies flags_correct(#[trigger] t[i]) by {
        let j = choose|j: int| 0 <= j < s.len() && s[j] == t[i];
        assert(flags_correct(s[j]));
    }
}

/// The exists-characterizations of the subtree disjunctions.
pub proof fn lemma_subtree_seq_exists(s: Seq<GDir>)
    ensures
        subtree_file_match_seq(s) <==> (exists|j: int|
            0 <= j < s.len() && subtree_file_match(#[trigger] s[j])),
        subtree_dir_match_seq(s) <==> (exists|j: int|
            0 <= j < s.len() && (#[trigger] s[j].matched || subtree_dir_match(s[j]))),
    decreases s.len(),
{
    if s.len() > 0 {
        let t = s.drop_last();
        lemma_subtree_seq_exists(t);
        assert(forall|i: int| 0 <= i < s.len() - 1 ==> t[i] == s[i]);
        assert(s[s.len() - 1] == s.last());
        if subtree_file_match_seq(s) {
            if subtree_file_match_seq(t) {
                let j = choose|j: int| 0 <= j < t.len() && subtree_file_match(#[trigger] t[j]);
                assert(subtree_file_match(s[j]));
            } else {
                assert(subtree_file_match(s[s.len() - 1]));
            }
        }
        assert forall|j: int|
            0 <= j < s.len() && subtree_file_match(#[trigger] s[j]) implies subtree_file_match_seq(
            s,
        ) by {
            if j < s.len() - 1 {
                assert(t[j] == s[j]);
                assert(subtree_file_match(t[j]));
                assert(subtree_file_match_seq(t));
            }
        }
        if subtree_dir_match_seq(s) {
            if subtree_dir_match_seq(t) {
                let j = choose|j: int|
                    0 <= j < t.len() && (#[trigger] t[j].matched || subtree_dir_match(t[j]));
                assert(s[j].matched || subtree_dir_match(s[j]));
            } else {
                assert(s[s.len() - 1].matched || subtree_dir_match(s[s.len() - 1]));
            }
        }
        assert forall|j: int|
            0 <= j < s.len() && (#[trigger] s[j].matched || subtree_dir_match(s[j]))
            implies subtree_dir_match_seq(s) by {
            if j < s.len() - 1 {
                assert(t[j] == s[j]);
                assert(t[j].matched || subtree_dir_match(t[j]));
                assert(subtree_dir_match_seq(t));
            }
        }
    }
}

/// Every element of a sorted directory list came from the input list.
pub proof fn lemma_sort_dirs_elems(s: Seq<GDir>)
    ensures
        sort_dirs(s).len() == s.len(),
        forall|i: int|
            0 <= i < sort_dirs(s).len() ==> exists|j: int|
                0 <= j < s.len() && s[j] == #[trigger] sort_dirs(s)[i],
    decreases s.len(),
{
    if s.len() > 0 {
        let t = s.drop_last();
        lemma_sort_dirs_elems(t);
        crate::tree::lemma_insert_dir_elems(sort_dirs(t), s.last());
        let r = sort_dirs(s);
        assert forall|i: int| 0 <= i < r.len() implies exists|j: int|
            0 <= j < s.len() && s[j] == #[trigger] r[i] by {
            if r[i] == s.last() {
                assert(s[s.len() - 1] == r[i]);
            } else {
                let k = choose|k: int| 0 <= k < sort_dirs(t).len() && sort_dirs(t)[k] == r[i];
                let j = choose|j: int| 0 <= j < t.len() && t[j] == sort_dirs(t)[k];
                assert(s[j] == r[i]);
            }
        }
    }
}

/// Propagation completeness: in a built tree, every node's
/// `subtree_has_file_match` flag is true exactly when some file at any
/// depth beneath it matched, and `subtree_has_dir_match` exactly when some
/// directory strictly beneath it matched — so every ancestor of a matching
/// node carries the flag after the build pass, before any pruning.
pub proof fn lemma_build_flags_correct(e: GDirEntry, depth: nat, max_depth: nat, cfg: GConfig)
    ensures
        flags_correct(build_spec(e, depth, max_depth, cfg)),
    decreases e,
{
    let b = build_spec(e, depth, max_depth, cfg);
    if depth >= max_depth {
    } else {
        let bs = build_seq(e.dirs, (depth + 1) as nat, max_depth, cfg);
        let ds = sort_dirs(bs);
        lemma_build_flags_correct_seq(e.dirs, (depth + 1) as nat, max_depth, cfg);
        lemma_sort_dirs_elems(bs);
        lemma_flags_correct_transfer(bs, ds);
        lemma_flags_correct_seq_index(ds);
        lemma_flag_or_seq(ds);
    }
}

/// `lemma_build_flags_correct` over a child list.
pub proof fn lemma_build_flags_correct_seq(
    s: Seq<GDirEntry>,
    depth: nat,
    max_depth: nat,
    cfg: GConfig,
)
    ensures
        flags_correct_seq(build_seq(s, depth, max_depth, cfg)),
    decreases s,
{
    if s.len() > 0 {
        lemma_build_flags_correct_seq(s.drop_last(), depth, max_depth, cfg);
        lemma_build_flags_correct(s.last(), depth, max_depth, cfg);
        let b = build_seq(s, depth, max_depth, cfg);
        assert(b.drop_last() =~= build_seq(s.drop_last(), depth, max_depth, cfg));
        assert(b.last() == build_spec(s.last(), depth, max_depth, cfg));
    }
}

// ---------------------------------------------------------------------------
// Ordering at every level
// ---------------------------------------------------------------------------

/// Whether, at this node and below, sibling files stand in name order and
/// sibling directories in path order.
pub open spec fn tree_sorted(d: GDir) -> bool
    decreases d,
{
    files_sorted(d.files) && dirs_sorted(d.dirs) && tree_sorted_seq(d.dirs)
}

/// `tree_sorted` over a child list.
pub open spec fn tree_sorted_seq(s: Seq<GDir>) -> bool
    decreases s,
{
    if s.len() == 0 {
        true
    } else {
        tree_sorted_seq(s.drop_last()) && tree_sorted(s.last())
    }
}

/// `tree_sorted_seq` is the pointwise statement.
pub proof fn lemma_tree_sorted_seq_index(s: Seq<GDir>)
    ensures
        tree_sorted_seq(s) <==> (forall|i: int| 0 <= i < s.len() ==> tree_sorted(#[trigger] s[i])),
    decreases s.len(),
{
    if s.len() > 0 {
        lemma_tree_sorted_seq_index(s.drop_last());
        assert(forall|i: int| 0 <= i < s.len() - 1 ==> s.drop_last()[i] == s[i]);
        assert(s[s.len() - 1] == s.last());
    }
}

/// Sorted subtrees carry over to any list drawn from the same elements.
proof fn lemma_tree_sorted_transfer(s: Seq<GDir>, t: Seq<GDir>)
    requires
        tree_sorted_seq(s),
        forall|i: int|
            0 <= i < t.len() ==> exists|j: int| 0 <= j < s.len() && s[j] == #[trigger] t[i],
    ensures
        tree_sorted_seq(t),
{
    lemma_tree_sorted_seq_index(s);
    lemma_tree_sorted_seq_index(t);
    assert forall|i: int| 0 <= i < t.len() implies tree_sorted(#[trigger] t[i]) by {
        let j = choose|j: int| 0 <= j < s.len() && s[j] == t[i];
        assert(tree_sorted(s[j]));
    }
}

/// Ordering: a built tree is name- and path-sorted at every level.
pub proof fn lemma_build_sorted(e: GDirEntry, depth: nat, max_depth: nat, cfg: GConfig)
    ensures
        tree_sorted(build_spec(e, depth, max_depth, cfg)),
    decreases e,
{
    if depth >= max_depth {
    } else {
        let fs0 = crate::tree::eval_files(e.files, cfg);
        let bs = build_seq(e.dirs, (depth + 1) as nat, max_depth, cfg);
        let ds = sort_dirs(bs);
        crate::tree::lemma_sort_files_sorted(fs0);
        crate::tree::lemma_sort_dirs_sorted(bs);
        lemma_build_sorted_seq(e.dirs, (depth + 1) as nat, max_depth, cfg);
        lemma_sort_dirs_elems(bs);
        lemma_tree_sorted_transfer(bs, ds);
    }
}

/// `lemma_build_sorted` over a child list.
pub proof fn lemma_build_sorted_seq(s: Seq<GDirEntry>, depth: nat, max_depth: nat, cfg: GConfig)
    ensures
        tree_sorted_seq(build_seq(s, depth, max_depth, cfg)),
    decreases s,
{
    if s.len() > 0 {
        lemma_build_sorted_seq(s.drop_last(), depth, max_depth, cfg);
        lemma_build_sorted(s.last(), depth, max_depth, cfg);
        let b = build_seq(s, depth, max_depth, cfg);
        assert(b.drop_last() =~= build_seq(s.drop_last(), depth, max_depth, cfg));
        assert(b.last() == build_spec(s.last(), depth, max_depth, cfg));
    }
}

/// Every element of `kept_files` is an element of the input.
proof fn lemma_kept_files_elems(s: Seq<GFile>)
    ensures
        kept_files(s).len() <= s.len(),
        forall|i: int|
            0 <= i < kept_files(s).len() ==> exists|j: int|
                0 <= j < s.len() && s[j] == #[trigger] kept_files(s)[i],
    decreases s.len(),
{
    if s.len() > 0 {
        let t = s.drop_last();
        lemma_kept_files_elems(t);
        assert(forall|j: int| 0 <= j < t.len() ==> t[j] == s[j]);
        let k = kept_files(s);
        assert forall|i: int| 0 <= i < k.len() implies exists|j: int|
            0 <= j < s.len() && s[j] == #[trigger] k[i] by {
            if i < kept_files(t).len() {
                assert(k[i] == kept_files(t)[i]);
                let j = choose|j: int| 0 <= j < t.len() && t[j] == kept_files(t)[i];
                assert(s[j] == k[i]);
            } else {
                assert(k[i] == s.last());
                assert(s[s.len() - 1] == k[i]);
            }
        }
    }
}

/// Removing unmatched files keeps the name order.
proof fn lemma_kept_files_sorted(s: Seq<GFile>)
    requires
        files_sorted(s),
    ensures
        files_sorted(kept_files(s)),
    decreases s.len(),
{
    if s.len() > 0 {
        let t = s.drop_last();
        assert(forall|j: int| 0 <= j < t.len() ==> t[j] == s[j]);
        assert(forall|i: int, j: int|
            0 <= i < j < t.len() ==> lex_le(#[trigger] t[i].name, #[trigger] t[j].name));
        lemma_kept_files_sorted(t);
        lemma_kept_files_elems(t);
        let k = kept_files(s);
        if kept_files(s).len() > kept_files(t).len() {
            assert forall|i: int, j: int| 0 <= i < j < k.len() implies lex_le(
                #[trigger] k[i].name,
                #[trigger] k[j].name,
            ) by {
                if j < k.len() - 1 {
                    assert(k[i] == kept_files(t)[i] && k[j] == kept_files(t)[j]);
                } else {
                    assert(k[j] == s.last());
                    assert(k[i] == kept_files(t)[i]);
                    let m = choose|m: int| 0 <= m < t.len() && t[m] == kept_files(t)[i];
                    if m < s.len() - 1 {
                        assert(lex_le(s[m].name, s[s.len() - 1].name));
                    }
                }
            }
        }
    }
}

/// Removing dead branches keeps the path order.
proof fn lemma_keep_dirs_sorted(s: Seq<GDir>)
    requires
        dirs_sorted(s),
    ensures
        dirs_sorted(keep_dirs(s)),
    decreases s.len(),
{
    if s.len() > 0 {
        let t = s.drop_last();
        assert(forall|j: int| 0 <= j < t.len() ==> t[j] == s[j]);
        assert(forall|i: int, j: int|
            0 <= i < j < t.len() ==> lex_le(#[trigger] t[i].path, #[trigger] t[j].path));
        lemma_keep_dirs_sorted(t);
        lemma_keep_dirs_elems(t);
        let k = keep_dirs(s);
        if keep_dirs(s).len() > keep_dirs(t).len() {
            assert forall|i: int, j: int| 0 <= i < j < k.len() implies lex_le(
                #[trigger] k[i].path,
                #[trigger] k[j].path,
            ) by {
                if j < k.len() - 1 {
                    assert(k[i] == keep_dirs(t)[i] && k[j] == keep_dirs(t)[j]);
                } else {
                    assert(k[j] == s.last());
                    assert(k[i] == keep_dirs(t)[i]);
                    let m = choose|m: int| 0 <= m < t.len() && t[m] == keep_dirs(t)[i];
                    if m < s.len() - 1 {
                        assert(lex_le(s[m].path, s[s.len() - 1].path));
                    }
                }
            }
        }
    }
}

/// Ordering survives the prune pass: the aggregated tree is still sorted
/// at every level.
pub proof fn lemma_prune_sorted(d: GDir)
    requires
        tree_sorted(d),
    ensures
        tree_sorted(prune_spec(d)),
    decreases d,
{
    let cs = prune_seq(d.dirs);
    let ks = keep_dirs(cs);
    lemma_kept_files_sorted(d.files);
    crate::agg::lemma_prune_seq_index(d.dirs);
    assert forall|i: int, j: int| 0 <= i < j < cs.len() implies lex_le(
        #[trigger] cs[i].path,
        #[trigger] cs[j].path,
    ) by {
        assert(cs[i] == prune_spec(d.dirs[i]) && cs[j] == prune_spec(d.dirs[j]));
        assert(lex_le(d.dirs[i].path, d.dirs[j].path));
    }
    lemma_keep_dirs_sorted(cs);
    lemma_prune_sorted_seq(d.dirs);
    lemma_tree_sorted_seq_index(cs);
    lemma_keep_dirs_elems(cs);
    lemma_tree_sorted_transfer(cs, ks);
}

/// `lemma_prune_sorted` over a child list: each aggregated child is
/// sorted, provided the pre-prune children were.
pub proof fn lemma_prune_sorted_seq(s: Seq<GDir>)
    requires
        tree_sorted_seq(s),
    ensures
        tree_sorted_seq(prune_seq(s)),
    decreases s,
{
    if s.len() > 0 {
        lemma_prune_sorted_seq(s.drop_last());
        lemma_prune_sorted(s.last());
        let p = prune_seq(s);
        assert(p.drop_last() =~= prune_seq(s.drop_last()));
        assert(p.last() == prune_spec(s.last()));
    }
}

// ---------------------------------------------------------------------------
// Filtered totals against raw totals
// ---------------------------------------------------------------------------

/// Whether every file of the list matched.
pub open spec fn files_all_matched(s: Seq<GFile>) -> bool {
    forall|i: int| 0 <= i < s.len() ==> (#[trigger] s[i]).matched
}

/// Whether every file anywhere in the subtree matched.
pub open spec fn all_files_matched(d: GDir) -> bool
    decreases d,
{
    files_all_matched(d.files) && all_files_matched_seq(d.dirs)
}

/// `all_files_matched` over a child list.
pub open spec fn all_files_matched_seq(s: Seq<GDir>) -> bool
    decreases s,
{
    if s.len() == 0 {
        true
    } else {
        all_files_matched_seq(s.drop_last()) && all_files_matched(s.last())
    }
}

/// Whether every file anywhere in the subtree has a nonzero size.
pub open spec fn sizes_positive(d: GDir) -> bool
    decreases d,
{
    (forall|i: int| 0 <= i < d.files.len() ==> (#[trigger] d.files[i]).size >= 1)
        && sizes_positive_seq(d.dirs)
}

/// `sizes_positive` over a child list.
pub open spec fn sizes_positive_seq(s: Seq<GDir>) -> bool
    decreases s,
{
    if s.len() == 0 {
        true
    } else {
        sizes_positive_seq(s.drop_last()) && sizes_positive(s.last())
    }
}

/// With nonzero sizes, the matched files weigh the whole exactly when all
/// matched.
proof fn lemma_files_eq_iff(s: Seq<GFile>)
    requires
        forall|i: int| 0 <= i < s.len() ==> (#[trigger] s[i]).size >= 1,
    ensures
        (files_matched_size(s) == files_size(s)) <==> files_all_matched(s),
        files_matched_size(s) <= files_size(s),
    decreases s.len(),
{
    if s.len() > 0 {
        let t = s.drop_last();
        assert(forall|i: int| 0 <= i < t.len() ==> t[i] == s[i]);
        lemma_files_eq_iff(t);
        if files_matched_size(s) == files_size(s) {
            assert(s[s.len() - 1].matched);
            assert(files_all_matched(t));
            assert forall|i: int| 0 <= i < s.len() implies (#[trigger] s[i]).matched by {
                if i < s.len() - 1 {
                    assert(t[i].matched);
                }
            }
        }
        if files_all_matched(s) {
            assert(files_all_matched(t));
            assert(s[s.len() - 1].matched);
        }
    }
}

/// An all-matched file list weighs and counts the whole.
proof fn lemma_files_all_matched_sums(s: Seq<GFile>)
    requires
        files_all_matched(s),
    ensures
        files_matched_size(s) == files_size(s),
        files_matched_count(s) == s.len(),
    decreases s.len(),
{
    if s.len() > 0 {
        let t = s.drop_last();
        assert(forall|i: int| 0 <= i < t.len() ==> t[i] == s[i]);
        lemma_files_all_matched_sums(t);
        assert(s[s.len() - 1].matched);
    }
}

/// `any_file_matched` is the exists-statement.
proof fn lemma_any_file_exists(s: Seq<GFile>)
    ensures
        any_file_matched(s) <==> (exists|i: int| 0 <= i < s.len() && (#[trigger] s[i]).matched),
    decreases s.len(),
{
    if s.len() > 0 {
        let t = s.drop_last();
        lemma_any_file_exists(t);
        assert(forall|i: int| 0 <= i < t.len() ==> t[i] == s[i]);
        if any_file_matched(t) {
            let i = choose|i: int| 0 <= i < t.len() && (#[trigger] t[i]).matched;
            assert(s[i].matched);
        }
        if any_file_matched(s) && !any_file_matched(t) {
            assert(s[s.len() - 1].matched);
        }
        assert forall|i: int|
            0 <= i < s.len() && (#[trigger] s[i]).matched implies any_file_matched(s) by {
            if i < s.len() - 1 {
                assert(t[i].matched);
            }
        }
    }
}

/// The last file\'s size is bounded by the total.
proof fn lemma_files_last_le(s: Seq<GFile>)
    requires
        s.len() > 0,
    ensures
        files_size(s) >= s.last().size,
{
}

/// A subtree whose raw size is zero holds only matched files (namely none),
/// provided every file weighs at least one byte.
proof fn lemma_total_zero_all_matched(d: GDir)
    requires
        sizes_positive(d),
        prune_spec(d).total_size == 0,
    ensures
        all_files_matched(d),
        !subtree_file_match(d),
    decreases d,
{
    let cs = prune_seq(d.dirs);
    assert(files_size(d.files) == 0);
    lemma_files_eq_iff(d.files);
    if d.files.len() > 0 {
        assert(files_size(d.files) >= d.files.last().size) by {
            lemma_files_last_le(d.files);
        }
        assert(false);
    }
    lemma_any_file_exists(d.files);
    crate::agg::lemma_prune_seq_index(d.dirs);
    lemma_total_zero_all_matched_seq(d.dirs);
}

/// `lemma_total_zero_all_matched` over a child list with zero raw sum.
proof fn lemma_total_zero_all_matched_seq(s: Seq<GDir>)
    requires
        sizes_positive_seq(s),
        sum_total_size(prune_seq(s)) == 0,
    ensures
        all_files_matched_seq(s),
        !subtree_file_match_seq(s),
    decreases s,
{
    if s.len() > 0 {
        let t = s.drop_last();
        assert(prune_seq(s).drop_last() =~= prune_seq(t));
        assert(prune_seq(s).last() == prune_spec(s.last()));
        lemma_total_zero_all_matched_seq(t);
        lemma_total_zero_all_matched(s.last());
    }
}

/// With truthful flags, a branch no file of which matched — while every
/// file in it matched — holds no file at all, so its raw size is zero.
proof fn lemma_unkept_total_zero(d: GDir)
    requires
        flags_correct(d),
        all_files_matched(d),
        !d.has_file_match,
    ensures
        prune_spec(d).total_size == 0,
    decreases d,
{
    lemma_any_file_exists(d.files);
    if d.files.len() > 0 {
        assert(d.files[0].matched);
        assert(any_file_matched(d.files));
        assert(subtree_file_match(d));
        assert(false);
    }
    assert(files_size(d.files) == 0);
    crate::agg::lemma_prune_seq_index(d.dirs);
    lemma_flags_correct_seq_index(d.dirs);
    lemma_subtree_seq_exists(d.dirs);
    lemma_unkept_total_zero_seq(d.dirs);
}

/// `lemma_unkept_total_zero` over a child list.
proof fn lemma_unkept_total_zero_seq(s: Seq<GDir>)
    requires
        flags_correct_seq(s),
        all_files_matched_seq(s),
        !subtree_file_match_seq(s),
    ensures
        sum_total_size(prune_seq(s)) == 0,
    decreases s,
{
    if s.len() > 0 {
        let t = s.drop_last();
        assert(prune_seq(s).drop_last() =~= prune_seq(t));
        assert(prune_seq(s).last() == prune_spec(s.last()));
        lemma_unkept_total_zero_seq(t);
        let c = s.last();
        assert(!subtree_file_match(c));
        assert(flags_correct(c));
        assert(!c.has_file_match);
        lemma_unkept_total_zero(c);
    }
}

/// Filtered size equals raw size over a child list exactly when every file
/// beneath every child matched, given truthful flags and nonzero sizes.
proof fn lemma_sums_eq_iff(s: Seq<GDir>)
    requires
        flags_correct_seq(s),
        sizes_positive_seq(s),
    ensures
        (sum_p_size(keep_dirs(prune_seq(s))) == sum_total_size(prune_seq(s)))
            <==> all_files_matched_seq(s),
        sum_p_size(keep_dirs(prune_seq(s))) <= sum_total_size(prune_seq(s)),
    decreases s,
{
    if s.len() > 0 {
        let t = s.drop_last();
        let c = s.last();
        let cs = prune_seq(s);
        let pt = prune_seq(t);
        let cp = prune_spec(c);
        assert(cs.drop_last() =~= pt);
        assert(cs.last() == cp);
        lemma_sums_eq_iff(t);
        lemma_filtered_eq_iff(c);
        crate::agg::lemma_filtered_le_raw(c);
        if kept(cp) {
            assert(keep_dirs(cs) =~= keep_dirs(pt).push(cp));
            assert(keep_dirs(cs).drop_last() =~= keep_dirs(pt));
            assert(sum_p_size(keep_dirs(cs)) == sum_p_size(keep_dirs(pt)) + cp.p_total_size);
            if sum_p_size(keep_dirs(cs)) == sum_total_size(cs) {
                assert(sum_p_size(keep_dirs(pt)) == sum_total_size(pt));
                assert(cp.p_total_size == cp.total_size);
            }
            if all_files_matched_seq(s) {
                assert(all_files_matched(c));
            }
        } else {
            assert(keep_dirs(cs) =~= keep_dirs(pt));
            assert(kept(cp) == kept(c));
            assert(!c.has_file_match);
            if sum_p_size(keep_dirs(cs)) == sum_total_size(cs) {
                assert(sum_p_size(keep_dirs(pt)) <= sum_total_size(pt));
                assert(cp.total_size == 0);
                lemma_total_zero_all_matched(c);
            }
            if all_files_matched_seq(s) {
                assert(all_files_matched(c));
                lemma_unkept_total_zero(c);
                assert(cp.total_size == 0);
            }
        }
    }
}

/// In an aggregated tree with truthful flags and nonzero file sizes, the
/// filtered size total is bounded by the raw one, with equality exactly
/// when every file in the subtree matched. (A zero-size unmatched file, or
/// an unmatched empty branch, makes the totals coincide without that.)
pub proof fn lemma_filtered_eq_iff(d: GDir)
    requires
        flags_correct(d),
        sizes_positive(d),
    ensures
        prune_spec(d).p_total_size <= prune_spec(d).total_size,
        (prune_spec(d).p_total_size == prune_spec(d).total_size) <==> all_files_matched(d),
    decreases d,
{
    let cs = prune_seq(d.dirs);
    let ks = keep_dirs(cs);
    lemma_files_eq_iff(d.files);
    lemma_flags_correct_seq_index(d.dirs);
    lemma_sums_eq_iff(d.dirs);
}

// ---------------------------------------------------------------------------
// Pure listing mode
// ---------------------------------------------------------------------------

/// Whether every node of the subtree — the directory itself, every file
/// and every descendant — carries a positive match.
pub open spec fn everything_matched(d: GDir) -> bool
    decreases d,
{
    d.matched && files_all_matched(d.files) && everything_matched_seq(d.dirs)
}

/// `everything_matched` over a child list.
pub open spec fn everything_matched_seq(s: Seq<GDir>) -> bool
    decreases s,
{
    if s.len() == 0 {
        true
    } else {
        everything_matched_seq(s.drop_last()) && everything_matched(s.last())
    }
}

/// Keeping everything keeps the list.
proof fn lemma_keep_all(s: Seq<GDir>)
    requires
        forall|i: int| 0 <= i < s.len() ==> kept(#[trigger] s[i]),
    ensures
        keep_dirs(s) == s,
    decreases s.len(),
{
    if s.len() > 0 {
        assert(forall|i: int| 0 <= i < s.len() - 1 ==> s.drop_last()[i] == s[i]);
        lemma_keep_all(s.drop_last());
        assert(kept(s[s.len() - 1]));
        assert(keep_dirs(s) =~= s);
    }
}

/// Keeping every file keeps the list.
proof fn lemma_kept_files_all(s: Seq<GFile>)
    requires
        files_all_matched(s),
    ensures
        kept_files(s) == s,
    decreases s.len(),
{
    if s.len() > 0 {
        assert(forall|i: int| 0 <= i < s.len() - 1 ==> s.drop_last()[i] == s[i]);
        lemma_kept_files_all(s.drop_last());
        assert(s[s.len() - 1].matched);
        assert(kept_files(s) =~= s);
    }
}

/// Pointwise equal filtered and raw child statistics give equal sums.
proof fn lemma_sums_pointwise_eq(s: Seq<GDir>)
    requires
        forall|i: int|
            0 <= i < s.len() ==> (#[trigger] s[i].p_total_size == s[i].total_size
                && s[i].p_total_files == s[i].total_files && s[i].p_total_dirs
                == s[i].total_dirs),
    ensures
        sum_p_size(s) == sum_total_size(s),
        sum_p_files(s) == sum_total_files(s),
        sum_p_dirs(s) == sum_total_dirs(s),
    decreases s.len(),
{
    if s.len() > 0 {
        assert(forall|i: int| 0 <= i < s.len() - 1 ==> s.drop_last()[i] == s[i]);
        lemma_sums_pointwise_eq(s.drop_last());
        assert(s[s.len() - 1].p_total_size == s[s.len() - 1].total_size);
    }
}

/// When everything matched, the prune pass removes nothing and the
/// filtered statistics equal the raw ones.
pub proof fn lemma_everything_matched_no_pruning(d: GDir)
    requires
        everything_matched(d),
    ensures
        prune_spec(d).files == d.files,
        prune_spec(d).dirs == prune_seq(d.dirs),
        prune_spec(d).p_immediate_files_size == prune_spec(d).immediate_files_size,
        prune_spec(d).p_total_size == prune_spec(d).total_size,
        prune_spec(d).p_total_files == prune_spec(d).total_files,
        prune_spec(d).p_total_dirs == prune_spec(d).total_dirs,
    decreases d,
{
    let cs = prune_seq(d.dirs);
    lemma_files_all_matched_sums(d.files);
    lemma_kept_files_all(d.files);
    crate::agg::lemma_prune_seq_index(d.dirs);
    lemma_everything_matched_no_pruning_seq(d.dirs);
    assert forall|i: int| 0 <= i < cs.len() implies kept(#[trigger] cs[i]) by {
        assert(cs[i] == prune_spec(d.dirs[i]));
    }
    lemma_keep_all(cs);
    lemma_sums_pointwise_eq(cs);
}

/// `lemma_everything_matched_no_pruning` over a child list, pointwise.
pub proof fn lemma_everything_matched_no_pruning_seq(s: Seq<GDir>)
    requires
        everything_matched_seq(s),
    ensures
        forall|i: int|
            0 <= i < s.len() ==> (#[trigger] prune_seq(s)[i].matched && prune_seq(
                s,
            )[i].p_total_size == prune_seq(s)[i].total_size && prune_seq(s)[i].p_total_files
                == prune_seq(s)[i].total_files && prune_seq(s)[i].p_total_dirs == prune_seq(
                s,
            )[i].total_dirs),
    decreases s,
{
    if s.len() > 0 {
        let t = s.drop_last();
        assert(forall|i: int| 0 <= i < t.len() ==> t[i] == s[i]);
        lemma_everything_matched_no_pruning_seq(t);
        lemma_everything_matched_no_pruning(s.last());
        crate::agg::lemma_prune_seq_index(s);
        crate::agg::lemma_prune_seq_index(t);
        assert(everything_matched(s[s.len() - 1]));
    }
}

/// Whether no name anywhere in the description is empty.
pub open spec fn names_nonempty(e: GDirEntry) -> bool
    decreases e,
{
    e.name.len() > 0 && (forall|i: int|
        0 <= i < e.files.len() ==> (#[trigger] e.files[i]).name.len() > 0)
        && names_nonempty_seq(e.dirs)
}

/// `names_nonempty` over a child list.
pub open spec fn names_nonempty_seq(s: Seq<GDirEntry>) -> bool
    decreases s,
{
    if s.len() == 0 {
        true
    } else {
        names_nonempty_seq(s.drop_last()) && names_nonempty(s.last())
    }
}

/// `eval_files` maps elementwise.
proof fn lemma_eval_files_index(s: Seq<GFileEntry>, cfg: GConfig)
    ensures
        crate::tree::eval_files(s, cfg).len() == s.len(),
        forall|i: int|
            0 <= i < s.len() ==> crate::tree::eval_files(s, cfg)[i] == crate::tree::file_of(
                #[trigger] s[i],
                cfg,
            ),
    decreases s.len(),
{
    if s.len() > 0 {
        lemma_eval_files_index(s.drop_last(), cfg);
        assert(forall|i: int| 0 <= i < s.len() - 1 ==> s.drop_last()[i] == s[i]);
    }
}

/// Every element of a sorted file list came from the input list.
proof fn lemma_sort_files_elems(s: Seq<GFile>)
    ensures
        sort_files(s).len() == s.len(),
        forall|i: int|
            0 <= i < sort_files(s).len() ==> exists|j: int|
                0 <= j < s.len() && s[j] == #[trigger] sort_files(s)[i],
    decreases s.len(),
{
    if s.len() > 0 {
        let t = s.drop_last();
        lemma_sort_files_elems(t);
        crate::tree::lemma_insert_file_elems(sort_files(t), s.last());
        let r = sort_files(s);
        assert forall|i: int| 0 <= i < r.len() implies exists|j: int|
            0 <= j < s.len() && s[j] == #[trigger] r[i] by {
            if r[i] == s.last() {
                assert(s[s.len() - 1] == r[i]);
            } else {
                let k = choose|k: int| 0 <= k < sort_files(t).len() && sort_files(t)[k] == r[i];
                let j = choose|j: int| 0 <= j < t.len() && t[j] == sort_files(t)[k];
                assert(s[j] == r[i]);
            }
        }
    }
}

/// In pure listing mode — no name pattern of either kind and no metadata
/// rule — a build marks every file and every directory matched, as long
/// as no name is degenerate (empty).
pub proof fn lemma_listing_mode_all_matched(e: GDirEntry, depth: nat, max_depth: nat, cfg: GConfig)
    requires
        !cfg.files_specified(),
        !cfg.dirs_specified(),
        !cfg.meta_specified,
        names_nonempty(e),
    ensures
        everything_matched(build_spec(e, depth, max_depth, cfg)),
    decreases e,
{
    let b = build_spec(e, depth, max_depth, cfg);
    if depth >= max_depth {
    } else {
        let fs0 = crate::tree::eval_files(e.files, cfg);
        let fs = sort_files(fs0);
        let bs = build_seq(e.dirs, (depth + 1) as nat, max_depth, cfg);
        let ds = sort_dirs(bs);
        lemma_eval_files_index(e.files, cfg);
        assert forall|i: int| 0 <= i < fs0.len() implies (#[trigger] fs0[i]).matched by {
            assert(fs0[i] == crate::tree::file_of(e.files[i], cfg));
        }
        lemma_sort_files_elems(fs0);
        assert forall|i: int| 0 <= i < fs.len() implies (#[trigger] fs[i]).matched by {
            let j = choose|j: int| 0 <= j < fs0.len() && fs0[j] == fs[i];
        }
        lemma_listing_mode_all_matched_seq(e.dirs, (depth + 1) as nat, max_depth, cfg);
        lemma_everything_matched_seq_index(bs);
        lemma_sort_dirs_elems(bs);
        lemma_everything_matched_seq_index(ds);
        assert forall|i: int| 0 <= i < ds.len() implies everything_matched(#[trigger] ds[i]) by {
            let j = choose|j: int| 0 <= j < bs.len() && bs[j] == ds[i];
            assert(everything_matched(bs[j]));
        }
    }
}

/// `lemma_listing_mode_all_matched` over a child list.
pub proof fn lemma_listing_mode_all_matched_seq(
    s: Seq<GDirEntry>,
    depth: nat,
    max_depth: nat,
    cfg: GConfig,
)
    requires
        !cfg.files_specified(),
        !cfg.dirs_specified(),
        !cfg.meta_specified,
        names_nonempty_seq(s),
    ensures
        everything_matched_seq(build_seq(s, depth, max_depth, cfg)),
    decreases s,
{
    if s.len() > 0 {
        lemma_listing_mode_all_matched_seq(s.drop_last(), depth, max_depth, cfg);
        lemma_listing_mode_all_matched(s.last(), depth, max_depth, cfg);
        let b = build_seq(s, depth, max_depth, cfg);
        assert(b.drop_last() =~= build_seq(s.drop_last(), depth, max_depth, cfg));
        assert(b.last() == build_spec(s.last(), depth, max_depth, cfg));
    }
}

/// `everything_matched_seq` is the pointwise statement.
proof fn lemma_everything_matched_seq_index(s: Seq<GDir>)
    ensures
        everything_matched_seq(s) <==> (forall|i: int|
            0 <= i < s.len() ==> everything_matched(#[trigger] s[i])),
    decreases s.len(),
{
    if s.len() > 0 {
        lemma_everything_matched_seq_index(s.drop_last());
        assert(forall|i: int| 0 <= i < s.len() - 1 ==> s.drop_last()[i] == s[i]);
        assert(s[s.len() - 1] == s.last());
    }
}

} // verus!
