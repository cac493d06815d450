//! The aggregation and prune pass: a single post-order traversal that fills
//! in both statistic sets of every directory and removes what matched
//! nothing. Raw totals cover everything that was scanned; filtered totals
//! cover only matched files and surviving directories. A directory survives
//! iff it matched itself or holds a file or directory match anywhere below.

use vstd::prelude::*;

use crate::tree::{
    dn_view, dn_views, fn_views, lemma_dn_views_index, lemma_fn_views_index, DirNode, FileNode,
    GDir, GFile,
};

verus! {

// ---------------------------------------------------------------------------
// Sums over children
// ---------------------------------------------------------------------------

/// The sum of the sizes of a file list.
pub open spec fn files_size(s: Seq<GFile>) -> nat
    decreases s.len(),
{
    if s.len() == 0 {
        0
    } else {
        files_size(s.drop_last()) + s.last().size as nat
    }
}

/// The sum of the sizes of the matched files of a list.
pub open spec fn files_matched_size(s: Seq<GFile>) -> nat
    decreases s.len(),
{
    if s.len() == 0 {
        0
    } else {
(files_matched_size(s.drop_last()) + (if s.last().matched {
            s.last().size as nat
        } else {
            0
        })) as nat
    }
}

/// How many files of a list matched.
pub open spec fn files_matched_count(s: Seq<GFile>) -> nat
    decreases s.len(),
{
    if s.len() == 0 {
        0
    } else {
(files_matched_count(s.drop_last()) + (if s.last().matched {
            1nat
        } else {
            0
        })) as nat
    }
}

/// The matched files of a list, in order.
pub open spec fn kept_files(s: Seq<GFile>) -> Seq<GFile>
    decreases s.len(),
{
    if s.len() == 0 {
        Seq::empty()
    } else {
        kept_files(s.drop_last()) + (if s.last().matched {
            seq![s.last()]
        } else {
            Seq::empty()
        })
    }
}

/// Whether a directory survives pruning: it matched itself, or some file
/// or some directory matches anywhere in its subtree.
pub open spec fn kept(d: GDir) -> bool {
    d.matched || d.has_file_match || d.has_dir_match
}

/// The surviving directories of a list, in order.
pub open spec fn keep_dirs(s: Seq<GDir>) -> Seq<GDir>
    decreases s.len(),
{
    if s.len() == 0 {
        Seq::empty()
    } else {
        keep_dirs(s.drop_last()) + (if kept(s.last()) {
            seq![s.last()]
        } else {
            Seq::empty()
        })
    }
}

/// The sum of the raw subtree sizes of a directory list.
pub open spec fn sum_total_size(s: Seq<GDir>) -> nat
    decreases s.len(),
{
    if s.len() == 0 {
        0
    } else {
        (sum_total_size(s.drop_last()) + s.last().total_size) as nat
    }
}

/// The sum of the raw subtree file counts of a directory list.
pub open spec fn sum_total_files(s: Seq<GDir>) -> nat
    decreases s.len(),
{
    if s.len() == 0 {
        0
    } else {
        (sum_total_files(s.drop_last()) + s.last().total_files) as nat
    }
}

/// The sum, over a directory list, of one (for the directory itself) plus
/// its raw subtree directory count.
pub open spec fn sum_total_dirs(s: Seq<GDir>) -> nat
    decreases s.len(),
{
    if s.len() == 0 {
        0
    } else {
        (sum_total_dirs(s.drop_last()) + 1 + s.last().total_dirs) as nat
    }
}

/// The sum of the filtered subtree sizes of a directory list.
pub open spec fn sum_p_size(s: Seq<GDir>) -> nat
    decreases s.len(),
{
    if s.len() == 0 {
        0
    } else {
        (sum_p_size(s.drop_last()) + s.last().p_total_size) as nat
    }
}

/// The sum of the filtered subtree file counts of a directory list.
pub open spec fn sum_p_files(s: Seq<GDir>) -> nat
    decreases s.len(),
{
    if s.len() == 0 {
        0
    } else {
        (sum_p_files(s.drop_last()) + s.last().p_total_files) as nat
    }
}

/// The sum, over a directory list, of one plus its filtered subtree
/// directory count.
pub open spec fn sum_p_dirs(s: Seq<GDir>) -> nat
    decreases s.len(),
{
    if s.len() == 0 {
        0
    } else {
        (sum_p_dirs(s.drop_last()) + 1 + s.last().p_total_dirs) as nat
    }
}

// ---------------------------------------------------------------------------
// The prune pass, as one function of the built tree
// ---------------------------------------------------------------------------

/// What the aggregation and prune pass yields on one directory: children
/// are aggregated first; raw totals cover every scanned file and child;
/// filtered totals cover matched files and surviving children; unmatched
/// files and dead branches are removed; identity, match state and the
/// subtree-match flags stay as they were.
pub open spec fn prune_spec(d: GDir) -> GDir
    decreases d,
{
    let cs = prune_seq(d.dirs);
    let ks = keep_dirs(cs);
    GDir {
        name: d.name,
        path: d.path,
        depth: d.depth,
        meta: d.meta,
        immediate_files_size: files_size(d.files),
        total_size: (files_size(d.files) + sum_total_size(cs)) as nat,
        total_files: (d.files.len() + sum_total_files(cs)) as nat,
        total_dirs: sum_total_dirs(cs),
        p_immediate_files_size: files_matched_size(d.files),
        p_total_size: (files_matched_size(d.files) + sum_p_size(ks)) as nat,
        p_total_files: (files_matched_count(d.files) + sum_p_files(ks)) as nat,
        p_total_dirs: sum_p_dirs(ks),
        matched: d.matched,
        has_file_match: d.has_file_match,
        has_dir_match: d.has_dir_match,
        files: kept_files(d.files),
        dirs: ks,
    }
}

/// The children of a directory, each aggregated, in order, none removed.
pub open spec fn prune_seq(s: Seq<GDir>) -> Seq<GDir>
    decreases s,
{
    if s.len() == 0 {
        Seq::empty()
    } else {
        prune_seq(s.drop_last()).push(prune_spec(s.last()))
    }
}

/// `prune_seq` maps elementwise.
pub proof fn lemma_prune_seq_index(s: Seq<GDir>)
    ensures
        prune_seq(s).len() == s.len(),
        forall|i: int| 0 <= i < s.len() ==> prune_seq(s)[i] == prune_spec(s[i]),
    decreases s.len(),
{
    if s.len() > 0 {
        lemma_prune_seq_index(s.drop_last());
        assert(forall|i: int| 0 <= i < s.len() - 1 ==> s.drop_last()[i] == s[i]);
    }
}

// ---------------------------------------------------------------------------
// Bounding lemmas
// ---------------------------------------------------------------------------

/// A prefix of a file list weighs no more than the whole.
proof fn lemma_files_size_prefix(s: Seq<GFile>, i: int)
    requires
        0 <= i <= s.len(),
    ensures
        files_size(s.take(i)) <= files_size(s),
    decreases s.len() - i,
{
    if i == s.len() {
        assert(s.take(i) =~= s);
    } else {
        assert(s.take(i + 1).drop_last() =~= s.take(i));
        lemma_files_size_prefix(s, i + 1);
    }
}

/// A prefix of a directory list weighs no more than the whole, for each of
/// the three raw sums.
proof fn lemma_raw_sums_prefix(s: Seq<GDir>, i: int)
    requires
        0 <= i <= s.len(),
    ensures
        sum_total_size(s.take(i)) <= sum_total_size(s),
        sum_total_files(s.take(i)) <= sum_total_files(s),
        sum_total_dirs(s.take(i)) <= sum_total_dirs(s),
    decreases s.len() - i,
{
    if i == s.len() {
        assert(s.take(i) =~= s);
    } else {
        assert(s.take(i + 1).drop_last() =~= s.take(i));
        lemma_raw_sums_prefix(s, i + 1);
    }
}

/// One element is bounded by the whole raw sum.
proof fn lemma_raw_sums_elem(s: Seq<GDir>, i: int)
    requires
        0 <= i < s.len(),
    ensures
        s[i].total_size <= sum_total_size(s),
        s[i].total_files <= sum_total_files(s),
        s[i].total_dirs + 1 <= sum_total_dirs(s),
    decreases s.len(),
{
    if i == s.len() - 1 {
    } else {
        assert(s.drop_last()[i] == s[i]);
        lemma_raw_sums_elem(s.drop_last(), i);
    }
}

/// The matched files weigh and count no more than all files.
proof fn lemma_files_matched_le(s: Seq<GFile>)
    ensures
        files_matched_size(s) <= files_size(s),
        files_matched_count(s) <= s.len(),
    decreases s.len(),
{
    if s.len() > 0 {
        lemma_files_matched_le(s.drop_last());
    }
}

/// Dropping directories from a list cannot raise the filtered sums, and
/// the surviving list is no longer.
proof fn lemma_keep_sums_le(s: Seq<GDir>)
    ensures
        keep_dirs(s).len() <= s.len(),
        sum_p_size(keep_dirs(s)) <= sum_p_size(s),
        sum_p_files(keep_dirs(s)) <= sum_p_files(s),
        sum_p_dirs(keep_dirs(s)) <= sum_p_dirs(s),
    decreases s.len(),
{
    if s.len() > 0 {
        lemma_keep_sums_le(s.drop_last());
        if kept(s.last()) {
            let k = keep_dirs(s.drop_last()) + seq![s.last()];
            assert(k.drop_last() =~= keep_dirs(s.drop_last()));
        }
    }
}

/// Pointwise filtered-below-raw over a list gives it for the sums.
proof fn lemma_sums_pointwise_le(s: Seq<GDir>)
    requires
        forall|i: int|
            0 <= i < s.len() ==> (#[trigger] s[i].p_total_size <= s[i].total_size
                && s[i].p_total_files <= s[i].total_files && s[i].p_total_dirs
                <= s[i].total_dirs),
    ensures
        sum_p_size(s) <= sum_total_size(s),
        sum_p_files(s) <= sum_total_files(s),
        sum_p_dirs(s) <= sum_total_dirs(s),
    decreases s.len(),
{
    if s.len() > 0 {
        assert(forall|i: int| 0 <= i < s.len() - 1 ==> s.drop_last()[i] == s[i]);
        lemma_sums_pointwise_le(s.drop_last());
        assert(s[s.len() - 1].p_total_size <= s[s.len() - 1].total_size);
    }
}

/// In every aggregated directory the filtered statistics are bounded by
/// the raw ones.
pub proof fn lemma_filtered_le_raw(d: GDir)
    ensures
        prune_spec(d).p_immediate_files_size <= prune_spec(d).immediate_files_size,
        prune_spec(d).p_total_size <= prune_spec(d).total_size,
        prune_spec(d).p_total_files <= prune_spec(d).total_files,
        prune_spec(d).p_total_dirs <= prune_spec(d).total_dirs,
    decreases d,
{
    let cs = prune_seq(d.dirs);
    let ks = keep_dirs(cs);
    lemma_files_matched_le(d.files);
    lemma_filtered_le_raw_seq(d.dirs);
    lemma_prune_seq_index(d.dirs);
    lemma_keep_sums_le(cs);
    lemma_sums_pointwise_le(cs);
}

/// The pointwise form of `lemma_filtered_le_raw` over a child list.
pub proof fn lemma_filtered_le_raw_seq(s: Seq<GDir>)
    ensures
        forall|i: int|
            0 <= i < s.len() ==> (#[trigger] prune_seq(s)[i].p_total_size <= prune_seq(
                s,
            )[i].total_size && prune_seq(s)[i].p_total_files <= prune_seq(s)[i].total_files
                && prune_seq(s)[i].p_total_dirs <= prune_seq(s)[i].total_dirs),
    decreases s,
{
    if s.len() > 0 {
        lemma_filtered_le_raw_seq(s.drop_last());
        lemma_filtered_le_raw(s.last());
        lemma_prune_seq_index(s);
        lemma_prune_seq_index(s.drop_last());
        assert(forall|i: int| 0 <= i < s.len() - 1 ==> s.drop_last()[i] == s[i]);
    }
}

// ---------------------------------------------------------------------------
// The executable pass
// ---------------------------------------------------------------------------

/// Aggregates and prunes one built tree, post-order and in one traversal:
/// exactly `prune_spec` of the input. The three raw totals of the root must
/// fit in `u64`; every other quantity is bounded by one of them.
pub fn fix_tree_recursive(dir: DirNode) -> (r: DirNode)
    requires
        prune_spec(dn_view(dir)).total_size <= u64::MAX,
        prune_spec(dn_view(dir)).total_files <= u64::MAX,
        prune_spec(dn_view(dir)).total_dirs <= u64::MAX,
    ensures
        dn_view(r) == prune_spec(dn_view(dir)),
    decreases dir,
{
    let ghost g = dn_view(dir);
    let ghost gfs = g.files;
    let ghost gds = g.dirs;
    let ghost cs = prune_seq(gds);
    let ghost ks = keep_dirs(cs);
    let name = dir.name;
    let path = dir.path;
    let depth = dir.depth;
    let meta = dir.meta;
    let self_matched = dir.self_matched;
    let subtree_has_file_match = dir.subtree_has_file_match;
    let subtree_has_dir_match = dir.subtree_has_dir_match;
    let sub_files = dir.sub_files;
    let sub_dirs = dir.sub_dirs;
    proof {
        assert(sub_files == dir.sub_files && sub_dirs == dir.sub_dirs);
        assert(gfs == fn_views(dir.sub_files@));
        assert(gds == dn_views(dir.sub_dirs@));
    }
    // files: count everything, keep only matches
    let mut kept_f: Vec<FileNode> = Vec::new();
    let mut ifs: u64 = 0;
    let mut pifs: u64 = 0;
    let mut pfcount: u64 = 0;
    let nf = sub_files.len();
    let mut fsrc = sub_files;
    let ghost fs0 = fsrc@;
    proof {
        assert(fs0.len() == nf);
        crate::tree::lemma_fn_views_index(fs0);
    }
    let mut i: usize = 0;
    while fsrc.len() > 0
        invariant
            fs0.len() <= usize::MAX,
            i <= fs0.len(),
            fsrc@ == fs0.skip(i as int),
            fs0 == dir.sub_files@,
            g == dn_view(dir),
            gfs == fn_views(fs0),
            gfs.len() == fs0.len(),
            forall|k: int| 0 <= k < fs0.len() ==> fn_views(fs0)[k] == fs0[k]@,
            prune_spec(g).total_size <= u64::MAX,
            prune_spec(g).total_files <= u64::MAX,
            ifs as nat == files_size(gfs.take(i as int)),
            pifs as nat == files_matched_size(gfs.take(i as int)),
            pfcount as nat == files_matched_count(gfs.take(i as int)),
            pifs <= ifs,
            pfcount <= i,
            fn_views(kept_f@) == kept_files(gfs.take(i as int)),
        decreases fsrc.len(),
    {
        let f = fsrc.remove(0);
        proof {
            assert(fs0.skip(i as int).drop_first() =~= fs0.skip(i + 1));
            assert(f == fs0[i as int]);
            assert(f@ == gfs[i as int]);
            assert(gfs.take(i + 1).drop_last() =~= gfs.take(i as int));
            assert(gfs.take(i + 1).last() == gfs[i as int]);
            lemma_files_size_prefix(gfs, i + 1);
            assert(files_size(gfs) <= prune_spec(g).total_size);
            assert(gfs.len() <= prune_spec(g).total_files);
        }
        ifs = ifs + f.size;
        let ghost kf0 = fn_views(kept_f@);
        if f.self_matched {
            pifs = pifs + f.size;
            pfcount = pfcount + 1;
            let ghost kv0 = kept_f@;
            kept_f.push(f);
            proof {
                assert(kept_f@.drop_last() =~= kv0);
                assert(fn_views(kept_f@) =~= kf0.push(gfs[i as int]));
                assert(kept_files(gfs.take(i + 1)) =~= kf0.push(gfs[i as int]));
            }
        } else {
            proof {
                assert(kept_files(gfs.take(i + 1)) =~= kept_files(gfs.take(i as int)));
            }
        }
        i = i + 1;
    }
    proof {
        assert(gfs.take(fs0.len() as int) =~= gfs);
    }
    // children: recurse, fold raw totals always, filtered totals when kept
    let mut newd: Vec<DirNode> = Vec::new();
    let mut ts: u64 = ifs;
    let mut tf: u64 = nf as u64;
    let mut td: u64 = 0;
    let mut pts: u64 = pifs;
    let mut ptf: u64 = pfcount;
    let mut ptd: u64 = 0;
    let mut dsrc = sub_dirs;
    let ghost ds0 = dsrc@;
    proof {
        assert(ds0.len() == dsrc.len());
        lemma_dn_views_index(ds0);
        lemma_prune_seq_index(gds);
        assert(tf as nat == gfs.len() + sum_total_files(cs.take(0)));
        assert(cs.take(0) =~= Seq::<GDir>::empty());
        assert(keep_dirs(cs.take(0)) =~= Seq::<GDir>::empty());
        assert(dn_views(newd@) =~= Seq::<GDir>::empty());
    }
    let mut i: usize = 0;
    while dsrc.len() > 0
        invariant
            ds0.len() <= usize::MAX,
            i <= ds0.len(),
            dsrc@ == ds0.skip(i as int),
            ds0 == dir.sub_dirs@,
            g == dn_view(dir),
            gfs == g.files,
            gds == dn_views(ds0),
            gds == g.dirs,
            gds.len() == ds0.len(),
            cs == prune_seq(gds),
            cs.len() == gds.len(),
            prune_spec(g).total_size <= u64::MAX,
            prune_spec(g).total_files <= u64::MAX,
            prune_spec(g).total_dirs <= u64::MAX,
            ifs as nat == files_size(gfs),
            pifs as nat == files_matched_size(gfs),
            pfcount as nat == files_matched_count(gfs),
            fn_views(kept_f@) == kept_files(gfs),
            ts as nat == files_size(gfs) + sum_total_size(cs.take(i as int)),
            tf as nat == gfs.len() + sum_total_files(cs.take(i as int)),
            td as nat == sum_total_dirs(cs.take(i as int)),
            pts as nat == files_matched_size(gfs) + sum_p_size(keep_dirs(cs.take(i as int))),
            ptf as nat == files_matched_count(gfs) + sum_p_files(keep_dirs(cs.take(i as int))),
            ptd as nat == sum_p_dirs(keep_dirs(cs.take(i as int))),
            pts <= ts,
            ptf <= tf,
            ptd <= td,
            dn_views(newd@) == keep_dirs(cs.take(i as int)),
        decreases dsrc.len(),
    {
        let c = dsrc.remove(0);
        proof {
            assert(ds0.skip(i as int).drop_first() =~= ds0.skip(i + 1));
            assert(c == ds0[i as int]);
            lemma_dn_views_index(ds0);
            assert(dn_view(c) == gds[i as int]);
            lemma_prune_seq_index(gds);
            assert(cs[i as int] == prune_spec(gds[i as int]));
            lemma_raw_sums_elem(cs, i as int);
            assert(prune_spec(dn_view(c)).total_size <= prune_spec(g).total_size);
            assert(prune_spec(dn_view(c)).total_files <= prune_spec(g).total_files);
            assert(prune_spec(dn_view(c)).total_dirs <= prune_spec(g).total_dirs);
            assert(decreases_to!(dir => dir.sub_dirs));
            assert(decreases_to!(dir.sub_dirs => dir.sub_dirs@));
            assert(decreases_to!(dir.sub_dirs@ => dir.sub_dirs@[i as int]));
        }
        let a = fix_tree_recursive(c);
        proof {
            assert(dn_view(a) == cs[i as int]);
            assert(cs.take(i + 1).drop_last() =~= cs.take(i as int));
            assert(cs.take(i + 1).last() == cs[i as int]);
            lemma_raw_sums_prefix(cs, i + 1);
            assert(sum_total_size(cs) <= prune_spec(g).total_size);
            assert(sum_total_files(cs) <= prune_spec(g).total_files);
            assert(sum_total_dirs(cs) <= prune_spec(g).total_dirs);
            lemma_filtered_le_raw(gds[i as int]);
        }
        let ghost ts0 = ts;
        let ghost tf0 = tf;
        let ghost td0 = td;
        ts = ts + a.total_size;
        tf = tf + a.total_files;
        td = td + 1 + a.total_dirs;
        let keep = a.self_matched || a.subtree_has_file_match || a.subtree_has_dir_match;
        proof {
            assert(keep == kept(cs[i as int]));
        }
        if keep {
            pts = pts + a.p_total_size;
            ptf = ptf + a.p_total_files;
            ptd = ptd + 1 + a.p_total_dirs;
            let ghost nd0 = newd@;
            newd.push(a);
            proof {
                assert(newd@.drop_last() =~= nd0);
                assert(dn_views(newd@) =~= dn_views(nd0).push(cs[i as int]));
                assert(keep_dirs(cs.take(i + 1)) =~= keep_dirs(cs.take(i as int)).push(
                    cs[i as int],
                ));
                let kd = keep_dirs(cs.take(i + 1));
                assert(kd.drop_last() =~= keep_dirs(cs.take(i as int)));
            }
        } else {
            proof {
                assert(keep_dirs(cs.take(i + 1)) =~= keep_dirs(cs.take(i as int)));
            }
        }
        i = i + 1;
    }
    proof {
        assert(cs.take(ds0.len() as int) =~= cs);
    }
    let r = DirNode {
        name,
        path,
        depth,
        meta,
        immediate_files_size: ifs,
        total_size: ts,
        total_files: tf,
        total_dirs: td,
        p_immediate_files_size: pifs,
        p_total_size: pts,
        p_total_files: ptf,
        p_total_dirs: ptd,
        self_matched,
        subtree_has_file_match,
        subtree_has_dir_match,
        sub_files: kept_f,
        sub_dirs: newd,
    };
    proof {
        assert(dn_view(r) =~= prune_spec(g));
    }
    r
}

/// Computes the three raw root totals with checked arithmetic: `None`
/// exactly when one of them does not fit in a `u64`, in which case the
/// aggregation pass must not run.
pub fn raw_totals(dir: &DirNode) -> (r: Option<(u64, u64, u64)>)
    ensures
        match r {
            Some(t) => t.0 as nat == prune_spec(dn_view(*dir)).total_size && t.1 as nat
                == prune_spec(dn_view(*dir)).total_files && t.2 as nat == prune_spec(
                dn_view(*dir),
            ).total_dirs,
            None => prune_spec(dn_view(*dir)).total_size > u64::MAX || prune_spec(
                dn_view(*dir),
            ).total_files > u64::MAX || prune_spec(dn_view(*dir)).total_dirs > u64::MAX,
        },
    decreases *dir,
{
    let ghost g = dn_view(*dir);
    let ghost gfs = g.files;
    let ghost gds = g.dirs;
    let ghost cs = prune_seq(gds);
    let nfiles = dir.sub_files.len();
    let ndirs = dir.sub_dirs.len();
    proof {
        lemma_fn_views_index(dir.sub_files@);
        lemma_dn_views_index(dir.sub_dirs@);
        lemma_prune_seq_index(gds);
    }
    let mut sz: u64 = 0;
    let mut i: usize = 0;
    while i < nfiles
        invariant
            g == dn_view(*dir),
            gfs == g.files,
            nfiles == dir.sub_files@.len(),
            gfs.len() == nfiles,
            forall|k: int| 0 <= k < nfiles ==> fn_views(dir.sub_files@)[k] == dir.sub_files@[k]@,
            i <= nfiles,
            sz as nat == files_size(gfs.take(i as int)),
        decreases nfiles - i,
    {
        proof {
            assert(gfs.take(i + 1).drop_last() =~= gfs.take(i as int));
            assert(gfs.take(i + 1).last() == gfs[i as int]);
        }
        match sz.checked_add(dir.sub_files[i].size) {
            Some(v) => {
                sz = v;
            },
            None => {
                proof {
                    lemma_files_size_prefix(gfs, i + 1);
                }
                return None;
            },
        }
        i = i + 1;
    }
    proof {
        assert(gfs.take(nfiles as int) =~= gfs);
    }
    let mut ts: u64 = sz;
    let mut tf: u64 = nfiles as u64;
    let mut td: u64 = 0;
    let mut j: usize = 0;
    while j < ndirs
        invariant
            g == dn_view(*dir),
            gfs == g.files,
            gds == g.dirs,
            ndirs == dir.sub_dirs@.len(),
            gds.len() == ndirs,
            forall|k: int| 0 <= k < ndirs ==> dn_views(dir.sub_dirs@)[k] == dn_view(dir.sub_dirs@[k]),
            cs == prune_seq(gds),
            cs.len() == ndirs,
            forall|k: int| 0 <= k < ndirs ==> cs[k] == prune_spec(gds[k]),
            j <= ndirs,
            ts as nat == files_size(gfs) + sum_total_size(cs.take(j as int)),
            tf as nat == gfs.len() + sum_total_files(cs.take(j as int)),
            td as nat == sum_total_dirs(cs.take(j as int)),
        decreases ndirs - j,
    {
        proof {
            assert(cs.take(j + 1).drop_last() =~= cs.take(j as int));
            assert(cs.take(j + 1).last() == cs[j as int]);
            assert(gds == dn_views(dir.sub_dirs@));
            assert(gds[j as int] == dn_view(dir.sub_dirs@[j as int]));
            assert(cs[j as int] == prune_spec(gds[j as int]));
            assert(decreases_to!(*dir => dir.sub_dirs));
            assert(decreases_to!(dir.sub_dirs => dir.sub_dirs@));
            assert(decreases_to!(dir.sub_dirs@ => dir.sub_dirs@[j as int]));
        }
        let child = match raw_totals(&dir.sub_dirs[j]) {
            Some(t) => t,
            None => {
                proof {
                    lemma_raw_sums_elem(cs, j as int);
                }
                return None;
            },
        };
        let ts2 = match ts.checked_add(child.0) {
            Some(v) => v,
            None => {
                proof {
                    lemma_raw_sums_prefix(cs, j + 1);
                }
                return None;
            },
        };
        let tf2 = match tf.checked_add(child.1) {
            Some(v) => v,
            None => {
                proof {
                    lemma_raw_sums_prefix(cs, j + 1);
                }
                return None;
            },
        };
        let td2 = match td.checked_add(child.2) {
            Some(v) => match v.checked_add(1) {
                Some(w) => w,
                None => {
                    proof {
                        lemma_raw_sums_prefix(cs, j + 1);
                    }
                    return None;
                },
            },
            None => {
                proof {
                    lemma_raw_sums_prefix(cs, j + 1);
                }
                return None;
            },
        };
        ts = ts2;
        tf = tf2;
        td = td2;
        j = j + 1;
    }
    proof {
        assert(cs.take(ndirs as int) =~= cs);
    }
    Some((ts, tf, td))
}

/// Aggregates and prunes a built tree, first checking that the raw totals
/// fit in `u64`; `None` exactly when they do not.
pub fn fix_tree(dir: DirNode) -> (r: Option<DirNode>)
    ensures
        match r {
            Some(out) => dn_view(out) == prune_spec(dn_view(dir)),
            None => prune_spec(dn_view(dir)).total_size > u64::MAX || prune_spec(
                dn_view(dir),
            ).total_files > u64::MAX || prune_spec(dn_view(dir)).total_dirs > u64::MAX,
        },
        r is Some <==> prune_spec(dn_view(dir)).total_size <= u64::MAX && prune_spec(
            dn_view(dir),
        ).total_files <= u64::MAX && prune_spec(dn_view(dir)).total_dirs <= u64::MAX,
{
    match raw_totals(&dir) {
        Some(_) => Some(fix_tree_recursive(dir)),
        None => None,
    }
}

} // verus!
