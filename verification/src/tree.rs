//! The tree model and the builder. A `DirEntry` describes what the caller
//! found on disk: names, paths, sizes and metadata, with nothing evaluated.
//! The builder walks that description depth-first, evaluates every file and
//! directory against the configured predicates, computes the three match
//! flags of every node bottom-up (equivalent to eagerly notifying every
//! ancestor as each match is discovered), orders children, and honours the
//! depth limit. Statistics stay zero until the aggregation pass.

use vstd::prelude::*;

use crate::predicate::{eval_dir_spec, eval_file_spec, Config, GConfig, GMeta, Meta};
use crate::strutil::{lex_le, str_le};

verus! {

// ---------------------------------------------------------------------------
// Input model
// ---------------------------------------------------------------------------

/// One file as found on disk: its name, path, byte size (from the caller's
/// size-lookup capability) and metadata.
pub struct FileEntry {
    pub name: String,
    pub path: String,
    pub size: u64,
    pub meta: Meta,
}

/// One directory as found on disk, with its entries. A directory that could
/// not be read is simply described with empty entry lists.
pub struct DirEntry {
    pub name: String,
    pub path: String,
    pub meta: Meta,
    pub files: Vec<FileEntry>,
    pub dirs: Vec<DirEntry>,
}

/// The mathematical content of a `FileEntry`.
#[verifier::ext_equal]
pub struct GFileEntry {
    pub name: Seq<char>,
    pub path: Seq<char>,
    pub size: u64,
    pub meta: GMeta,
}

/// The mathematical content of a `DirEntry`.
#[verifier::ext_equal]
pub struct GDirEntry {
    pub name: Seq<char>,
    pub path: Seq<char>,
    pub meta: GMeta,
    pub files: Seq<GFileEntry>,
    pub dirs: Seq<GDirEntry>,
}

impl View for FileEntry {
    type V = GFileEntry;

    open spec fn view(&self) -> GFileEntry {
        GFileEntry { name: self.name@, path: self.path@, size: self.size, meta: self.meta@ }
    }
}

/// The views of a list of file entries.
pub open spec fn fe_views(s: Seq<FileEntry>) -> Seq<GFileEntry>
    decreases s.len(),
{
    if s.len() == 0 {
        Seq::empty()
    } else {
        fe_views(s.drop_last()).push(s.last()@)
    }
}

/// The view of a directory entry.
pub open spec fn de_view(e: DirEntry) -> GDirEntry
    decreases e,
{
    GDirEntry {
        name: e.name@,
        path: e.path@,
        meta: e.meta@,
        files: fe_views(e.files@),
        dirs: de_views(e.dirs@),
    }
}

/// The views of a list of directory entries.
pub open spec fn de_views(s: Seq<DirEntry>) -> Seq<GDirEntry>
    decreases s,
{
    if s.len() == 0 {
        Seq::empty()
    } else {
        de_views(s.drop_last()).push(de_view(s.last()))
    }
}

impl View for DirEntry {
    type V = GDirEntry;

    open spec fn view(&self) -> GDirEntry {
        de_view(*self)
    }
}

// ---------------------------------------------------------------------------
// Node model
// ---------------------------------------------------------------------------

/// A file node of the built tree.
pub struct FileNode {
    pub name: String,
    pub path: String,
    pub size: u64,
    pub meta: Meta,
    pub self_matched: bool,
}

/// A directory node of the built tree, with raw and filtered statistics.
pub struct DirNode {
    pub name: String,
    pub path: String,
    pub depth: usize,
    pub meta: Meta,
    pub immediate_files_size: u64,
    pub total_size: u64,
    pub total_files: u64,
    pub total_dirs: u64,
    pub p_immediate_files_size: u64,
    pub p_total_size: u64,
    pub p_total_files: u64,
    pub p_total_dirs: u64,
    pub self_matched: bool,
    pub subtree_has_file_match: bool,
    pub subtree_has_dir_match: bool,
    pub sub_files: Vec<FileNode>,
    pub sub_dirs: Vec<DirNode>,
}

/// The mathematical content of a `FileNode`.
#[verifier::ext_equal]
pub struct GFile {
    pub name: Seq<char>,
    pub path: Seq<char>,
    pub size: u64,
    pub meta: GMeta,
    pub matched: bool,
}

/// The mathematical content of a `DirNode`; statistics are unbounded here.
#[verifier::ext_equal]
pub struct GDir {
    pub name: Seq<char>,
    pub path: Seq<char>,
    pub depth: nat,
    pub meta: GMeta,
    pub immediate_files_size: nat,
    pub total_size: nat,
    pub total_files: nat,
    pub total_dirs: nat,
    pub p_immediate_files_size: nat,
    pub p_total_size: nat,
    pub p_total_files: nat,
    pub p_total_dirs: nat,
    pub matched: bool,
    pub has_file_match: bool,
    pub has_dir_match: bool,
    pub files: Seq<GFile>,
    pub dirs: Seq<GDir>,
}

impl View for FileNode {
    type V = GFile;

    open spec fn view(&self) -> GFile {
        GFile {
            name: self.name@,
            path: self.path@,
            size: self.size,
            meta: self.meta@,
            matched: self.self_matched,
        }
    }
}

/// The views of a list of file nodes.
pub open spec fn fn_views(s: Seq<FileNode>) -> Seq<GFile>
    decreases s.len(),
{
    if s.len() == 0 {
        Seq::empty()
    } else {
        fn_views(s.drop_last()).push(s.last()@)
    }
}

/// The view of a directory node.
pub open spec fn dn_view(d: DirNode) -> GDir
    decreases d,
{
    GDir {
        name: d.name@,
        path: d.path@,
        depth: d.depth as nat,
        meta: d.meta@,
        immediate_files_size: d.immediate_files_size as nat,
        total_size: d.total_size as nat,
        total_files: d.total_files as nat,
        total_dirs: d.total_dirs as nat,
        p_immediate_files_size: d.p_immediate_files_size as nat,
        p_total_size: d.p_total_size as nat,
        p_total_files: d.p_total_files as nat,
        p_total_dirs: d.p_total_dirs as nat,
        matched: d.self_matched,
        has_file_match: d.subtree_has_file_match,
        has_dir_match: d.subtree_has_dir_match,
        files: fn_views(d.sub_files@),
        dirs: dn_views(d.sub_dirs@),
    }
}

/// The views of a list of directory nodes.
pub open spec fn dn_views(s: Seq<DirNode>) -> Seq<GDir>
    decreases s,
{
    if s.len() == 0 {
        Seq::empty()
    } else {
        dn_views(s.drop_last()).push(dn_view(s.last()))
    }
}

impl View for DirNode {
    type V = GDir;

    open spec fn view(&self) -> GDir {
        dn_view(*self)
    }
}

// ---------------------------------------------------------------------------
// Small lemmas on the view helpers
// ---------------------------------------------------------------------------

/// `fn_views` maps elementwise.
pub proof fn lemma_fn_views_index(s: Seq<FileNode>)
    ensures
        fn_views(s).len() == s.len(),
        forall|i: int| 0 <= i < s.len() ==> fn_views(s)[i] == s[i]@,
    decreases s.len(),
{
    if s.len() > 0 {
        lemma_fn_views_index(s.drop_last());
        assert(forall|i: int|
            0 <= i < s.len() - 1 ==> s.drop_last()[i] == s[i]);
    }
}

/// `dn_views` maps elementwise.
pub proof fn lemma_dn_views_index(s: Seq<DirNode>)
    ensures
        dn_views(s).len() == s.len(),
        forall|i: int| 0 <= i < s.len() ==> dn_views(s)[i] == dn_view(s[i]),
    decreases s.len(),
{
    if s.len() > 0 {
        lemma_dn_views_index(s.drop_last());
        assert(forall|i: int|
            0 <= i < s.len() - 1 ==> s.drop_last()[i] == s[i]);
    }
}

// ---------------------------------------------------------------------------
// Ordering of children: files by name, directories by full path
// ---------------------------------------------------------------------------

/// Stable insertion of a file before the first strictly greater name.
pub open spec fn insert_file(s: Seq<GFile>, x: GFile) -> Seq<GFile>
    decreases s.len(),
{
    if s.len() == 0 {
        seq![x]
    } else if lex_le(s[0].name, x.name) {
        seq![s[0]] + insert_file(s.drop_first(), x)
    } else {
        seq![x] + s
    }
}

/// Stable insertion sort of files by name.
pub open spec fn sort_files(s: Seq<GFile>) -> Seq<GFile>
    decreases s.len(),
{
    if s.len() == 0 {
        Seq::empty()
    } else {
        insert_file(sort_files(s.drop_last()), s.last())
    }
}

/// Stable insertion of a directory before the first strictly greater path.
pub open spec fn insert_dir(s: Seq<GDir>, x: GDir) -> Seq<GDir>
    decreases s.len(),
{
    if s.len() == 0 {
        seq![x]
    } else if lex_le(s[0].path, x.path) {
        seq![s[0]] + insert_dir(s.drop_first(), x)
    } else {
        seq![x] + s
    }
}

/// Stable insertion sort of directories by full path.
pub open spec fn sort_dirs(s: Seq<GDir>) -> Seq<GDir>
    decreases s.len(),
{
    if s.len() == 0 {
        Seq::empty()
    } else {
        insert_dir(sort_dirs(s.drop_last()), s.last())
    }
}

/// Sibling files stand in name order.
pub open spec fn files_sorted(s: Seq<GFile>) -> bool {
    forall|i: int, j: int| 0 <= i < j < s.len() ==> lex_le(#[trigger] s[i].name, #[trigger] s[j].name)
}

/// Sibling directories stand in path order.
pub open spec fn dirs_sorted(s: Seq<GDir>) -> bool {
    forall|i: int, j: int| 0 <= i < j < s.len() ==> lex_le(#[trigger] s[i].path, #[trigger] s[j].path)
}

/// Where the scan of a sorted prefix stopped, `insert_file` splices there.
proof fn lemma_insert_file_at(s: Seq<GFile>, x: GFile, pos: int)
    requires
        0 <= pos <= s.len(),
        forall|j: int| 0 <= j < pos ==> lex_le(#[trigger] s[j].name, x.name),
        pos < s.len() ==> !lex_le(s[pos].name, x.name),
    ensures
        insert_file(s, x) == s.take(pos) + seq![x] + s.skip(pos),
    decreases pos,
{
    if pos == 0 {
        if s.len() == 0 {
            assert(insert_file(s, x) =~= s.take(0) + seq![x] + s.skip(0));
        } else {
            assert(insert_file(s, x) =~= s.take(0) + seq![x] + s.skip(0));
        }
    } else {
        assert(lex_le(s[0].name, x.name));
        let t = s.drop_first();
        assert(forall|j: int| 0 <= j < pos - 1 ==> lex_le(#[trigger] t[j].name, x.name));
        lemma_insert_file_at(t, x, pos - 1);
        assert(insert_file(s, x) =~= s.take(pos) + seq![x] + s.skip(pos));
    }
}

/// Where the scan of a sorted prefix stopped, `insert_dir` splices there.
proof fn lemma_insert_dir_at(s: Seq<GDir>, x: GDir, pos: int)
    requires
        0 <= pos <= s.len(),
        forall|j: int| 0 <= j < pos ==> lex_le(#[trigger] s[j].path, x.path),
        pos < s.len() ==> !lex_le(s[pos].path, x.path),
    ensures
        insert_dir(s, x) == s.take(pos) + seq![x] + s.skip(pos),
    decreases pos,
{
    if pos == 0 {
        if s.len() == 0 {
            assert(insert_dir(s, x) =~= s.take(0) + seq![x] + s.skip(0));
        } else {
            assert(insert_dir(s, x) =~= s.take(0) + seq![x] + s.skip(0));
        }
    } else {
        assert(lex_le(s[0].path, x.path));
        let t = s.drop_first();
        assert(forall|j: int| 0 <= j < pos - 1 ==> lex_le(#[trigger] t[j].path, x.path));
        lemma_insert_dir_at(t, x, pos - 1);
        assert(insert_dir(s, x) =~= s.take(pos) + seq![x] + s.skip(pos));
    }
}

/// The splice position for `x` among already-sorted file nodes: the first
/// index whose name is strictly greater.
fn find_file_pos(out: &Vec<FileNode>, x: &FileNode) -> (pos: usize)
    ensures
        pos <= out@.len(),
        forall|j: int| 0 <= j < pos ==> lex_le(#[trigger] fn_views(out@)[j].name, x@.name),
        pos < out@.len() ==> !lex_le(fn_views(out@)[pos as int].name, x@.name),
{
    proof {
        lemma_fn_views_index(out@);
    }
    let mut pos: usize = 0;
    while pos < out.len()
        invariant
            pos <= out@.len(),
            fn_views(out@).len() == out@.len(),
            forall|i: int| 0 <= i < out@.len() ==> fn_views(out@)[i] == out@[i]@,
            forall|j: int| 0 <= j < pos ==> lex_le(#[trigger] fn_views(out@)[j].name, x@.name),
        decreases out@.len() - pos,
    {
        if !str_le(out[pos].name.as_str(), x.name.as_str()) {
            return pos;
        }
        pos = pos + 1;
    }
    pos
}

/// The splice position for `x` among already-sorted directory nodes: the
/// first index whose path is strictly greater.
fn find_dir_pos(out: &Vec<DirNode>, x: &DirNode) -> (pos: usize)
    ensures
        pos <= out@.len(),
        forall|j: int| 0 <= j < pos ==> lex_le(#[trigger] dn_views(out@)[j].path, dn_view(*x).path),
        pos < out@.len() ==> !lex_le(dn_views(out@)[pos as int].path, dn_view(*x).path),
{
    proof {
        lemma_dn_views_index(out@);
    }
    let mut pos: usize = 0;
    while pos < out.len()
        invariant
            pos <= out@.len(),
            dn_views(out@).len() == out@.len(),
            forall|i: int| 0 <= i < out@.len() ==> dn_views(out@)[i] == dn_view(out@[i]),
            forall|j: int| 0 <= j < pos ==> lex_le(#[trigger] dn_views(out@)[j].path, dn_view(*x).path),
        decreases out@.len() - pos,
    {
        if !str_le(out[pos].path.as_str(), x.path.as_str()) {
            return pos;
        }
        pos = pos + 1;
    }
    pos
}

/// Sorts file nodes by name.
fn sort_files_exec(v: Vec<FileNode>) -> (r: Vec<FileNode>)
    ensures
        fn_views(r@) == sort_files(fn_views(v@)),
{
    let mut src = v;
    let ghost v0 = src@;
    let n0 = src.len();
    proof {
        assert(v0.len() == n0);
    }
    let mut out: Vec<FileNode> = Vec::new();
    let mut i: usize = 0;
    while src.len() > 0
        invariant
            i <= v0.len(),
            v0.len() <= usize::MAX,
            src@ == v0.skip(i as int),
            fn_views(out@) == sort_files(fn_views(v0.take(i as int))),
            files_sorted(fn_views(out@)),
        decreases src.len(),
    {
        let x = src.remove(0);
        proof {
            assert(v0.skip(i as int).drop_first() =~= v0.skip(i + 1));
            assert(x == v0[i as int]);
        }
        let ghost outg = fn_views(out@);
        let pos = find_file_pos(&out, &x);
        proof {
            lemma_fn_views_index(out@);
            if pos < out.len() {
                assert(!lex_le(outg[pos as int].name, x@.name));
            }
            lemma_insert_file_at(outg, x@, pos as int);
        }
        out.insert(pos, x);
        proof {
            lemma_fn_views_index(out@);
            assert(fn_views(out@) =~= outg.take(pos as int) + seq![x@] + outg.skip(pos as int));
            assert(v0.take(i + 1).drop_last() =~= v0.take(i as int));
            assert(fn_views(v0.take(i + 1)).drop_last() =~= fn_views(v0.take(i as int)));
            assert(fn_views(v0.take(i + 1)).last() == x@);
            assert(fn_views(out@) == insert_file(sort_files(fn_views(v0.take(i as int))), x@));
            lemma_insert_file_sorted(sort_files(fn_views(v0.take(i as int))), x@);
        }
        i = i + 1;
    }
    proof {
        assert(v0.take(v0.len() as int) =~= v0);
    }
    out
}

/// Sorts directory nodes by path.
fn sort_dirs_exec(v: Vec<DirNode>) -> (r: Vec<DirNode>)
    ensures
        dn_views(r@) == sort_dirs(dn_views(v@)),
{
    let mut src = v;
    let ghost v0 = src@;
    let n0 = src.len();
    proof {
        assert(v0.len() == n0);
    }
    let mut out: Vec<DirNode> = Vec::new();
    let mut i: usize = 0;
    while src.len() > 0
        invariant
            i <= v0.len(),
            v0.len() <= usize::MAX,
            src@ == v0.skip(i as int),
            dn_views(out@) == sort_dirs(dn_views(v0.take(i as int))),
            dirs_sorted(dn_views(out@)),
        decreases src.len(),
    {
        let x = src.remove(0);
        proof {
            assert(v0.skip(i as int).drop_first() =~= v0.skip(i + 1));
            assert(x == v0[i as int]);
        }
        let ghost outg = dn_views(out@);
        let pos = find_dir_pos(&out, &x);
        proof {
            lemma_dn_views_index(out@);
            if pos < out.len() {
                assert(!lex_le(outg[pos as int].path, dn_view(x).path));
            }
            lemma_insert_dir_at(outg, dn_view(x), pos as int);
        }
        out.insert(pos, x);
        proof {
            lemma_dn_views_index(out@);
            assert(dn_views(out@) =~= outg.take(pos as int) + seq![dn_view(x)] + outg.skip(
                pos as int,
            ));
            assert(v0.take(i + 1).drop_last() =~= v0.take(i as int));
            assert(dn_views(v0.take(i + 1)).drop_last() =~= dn_views(v0.take(i as int)));
            assert(dn_views(v0.take(i + 1)).last() == dn_view(x));
            assert(dn_views(out@) == insert_dir(sort_dirs(dn_views(v0.take(i as int))), dn_view(x)));
            lemma_insert_dir_sorted(sort_dirs(dn_views(v0.take(i as int))), dn_view(x));
        }
        i = i + 1;
    }
    proof {
        assert(v0.take(v0.len() as int) =~= v0);
    }
    out
}

/// Every element of `insert_file(s, x)` is `x` or an element of `s`.
pub proof fn lemma_insert_file_elems(s: Seq<GFile>, x: GFile)
    ensures
        insert_file(s, x).len() == s.len() + 1,
        forall|i: int|
            0 <= i < insert_file(s, x).len() ==> (#[trigger] insert_file(s, x)[i] == x || exists|
                k: int,
            | 0 <= k < s.len() && s[k] == insert_file(s, x)[i]),
    decreases s.len(),
{
    if s.len() == 0 {
    } else if lex_le(s[0].name, x.name) {
        let t = s.drop_first();
        lemma_insert_file_elems(t, x);
        let r = insert_file(s, x);
        assert forall|i: int| 0 <= i < r.len() implies (#[trigger] r[i] == x || exists|k: int|
            0 <= k < s.len() && s[k] == r[i]) by {
            if i == 0 {
                assert(s[0] == r[0]);
            } else {
                assert(r[i] == insert_file(t, x)[i - 1]);
                if insert_file(t, x)[i - 1] == x {
                } else {
                    let k = choose|k: int| 0 <= k < t.len() && t[k] == insert_file(t, x)[i - 1];
                    assert(s[k + 1] == r[i]);
                }
            }
        }
    } else {
        let r = insert_file(s, x);
        assert forall|i: int| 0 <= i < r.len() implies (#[trigger] r[i] == x || exists|k: int|
            0 <= k < s.len() && s[k] == r[i]) by {
            if i > 0 {
                assert(s[i - 1] == r[i]);
            }
        }
    }
}

/// Inserting into a sorted file list keeps it sorted.
pub proof fn lemma_insert_file_sorted(s: Seq<GFile>, x: GFile)
    requires
        files_sorted(s),
    ensures
        files_sorted(insert_file(s, x)),
    decreases s.len(),
{
    if s.len() == 0 {
    } else if lex_le(s[0].name, x.name) {
        let t = s.drop_first();
        assert(forall|i: int, j: int|
            0 <= i < j < t.len() ==> lex_le(#[trigger] t[i].name, #[trigger] t[j].name));
        lemma_insert_file_sorted(t, x);
        lemma_insert_file_elems(t, x);
        let r = insert_file(s, x);
        let it = insert_file(t, x);
        assert forall|i: int, j: int| 0 <= i < j < r.len() implies lex_le(
            #[trigger] r[i].name,
            #[trigger] r[j].name,
        ) by {
            if i == 0 {
                assert(r[j] == it[j - 1]);
                if it[j - 1] == x {
                } else {
                    let k = choose|k: int| 0 <= k < t.len() && t[k] == it[j - 1];
                    assert(lex_le(s[0].name, s[k + 1].name));
                }
            } else {
                assert(r[i] == it[i - 1] && r[j] == it[j - 1]);
            }
        }
    } else {
        crate::strutil::lemma_lex_le_total(s[0].name, x.name);
        let r = insert_file(s, x);
        assert forall|i: int, j: int| 0 <= i < j < r.len() implies lex_le(
            #[trigger] r[i].name,
            #[trigger] r[j].name,
        ) by {
            if i == 0 {
                assert(r[j] == s[j - 1]);
                if j - 1 > 0 {
                    assert(lex_le(s[0].name, s[j - 1].name));
                    crate::strutil::lemma_lex_le_trans(x.name, s[0].name, s[j - 1].name);
                } else {
                    assert(lex_le(x.name, s[0].name));
                }
            } else {
                assert(r[i] == s[i - 1] && r[j] == s[j - 1]);
            }
        }
    }
}

/// Every element of `insert_dir(s, x)` is `x` or an element of `s`.
pub proof fn lemma_insert_dir_elems(s: Seq<GDir>, x: GDir)
    ensures
        insert_dir(s, x).len() == s.len() + 1,
        forall|i: int|
            0 <= i < insert_dir(s, x).len() ==> (#[trigger] insert_dir(s, x)[i] == x || exists|
                k: int,
            | 0 <= k < s.len() && s[k] == insert_dir(s, x)[i]),
    decreases s.len(),
{
    if s.len() == 0 {
    } else if lex_le(s[0].path, x.path) {
        let t = s.drop_first();
        lemma_insert_dir_elems(t, x);
        let r = insert_dir(s, x);
        assert forall|i: int| 0 <= i < r.len() implies (#[trigger] r[i] == x || exists|k: int|
            0 <= k < s.len() && s[k] == r[i]) by {
            if i == 0 {
                assert(s[0] == r[0]);
            } else {
                assert(r[i] == insert_dir(t, x)[i - 1]);
                if insert_dir(t, x)[i - 1] == x {
                } else {
                    let k = choose|k: int| 0 <= k < t.len() && t[k] == insert_dir(t, x)[i - 1];
                    assert(s[k + 1] == r[i]);
                }
            }
        }
    } else {
        let r = insert_dir(s, x);
        assert forall|i: int| 0 <= i < r.len() implies (#[trigger] r[i] == x || exists|k: int|
            0 <= k < s.len() && s[k] == r[i]) by {
            if i > 0 {
                assert(s[i - 1] == r[i]);
            }
        }
    }
}

/// Inserting into a sorted directory list keeps it sorted.
pub proof fn lemma_insert_dir_sorted(s: Seq<GDir>, x: GDir)
    requires
        dirs_sorted(s),
    ensures
        dirs_sorted(insert_dir(s, x)),
    decreases s.len(),
{
    if s.len() == 0 {
    } else if lex_le(s[0].path, x.path) {
        let t = s.drop_first();
        assert(forall|i: int, j: int|
            0 <= i < j < t.len() ==> lex_le(#[trigger] t[i].path, #[trigger] t[j].path));
        lemma_insert_dir_sorted(t, x);
        lemma_insert_dir_elems(t, x);
        let r = insert_dir(s, x);
        let it = insert_dir(t, x);
        assert forall|i: int, j: int| 0 <= i < j < r.len() implies lex_le(
            #[trigger] r[i].path,
            #[trigger] r[j].path,
        ) by {
            if i == 0 {
                assert(r[j] == it[j - 1]);
                if it[j - 1] == x {
                } else {
                    let k = choose|k: int| 0 <= k < t.len() && t[k] == it[j - 1];
                    assert(lex_le(s[0].path, s[k + 1].path));
                }
            } else {
                assert(r[i] == it[i - 1] && r[j] == it[j - 1]);
            }
        }
    } else {
        crate::strutil::lemma_lex_le_total(s[0].path, x.path);
        let r = insert_dir(s, x);
        assert forall|i: int, j: int| 0 <= i < j < r.len() implies lex_le(
            #[trigger] r[i].path,
            #[trigger] r[j].path,
        ) by {
            if i == 0 {
                assert(r[j] == s[j - 1]);
                if j - 1 > 0 {
                    assert(lex_le(s[0].path, s[j - 1].path));
                    crate::strutil::lemma_lex_le_trans(x.path, s[0].path, s[j - 1].path);
                } else {
                    assert(lex_le(x.path, s[0].path));
                }
            } else {
                assert(r[i] == s[i - 1] && r[j] == s[j - 1]);
            }
        }
    }
}

/// A sorted file list comes out of `sort_files`.
pub proof fn lemma_sort_files_sorted(s: Seq<GFile>)
    ensures
        files_sorted(sort_files(s)),
    decreases s.len(),
{
    if s.len() > 0 {
        lemma_sort_files_sorted(s.drop_last());
        lemma_insert_file_sorted(sort_files(s.drop_last()), s.last());
    }
}

/// A sorted directory list comes out of `sort_dirs`.
pub proof fn lemma_sort_dirs_sorted(s: Seq<GDir>)
    ensures
        dirs_sorted(sort_dirs(s)),
    decreases s.len(),
{
    if s.len() > 0 {
        lemma_sort_dirs_sorted(s.drop_last());
        lemma_insert_dir_sorted(sort_dirs(s.drop_last()), s.last());
    }
}

// ---------------------------------------------------------------------------
// The builder
// ---------------------------------------------------------------------------

/// A file entry evaluated against the file predicate.
pub open spec fn file_of(e: GFileEntry, cfg: GConfig) -> GFile {
    GFile {
        name: e.name,
        path: e.path,
        size: e.size,
        meta: e.meta,
        matched: eval_file_spec(e.name, e.meta, cfg).0,
    }
}

/// All file entries evaluated, in input order.
pub open spec fn eval_files(s: Seq<GFileEntry>, cfg: GConfig) -> Seq<GFile>
    decreases s.len(),
{
    if s.len() == 0 {
        Seq::empty()
    } else {
        eval_files(s.drop_last(), cfg).push(file_of(s.last(), cfg))
    }
}

/// Whether any file of the list matched.
pub open spec fn any_file_matched(s: Seq<GFile>) -> bool
    decreases s.len(),
{
    if s.len() == 0 {
        false
    } else {
        any_file_matched(s.drop_last()) || s.last().matched
    }
}

/// Whether any child directory has a file match in its subtree.
pub open spec fn any_child_file_match(s: Seq<GDir>) -> bool
    decreases s.len(),
{
    if s.len() == 0 {
        false
    } else {
        any_child_file_match(s.drop_last()) || s.last().has_file_match
    }
}

/// Whether any child directory matched itself or holds a matching
/// directory deeper down.
pub open spec fn any_child_dir_match(s: Seq<GDir>) -> bool
    decreases s.len(),
{
    if s.len() == 0 {
        false
    } else {
        any_child_dir_match(s.drop_last()) || (s.last().matched || s.last().has_dir_match)
    }
}

/// What building a directory entry yields: the node is evaluated before its
/// children are considered; at the depth limit it is returned childless with
/// clear flags; otherwise files are evaluated and sorted by name, child
/// directories built at the next depth and sorted by path, and the two
/// subtree-match flags computed over the children. All statistics are zero.
pub open spec fn build_spec(e: GDirEntry, depth: nat, max_depth: nat, cfg: GConfig) -> GDir
    decreases e,
{
    let matched = eval_dir_spec(e.name, e.meta, cfg).0;
    if depth >= max_depth {
        GDir {
            name: e.name,
            path: e.path,
            depth,
            meta: e.meta,
            immediate_files_size: 0,
            total_size: 0,
            total_files: 0,
            total_dirs: 0,
            p_immediate_files_size: 0,
            p_total_size: 0,
            p_total_files: 0,
            p_total_dirs: 0,
            matched,
            has_file_match: false,
            has_dir_match: false,
            files: Seq::empty(),
            dirs: Seq::empty(),
        }
    } else {
        let fs = sort_files(eval_files(e.files, cfg));
        let ds = sort_dirs(build_seq(e.dirs, (depth + 1) as nat, max_depth, cfg));
        GDir {
            name: e.name,
            path: e.path,
            depth,
            meta: e.meta,
            immediate_files_size: 0,
            total_size: 0,
            total_files: 0,
            total_dirs: 0,
            p_immediate_files_size: 0,
            p_total_size: 0,
            p_total_files: 0,
            p_total_dirs: 0,
            matched,
            has_file_match: any_file_matched(fs) || any_child_file_match(ds),
            has_dir_match: any_child_dir_match(ds),
            files: fs,
            dirs: ds,
        }
    }
}

/// The children of a directory entry, built in input order.
pub open spec fn build_seq(s: Seq<GDirEntry>, depth: nat, max_depth: nat, cfg: GConfig) -> Seq<
    GDir,
>
    decreases s,
{
    if s.len() == 0 {
        Seq::empty()
    } else {
        build_seq(s.drop_last(), depth, max_depth, cfg).push(
            build_spec(s.last(), depth, max_depth, cfg),
        )
    }
}

/// Decides `any_file_matched` over a node list.
fn any_file_exec(v: &Vec<FileNode>) -> (r: bool)
    ensures
        r == any_file_matched(fn_views(v@)),
{
    let mut acc = false;
    let mut j: usize = 0;
    while j < v.len()
        invariant
            j <= v@.len(),
            acc == any_file_matched(fn_views(v@.take(j as int))),
        decreases v@.len() - j,
    {
        proof {
            assert(v@.take(j + 1).drop_last() =~= v@.take(j as int));
            assert(fn_views(v@.take(j + 1)).drop_last() =~= fn_views(v@.take(j as int)));
            assert(fn_views(v@.take(j + 1)).last() == v@[j as int]@);
        }
        acc = acc || v[j].self_matched;
        j = j + 1;
    }
    proof {
        assert(v@.take(v@.len() as int) =~= v@);
    }
    acc
}

/// Decides `any_child_file_match` over a node list.
fn any_child_file_exec(v: &Vec<DirNode>) -> (r: bool)
    ensures
        r == any_child_file_match(dn_views(v@)),
{
    let mut acc = false;
    let mut j: usize = 0;
    while j < v.len()
        invariant
            j <= v@.len(),
            acc == any_child_file_match(dn_views(v@.take(j as int))),
        decreases v@.len() - j,
    {
        proof {
            assert(v@.take(j + 1).drop_last() =~= v@.take(j as int));
            assert(dn_views(v@.take(j + 1)).drop_last() =~= dn_views(v@.take(j as int)));
            assert(dn_views(v@.take(j + 1)).last() == dn_view(v@[j as int]));
        }
        acc = acc || v[j].subtree_has_file_match;
        j = j + 1;
    }
    proof {
        assert(v@.take(v@.len() as int) =~= v@);
    }
    acc
}

/// Decides `any_child_dir_match` over a node list.
fn any_child_dir_exec(v: &Vec<DirNode>) -> (r: bool)
    ensures
        r == any_child_dir_match(dn_views(v@)),
{
    let mut acc = false;
    let mut j: usize = 0;
    while j < v.len()
        invariant
            j <= v@.len(),
            acc == any_child_dir_match(dn_views(v@.take(j as int))),
        decreases v@.len() - j,
    {
        proof {
            assert(v@.take(j + 1).drop_last() =~= v@.take(j as int));
            assert(dn_views(v@.take(j + 1)).drop_last() =~= dn_views(v@.take(j as int)));
            assert(dn_views(v@.take(j + 1)).last() == dn_view(v@[j as int]));
        }
        acc = acc || (v[j].self_matched || v[j].subtree_has_dir_match);
        j = j + 1;
    }
    proof {
        assert(v@.take(v@.len() as int) =~= v@);
    }
    acc
}

/// Builds the tree for one directory entry: pre-order evaluation, the depth
/// limit, bottom-up subtree-match flags and sorted children, with all
/// statistics still zero.
pub fn build_directory_tree(entry: DirEntry, current_depth: usize, max_depth: usize, cfg: &Config)
    -> (r: DirNode)
    ensures
        dn_view(r) == build_spec(de_view(entry), current_depth as nat, max_depth as nat, cfg@),
    decreases entry,
{
    let (matched, _details) = cfg.evaluate_dir(entry.name.as_str(), &entry.meta);
    let name = entry.name;
    let path = entry.path;
    let meta = entry.meta;
    let files = entry.files;
    let dirs = entry.dirs;
    proof {
        assert(name == entry.name && path == entry.path && meta == entry.meta);
        assert(files == entry.files && dirs == entry.dirs);
    }
    if current_depth >= max_depth {
        let r = DirNode {
            name,
            path,
            depth: current_depth,
            meta,
            immediate_files_size: 0,
            total_size: 0,
            total_files: 0,
            total_dirs: 0,
            p_immediate_files_size: 0,
            p_total_size: 0,
            p_total_files: 0,
            p_total_dirs: 0,
            self_matched: matched,
            subtree_has_file_match: false,
            subtree_has_dir_match: false,
            sub_files: Vec::new(),
            sub_dirs: Vec::new(),
        };
        proof {
            assert(dn_view(r) =~= build_spec(
                de_view(entry),
                current_depth as nat,
                max_depth as nat,
                cfg@,
            ));
        }
        return r;
    }
    // evaluate the files, in input order
    let mut fnodes: Vec<FileNode> = Vec::new();
    let mut fsrc = files;
    let ghost fs0 = fsrc@;
    let fs0_len = fsrc.len();
    proof {
        assert(fs0.len() == fs0_len);
    }
    let mut i: usize = 0;
    while fsrc.len() > 0
        invariant
            fs0.len() <= usize::MAX,
            i <= fs0.len(),
            fsrc@ == fs0.skip(i as int),
            fn_views(fnodes@) == eval_files(fe_views(fs0.take(i as int)), cfg@),
        decreases fsrc.len(),
    {
        let fe = fsrc.remove(0);
        proof {
            assert(fs0.skip(i as int).drop_first() =~= fs0.skip(i + 1));
            assert(fe == fs0[i as int]);
        }
        let (fm, _fdetails) = cfg.evaluate_file(fe.name.as_str(), &fe.meta);
        let ghost fnodes0 = fnodes@;
        let node = FileNode {
            name: fe.name,
            path: fe.path,
            size: fe.size,
            meta: fe.meta,
            self_matched: fm,
        };
        fnodes.push(node);
        proof {
            assert(fnodes@.drop_last() =~= fnodes0);
            assert(fs0.take(i + 1).drop_last() =~= fs0.take(i as int));
            assert(fe_views(fs0.take(i + 1)).drop_last() =~= fe_views(fs0.take(i as int)));
            assert(fe_views(fs0.take(i + 1)).last() == fs0[i as int]@);
            assert(node@ == file_of(fs0[i as int]@, cfg@));
            assert(fn_views(fnodes@) =~= eval_files(fe_views(fs0.take(i + 1)), cfg@));
        }
        i = i + 1;
    }
    proof {
        assert(fs0.take(fs0.len() as int) =~= fs0);
    }
    let fnodes = sort_files_exec(fnodes);
    // build the child directories, in input order
    let mut dnodes: Vec<DirNode> = Vec::new();
    let mut dsrc = dirs;
    let ghost ds0 = dsrc@;
    let ds0_len = dsrc.len();
    proof {
        assert(ds0.len() == ds0_len);
    }
    let mut i: usize = 0;
    while dsrc.len() > 0
        invariant
            ds0.len() <= usize::MAX,
            i <= ds0.len(),
            dsrc@ == ds0.skip(i as int),
            ds0 == entry.dirs@,
            dn_views(dnodes@) == build_seq(
                de_views(ds0.take(i as int)),
                (current_depth + 1) as nat,
                max_depth as nat,
                cfg@,
            ),
            current_depth < max_depth,
        decreases dsrc.len(),
    {
        let de = dsrc.remove(0);
        proof {
            assert(ds0.skip(i as int).drop_first() =~= ds0.skip(i + 1));
            assert(de == ds0[i as int]);
            assert(entry.dirs@ == ds0);
            assert(decreases_to!(entry => entry.dirs));
            assert(decreases_to!(entry.dirs => entry.dirs@));
            assert(decreases_to!(entry.dirs@ => entry.dirs@[i as int]));
        }
        let child = build_directory_tree(de, current_depth + 1, max_depth, cfg);
        let ghost dnodes0 = dnodes@;
        dnodes.push(child);
        proof {
            assert(dnodes@.drop_last() =~= dnodes0);
            assert(ds0.take(i + 1).drop_last() =~= ds0.take(i as int));
            assert(de_views(ds0.take(i + 1)).drop_last() =~= de_views(ds0.take(i as int)));
            assert(de_views(ds0.take(i + 1)).last() == de_view(ds0[i as int]));
            assert(dn_views(dnodes@) =~= build_seq(
                de_views(ds0.take(i + 1)),
                (current_depth + 1) as nat,
                max_depth as nat,
                cfg@,
            ));
        }
        i = i + 1;
    }
    proof {
        assert(ds0.take(ds0.len() as int) =~= ds0);
    }
    let dnodes = sort_dirs_exec(dnodes);
    // subtree-match flags, bottom-up
    let own_file_match = any_file_exec(&fnodes);
    let child_file_match = any_child_file_exec(&dnodes);
    let child_dir_match = any_child_dir_exec(&dnodes);
    let r = DirNode {
        name,
        path,
        depth: current_depth,
        meta,
        immediate_files_size: 0,
        total_size: 0,
        total_files: 0,
        total_dirs: 0,
        p_immediate_files_size: 0,
        p_total_size: 0,
        p_total_files: 0,
        p_total_dirs: 0,
        self_matched: matched,
        subtree_has_file_match: own_file_match || child_file_match,
        subtree_has_dir_match: child_dir_match,
        sub_files: fnodes,
        sub_dirs: dnodes,
    };
    proof {
        assert(dn_view(r) =~= build_spec(
            de_view(entry),
            current_depth as nat,
            max_depth as nat,
            cfg@,
        ));
    }
    r
}

} // verus!
