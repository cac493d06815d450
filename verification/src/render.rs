//! The renderer: template substitution of `%field%` tokens, per-node field
//! tables, colour-index selection from a match-detail vector, and the
//! laying out of the pruned tree as lines — files before subdirectories,
//! in the already-sorted child order, with ASCII connectors grown per
//! depth. It re-evaluates predicates only for the detail vectors; the
//! evaluator is pure, so the outcomes equal those of the build pass.

use vstd::prelude::*;

use crate::predicate::{bool_str, eval_dir_spec, eval_file_spec, Config, GConfig};
use crate::strutil::{dec_str, find_char, first_at, lemma_first_at, lemma_first_at_none, str_eq_str, u64_to_string};
use crate::tree::{dn_view, dn_views, fn_views, lemma_dn_views_index, lemma_fn_views_index, DirNode, FileNode, GDir, GFile};

verus! {

// ---------------------------------------------------------------------------
// Template substitution
// ---------------------------------------------------------------------------

/// The first value stored under `key`, if any.
pub open spec fn lookup_val(vals: Seq<(Seq<char>, Seq<char>)>, key: Seq<char>) -> Option<Seq<char>>
    decreases vals.len(),
{
    if vals.len() == 0 {
        None
    } else if vals[0].0 == key {
        Some(vals[0].1)
    } else {
        lookup_val(vals.drop_first(), key)
    }
}

/// What substituting `%field%` tokens in `t` yields: ordinary characters
/// pass through; at a `%`, the text up to the next `%` names a field,
/// replaced by its value when known and left verbatim (both `%` included)
/// when not; a `%` with no closing `%` leaves the rest verbatim.
pub open spec fn subst(t: Seq<char>, vals: Seq<(Seq<char>, Seq<char>)>) -> Seq<char>
    decreases t.len(),
    via subst_decreases
{
    if t.len() == 0 {
        Seq::empty()
    } else if t[0] != '%' {
        seq![t[0]] + subst(t.drop_first(), vals)
    } else {
        let c = first_at(t.skip(1), '%');
        if c < 0 {
            t
        } else {
            let token = t.skip(1).take(c);
            let rest = subst(t.skip(c + 2), vals);
            match lookup_val(vals, token) {
                Some(v) => v + rest,
                None => t.take(c + 2) + rest,
            }
        }
    }
}

/// A found occurrence lies within the sequence.
proof fn lemma_first_at_bound(s: Seq<char>, c: char)
    ensures
        first_at(s, c) < s.len(),
    decreases s.len(),
{
    if s.len() > 0 && s[0] != c {
        lemma_first_at_bound(s.drop_first(), c);
    }
}

#[via_fn]
proof fn subst_decreases(t: Seq<char>, vals: Seq<(Seq<char>, Seq<char>)>) {
    if t.len() > 0 && t[0] == '%' {
        lemma_first_at_bound(t.skip(1), '%');
    }
}

/// A run without `%` passes through substitution verbatim.
proof fn lemma_subst_run(t: Seq<char>, vals: Seq<(Seq<char>, Seq<char>)>, i: int, j: int)
    requires
        0 <= i <= j <= t.len(),
        forall|k: int| i <= k < j ==> t[k] != '%',
    ensures
        subst(t.skip(i), vals) == t.subrange(i, j) + subst(t.skip(j), vals),
    decreases j - i,
{
    if i == j {
        assert(t.subrange(i, j) + subst(t.skip(j), vals) =~= subst(t.skip(i), vals));
    } else {
        assert(t.skip(i)[0] == t[i]);
        lemma_subst_run(t, vals, i + 1, j);
        assert(t.skip(i).drop_first() =~= t.skip(i + 1));
        assert(seq![t[i]] + (t.subrange(i + 1, j) + subst(t.skip(j), vals)) =~= t.subrange(i, j)
            + subst(t.skip(j), vals));
    }
}

/// `lookup_val` found at position `idx`.
proof fn lemma_lookup_at(vals: Seq<(Seq<char>, Seq<char>)>, key: Seq<char>, idx: int)
    requires
        0 <= idx < vals.len(),
        vals[idx].0 == key,
        forall|j: int| 0 <= j < idx ==> vals[j].0 != key,
    ensures
        lookup_val(vals, key) == Some(vals[idx].1),
    decreases idx,
{
    if idx > 0 {
        assert(forall|j: int| 0 <= j < idx - 1 ==> vals.drop_first()[j].0 != key);
        lemma_lookup_at(vals.drop_first(), key, idx - 1);
    }
}

/// `lookup_val` finds nothing when no key matches.
proof fn lemma_lookup_none(vals: Seq<(Seq<char>, Seq<char>)>, key: Seq<char>)
    requires
        forall|j: int| 0 <= j < vals.len() ==> vals[j].0 != key,
    ensures
        lookup_val(vals, key) is None,
    decreases vals.len(),
{
    if vals.len() > 0 {
        assert(forall|j: int| 0 <= j < vals.len() - 1 ==> vals.drop_first()[j].0 != key);
        lemma_lookup_none(vals.drop_first(), key);
    }
}

/// The key and value views of a field table.
pub open spec fn kv_views(s: Seq<(String, String)>) -> Seq<(Seq<char>, Seq<char>)>
    decreases s.len(),
{
    if s.len() == 0 {
        Seq::empty()
    } else {
        kv_views(s.drop_last()).push((s.last().0@, s.last().1@))
    }
}

/// `kv_views` maps elementwise.
pub proof fn lemma_kv_views_index(s: Seq<(String, String)>)
    ensures
        kv_views(s).len() == s.len(),
        forall|i: int| 0 <= i < s.len() ==> kv_views(s)[i] == (s[i].0@, s[i].1@),
    decreases s.len(),
{
    if s.len() > 0 {
        lemma_kv_views_index(s.drop_last());
        assert(forall|i: int| 0 <= i < s.len() - 1 ==> s.drop_last()[i] == s[i]);
    }
}

/// Looks a key up in a field table, first match wins.
fn lookup_exec(vals: &Vec<(String, String)>, key: &str) -> (r: Option<String>)
    ensures
        match r {
            Some(v) => lookup_val(kv_views(vals@), key@) == Some(v@),
            None => lookup_val(kv_views(vals@), key@) is None,
        },
{
    proof {
        lemma_kv_views_index(vals@);
    }
    let mut j: usize = 0;
    while j < vals.len()
        invariant
            j <= vals@.len(),
            kv_views(vals@).len() == vals@.len(),
            forall|i: int| 0 <= i < vals@.len() ==> kv_views(vals@)[i] == (vals@[i].0@, vals@[i].1@),
            forall|i: int| 0 <= i < j ==> kv_views(vals@)[i].0 != key@,
        decreases vals@.len() - j,
    {
        if str_eq_str(vals[j].0.as_str(), key) {
            let v = vals[j].1.clone();
            proof {
                lemma_lookup_at(kv_views(vals@), key@, j as int);
            }
            return Some(v);
        }
        j = j + 1;
    }
    proof {
        lemma_lookup_none(kv_views(vals@), key@);
    }
    None
}

/// Substitutes `%field%` tokens in a template against a field table;
/// unknown tokens stay verbatim.
pub fn format_string(format_str: &str, values: &Vec<(String, String)>) -> (r: String)
    ensures
        r@ == subst(format_str@, kv_views(values@)),
{
    let ghost t = format_str@;
    let ghost gv = kv_views(values@);
    let n = format_str.unicode_len();
    let mut out = String::new();
    proof {
        assert(t.skip(0) =~= t);
        assert(out@ + subst(t, gv) =~= subst(t, gv));
    }
    let mut i: usize = 0;
    while i < n
        invariant
            n == t.len(),
            t == format_str@,
            gv == kv_views(values@),
            i <= n,
            subst(t, gv) == out@ + subst(t.skip(i as int), gv),
        decreases n - i,
    {
        let ch = format_str.get_char(i);
        if ch != '%' {
            let mut j = i + 1;
            while j < n && format_str.get_char(j) != '%'
                invariant
                    n == t.len(),
                    t == format_str@,
                    i < j <= n,
                    forall|k: int| i <= k < j ==> t[k] != '%',
                decreases n - j,
            {
                j = j + 1;
            }
            let run = format_str.substring_char(i, j);
            out.append(run);
            proof {
                lemma_subst_run(t, gv, i as int, j as int);
            }
            i = j;
        } else {
            let tail = format_str.substring_char(i + 1, n);
            proof {
                assert(tail@ =~= t.skip(i + 1));
                assert(t.skip(i as int)[0] == t[i as int]);
                assert(t.skip(i as int).skip(1) =~= t.skip(i + 1));
            }
            match find_char(tail, '%') {
                None => {
                    proof {
                        lemma_first_at_none(tail@, '%');
                        assert(first_at(t.skip(i as int).skip(1), '%') < 0);
                    }
                    let rest = format_str.substring_char(i, n);
                    out.append(rest);
                    proof {
                        assert(rest@ =~= t.skip(i as int));
                        assert(subst(t.skip(n as int), gv) =~= Seq::<char>::empty());
                        assert(out@ =~= (out@ + Seq::<char>::empty()));
                    }
                    i = n;
                },
                Some(c) => {
                    proof {
                        lemma_first_at(tail@, '%', c as int);
                        assert(first_at(t.skip(i as int).skip(1), '%') == c as int);
                    }
                    let token = format_str.substring_char(i + 1, i + 1 + c);
                    proof {
                        assert(token@ =~= t.skip(i as int).skip(1).take(c as int));
                    }
                    let ghost tsk = t.skip(i as int);
                    match lookup_exec(values, token) {
                        Some(v) => {
                            out.append(v.as_str());
                        },
                        None => {
                            let verbatim = format_str.substring_char(i, i + c + 2);
                            proof {
                                assert(verbatim@ =~= tsk.take(c + 2));
                            }
                            out.append(verbatim);
                        },
                    }
                    proof {
                        assert(tsk.skip(c + 2) =~= t.skip(i + c + 2));
                    }
                    i = i + c + 2;
                },
            }
        }
    }
    proof {
        assert(t.skip(n as int) =~= Seq::<char>::empty());
        assert(subst(t, gv) =~= out@);
    }
    out
}

// ---------------------------------------------------------------------------
// Field tables
// ---------------------------------------------------------------------------

/// The template fields of one file.
pub open spec fn file_values_spec(f: GFile) -> Seq<(Seq<char>, Seq<char>)> {
    seq![
        ("name"@, f.name),
        ("size"@, dec_str(f.size as nat)),
        ("path"@, f.path),
        ("modified"@, f.meta.modified),
        ("created"@, f.meta.created),
        ("accessed"@, f.meta.accessed),
        ("is_file"@, "true"@),
        ("is_dir"@, "false"@),
        ("readonly"@, bool_str(f.meta.readonly)),
    ]
}

/// The template fields of one aggregated directory.
pub open spec fn dir_values_spec(d: GDir) -> Seq<(Seq<char>, Seq<char>)> {
    seq![
        ("name"@, d.name),
        ("size"@, dec_str(d.total_size)),
        ("path"@, d.path),
        ("immediate_files_size"@, dec_str(d.immediate_files_size)),
        ("total_size"@, dec_str(d.total_size)),
        ("total_files"@, dec_str(d.total_files)),
        ("total_dirs"@, dec_str(d.total_dirs)),
        ("p_immediate_files_size"@, dec_str(d.p_immediate_files_size)),
        ("p_total_size"@, dec_str(d.p_total_size)),
        ("p_total_files"@, dec_str(d.p_total_files)),
        ("p_total_dirs"@, dec_str(d.p_total_dirs)),
        ("sub_dirs_count"@, dec_str(d.dirs.len())),
        ("sub_files_count"@, dec_str(d.files.len())),
        ("depth"@, dec_str(d.depth)),
        ("modified"@, d.meta.modified),
        ("created"@, d.meta.created),
        ("accessed"@, d.meta.accessed),
        ("is_file"@, "false"@),
        ("is_dir"@, "true"@),
        ("readonly"@, bool_str(d.meta.readonly)),
    ]
}

/// The field table of a file node.
pub fn get_file_format_values(file: &FileNode) -> (r: Vec<(String, String)>)
    ensures
        kv_views(r@) == file_values_spec(file@),
{
    let mut r: Vec<(String, String)> = Vec::new();
    r.push((String::from_str("name"), file.name.clone()));
    r.push((String::from_str("size"), u64_to_string(file.size)));
    r.push((String::from_str("path"), file.path.clone()));
    r.push((String::from_str("modified"), file.meta.modified.clone()));
    r.push((String::from_str("created"), file.meta.created.clone()));
    r.push((String::from_str("accessed"), file.meta.accessed.clone()));
    r.push((String::from_str("is_file"), String::from_str("true")));
    r.push((String::from_str("is_dir"), String::from_str("false")));
    r.push((
        String::from_str("readonly"),
        if file.meta.readonly {
            String::from_str("true")
        } else {
            String::from_str("false")
        },
    ));
    proof {
        lemma_kv_views_index(r@);
        assert(kv_views(r@) =~= file_values_spec(file@));
    }
    r
}

/// The field table of an aggregated directory node.
pub fn get_dir_format_values(dir: &DirNode) -> (r: Vec<(String, String)>)
    ensures
        kv_views(r@) == dir_values_spec(dn_view(*dir)),
{
    let mut r: Vec<(String, String)> = Vec::new();
    r.push((String::from_str("name"), dir.name.clone()));
    r.push((String::from_str("size"), u64_to_string(dir.total_size)));
    r.push((String::from_str("path"), dir.path.clone()));
    r.push((
        String::from_str("immediate_files_size"),
        u64_to_string(dir.immediate_files_size),
    ));
    r.push((String::from_str("total_size"), u64_to_string(dir.total_size)));
    r.push((String::from_str("total_files"), u64_to_string(dir.total_files)));
    r.push((String::from_str("total_dirs"), u64_to_string(dir.total_dirs)));
    r.push((
        String::from_str("p_immediate_files_size"),
        u64_to_string(dir.p_immediate_files_size),
    ));
    r.push((String::from_str("p_total_size"), u64_to_string(dir.p_total_size)));
    r.push((String::from_str("p_total_files"), u64_to_string(dir.p_total_files)));
    r.push((String::from_str("p_total_dirs"), u64_to_string(dir.p_total_dirs)));
    r.push((String::from_str("sub_dirs_count"), u64_to_string(dir.sub_dirs.len() as u64)));
    r.push((String::from_str("sub_files_count"), u64_to_string(dir.sub_files.len() as u64)));
    r.push((String::from_str("depth"), u64_to_string(dir.depth as u64)));
    r.push((String::from_str("modified"), dir.meta.modified.clone()));
    r.push((String::from_str("created"), dir.meta.created.clone()));
    r.push((String::from_str("accessed"), dir.meta.accessed.clone()));
    r.push((String::from_str("is_file"), String::from_str("false")));
    r.push((String::from_str("is_dir"), String::from_str("true")));
    r.push((
        String::from_str("readonly"),
        if dir.meta.readonly {
            String::from_str("true")
        } else {
            String::from_str("false")
        },
    ));
    proof {
        crate::tree::lemma_fn_views_index(dir.sub_files@);
        crate::tree::lemma_dn_views_index(dir.sub_dirs@);
        lemma_kv_views_index(r@);
        assert(kv_views(r@) =~= dir_values_spec(dn_view(*dir)));
    }
    r
}

// ---------------------------------------------------------------------------
// Format-string selection and colour choice
// ---------------------------------------------------------------------------

/// The built-in annotation template for files.
pub open spec fn default_file_format() -> Seq<char> {
    " (size = %size%, created %created%, accessed %accessed%, modified %modified%)"@
}

/// The built-in annotation template for directories.
pub open spec fn default_dir_format() -> Seq<char> {
    " (size = %p_total_size%/%total_size%, dirs = %sub_dirs_count%/%p_total_dirs%, files = %sub_files_count%/%p_total_files%)"@
}

/// Picks the annotation template: an explicit one wins; a bare flag picks
/// the built-in default for the node kind; otherwise the caller's
/// fallback (resolved, e.g., from the environment) is used.
pub fn get_format_string(explicit: &Option<Option<String>>, fallback: &str, is_dir: bool) -> (r:
    String)
    ensures
        r@ == match explicit {
            Some(Some(f)) => f@,
            Some(None) => if is_dir {
                default_dir_format()
            } else {
                default_file_format()
            },
            None => fallback@,
        },
{
    match explicit {
        Some(Some(f)) => f.clone(),
        Some(None) => {
            if is_dir {
                String::from_str(
                    " (size = %p_total_size%/%total_size%, dirs = %sub_dirs_count%/%p_total_dirs%, files = %sub_files_count%/%p_total_files%)",
                )
            } else {
                String::from_str(
                    " (size = %size%, created %created%, accessed %accessed%, modified %modified%)",
                )
            }
        },
        None => fallback.to_owned(),
    }
}

/// The first index holding `true`, or `-1`.
pub open spec fn first_true(s: Seq<bool>) -> int
    decreases s.len(),
{
    if s.len() == 0 {
        -1
    } else if s[0] {
        0
    } else if first_true(s.drop_first()) < 0 {
        -1
    } else {
        first_true(s.drop_first()) + 1
    }
}

proof fn lemma_first_true_at(s: Seq<bool>, i: int)
    requires
        0 <= i < s.len(),
        s[i],
        forall|j: int| 0 <= j < i ==> !s[j],
    ensures
        first_true(s) == i,
    decreases s.len(),
{
    if i > 0 {
        assert(forall|j: int| 0 <= j < i - 1 ==> !s.drop_first()[j]);
        lemma_first_true_at(s.drop_first(), i - 1);
    }
}

proof fn lemma_first_true_none(s: Seq<bool>)
    requires
        forall|j: int| 0 <= j < s.len() ==> !s[j],
    ensures
        first_true(s) == -1,
    decreases s.len(),
{
    if s.len() > 0 {
        assert(forall|j: int| 0 <= j < s.drop_first().len() ==> !s.drop_first()[j]);
        lemma_first_true_none(s.drop_first());
    }
}

/// The colour slot for a candidate: the first matching predicate's index,
/// wrapped to the palette length; `None` (the caller's default colour)
/// when nothing matched.
pub fn combined_color_index(match_details: &Vec<bool>, palette_len: usize) -> (r: Option<usize>)
    requires
        palette_len > 0,
    ensures
        match r {
            Some(k) => first_true(match_details@) >= 0 && k == first_true(match_details@) as usize
                % palette_len,
            None => first_true(match_details@) == -1,
        },
{
    let mut i: usize = 0;
    while i < match_details.len()
        invariant
            palette_len > 0,
            i <= match_details@.len(),
            forall|j: int| 0 <= j < i ==> !match_details@[j],
        decreases match_details@.len() - i,
    {
        if match_details[i] {
            proof {
                lemma_first_true_at(match_details@, i as int);
            }
            return Some(i % palette_len);
        }
        i = i + 1;
    }
    proof {
        lemma_first_true_none(match_details@);
    }
    None
}

// ---------------------------------------------------------------------------
// Laying the pruned tree out as lines
// ---------------------------------------------------------------------------

/// One rendered line: the connector-bearing indent, the node\'s name, its
/// formatted annotation, whether it is a directory, and the per-predicate
/// detail vector for colour selection.
pub struct RenderLine {
    pub prefix: String,
    pub name: String,
    pub info: String,
    pub is_dir: bool,
    pub details: Vec<bool>,
}

/// The mathematical content of a `RenderLine`.
#[verifier::ext_equal]
pub struct GLine {
    pub prefix: Seq<char>,
    pub name: Seq<char>,
    pub info: Seq<char>,
    pub is_dir: bool,
    pub details: Seq<bool>,
}

impl View for RenderLine {
    type V = GLine;

    open spec fn view(&self) -> GLine {
        GLine {
            prefix: self.prefix@,
            name: self.name@,
            info: self.info@,
            is_dir: self.is_dir,
            details: self.details@,
        }
    }
}

/// The views of a line list.
pub open spec fn rl_views(s: Seq<RenderLine>) -> Seq<GLine>
    decreases s.len(),
{
    if s.len() == 0 {
        Seq::empty()
    } else {
        rl_views(s.drop_last()).push(s.last()@)
    }
}

/// The branch connector: none in flat mode, a terminal elbow for a last
/// child, a tee otherwise.
pub open spec fn connector(flat: bool, last: bool) -> Seq<char> {
    if flat {
        Seq::empty()
    } else if last {
        "└── "@
    } else {
        "├── "@
    }
}

/// The indent handed to a child directory\'s subtree.
pub open spec fn child_prefix(prefix: Seq<char>, flat: bool, last: bool) -> Seq<char> {
    if flat {
        Seq::empty()
    } else if last {
        prefix + "    "@
    } else {
        prefix + "│   "@
    }
}

/// The line of one file.
pub open spec fn file_line(
    f: GFile,
    prefix: Seq<char>,
    flat: bool,
    last: bool,
    ffmt: Seq<char>,
    cfg: GConfig,
) -> GLine {
    GLine {
        prefix: prefix + connector(flat, last),
        name: f.name,
        info: subst(ffmt, file_values_spec(f)),
        is_dir: false,
        details: eval_file_spec(f.name, f.meta, cfg).1,
    }
}

/// The line of one directory.
pub open spec fn dir_line(
    d: GDir,
    prefix: Seq<char>,
    flat: bool,
    last: bool,
    dfmt: Seq<char>,
    cfg: GConfig,
) -> GLine {
    GLine {
        prefix: prefix + connector(flat, last),
        name: d.name,
        info: subst(dfmt, dir_values_spec(d)),
        is_dir: true,
        details: eval_dir_spec(d.name, d.meta, cfg).1,
    }
}

/// The lines of a directory\'s immediate files, in list order; the last
/// file takes the terminal connector only when no subdirectory follows.
pub open spec fn file_lines(
    files: Seq<GFile>,
    has_dirs: bool,
    prefix: Seq<char>,
    flat: bool,
    ffmt: Seq<char>,
    cfg: GConfig,
) -> Seq<GLine> {
    Seq::new(
        files.len(),
        |i: int| file_line(files[i], prefix, flat, i == files.len() - 1 && !has_dirs, ffmt, cfg),
    )
}

/// What rendering one directory\'s subtree yields: its files first, then
/// each child directory\'s line followed by that child\'s subtree.
pub open spec fn render_spec(
    d: GDir,
    prefix: Seq<char>,
    flat: bool,
    ffmt: Seq<char>,
    dfmt: Seq<char>,
    cfg: GConfig,
) -> Seq<GLine>
    decreases d,
{
    file_lines(d.files, d.dirs.len() > 0, prefix, flat, ffmt, cfg) + dir_lines(
        d.dirs,
        prefix,
        flat,
        ffmt,
        dfmt,
        cfg,
    )
}

/// The lines of a list of sibling directories and their subtrees.
pub open spec fn dir_lines(
    s: Seq<GDir>,
    prefix: Seq<char>,
    flat: bool,
    ffmt: Seq<char>,
    dfmt: Seq<char>,
    cfg: GConfig,
) -> Seq<GLine>
    decreases s,
{
    if s.len() == 0 {
        Seq::empty()
    } else {
        let last = s.len() == 1;
        seq![dir_line(s[0], prefix, flat, last, dfmt, cfg)] + render_spec(
            s[0],
            child_prefix(prefix, flat, last),
            flat,
            ffmt,
            dfmt,
            cfg,
        ) + dir_lines(s.drop_first(), prefix, flat, ffmt, dfmt, cfg)
    }
}

/// Renders one directory\'s subtree, appending to `out`: files before
/// subdirectories, in the stored (sorted) order, pre-order for
/// directories, connectors and indents grown per depth.
pub fn render_tree_recursive(
    dir: &DirNode,
    prefix: &str,
    flat: bool,
    ffmt: &str,
    dfmt: &str,
    cfg: &Config,
    out: &mut Vec<RenderLine>,
)
    ensures
        rl_views(final(out)@) == rl_views(old(out)@) + render_spec(
            dn_view(*dir),
            prefix@,
            flat,
            ffmt@,
            dfmt@,
            cfg@,
        ),
    decreases *dir,
{
    let ghost g = dn_view(*dir);
    let ghost base = rl_views(out@);
    let ghost gfs = g.files;
    let ghost gds = g.dirs;
    let nfiles = dir.sub_files.len();
    let ndirs = dir.sub_dirs.len();
    proof {
        lemma_fn_views_index(dir.sub_files@);
        lemma_dn_views_index(dir.sub_dirs@);
    }
    let mut i: usize = 0;
    while i < nfiles
        invariant
            g == dn_view(*dir),
            gfs == g.files,
            nfiles == dir.sub_files@.len(),
            ndirs == dir.sub_dirs@.len(),
            gfs.len() == nfiles,
            gfs == fn_views(dir.sub_files@),
            forall|k: int| 0 <= k < nfiles ==> fn_views(dir.sub_files@)[k] == dir.sub_files@[k]@,
            i <= nfiles,
            rl_views(out@) == base + file_lines(gfs, ndirs > 0, prefix@, flat, ffmt@, cfg@).take(
                i as int,
            ),
        decreases nfiles - i,
    {
        let last = i == nfiles - 1 && ndirs == 0;
        let conn: &str = if flat {
            ""
        } else if last {
            "└── "
        } else {
            "├── "
        };
        let mut p = prefix.to_owned();
        p.append(conn);
        let vals = get_file_format_values(&dir.sub_files[i]);
        let info = format_string(ffmt, &vals);
        let (_m, details) = cfg.evaluate_file(dir.sub_files[i].name.as_str(), &dir.sub_files[i].meta);
        let name = dir.sub_files[i].name.clone();
        let ghost out0 = out@;
        out.push(RenderLine { prefix: p, name, info, is_dir: false, details });
        proof {
            reveal_strlit("");
            assert(""@ =~= Seq::<char>::empty());
            let fl = file_lines(gfs, ndirs > 0, prefix@, flat, ffmt@, cfg@);
            assert(out@.drop_last() =~= out0);
            assert(out@.last()@ == file_line(gfs[i as int], prefix@, flat, last, ffmt@, cfg@));
            assert(fl.take(i + 1) =~= fl.take(i as int).push(fl[i as int]));
            assert(rl_views(out@) =~= base + fl.take(i + 1));
        }
        i = i + 1;
    }
    proof {
        let fl = file_lines(gfs, ndirs > 0, prefix@, flat, ffmt@, cfg@);
        assert(fl.take(nfiles as int) =~= fl);
        assert(gds.skip(0) =~= gds);
        assert(base + render_spec(g, prefix@, flat, ffmt@, dfmt@, cfg@) =~= rl_views(out@)
            + dir_lines(gds.skip(0), prefix@, flat, ffmt@, dfmt@, cfg@));
    }
    let mut j: usize = 0;
    while j < ndirs
        invariant
            g == dn_view(*dir),
            gds == g.dirs,
            ndirs == dir.sub_dirs@.len(),
            gds.len() == ndirs,
            gds == dn_views(dir.sub_dirs@),
            forall|k: int| 0 <= k < ndirs ==> dn_views(dir.sub_dirs@)[k] == dn_view(dir.sub_dirs@[k]),
            j <= ndirs,
            rl_views(out@) + dir_lines(gds.skip(j as int), prefix@, flat, ffmt@, dfmt@, cfg@)
                == base + render_spec(g, prefix@, flat, ffmt@, dfmt@, cfg@),
        decreases ndirs - j,
    {
        let last = j == ndirs - 1;
        let conn: &str = if flat {
            ""
        } else if last {
            "└── "
        } else {
            "├── "
        };
        let mut p = prefix.to_owned();
        p.append(conn);
        let vals = get_dir_format_values(&dir.sub_dirs[j]);
        let info = format_string(dfmt, &vals);
        let (_m, details) = cfg.evaluate_dir(dir.sub_dirs[j].name.as_str(), &dir.sub_dirs[j].meta);
        let name = dir.sub_dirs[j].name.clone();
        let ghost out0 = out@;
        out.push(RenderLine { prefix: p, name, info, is_dir: true, details });
        let cp: String = if flat {
            String::new()
        } else {
            let mut q = prefix.to_owned();
            if last {
                q.append("    ");
            } else {
                q.append("│   ");
            }
            q
        };
        proof {
            reveal_strlit("");
            assert(""@ =~= Seq::<char>::empty());
            assert(out@.drop_last() =~= out0);
            assert(dn_view(dir.sub_dirs@[j as int]) == gds[j as int]);
            assert(out@.last()@ == dir_line(gds[j as int], prefix@, flat, last, dfmt@, cfg@));
            assert(cp@ == child_prefix(prefix@, flat, last));
            assert(decreases_to!(*dir => dir.sub_dirs));
            assert(decreases_to!(dir.sub_dirs => dir.sub_dirs@));
            assert(decreases_to!(dir.sub_dirs@ => dir.sub_dirs@[j as int]));
        }
        render_tree_recursive(&dir.sub_dirs[j], cp.as_str(), flat, ffmt, dfmt, cfg, out);
        proof {
            let sk = gds.skip(j as int);
            assert(sk[0] == gds[j as int]);
            assert(sk.drop_first() =~= gds.skip(j + 1));
            assert((sk.len() == 1) == (j == ndirs - 1));
            assert(rl_views(out@) =~= rl_views(out0) + seq![
                dir_line(gds[j as int], prefix@, flat, last, dfmt@, cfg@),
            ] + render_spec(gds[j as int], child_prefix(prefix@, flat, last), flat, ffmt@, dfmt@, cfg@));
            assert(rl_views(out@) + dir_lines(gds.skip(j + 1), prefix@, flat, ffmt@, dfmt@, cfg@)
                =~= rl_views(out0) + dir_lines(sk, prefix@, flat, ffmt@, dfmt@, cfg@));
        }
        j = j + 1;
    }
    proof {
        assert(gds.skip(ndirs as int) =~= Seq::<GDir>::empty());
        assert(rl_views(out@) =~= rl_views(out@) + dir_lines(
            gds.skip(ndirs as int),
            prefix@,
            flat,
            ffmt@,
            dfmt@,
            cfg@,
        ));
    }
}

} // verus!
