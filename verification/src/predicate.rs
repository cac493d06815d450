//! The predicate evaluator: metadata search rules, their parsing, and the
//! classification of file and directory names against a configured set of
//! name patterns and metadata predicates. Evaluation is pure: the outcome is
//! a function of the candidate's name, its metadata and the configuration.

use vstd::prelude::*;

use crate::pattern::{
    lower_of, lowercase, regex_compile, regex_is_match, regex_match, regex_valid, CompiledRegex,
};
use crate::strutil::{
    contains_str, dec_str, find_char, first_at, is_substring, lemma_first_at, lemma_first_at_none,
    parse_u64, parse_u64_spec, str_eq_str, u64_to_string,
};

verus! {

// ---------------------------------------------------------------------------
// Metadata predicates
// ---------------------------------------------------------------------------

/// The comparison applied by a metadata search rule.
#[derive(Clone, Copy)]
pub enum MetaOperator {
    Equals,
    GreaterThan,
    LessThan,
    Contains,
    Regex,
}

/// One metadata search rule: a field name, an operator and a pattern.
pub struct MetaSearch {
    pub field: String,
    pub operator: MetaOperator,
    pub pattern: String,
}

/// The mathematical content of a metadata search rule.
pub struct GMetaSearch {
    pub field: Seq<char>,
    pub op: MetaOperator,
    pub pattern: Seq<char>,
}

impl View for MetaSearch {
    type V = GMetaSearch;

    open spec fn view(&self) -> GMetaSearch {
        GMetaSearch { field: self.field@, op: self.operator, pattern: self.pattern@ }
    }
}

/// The metadata of one file or directory, as plain values: the byte size,
/// the three timestamps already rendered as ISO-8601 UTC strings with
/// second precision, and the read-only permission flag.
pub struct Meta {
    pub size: u64,
    pub modified: String,
    pub created: String,
    pub accessed: String,
    pub readonly: bool,
}

/// The mathematical content of `Meta`.
pub struct GMeta {
    pub size: u64,
    pub modified: Seq<char>,
    pub created: Seq<char>,
    pub accessed: Seq<char>,
    pub readonly: bool,
}

impl View for Meta {
    type V = GMeta;

    open spec fn view(&self) -> GMeta {
        GMeta {
            size: self.size,
            modified: self.modified@,
            created: self.created@,
            accessed: self.accessed@,
            readonly: self.readonly,
        }
    }
}

/// The string form of a boolean permission flag.
pub open spec fn bool_str(b: bool) -> Seq<char> {
    if b {
        "true"@
    } else {
        "false"@
    }
}

/// An invalid pattern in a metadata rule degrades to "match everything".
pub open spec fn rx_or_true(pat: Seq<char>, text: Seq<char>) -> bool {
    if regex_valid(pat) {
        regex_match(pat, text)
    } else {
        true
    }
}

fn rx_or_true_exec(pat: &str, text: &str) -> (r: bool)
    ensures
        r == rx_or_true(pat@, text@),
{
    match regex_compile(pat) {
        Some(c) => regex_is_match(&c, text),
        None => true,
    }
}

/// Whether metadata `m` satisfies the rule `ms`. The `size` field under
/// `Equals` tests substring containment of the decimal form, not numeric
/// equality; `GreaterThan` and `LessThan` are inclusive bounds and fail
/// silently on an unparseable bound; unknown fields never match.
pub open spec fn meta_match(m: GMeta, ms: GMetaSearch) -> bool {
    if ms.field == "size"@ {
        match ms.op {
            MetaOperator::Equals => is_substring(dec_str(m.size as nat), ms.pattern),
            MetaOperator::GreaterThan => match parse_u64_spec(ms.pattern) {
                Some(v) => m.size >= v,
                None => false,
            },
            MetaOperator::LessThan => match parse_u64_spec(ms.pattern) {
                Some(v) => m.size <= v,
                None => false,
            },
            _ => rx_or_true(ms.pattern, dec_str(m.size as nat)),
        }
    } else if ms.field == "modified"@ || ms.field == "created"@ || ms.field == "accessed"@
        || ms.field == "readonly"@ {
        let res = if ms.field == "modified"@ {
            m.modified
        } else if ms.field == "created"@ {
            m.created
        } else if ms.field == "accessed"@ {
            m.accessed
        } else {
            bool_str(m.readonly)
        };
        match ms.op {
            MetaOperator::Contains => rx_or_true(ms.pattern, res),
            MetaOperator::Regex => rx_or_true(ms.pattern, res),
            MetaOperator::Equals => res == ms.pattern,
            _ => is_substring(res, ms.pattern),
        }
    } else {
        false
    }
}

/// Decides `meta_match` on executable values.
pub fn matches_metadata(m: &Meta, ms: &MetaSearch) -> (r: bool)
    ensures
        r == meta_match(m@, ms@),
{
    let field = ms.field.as_str();
    let pat = ms.pattern.as_str();
    if str_eq_str(field, "size") {
        let size_str = u64_to_string(m.size);
        match ms.operator {
            MetaOperator::Equals => contains_str(size_str.as_str(), pat),
            MetaOperator::GreaterThan => match parse_u64(pat) {
                Some(v) => m.size >= v,
                None => false,
            },
            MetaOperator::LessThan => match parse_u64(pat) {
                Some(v) => m.size <= v,
                None => false,
            },
            _ => rx_or_true_exec(pat, size_str.as_str()),
        }
    } else if str_eq_str(field, "modified") || str_eq_str(field, "created") || str_eq_str(
        field,
        "accessed",
    ) || str_eq_str(field, "readonly") {
        let res: &str = if str_eq_str(field, "modified") {
            m.modified.as_str()
        } else if str_eq_str(field, "created") {
            m.created.as_str()
        } else if str_eq_str(field, "accessed") {
            m.accessed.as_str()
        } else {
            if m.readonly {
                "true"
            } else {
                "false"
            }
        };
        match ms.operator {
            MetaOperator::Contains => rx_or_true_exec(pat, res),
            MetaOperator::Regex => rx_or_true_exec(pat, res),
            MetaOperator::Equals => str_eq_str(res, pat),
            _ => contains_str(res, pat),
        }
    } else {
        false
    }
}

// ---------------------------------------------------------------------------
// Parsing metadata search rules
// ---------------------------------------------------------------------------

/// The operator denoted by the text between the first and second colon;
/// any unrecognized text selects `Regex`.
pub open spec fn op_of(s: Seq<char>) -> MetaOperator {
    if s == ">"@ || s == "^>"@ {
        MetaOperator::GreaterThan
    } else if s == "<"@ || s == "^<"@ {
        MetaOperator::LessThan
    } else if s == "="@ || s == "^="@ {
        MetaOperator::Equals
    } else if s == "~"@ || s == "^~"@ {
        MetaOperator::Contains
    } else {
        MetaOperator::Regex
    }
}

/// What parsing a `field:operator:pattern` or `field:pattern` rule yields:
/// `None` when the text holds no colon. With no second colon the operator
/// defaults to `Contains`; an unrecognized operator token selects `Regex`,
/// whose pattern is everything after the first colon.
pub open spec fn parse_meta_spec(s: Seq<char>) -> Option<GMetaSearch> {
    let c1 = first_at(s, ':');
    if c1 < 0 {
        None
    } else {
        let field = s.take(c1);
        let rest = s.skip(c1 + 1);
        let c2 = first_at(rest, ':');
        if c2 < 0 {
            Some(GMetaSearch { field, op: MetaOperator::Contains, pattern: rest })
        } else {
            let op = op_of(rest.take(c2));
            let pattern = match op {
                MetaOperator::Regex => rest,
                _ => rest.skip(c2 + 1),
            };
            Some(GMetaSearch { field, op, pattern })
        }
    }
}

/// Parses one metadata search rule.
pub fn parse_meta_search(s: &str) -> (r: Result<MetaSearch, String>)
    ensures
        r is Ok <==> parse_meta_spec(s@) is Some,
        r matches Ok(ms) ==> parse_meta_spec(s@) == Some(ms@),
        r matches Err(e) ==> e@ == "Invalid meta search format"@,
{
    let n = s.unicode_len();
    let c1 = match find_char(s, ':') {
        Some(i) => {
            proof {
                lemma_first_at(s@, ':', i as int);
            }
            i
        },
        None => {
            proof {
                lemma_first_at_none(s@, ':');
            }
            return Err(String::from_str("Invalid meta search format"));
        },
    };
    let field = s.substring_char(0, c1).to_owned();
    let rest = s.substring_char(c1 + 1, n);
    proof {
        assert(field@ =~= s@.take(c1 as int));
        assert(rest@ =~= s@.skip(c1 + 1));
    }
    let rn = rest.unicode_len();
    let c2 = match find_char(rest, ':') {
        Some(i) => {
            proof {
                lemma_first_at(rest@, ':', i as int);
            }
            i
        },
        None => {
            proof {
                lemma_first_at_none(rest@, ':');
            }
            return Ok(
                MetaSearch {
                    field,
                    operator: MetaOperator::Contains,
                    pattern: rest.to_owned(),
                },
            );
        },
    };
    let opstr = rest.substring_char(0, c2);
    proof {
        assert(opstr@ =~= rest@.take(c2 as int));
    }
    let operator = if str_eq_str(opstr, ">") || str_eq_str(opstr, "^>") {
        MetaOperator::GreaterThan
    } else if str_eq_str(opstr, "<") || str_eq_str(opstr, "^<") {
        MetaOperator::LessThan
    } else if str_eq_str(opstr, "=") || str_eq_str(opstr, "^=") {
        MetaOperator::Equals
    } else if str_eq_str(opstr, "~") || str_eq_str(opstr, "^~") {
        MetaOperator::Contains
    } else {
        MetaOperator::Regex
    };
    let pattern = match operator {
        MetaOperator::Regex => rest.to_owned(),
        _ => {
            let p = rest.substring_char(c2 + 1, rn);
            proof {
                assert(p@ =~= rest@.skip(c2 + 1));
            }
            p.to_owned()
        },
    };
    Ok(MetaSearch { field, operator, pattern })
}

// ---------------------------------------------------------------------------
// Configuration
// ---------------------------------------------------------------------------

/// The compiled predicate configuration: name patterns for files and
/// directories (case-insensitive ones are stored lowercased), the parsed
/// metadata rules, whether any metadata rule was supplied at all, and the
/// combination mode (`all` intersects, the default `any` unions).
pub struct Config {
    files_ci: Vec<CompiledRegex>,
    files_cs: Vec<CompiledRegex>,
    dirs_ci: Vec<CompiledRegex>,
    dirs_cs: Vec<CompiledRegex>,
    metas: Vec<MetaSearch>,
    meta_specified: bool,
    all_mode: bool,
}

/// The mathematical content of `Config`: the pattern texts and rules.
pub struct GConfig {
    pub files_ci: Seq<Seq<char>>,
    pub files_cs: Seq<Seq<char>>,
    pub dirs_ci: Seq<Seq<char>>,
    pub dirs_cs: Seq<Seq<char>>,
    pub metas: Seq<GMetaSearch>,
    pub meta_specified: bool,
    pub all_mode: bool,
}

/// The patterns of a list of compiled regular expressions.
pub open spec fn cr_pats(s: Seq<CompiledRegex>) -> Seq<Seq<char>>
    decreases s.len(),
{
    if s.len() == 0 {
        Seq::empty()
    } else {
        cr_pats(s.drop_last()).push(s.last().pattern())
    }
}

/// The views of a list of metadata rules.
pub open spec fn ms_views(s: Seq<MetaSearch>) -> Seq<GMetaSearch>
    decreases s.len(),
{
    if s.len() == 0 {
        Seq::empty()
    } else {
        ms_views(s.drop_last()).push(s.last()@)
    }
}

impl View for Config {
    type V = GConfig;

    closed spec fn view(&self) -> GConfig {
        GConfig {
            files_ci: cr_pats(self.files_ci@),
            files_cs: cr_pats(self.files_cs@),
            dirs_ci: cr_pats(self.dirs_ci@),
            dirs_cs: cr_pats(self.dirs_cs@),
            metas: ms_views(self.metas@),
            meta_specified: self.meta_specified,
            all_mode: self.all_mode,
        }
    }
}

impl GConfig {
    /// Whether any file name pattern was supplied.
    pub open spec fn files_specified(self) -> bool {
        self.files_ci.len() + self.files_cs.len() > 0
    }

    /// Whether any directory name pattern was supplied.
    pub open spec fn dirs_specified(self) -> bool {
        self.dirs_ci.len() + self.dirs_cs.len() > 0
    }
}

/// Case-insensitive pattern lists are lowercased, then empties are dropped.
pub open spec fn norm_ci(ps: Seq<Seq<char>>) -> Seq<Seq<char>>
    decreases ps.len(),
{
    if ps.len() == 0 {
        Seq::empty()
    } else {
        norm_ci(ps.drop_last()) + (if lower_of(ps.last()).len() > 0 {
            seq![lower_of(ps.last())]
        } else {
            Seq::empty()
        })
    }
}

/// Case-sensitive pattern lists only have empties dropped.
pub open spec fn norm_cs(ps: Seq<Seq<char>>) -> Seq<Seq<char>>
    decreases ps.len(),
{
    if ps.len() == 0 {
        Seq::empty()
    } else {
        norm_cs(ps.drop_last()) + (if ps.last().len() > 0 {
            seq![ps.last()]
        } else {
            Seq::empty()
        })
    }
}

/// The metadata rules that parse; unparseable ones are dropped.
pub open spec fn parse_all(ss: Seq<Seq<char>>) -> Seq<GMetaSearch>
    decreases ss.len(),
{
    if ss.len() == 0 {
        Seq::empty()
    } else {
        parse_all(ss.drop_last()) + (match parse_meta_spec(ss.last()) {
            Some(g) => seq![g],
            None => Seq::empty(),
        })
    }
}

/// Whether every pattern in the list compiles.
pub open spec fn all_valid(ps: Seq<Seq<char>>) -> bool {
    forall|i: int| 0 <= i < ps.len() ==> regex_valid(#[trigger] ps[i])
}

/// Lowercases (when `ci`), drops empties, and compiles a pattern list;
/// fails on the first pattern the regex engine refuses, returning it.
fn compile_list(pats: &Vec<String>, ci: bool) -> (r: Result<Vec<CompiledRegex>, String>)
    ensures
        r matches Ok(v) ==> cr_pats(v@) == (if ci {
            norm_ci(pats.deep_view())
        } else {
            norm_cs(pats.deep_view())
        }),
        r is Ok <==> all_valid(
            if ci {
                norm_ci(pats.deep_view())
            } else {
                norm_cs(pats.deep_view())
            },
        ),
        r matches Err(e) ==> !regex_valid(e@),
{
    let ghost norm = |s: Seq<Seq<char>>|
        if ci {
            norm_ci(s)
        } else {
            norm_cs(s)
        };
    let mut out: Vec<CompiledRegex> = Vec::new();
    let mut i: usize = 0;
    while i < pats.len()
        invariant
            i <= pats.len(),
            norm == (|s: Seq<Seq<char>>|
                if ci {
                    norm_ci(s)
                } else {
                    norm_cs(s)
                }),
            cr_pats(out@) == norm(pats.deep_view().take(i as int)),
            all_valid(norm(pats.deep_view().take(i as int))),
        decreases pats.len() - i,
    {
        let p: String = if ci {
            lowercase(pats[i].as_str())
        } else {
            pats[i].clone()
        };
        proof {
            assert(pats.deep_view().take(i + 1).drop_last() =~= pats.deep_view().take(i as int));
            assert(pats.deep_view().take(i + 1).last() == pats.deep_view()[i as int]);
            assert(pats.deep_view()[i as int] == pats@[i as int]@);
        }
        if !p.as_str().is_empty() {
            match regex_compile(p.as_str()) {
                Some(c) => {
                    let ghost out0 = out@;
                    let ghost prev = cr_pats(out@);
                    out.push(c);
                    proof {
                        assert(out@.drop_last() =~= out0);
                        assert(cr_pats(out@) == prev.push(c.pattern()));
                        assert(norm(pats.deep_view().take(i + 1)) =~= prev.push(p@));
                    }
                },
                None => {
                    proof {
                        let ghost nn = norm(pats.deep_view().take(i + 1));
                        assert(nn.last() == p@);
                        assert(!regex_valid(p@));
                        let ghost full = pats.deep_view();
                        assert(full.take(full.len() as int) =~= full);
                        lemma_norm_prefix_invalid(full, i as int, ci);
                    }
                    return Err(p);
                },
            }
        } else {
            proof {
                assert(norm(pats.deep_view().take(i + 1)) =~= norm(
                    pats.deep_view().take(i as int),
                ));
            }
        }
        i = i + 1;
    }
    proof {
        assert(pats.deep_view().take(pats@.len() as int) =~= pats.deep_view());
    }
    Ok(out)
}

/// If some pattern at or after position `i` fails to compile, the whole
/// normalized list is not all-valid.
proof fn lemma_norm_prefix_invalid(ps: Seq<Seq<char>>, i: int, ci: bool)
    requires
        0 <= i < ps.len(),
        !regex_valid(if ci {
            lower_of(ps[i])
        } else {
            ps[i]
        }),
        (if ci {
            lower_of(ps[i])
        } else {
            ps[i]
        }).len() > 0,
    ensures
        !all_valid(if ci {
            norm_ci(ps)
        } else {
            norm_cs(ps)
        }),
    decreases ps.len(),
{
    let p = if ci {
        lower_of(ps[i])
    } else {
        ps[i]
    };
    if i == ps.len() - 1 {
        let n = if ci {
            norm_ci(ps)
        } else {
            norm_cs(ps)
        };
        assert(ps.last() == ps[i]);
        assert(n.last() == p);
        assert(!regex_valid(n[n.len() - 1]));
    } else {
        lemma_norm_prefix_invalid(ps.drop_last(), i, ci);
        let pre = if ci {
            norm_ci(ps.drop_last())
        } else {
            norm_cs(ps.drop_last())
        };
        let n = if ci {
            norm_ci(ps)
        } else {
            norm_cs(ps)
        };
        let j = choose|j: int| 0 <= j < pre.len() && !regex_valid(#[trigger] pre[j]);
        assert(n[j] == pre[j]);
        assert(!regex_valid(n[j]));
    }
}

impl Config {
    /// Builds a configuration from raw pattern lists and metadata rule
    /// texts. Case-insensitive patterns are lowercased; empty patterns are
    /// dropped; an invalid name pattern is a configuration error, returned
    /// as the offending pattern text; unparseable metadata rules are
    /// silently dropped, though their presence still counts as "metadata
    /// was specified".
    pub fn new(
        file_patterns: Vec<String>,
        file_patterns_cs: Vec<String>,
        dir_patterns: Vec<String>,
        dir_patterns_cs: Vec<String>,
        meta_searches: Vec<String>,
        all_mode: bool,
    ) -> (r: Result<Config, String>)
        ensures
            r is Ok <==> all_valid(norm_ci(file_patterns.deep_view())) && all_valid(
                norm_cs(file_patterns_cs.deep_view()),
            ) && all_valid(norm_ci(dir_patterns.deep_view())) && all_valid(
                norm_cs(dir_patterns_cs.deep_view()),
            ),
            r matches Ok(c) ==> c@ == (GConfig {
                files_ci: norm_ci(file_patterns.deep_view()),
                files_cs: norm_cs(file_patterns_cs.deep_view()),
                dirs_ci: norm_ci(dir_patterns.deep_view()),
                dirs_cs: norm_cs(dir_patterns_cs.deep_view()),
                metas: parse_all(meta_searches.deep_view()),
                meta_specified: meta_searches@.len() > 0,
                all_mode: all_mode,
            }),
            r matches Err(e) ==> !regex_valid(e@),
    {
        let files_ci = match compile_list(&file_patterns, true) {
            Ok(v) => v,
            Err(e) => {
                return Err(e);
            },
        };
        let files_cs = match compile_list(&file_patterns_cs, false) {
            Ok(v) => v,
            Err(e) => {
                return Err(e);
            },
        };
        let dirs_ci = match compile_list(&dir_patterns, true) {
            Ok(v) => v,
            Err(e) => {
                return Err(e);
            },
        };
        let dirs_cs = match compile_list(&dir_patterns_cs, false) {
            Ok(v) => v,
            Err(e) => {
                return Err(e);
            },
        };
        let meta_specified = meta_searches.len() > 0;
        let mut metas: Vec<MetaSearch> = Vec::new();
        let mut i: usize = 0;
        while i < meta_searches.len()
            invariant
                i <= meta_searches.len(),
                ms_views(metas@) == parse_all(meta_searches.deep_view().take(i as int)),
            decreases meta_searches.len() - i,
        {
            proof {
                assert(meta_searches.deep_view().take(i + 1).drop_last() =~= meta_searches
                    .deep_view()
                    .take(i as int));
                assert(meta_searches.deep_view().take(i + 1).last() == meta_searches@[
                    i as int
                ]@);
            }
            match parse_meta_search(meta_searches[i].as_str()) {
                Ok(ms) => {
                    let ghost metas0 = metas@;
                    let ghost prev = ms_views(metas@);
                    metas.push(ms);
                    proof {
                        assert(metas@.drop_last() =~= metas0);
                        assert(ms_views(metas@) == prev.push(ms@));
                        assert(parse_all(meta_searches.deep_view().take(i + 1)) =~= prev.push(
                            ms@,
                        ));
                    }
                },
                Err(_) => {
                    proof {
                        assert(parse_all(meta_searches.deep_view().take(i + 1)) =~= parse_all(
                            meta_searches.deep_view().take(i as int),
                        ));
                    }
                },
            }
            i = i + 1;
        }
        proof {
            assert(meta_searches.deep_view().take(meta_searches@.len() as int)
                =~= meta_searches.deep_view());
        }
        Ok(
            Config {
                files_ci,
                files_cs,
                dirs_ci,
                dirs_cs,
                metas,
                meta_specified,
                all_mode,
            },
        )
    }
}

// ---------------------------------------------------------------------------
// Evaluation
// ---------------------------------------------------------------------------

/// Whether any element of a detail vector is true.
pub open spec fn any_of(s: Seq<bool>) -> bool
    decreases s.len(),
{
    if s.len() == 0 {
        false
    } else {
        any_of(s.drop_last()) || s.last()
    }
}

/// Whether every element of a detail vector is true.
pub open spec fn all_of(s: Seq<bool>) -> bool
    decreases s.len(),
{
    if s.len() == 0 {
        true
    } else {
        all_of(s.drop_last()) && s.last()
    }
}

/// The per-pattern outcomes of matching `text` against a pattern list.
pub open spec fn rx_details(pats: Seq<Seq<char>>, text: Seq<char>) -> Seq<bool>
    decreases pats.len(),
{
    if pats.len() == 0 {
        Seq::empty()
    } else {
        rx_details(pats.drop_last(), text).push(regex_match(pats.last(), text))
    }
}

/// The per-rule outcomes of the metadata rules on metadata `m`.
pub open spec fn meta_details(metas: Seq<GMetaSearch>, m: GMeta) -> Seq<bool>
    decreases metas.len(),
{
    if metas.len() == 0 {
        Seq::empty()
    } else {
        meta_details(metas.drop_last(), m).push(meta_match(m, metas.last()))
    }
}

/// The detail vector of a candidate: case-insensitive name patterns on the
/// lowercased name, then case-sensitive ones on the name as given, then the
/// metadata rules (when any metadata rule text was supplied).
pub open spec fn detail_vector(
    name: Seq<char>,
    m: GMeta,
    ci: Seq<Seq<char>>,
    cs: Seq<Seq<char>>,
    cfg: GConfig,
) -> Seq<bool> {
    rx_details(ci, lower_of(name)) + rx_details(cs, name) + (if cfg.meta_specified {
        meta_details(cfg.metas, m)
    } else {
        Seq::empty()
    })
}

/// Combines a detail vector under the configured mode.
pub open spec fn combine(cfg: GConfig, d: Seq<bool>) -> bool {
    if cfg.all_mode {
        all_of(d)
    } else {
        any_of(d)
    }
}

/// What evaluating a file yields: an empty name never matches; with no
/// file pattern and no metadata rule a file matches by default, even when
/// directory patterns were supplied — files are never silently dropped
/// while the user is filtering directories; otherwise the detail vector
/// is combined under the configured mode.
pub open spec fn eval_file_spec(name: Seq<char>, m: GMeta, cfg: GConfig) -> (bool, Seq<bool>) {
    if name.len() == 0 {
        (false, Seq::empty())
    } else if !cfg.files_specified() && !cfg.meta_specified {
        (true, Seq::empty())
    } else {
        let d = detail_vector(name, m, cfg.files_ci, cfg.files_cs, cfg);
        (combine(cfg, d), d)
    }
}

/// What evaluating a directory yields: an empty name never matches; with
/// no directory pattern and no metadata rule, a directory matches by
/// default only when no file pattern was supplied either — so pruning
/// still removes branches without file matches while the user is
/// filtering files; otherwise the detail vector is combined under the
/// configured mode.
pub open spec fn eval_dir_spec(name: Seq<char>, m: GMeta, cfg: GConfig) -> (bool, Seq<bool>) {
    if name.len() == 0 {
        (false, Seq::empty())
    } else if !cfg.dirs_specified() && !cfg.meta_specified {
        (!cfg.files_specified(), Seq::empty())
    } else {
        let d = detail_vector(name, m, cfg.dirs_ci, cfg.dirs_cs, cfg);
        (combine(cfg, d), d)
    }
}

/// Matches `text` against every pattern in the list, in order.
fn match_list(res: &Vec<CompiledRegex>, text: &str, out: &mut Vec<bool>)
    ensures
        final(out)@ == old(out)@ + rx_details(cr_pats(res@), text@),
{
    let ghost base = out@;
    let mut i: usize = 0;
    while i < res.len()
        invariant
            i <= res.len(),
            out@ == base + rx_details(cr_pats(res@.take(i as int)), text@),
        decreases res.len() - i,
    {
        proof {
            assert(res@.take(i + 1).drop_last() =~= res@.take(i as int));
            assert(res@.take(i + 1).last() == res@[i as int]);
        }
        let b = regex_is_match(&res[i], text);
        out.push(b);
        proof {
            let cp = cr_pats(res@.take(i + 1));
            assert(cp.drop_last() =~= cr_pats(res@.take(i as int)));
            assert(rx_details(cp, text@).drop_last() =~= rx_details(cp.drop_last(), text@));
            assert(out@ =~= base + rx_details(cr_pats(res@.take(i + 1)), text@));
        }
        i = i + 1;
    }
    proof {
        assert(res@.take(res@.len() as int) =~= res@);
    }
}

/// Runs every metadata rule on metadata `m`, in order.
fn match_metas(metas: &Vec<MetaSearch>, m: &Meta, out: &mut Vec<bool>)
    ensures
        final(out)@ == old(out)@ + meta_details(ms_views(metas@), m@),
{
    let ghost base = out@;
    let mut i: usize = 0;
    while i < metas.len()
        invariant
            i <= metas.len(),
            out@ == base + meta_details(ms_views(metas@.take(i as int)), m@),
        decreases metas.len() - i,
    {
        proof {
            assert(metas@.take(i + 1).drop_last() =~= metas@.take(i as int));
            assert(metas@.take(i + 1).last() == metas@[i as int]);
        }
        let b = matches_metadata(m, &metas[i]);
        out.push(b);
        proof {
            let mv = ms_views(metas@.take(i + 1));
            assert(mv.drop_last() =~= ms_views(metas@.take(i as int)));
            assert(meta_details(mv, m@).drop_last() =~= meta_details(mv.drop_last(), m@));
            assert(out@ =~= base + meta_details(ms_views(metas@.take(i + 1)), m@));
        }
        i = i + 1;
    }
    proof {
        assert(metas@.take(metas@.len() as int) =~= metas@);
    }
}

/// Decides `any_of` on a vector.
fn any_exec(v: &Vec<bool>) -> (r: bool)
    ensures
        r == any_of(v@),
{
    let mut acc = false;
    let mut i: usize = 0;
    while i < v.len()
        invariant
            i <= v.len(),
            acc == any_of(v@.take(i as int)),
        decreases v.len() - i,
    {
        proof {
            assert(v@.take(i + 1).drop_last() =~= v@.take(i as int));
        }
        acc = acc || v[i];
        i = i + 1;
    }
    proof {
        assert(v@.take(v@.len() as int) =~= v@);
    }
    acc
}

/// Decides `all_of` on a vector.
fn all_exec(v: &Vec<bool>) -> (r: bool)
    ensures
        r == all_of(v@),
{
    let mut acc = true;
    let mut i: usize = 0;
    while i < v.len()
        invariant
            i <= v.len(),
            acc == all_of(v@.take(i as int)),
        decreases v.len() - i,
    {
        proof {
            assert(v@.take(i + 1).drop_last() =~= v@.take(i as int));
        }
        acc = acc && v[i];
        i = i + 1;
    }
    proof {
        assert(v@.take(v@.len() as int) =~= v@);
    }
    acc
}

impl Config {
    fn evaluate(&self, name: &str, m: &Meta, for_dir: bool) -> (r: (bool, Vec<bool>))
        ensures
            ({
                let s = if for_dir {
                    eval_dir_spec(name@, m@, self@)
                } else {
                    eval_file_spec(name@, m@, self@)
                };
                r.0 == s.0 && r.1@ == s.1
            }),
    {
        let (own_ci, own_cs) = if for_dir {
            (&self.dirs_ci, &self.dirs_cs)
        } else {
            (&self.files_ci, &self.files_cs)
        };
        let own_specified = own_ci.len() > 0 || own_cs.len() > 0;
        let other_specified = if for_dir {
            self.files_ci.len() > 0 || self.files_cs.len() > 0
        } else {
            self.dirs_ci.len() > 0 || self.dirs_cs.len() > 0
        };
        proof {
            assert(cr_pats(self.files_ci@).len() == self.files_ci@.len())
                by { lemma_cr_pats_len(self.files_ci@) };
            assert(cr_pats(self.files_cs@).len() == self.files_cs@.len())
                by { lemma_cr_pats_len(self.files_cs@) };
            assert(cr_pats(self.dirs_ci@).len() == self.dirs_ci@.len())
                by { lemma_cr_pats_len(self.dirs_ci@) };
            assert(cr_pats(self.dirs_cs@).len() == self.dirs_cs@.len())
                by { lemma_cr_pats_len(self.dirs_cs@) };
        }
        if name.is_empty() {
            return (false, Vec::new());
        }
        if !own_specified && !self.meta_specified {
            // files match by default even under a directory-only filter;
            // directories match by default only when nothing else is filtered
            let default_match = if for_dir {
                !other_specified
            } else {
                true
            };
            return (default_match, Vec::new());
        }
        let low = lowercase(name);
        let mut d: Vec<bool> = Vec::new();
        match_list(own_ci, low.as_str(), &mut d);
        match_list(own_cs, name, &mut d);
        if self.meta_specified {
            match_metas(&self.metas, m, &mut d);
        } else {
            proof {
                assert(d@ =~= d@ + Seq::<bool>::empty());
            }
        }
        let ok = if self.all_mode {
            all_exec(&d)
        } else {
            any_exec(&d)
        };
        (ok, d)
    }

    /// Evaluates a file candidate: the overall outcome and the ordered
    /// per-predicate detail vector.
    pub fn evaluate_file(&self, name: &str, m: &Meta) -> (r: (bool, Vec<bool>))
        ensures
            r.0 == eval_file_spec(name@, m@, self@).0,
            r.1@ == eval_file_spec(name@, m@, self@).1,
    {
        self.evaluate(name, m, false)
    }

    /// Evaluates a directory candidate: the overall outcome and the ordered
    /// per-predicate detail vector.
    pub fn evaluate_dir(&self, name: &str, m: &Meta) -> (r: (bool, Vec<bool>))
        ensures
            r.0 == eval_dir_spec(name@, m@, self@).0,
            r.1@ == eval_dir_spec(name@, m@, self@).1,
    {
        self.evaluate(name, m, true)
    }
}

proof fn lemma_cr_pats_len(s: Seq<CompiledRegex>)
    ensures
        cr_pats(s).len() == s.len(),
    decreases s.len(),
{
    if s.len() > 0 {
        lemma_cr_pats_len(s.drop_last());
    }
}

/// The evaluator is idempotent: any two evaluations of the same name,
/// metadata and configuration yield the same outcome and the same detail
/// vector, for files and for directories alike. Together with the
/// contracts of `Config::evaluate_file` and `Config::evaluate_dir`, which
/// pin each call's result to these spec functions, any two calls on equal
/// arguments return equal results.
pub proof fn lemma_evaluator_idempotent(
    name1: Seq<char>,
    m1: GMeta,
    cfg1: GConfig,
    name2: Seq<char>,
    m2: GMeta,
    cfg2: GConfig,
)
    requires
        name1 == name2,
        m1 == m2,
        cfg1 == cfg2,
    ensures
        eval_file_spec(name1, m1, cfg1) == eval_file_spec(name2, m2, cfg2),
        eval_dir_spec(name1, m1, cfg1) == eval_dir_spec(name2, m2, cfg2),
{
}

} // verus!
