//! Exclusion patterns: a comma-separated list whose commas inside `{...}`
//! groups do not separate, brace-expanded, normalised by the number of `/`
//! and compiled to glob matchers.
use crate::text::{
    lemma_non_empty_push, lemma_views_push, non_empty, trim, trim_end, trim_start, trimmed, views, white_space,
};
use vstd::prelude::*;
use vstd::utf8::is_ascii_chars;

verus! {

/// The nesting depth of `{...}` groups after `s`: opening braces minus
/// closing ones.
pub open spec fn brace_depth(s: Seq<char>) -> int
    decreases s.len(),
{
    if s.len() == 0 {
        0
    } else {
        brace_depth(s.drop_last()) + if s.last() == '{' {
            1int
        } else if s.last() == '}' {
            -1int
        } else {
            0int
        }
    }
}

/// The pieces of `s` between the commas that stand outside every `{...}`
/// group, empty pieces included.
pub open spec fn comma_fields(s: Seq<char>) -> Seq<Seq<char>>
    decreases s.len(),
{
    if s.len() == 0 {
        seq![Seq::empty()]
    } else {
        let f = comma_fields(s.drop_last());
        if s.last() == ',' && brace_depth(s.drop_last()) == 0 {
            f.push(Seq::empty())
        } else {
            f.update(f.len() - 1, f.last().push(s.last()))
        }
    }
}

/// Each member of `fs` with white space trimmed.
pub open spec fn trimmed_each(fs: Seq<Seq<char>>) -> Seq<Seq<char>> {
    fs.map_values(|f: Seq<char>| trimmed(f))
}

/// The user patterns of an exclude list: its non-empty top-level pieces,
/// trimmed.
pub open spec fn split_spec(s: Seq<char>) -> Seq<Seq<char>> {
    trimmed_each(non_empty(comma_fields(s)))
}

/// The user patterns of an optional exclude list; none when it is absent.
pub open spec fn split_option_spec(s: Option<Seq<char>>) -> Seq<Seq<char>> {
    match s {
        Some(t) => split_spec(t),
        None => Seq::empty(),
    }
}

/// The view of an optional string.
pub open spec fn option_view(s: Option<String>) -> Option<Seq<char>> {
    match s {
        Some(t) => Some(t@),
        None => None,
    }
}

/// Splits an exclude list at the commas outside `{...}` groups, drops empty
/// pieces and trims the others.
pub fn split_string_respect_braces(input_string: Option<String>) -> (r: Vec<String>)
    ensures
        views(r@) == split_option_spec(option_view(input_string)),
{
    match input_string {
        None => {
            let r: Vec<String> = Vec::new();
            assert(views(r@) =~= Seq::<Seq<char>>::empty());
            r
        },
        Some(string) => split_top_level(string.as_str()),
    }
}

fn split_top_level(s: &str) -> (r: Vec<String>)
    ensures
        views(r@) == split_spec(s@),
{
    let n = s.unicode_len();
    let mut result: Vec<String> = Vec::new();
    let mut start: usize = 0;
    let mut depth: i128 = 0;
    let mut i: usize = 0;
    let ghost done: Seq<Seq<char>> = Seq::empty();
    assert(s@.take(0) =~= Seq::<char>::empty());
    assert(views(result@) =~= trimmed_each(non_empty(done)));
    while i < n
        invariant
            start <= i <= n,
            n == s@.len(),
            -(i as int) <= depth <= i,
            depth == brace_depth(s@.take(i as int)),
            comma_fields(s@.take(i as int)) == done.push(s@.subrange(start as int, i as int)),
            views(result@) == trimmed_each(non_empty(done)),
        decreases n - i,
    {
        let c = s.get_char(i);
        let ghost pre = s@.take(i as int);
        assert(s@.take(i + 1).drop_last() =~= pre);
        assert(s@.take(i + 1).last() == c);
        if c == ',' && depth == 0 {
            let ghost cur = s@.subrange(start as int, i as int);
            let ghost before = result@;
            if i > start {
                let piece = trim(s.substring_char(start, i));
                result.push(piece);
                proof {
                    lemma_views_push(before, piece);
                }
            }
            proof {
                lemma_non_empty_push(done, cur);
                assert(trimmed_each(non_empty(done).push(cur)) =~= trimmed_each(non_empty(done)).push(
                    trimmed(cur),
                ));
                done = done.push(cur);
            }
            start = i + 1;
            assert(s@.subrange(start as int, i + 1) =~= Seq::<char>::empty());
        } else {
            assert(s@.subrange(start as int, i + 1) =~= s@.subrange(start as int, i as int).push(c));
            assert(done.push(s@.subrange(start as int, i as int)).update(
                done.len() as int,
                s@.subrange(start as int, i + 1),
            ) =~= done.push(s@.subrange(start as int, i + 1)));
        }
        if c == '{' {
            depth = depth + 1;
        } else if c == '}' {
            depth = depth - 1;
        }
        i += 1;
    }
    assert(s@.take(n as int) =~= s@);
    let ghost cur = s@.subrange(start as int, n as int);
    let ghost before = result@;
    if n > start {
        let piece = trim(s.substring_char(start, n));
        result.push(piece);
        proof {
            lemma_views_push(before, piece);
        }
    }
    proof {
        lemma_non_empty_push(done, cur);
        assert(trimmed_each(non_empty(done).push(cur)) =~= trimmed_each(non_empty(done)).push(
            trimmed(cur),
        ));
    }
    result
}

/// What brace expansion gives for a pattern, or `None` where its braces are
/// malformed.
pub uninterp spec fn brace_expansion(p: Seq<char>) -> Option<Seq<Seq<char>>>;

/// The views of an optional list of strings.
pub open spec fn texts_view(r: Option<Vec<String>>) -> Option<Seq<Seq<char>>> {
    match r {
        Some(v) => Some(views(v@)),
        None => None,
    }
}

/// Whether the braces of `p` are balanced: no prefix closes more groups
/// than it opens, and all of `p` closes as many as it opens.
pub open spec fn braces_balanced(p: Seq<char>) -> bool {
    &&& forall|k: int| 0 <= k <= p.len() ==> brace_depth(#[trigger] p.take(k)) >= 0
    &&& brace_depth(p) == 0
}

/// Whether two dots stand next to each other in `p`, which brace expansion
/// reads as a numeric range.
pub open spec fn has_range(p: Seq<char>) -> bool {
    exists|i: int| 0 <= i < p.len() - 1 && #[trigger] p[i] == '.' && p[i + 1] == '.'
}

/// The patterns that are handed to brace expansion: ASCII, without
/// backslash escapes or ranges, and with balanced braces.
pub open spec fn expandable(p: Seq<char>) -> bool {
    &&& is_ascii_chars(p)
    &&& !p.contains('\\')
    &&& !has_range(p)
    &&& braces_balanced(p)
}

/// Relies on `bracoxide::explode`: the brace expansion of `p` (the Cartesian
/// product of the alternatives of each `{...}` group, nested groups
/// included), or an error where `p` cannot be tokenized, parsed or expanded;
/// its tokenizer gives an error for a text without both `{` and `}`.
/// It may only see expandable patterns: its tokenizer subtracts byte lengths
/// from character positions, which underflows after a non-ASCII character;
/// its parser subtracts one from the position of a closing brace that an
/// unbalanced or escaped group never sets; a range such as `{0..99999999999}`
/// runs for as many numbers as it spans.
#[verifier::external_body]
fn explode_braces(p: &str) -> (r: Option<Vec<String>>)
    requires
        expandable(p@),
    ensures
        texts_view(r) == brace_expansion(p@),
        !p@.contains('{') || !p@.contains('}') ==> r is None,
{
    bracoxide::explode(p).ok()
}

/// The literal patterns of one user pattern: the brace expansion of an
/// expandable pattern that holds both braces, or the pattern itself where it
/// is not expandable, holds no group, or its expansion fails.
pub open spec fn expansion_spec(p: Seq<char>) -> Seq<Seq<char>> {
    if expandable(p) && p.contains('{') && p.contains('}') && brace_expansion(p) is Some {
        brace_expansion(p)->Some_0
    } else {
        seq![p]
    }
}

/// Checks that a pattern is expandable.
pub fn is_expandable(p: &str) -> (r: bool)
    ensures
        r == expandable(p@),
{
    if !p.is_ascii() {
        return false;
    }
    let n = p.unicode_len();
    let mut depth: i128 = 0;
    let mut i: usize = 0;
    assert(p@.take(0) =~= Seq::<char>::empty());
    while i < n
        invariant
            i <= n,
            n == p@.len(),
            is_ascii_chars(p@),
            depth == brace_depth(p@.take(i as int)),
            0 <= depth <= i,
            forall|k: int| 0 <= k <= i ==> brace_depth(#[trigger] p@.take(k)) >= 0,
            forall|k: int| 0 <= k < i ==> #[trigger] p@[k] != '\\',
            forall|k: int| 0 <= k < i - 1 ==> !(#[trigger] p@[k] == '.' && p@[k + 1] == '.'),
        decreases n - i,
    {
        let c = p.get_char(i);
        assert(p@.take(i + 1).drop_last() =~= p@.take(i as int));
        assert(p@.take(i + 1).last() == c);
        if c == '\\' {
            assert(p@.contains('\\'));
            return false;
        }
        if c == '.' && i > 0 && p.get_char(i - 1) == '.' {
            assert(p@[i - 1] == '.' && p@[i - 1 + 1] == '.');
            assert(has_range(p@));
            return false;
        }
        if c == '{' {
            depth = depth + 1;
        } else if c == '}' {
            if depth == 0 {
                assert(brace_depth(p@.take(i + 1)) < 0);
                return false;
            }
            depth = depth - 1;
        }
        i += 1;
    }
    assert(p@.take(n as int) =~= p@);
    assert(!p@.contains('\\')) by {
        if p@.contains('\\') {
            let k = choose|k: int| 0 <= k < p@.len() && p@[k] == '\\';
            assert(p@[k] != '\\');
        }
    }
    assert(!has_range(p@)) by {
        if has_range(p@) {
            let k = choose|k: int| 0 <= k < p@.len() - 1 && #[trigger] p@[k] == '.' && p@[k + 1] == '.';
            assert(!(p@[k] == '.' && p@[k + 1] == '.'));
        }
    }
    depth == 0
}

/// Brace-expands one user pattern, keeping it as it is where it is not
/// expandable or its braces are malformed.
pub fn expand_pattern(p: &str) -> (r: Vec<String>)
    ensures
        views(r@) == expansion_spec(p@),
{
    let expanded = if is_expandable(p) {
        explode_braces(p)
    } else {
        None
    };
    match expanded {
        Some(v) => v,
        None => {
            let mut r: Vec<String> = Vec::new();
            r.push(String::from_str(p));
            assert(views(r@) =~= seq![p@]);
            r
        },
    }
}

/// The number of `/` in `s`.
pub open spec fn slash_count(s: Seq<char>) -> nat
    decreases s.len(),
{
    if s.len() == 0 {
        0
    } else {
        slash_count(s.drop_last()) + if s.last() == '/' {
            1nat
        } else {
            0nat
        }
    }
}

/// A literal pattern completed to the three levels component/version/entry:
/// a bare component covers everything below it, a component and version
/// covers the entries directly in it, and a deeper pattern stays as it is.
pub open spec fn normalized(p: Seq<char>) -> Seq<char> {
    let k = slash_count(p);
    if k == 0 {
        p + "/**"@
    } else if k == 1 {
        p + "/*"@
    } else {
        p
    }
}

/// Completes a literal pattern according to how many `/` it holds.
pub fn normalize_pattern(p: &str) -> (r: String)
    ensures
        r@ == normalized(p@),
{
    let n = p.unicode_len();
    let mut count: usize = 0;
    let mut i: usize = 0;
    assert(p@.take(0) =~= Seq::<char>::empty());
    while i < n && count < 2
        invariant
            i <= n,
            n == p@.len(),
            count == slash_count(p@.take(i as int)),
            count <= 2,
        decreases n - i,
    {
        assert(p@.take(i + 1).drop_last() =~= p@.take(i as int));
        if p.get_char(i) == '/' {
            count += 1;
        }
        i += 1;
    }
    proof {
        lemma_slash_count_prefix(p@, i as int);
        if i == n {
            assert(p@.take(i as int) =~= p@);
        }
    }
    let mut r = String::from_str(p);
    if count == 0 {
        r.append("/**");
    } else if count == 1 {
        r.append("/*");
    }
    r
}

/// The count over a prefix never exceeds the count over the whole.
proof fn lemma_slash_count_prefix(s: Seq<char>, k: int)
    requires
        0 <= k <= s.len(),
    ensures
        slash_count(s.take(k)) <= slash_count(s),
    decreases s.len(),
{
    if k < s.len() {
        lemma_slash_count_prefix(s.drop_last(), k);
        assert(s.drop_last().take(k) =~= s.take(k));
    } else {
        assert(s.take(k) =~= s);
    }
}

/// Whether `p` is a well-formed glob pattern.
pub uninterp spec fn glob_compiles(p: Seq<char>) -> bool;

/// Whether `candidate` matches the glob pattern `p` under the default options
/// (case-sensitive; `*` and `?` also match `/`).
pub uninterp spec fn glob_matches(p: Seq<char>, candidate: Seq<char>) -> bool;

/// `glob::Pattern`, a compiled glob pattern, carried without looking inside.
#[verifier::external_type_specification]
#[verifier::external_body]
pub struct ExPattern(glob::Pattern);

/// Relies on `glob::Pattern::new`: compiles `p`, or gives the message of the
/// error where `p` is not a well-formed glob pattern.
#[verifier::external_body]
fn compile_glob(p: &str) -> (r: Result<glob::Pattern, String>)
    ensures
        r is Ok <==> glob_compiles(p@),
{
    match glob::Pattern::new(p) {
        Ok(c) => Ok(c),
        Err(e) => Err(e.msg.to_string()),
    }
}

/// A compiled glob pattern together with the text it was compiled from.
pub struct GlobPattern {
    text: String,
    compiled: glob::Pattern,
}

impl View for GlobPattern {
    type V = Seq<char>;

    closed spec fn view(&self) -> Seq<char> {
        self.text@
    }
}

/// Relies on `glob::Pattern::matches`: whether `candidate` matches the
/// pattern, which `GlobPattern::new` compiled from the text `p@`.
#[verifier::external_body]
fn glob_match(p: &GlobPattern, candidate: &str) -> (r: bool)
    ensures
        r == glob_matches(p@, candidate@),
{
    p.compiled.matches(candidate)
}

impl GlobPattern {
    /// Compiles `text`; the error is the reason it is not a glob pattern.
    pub fn new(text: String) -> (r: Result<GlobPattern, String>)
        ensures
            r is Ok <==> glob_compiles(text@),
            r matches Ok(g) ==> g@ == text@,
    {
        match compile_glob(text.as_str()) {
            Ok(compiled) => Ok(GlobPattern { text, compiled }),
            Err(msg) => Err(msg),
        }
    }

    /// Whether `candidate` matches this pattern.
    pub fn matches(&self, candidate: &str) -> (r: bool)
        ensures
            r == glob_matches(self@, candidate@),
    {
        glob_match(self, candidate)
    }
}

/// The normalised literal patterns of a list of user patterns, in order.
pub open spec fn expanded_patterns(pieces: Seq<Seq<char>>) -> Seq<Seq<char>>
    decreases pieces.len(),
{
    if pieces.len() == 0 {
        Seq::empty()
    } else {
        expanded_patterns(pieces.drop_last()) + expansion_spec(pieces.last()).map_values(
            |q: Seq<char>| normalized(q),
        )
    }
}

/// The members of `ps` that are well-formed glob patterns, in order.
pub open spec fn compiled_only(ps: Seq<Seq<char>>) -> Seq<Seq<char>>
    decreases ps.len(),
{
    if ps.len() == 0 {
        ps
    } else if glob_compiles(ps.last()) {
        compiled_only(ps.drop_last()).push(ps.last())
    } else {
        compiled_only(ps.drop_last())
    }
}

/// How many members of `ps` are not well-formed glob patterns.
pub open spec fn rejected_count(ps: Seq<Seq<char>>) -> nat
    decreases ps.len(),
{
    if ps.len() == 0 {
        0
    } else if glob_compiles(ps.last()) {
        rejected_count(ps.drop_last())
    } else {
        rejected_count(ps.drop_last()) + 1
    }
}

/// The normalised literal patterns of an optional exclude list.
pub open spec fn exclusion_candidates(e: Option<Seq<char>>) -> Seq<Seq<char>> {
    expanded_patterns(split_option_spec(e))
}

/// Whether `candidate` matches any of the glob patterns `ps`.
pub open spec fn excluded_by(ps: Seq<Seq<char>>, candidate: Seq<char>) -> bool {
    exists|i: int| 0 <= i < ps.len() && glob_matches(#[trigger] ps[i], candidate)
}

/// The compiled patterns of an exclude list, and one diagnostic for each
/// pattern that could not be compiled.
pub struct ExclusionMatcher {
    patterns: Vec<GlobPattern>,
    diagnostics: Vec<String>,
}

proof fn lemma_compiled_push(ps: Seq<Seq<char>>, q: Seq<char>)
    ensures
        compiled_only(ps.push(q)) == if glob_compiles(q) {
            compiled_only(ps).push(q)
        } else {
            compiled_only(ps)
        },
        rejected_count(ps.push(q)) == if glob_compiles(q) {
            rejected_count(ps)
        } else {
            rejected_count(ps) + 1
        },
{
    assert(ps.push(q).drop_last() =~= ps);
}

impl ExclusionMatcher {
    /// The texts of the compiled patterns, in order.
    pub closed spec fn pattern_texts(&self) -> Seq<Seq<char>> {
        self.patterns@.map_values(|g: GlobPattern| g@)
    }

    /// How many diagnostics the matcher holds.
    pub closed spec fn diagnostic_count(&self) -> nat {
        self.diagnostics@.len()
    }

    /// One message for each pattern that could not be compiled.
    pub fn diagnostics(&self) -> (r: &Vec<String>)
        ensures
            r@.len() == self.diagnostic_count(),
    {
        &self.diagnostics
    }

    /// Builds the matcher of an exclude list: every normalised expansion of
    /// every user pattern that compiles is kept; each one that does not is
    /// dropped with a diagnostic.
    pub fn new(exclude: Option<String>) -> (r: ExclusionMatcher)
        ensures
            r.pattern_texts() == compiled_only(exclusion_candidates(option_view(exclude))),
            r.diagnostic_count() == rejected_count(exclusion_candidates(option_view(exclude))),
    {
        let pieces = split_string_respect_braces(exclude);
        let ghost pv = views(pieces@);
        let mut patterns: Vec<GlobPattern> = Vec::new();
        let mut diagnostics: Vec<String> = Vec::new();
        let ghost seen: Seq<Seq<char>> = Seq::empty();
        let mut i: usize = 0;
        assert(pv.take(0) =~= Seq::<Seq<char>>::empty());
        assert(patterns@.map_values(|g: GlobPattern| g@) =~= Seq::<Seq<char>>::empty());
        while i < pieces.len()
            invariant
                i <= pieces@.len(),
                pv == views(pieces@),
                seen == expanded_patterns(pv.take(i as int)),
                patterns@.map_values(|g: GlobPattern| g@) == compiled_only(seen),
                diagnostics@.len() == rejected_count(seen),
            decreases pieces@.len() - i,
        {
            let exps = expand_pattern(pieces[i].as_str());
            let ghost ev = views(exps@);
            let ghost base = seen;
            let mut j: usize = 0;
            assert(ev.take(0).map_values(|q: Seq<char>| normalized(q)) =~= Seq::<Seq<char>>::empty());
            assert(base + Seq::<Seq<char>>::empty() =~= base);
            while j < exps.len()
                invariant
                    j <= exps@.len(),
                    ev == views(exps@),
                    seen == base + ev.take(j as int).map_values(|q: Seq<char>| normalized(q)),
                    patterns@.map_values(|g: GlobPattern| g@) == compiled_only(seen),
                    diagnostics@.len() == rejected_count(seen),
                decreases exps@.len() - j,
            {
                let q = normalize_pattern(exps[j].as_str());
                assert(q@ == normalized(ev[j as int]));
                proof {
                    lemma_compiled_push(seen, q@);
                    assert(base + ev.take(j + 1).map_values(|q: Seq<char>| normalized(q)) =~= (base
                        + ev.take(j as int).map_values(|q: Seq<char>| normalized(q))).push(q@));
                    seen = seen.push(q@);
                }
                let shown = q.clone();
                match GlobPattern::new(q) {
                    Ok(g) => {
                        let ghost before = patterns@;
                        patterns.push(g);
                        assert(patterns@.map_values(|g: GlobPattern| g@) =~= before.map_values(
                            |g: GlobPattern| g@,
                        ).push(g@));
                    },
                    Err(msg) => {
                        let mut d = String::from_str("Invalid exclude pattern '");
                        d.append(shown.as_str());
                        d.append("': ");
                        d.append(msg.as_str());
                        diagnostics.push(d);
                    },
                }
                j += 1;
            }
            proof {
                assert(ev.take(j as int) =~= ev);
                assert(pv.take(i + 1).drop_last() =~= pv.take(i as int));
                assert(pv.take(i + 1).last() == pv[i as int]);
                assert(pv[i as int] == pieces@[i as int]@);
                assert(seen == expanded_patterns(pv.take(i + 1)));
            }
            i += 1;
        }
        assert(pv.take(i as int) =~= pv);
        ExclusionMatcher { patterns, diagnostics }
    }

    /// Whether the relative path `candidate` matches any compiled pattern.
    pub fn is_excluded(&self, candidate: &str) -> (r: bool)
        ensures
            r == excluded_by(self.pattern_texts(), candidate@),
    {
        let mut i: usize = 0;
        while i < self.patterns.len()
            invariant
                i <= self.patterns@.len(),
                forall|k: int| 0 <= k < i ==> !glob_matches(#[trigger] self.pattern_texts()[k], candidate@),
            decreases self.patterns@.len() - i,
        {
            if self.patterns[i].matches(candidate) {
                assert(self.pattern_texts()[i as int] == self.patterns@[i as int]@);
                return true;
            }
            i += 1;
        }
        false
    }
}

proof fn lemma_comma_fields_plain(p: Seq<char>)
    requires
        !p.contains(','),
    ensures
        comma_fields(p) == seq![p],
    decreases p.len(),
{
    if p.len() == 0 {
        assert(p =~= Seq::<char>::empty());
    } else {
        let q = p.drop_last();
        assert(!q.contains(',')) by {
            if q.contains(',') {
                let i = choose|i: int| 0 <= i < q.len() && q[i] == ',';
                assert(p[i] == ',');
            }
        }
        lemma_comma_fields_plain(q);
        assert(p.last() == p[p.len() - 1]);
        assert(q.push(p.last()) =~= p);
        assert(seq![q].update(0, q.push(p.last())) =~= seq![p]);
    }
}

/// A user pattern without commas, braces, or white space at either end
/// becomes exactly one exclusion pattern: with no `/` it is completed to
/// `<pattern>/**`, every version and entry of the component; with one `/`
/// to `<pattern>/*`, the entries directly in that version; with more it is
/// used as written.
pub proof fn lemma_plain_pattern(p: Seq<char>)
    requires
        p.len() > 0,
        !p.contains(','),
        !p.contains('{'),
        !p.contains('}'),
        !white_space(p[0]),
        !white_space(p.last()),
    ensures
        exclusion_candidates(Some(p)) == seq![normalized(p)],
        slash_count(p) == 0 ==> normalized(p) == p + "/**"@,
        slash_count(p) == 1 ==> normalized(p) == p + "/*"@,
        slash_count(p) >= 2 ==> normalized(p) == p,
{
    lemma_comma_fields_plain(p);
    let fs = comma_fields(p);
    assert(fs.drop_last() =~= Seq::<Seq<char>>::empty());
    assert(fs.last() == p);
    assert(non_empty(fs.drop_last()) == Seq::<Seq<char>>::empty());
    assert(non_empty(fs) == non_empty(fs.drop_last()).push(p));
    assert(Seq::<Seq<char>>::empty().push(p) =~= seq![p]);
    assert(trim_start(p) == p);
    assert(trim_end(p) == p);
    assert(split_spec(p) =~= seq![p]);
    assert(expansion_spec(p) == seq![p]);
    let pieces = seq![p];
    assert(pieces.drop_last() =~= Seq::<Seq<char>>::empty());
    assert(expansion_spec(p).map_values(|q: Seq<char>| normalized(q)) =~= seq![normalized(p)]);
    assert(Seq::<Seq<char>>::empty() + seq![normalized(p)] =~= seq![normalized(p)]);
    assert(split_option_spec(Some(p)) == pieces);
    assert(pieces.last() == p);
    assert(expanded_patterns(pieces.drop_last()) == Seq::<Seq<char>>::empty());
    assert(expanded_patterns(pieces) == expanded_patterns(pieces.drop_last()) + expansion_spec(p).map_values(
        |q: Seq<char>| normalized(q),
    ));
}

} // verus!
