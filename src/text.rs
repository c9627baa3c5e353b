//! Character-sequence helpers shared by the store, the exclusion matcher and
//! the operation engine.
use vstd::prelude::*;

verus! {

/// Whether a character has the Unicode `White_Space` property, which is what
/// `char::is_whitespace` and `str::trim` go by.
pub open spec fn white_space(c: char) -> bool {
    ('\u{9}' <= c && c <= '\u{d}') || c == ' ' || c == '\u{85}' || c == '\u{a0}' || c == '\u{1680}'
        || ('\u{2000}' <= c && c <= '\u{200a}') || c == '\u{2028}' || c == '\u{2029}' || c == '\u{202f}'
        || c == '\u{205f}' || c == '\u{3000}'
}

/// Whether `c` is white space.
pub fn is_white(c: char) -> (r: bool)
    ensures
        r == white_space(c),
{
    ('\u{9}' <= c && c <= '\u{d}') || c == ' ' || c == '\u{85}' || c == '\u{a0}' || c == '\u{1680}'
        || ('\u{2000}' <= c && c <= '\u{200a}') || c == '\u{2028}' || c == '\u{2029}' || c == '\u{202f}'
        || c == '\u{205f}' || c == '\u{3000}'
}

/// `s` without its leading white space.
pub open spec fn trim_start(s: Seq<char>) -> Seq<char>
    decreases s.len(),
{
    if s.len() > 0 && white_space(s[0]) {
        trim_start(s.drop_first())
    } else {
        s
    }
}

/// `s` without its trailing white space.
pub open spec fn trim_end(s: Seq<char>) -> Seq<char>
    decreases s.len(),
{
    if s.len() > 0 && white_space(s.last()) {
        trim_end(s.drop_last())
    } else {
        s
    }
}

/// `s` without leading and trailing white space, as `str::trim` gives it.
pub open spec fn trimmed(s: Seq<char>) -> Seq<char> {
    trim_end(trim_start(s))
}

/// Removes leading and trailing white space.
pub fn trim(s: &str) -> (r: String)
    ensures
        r@ == trimmed(s@),
{
    let n = s.unicode_len();
    let mut a: usize = 0;
    assert(s@.subrange(0, n as int) =~= s@);
    while a < n && is_white(s.get_char(a))
        invariant
            a <= n,
            n == s@.len(),
            trim_start(s@) == trim_start(s@.subrange(a as int, n as int)),
        decreases n - a,
    {
        let ghost sub = s@.subrange(a as int, n as int);
        assert(sub.drop_first() =~= s@.subrange(a + 1, n as int));
        a += 1;
    }
    let ghost front = s@.subrange(a as int, n as int);
    assert(trim_start(front) == front);
    let mut b: usize = n;
    while b > a && is_white(s.get_char(b - 1))
        invariant
            a <= b <= n,
            n == s@.len(),
            front == s@.subrange(a as int, n as int),
            trim_end(front) == trim_end(s@.subrange(a as int, b as int)),
        decreases b,
    {
        let ghost sub = s@.subrange(a as int, b as int);
        assert(sub.drop_last() =~= s@.subrange(a as int, b - 1));
        b -= 1;
    }
    let ghost mid = s@.subrange(a as int, b as int);
    assert(trim_end(mid) == mid);
    String::from_str(s.substring_char(a, b))
}

/// Whether `c` equals the lower-case ASCII letter or other character `t`
/// when ASCII letters are compared without regard to case.
pub open spec fn same_ascii_fold(c: char, t: char) -> bool {
    c == t || ('a' <= t && t <= 'z' && c as u32 + 32 == t as u32)
}

/// Whether `s` equals `t` when ASCII letters are compared without regard to
/// case; `t` is written in lower case.
pub open spec fn eq_ascii_fold(s: Seq<char>, t: Seq<char>) -> bool {
    s.len() == t.len() && forall|i: int| 0 <= i < s.len() ==> same_ascii_fold(#[trigger] s[i], t[i])
}

fn char_same_ascii_fold(c: char, t: char) -> (r: bool)
    ensures
        r == same_ascii_fold(c, t),
{
    if c == t {
        true
    } else {
        let cv = c as u32;
        let tv = t as u32;
        'a' <= t && t <= 'z' && cv + 32 == tv
    }
}

/// Compares `s` with the lower-case word `t`, ignoring the case of ASCII
/// letters in `s`.
pub fn matches_ascii_fold(s: &str, t: &str) -> (r: bool)
    ensures
        r == eq_ascii_fold(s@, t@),
{
    let n = s.unicode_len();
    let m = t.unicode_len();
    if n != m {
        return false;
    }
    let mut i: usize = 0;
    while i < n
        invariant
            i <= n,
            n == s@.len(),
            m == t@.len(),
            n == m,
            forall|k: int| 0 <= k < i ==> same_ascii_fold(#[trigger] s@[k], t@[k]),
        decreases n - i,
    {
        if !char_same_ascii_fold(s.get_char(i), t.get_char(i)) {
            return false;
        }
        i += 1;
    }
    true
}

/// The decimal digit character for `d < 10`.
pub open spec fn digit_char(d: nat) -> char {
    if d == 0 { '0' }
    else if d == 1 { '1' }
    else if d == 2 { '2' }
    else if d == 3 { '3' }
    else if d == 4 { '4' }
    else if d == 5 { '5' }
    else if d == 6 { '6' }
    else if d == 7 { '7' }
    else if d == 8 { '8' }
    else { '9' }
}

/// The decimal representation of `n`, without sign or leading zeros.
pub open spec fn decimal(n: nat) -> Seq<char>
    decreases n,
{
    if n < 10 {
        seq![digit_char(n)]
    } else {
        decimal(n / 10).push(digit_char(n % 10))
    }
}

fn digit_text(d: u64) -> (r: &'static str)
    requires
        d < 10,
    ensures
        r@ == seq![digit_char(d as nat)],
{
    proof {
        reveal_strlit("0");
        reveal_strlit("1");
        reveal_strlit("2");
        reveal_strlit("3");
        reveal_strlit("4");
        reveal_strlit("5");
        reveal_strlit("6");
        reveal_strlit("7");
        reveal_strlit("8");
        reveal_strlit("9");
    }
    let r = if d == 0 { "0" }
    else if d == 1 { "1" }
    else if d == 2 { "2" }
    else if d == 3 { "3" }
    else if d == 4 { "4" }
    else if d == 5 { "5" }
    else if d == 6 { "6" }
    else if d == 7 { "7" }
    else if d == 8 { "8" }
    else { "9" };
    assert(r@ =~= seq![digit_char(d as nat)]);
    r
}

/// Writes `n` in decimal.
pub fn decimal_string(n: u64) -> (r: String)
    ensures
        r@ == decimal(n as nat),
    decreases n,
{
    if n < 10 {
        String::from_str(digit_text(n))
    } else {
        let mut s = decimal_string(n / 10);
        s.append(digit_text(n % 10));
        s
    }
}

/// Whether `c` is an ASCII decimal digit.
pub open spec fn is_digit(c: char) -> bool {
    '0' <= c && c <= '9'
}

/// The value of the decimal digit `c`.
pub open spec fn digit_value(c: char) -> nat {
    (c as u32 - '0' as u32) as nat
}

/// The value of a sequence of decimal digits, most significant first.
pub open spec fn digits_value(s: Seq<char>) -> nat
    decreases s.len(),
{
    if s.len() == 0 {
        0
    } else {
        digits_value(s.drop_last()) * 10 + digit_value(s.last())
    }
}

/// `s` without one leading `+`, if it has one.
pub open spec fn unsigned_part(s: Seq<char>) -> Seq<char> {
    if s.len() > 0 && s[0] == '+' {
        s.drop_first()
    } else {
        s
    }
}

/// What `str::parse::<u64>` gives: an optional `+`, then one or more decimal
/// digits whose value fits in 64 bits.
pub open spec fn parsed_u64(s: Seq<char>) -> Option<u64> {
    let t = unsigned_part(s);
    if t.len() > 0 && (forall|i: int| 0 <= i < t.len() ==> is_digit(#[trigger] t[i]))
        && digits_value(t) <= u64::MAX {
        Some(digits_value(t) as u64)
    } else {
        None
    }
}

proof fn lemma_prefix_value_le(t: Seq<char>, k: int)
    requires
        0 <= k <= t.len(),
    ensures
        digits_value(t.take(k)) <= digits_value(t),
    decreases t.len(),
{
    if k < t.len() {
        lemma_prefix_value_le(t.drop_last(), k);
        assert(t.drop_last().take(k) =~= t.take(k));
    } else {
        assert(t.take(k) =~= t);
    }
}

/// Reads an unsigned 64-bit integer written in decimal, as `str::parse` does.
pub fn parse_u64(s: &str) -> (r: Option<u64>)
    ensures
        r == parsed_u64(s@),
{
    let n = s.unicode_len();
    let mut i: usize = 0;
    if n > 0 && s.get_char(0) == '+' {
        i = 1;
    }
    let start = i;
    let ghost t = unsigned_part(s@);
    assert(t =~= s@.subrange(start as int, n as int));
    if i == n {
        return None;
    }
    let mut v: u64 = 0;
    assert(t.take(0) =~= Seq::<char>::empty());
    while i < n
        invariant
            start <= i <= n,
            n == s@.len(),
            t == s@.subrange(start as int, n as int),
            t == unsigned_part(s@),
            t.len() > 0,
            forall|k: int| 0 <= k < i - start ==> is_digit(#[trigger] t[k]),
            v as nat == digits_value(t.take(i - start)),
        decreases n - i,
    {
        let c = s.get_char(i);
        assert(t[i - start] == c);
        if !('0' <= c && c <= '9') {
            assert(!is_digit(t[i - start]));
            return None;
        }
        let d = (c as u32 - '0' as u32) as u64;
        let ghost k = i - start + 1;
        assert(t.take(k).drop_last() =~= t.take(k - 1));
        assert(t.take(k).last() == c);
        assert(digit_value(c) == d);
        assert(digits_value(t.take(k)) == v * 10 + d);
        proof {
            lemma_prefix_value_le(t, k);
        }
        if v > (u64::MAX - d) / 10 {
            assert(v * 10 + d > u64::MAX) by (nonlinear_arith)
                requires
                    v > (u64::MAX - d) / 10,
                    d <= 9;
            return None;
        }
        assert(v * 10 + d <= u64::MAX) by (nonlinear_arith)
            requires
                v <= (u64::MAX - d) / 10,
                d <= 9;
        v = v * 10 + d;
        i += 1;
    }
    assert(t.take(n - start) =~= t);
    Some(v)
}

/// The views of a sequence of strings.
pub open spec fn views(v: Seq<String>) -> Seq<Seq<char>> {
    v.map_values(|x: String| x@)
}

/// The non-empty members of `fs`, in order.
pub open spec fn non_empty(fs: Seq<Seq<char>>) -> Seq<Seq<char>>
    decreases fs.len(),
{
    if fs.len() == 0 {
        fs
    } else if fs.last().len() > 0 {
        non_empty(fs.drop_last()).push(fs.last())
    } else {
        non_empty(fs.drop_last())
    }
}

/// The pieces of `p` between slashes, empty pieces included.
pub open spec fn slash_fields(p: Seq<char>) -> Seq<Seq<char>>
    decreases p.len(),
{
    if p.len() == 0 {
        seq![Seq::empty()]
    } else {
        let f = slash_fields(p.drop_last());
        if p.last() == '/' {
            f.push(Seq::empty())
        } else {
            f.update(f.len() - 1, f.last().push(p.last()))
        }
    }
}

pub proof fn lemma_non_empty_push(fs: Seq<Seq<char>>, f: Seq<char>)
    ensures
        non_empty(fs.push(f)) == if f.len() > 0 {
            non_empty(fs).push(f)
        } else {
            non_empty(fs)
        },
{
    assert(fs.push(f).drop_last() =~= fs);
}

pub proof fn lemma_views_push(v: Seq<String>, x: String)
    ensures
        views(v.push(x)) == views(v).push(x@),
{
    assert(views(v.push(x)) =~= views(v).push(x@));
}

/// Splits `p` at every `/` and keeps the non-empty pieces.
pub fn path_segments(p: &str) -> (r: Vec<String>)
    ensures
        views(r@) == non_empty(slash_fields(p@)),
{
    let n = p.unicode_len();
    let mut parts: Vec<String> = Vec::new();
    let mut start: usize = 0;
    let mut i: usize = 0;
    let ghost done: Seq<Seq<char>> = Seq::empty();
    assert(p@.take(0) =~= Seq::<char>::empty());
    assert(views(parts@) =~= non_empty(done));
    while i < n
        invariant
            start <= i <= n,
            n == p@.len(),
            slash_fields(p@.take(i as int)) == done.push(p@.subrange(start as int, i as int)),
            views(parts@) == non_empty(done),
        decreases n - i,
    {
        let c = p.get_char(i);
        let ghost pre = p@.take(i as int);
        assert(p@.take(i + 1).drop_last() =~= pre);
        assert(p@.take(i + 1).last() == c);
        if c == '/' {
            let ghost cur = p@.subrange(start as int, i as int);
            let ghost before = parts@;
            if i > start {
                parts.push(String::from_str(p.substring_char(start, i)));
                proof {
                    lemma_views_push(before, parts@.last());
                    assert(parts@ == before.push(parts@.last()));
                }
            }
            proof {
                lemma_non_empty_push(done, cur);
                done = done.push(cur);
            }
            start = i + 1;
            assert(p@.subrange(start as int, i + 1) =~= Seq::<char>::empty());
        } else {
            assert(p@.subrange(start as int, i + 1) =~= p@.subrange(start as int, i as int).push(c));
            assert(done.push(p@.subrange(start as int, i as int)).update(done.len() as int, p@.subrange(start as int, i + 1))
                =~= done.push(p@.subrange(start as int, i + 1)));
        }
        i += 1;
    }
    assert(p@.take(n as int) =~= p@);
    let ghost cur = p@.subrange(start as int, n as int);
    let ghost before = parts@;
    if n > start {
        parts.push(String::from_str(p.substring_char(start, n)));
        proof {
            lemma_views_push(before, parts@.last());
            assert(parts@ == before.push(parts@.last()));
        }
    }
    proof {
        lemma_non_empty_push(done, cur);
    }
    assert(non_empty(slash_fields(p@)) == non_empty(done.push(cur)));
    parts
}

/// Whether a path component is `.`.
pub open spec fn is_dot(f: Seq<char>) -> bool {
    f.len() == 1 && f[0] == '.'
}

/// The members of `fs` other than `.`, in order.
pub open spec fn without_dots(fs: Seq<Seq<char>>) -> Seq<Seq<char>>
    decreases fs.len(),
{
    if fs.len() == 0 {
        fs
    } else if is_dot(fs.last()) {
        without_dots(fs.drop_last())
    } else {
        without_dots(fs.drop_last()).push(fs.last())
    }
}

/// Leaves out the `.` components.
pub fn drop_dot_segments(v: &Vec<String>) -> (r: Vec<String>)
    ensures
        views(r@) == without_dots(views(v@)),
{
    let ghost vv = views(v@);
    let mut r: Vec<String> = Vec::new();
    let mut i: usize = 0;
    assert(vv.take(0) =~= Seq::<Seq<char>>::empty());
    assert(views(r@) =~= Seq::<Seq<char>>::empty());
    while i < v.len()
        invariant
            i <= v@.len(),
            vv == views(v@),
            views(r@) == without_dots(vv.take(i as int)),
        decreases v@.len() - i,
    {
        assert(vv.take(i + 1).drop_last() =~= vv.take(i as int));
        assert(vv.take(i + 1).last() == v@[i as int]@);
        let seg = &v[i];
        let dot = seg.unicode_len() == 1 && seg.as_str().get_char(0) == '.';
        if !dot {
            let ghost before = r@;
            let c = seg.clone();
            r.push(c);
            proof {
                lemma_views_push(before, c);
            }
        }
        i += 1;
    }
    assert(vv.take(i as int) =~= vv);
    r
}

} // verus!
