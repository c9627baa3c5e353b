//! The write-if-changed rule of the store: a value has its escape sequences
//! expanded once, and a file is replaced only when its content differs.
use crate::config::{ErrorKind, StoreError};
use vstd::prelude::*;

verus! {

/// What expanding the escape sequences of a text once gives, or `None` where
/// an escape sequence is malformed.
pub uninterp spec fn unescaped(s: Seq<char>) -> Option<Seq<char>>;

/// The view of an optional text.
pub open spec fn text_view(r: Option<String>) -> Option<Seq<char>> {
    match r {
        Some(t) => Some(t@),
        None => None,
    }
}

/// Whether a text holds a backslash, which starts every escape sequence.
pub open spec fn has_escape(s: Seq<char>) -> bool {
    s.contains('\\')
}

/// `s` with every run of backslashes halved, where every such run has even
/// length: what expanding escape sequences gives when the only ones are `\\`.
pub open spec fn halved(s: Seq<char>) -> Option<Seq<char>>
    decreases s.len(),
{
    if s.len() == 0 {
        Some(s)
    } else if s.last() != '\\' {
        match halved(s.drop_last()) {
            Some(t) => Some(t.push(s.last())),
            None => None,
        }
    } else if s.len() >= 2 && s[s.len() - 2] == '\\' {
        match halved(s.take(s.len() - 2)) {
            Some(t) => Some(t.push('\\')),
            None => None,
        }
    } else {
        None
    }
}

/// `s` with every backslash doubled, so that expanding escape sequences once
/// gives `s` back.
pub open spec fn doubled(s: Seq<char>) -> Seq<char>
    decreases s.len(),
{
    if s.len() == 0 {
        s
    } else if s.last() == '\\' {
        doubled(s.drop_last()) + seq!['\\', '\\']
    } else {
        doubled(s.drop_last()).push(s.last())
    }
}

/// What expanding the escape sequences of `s` once gives: stated where the
/// only escape sequence is `\\`, named otherwise.
pub open spec fn unescape_result(s: Seq<char>) -> Option<Seq<char>> {
    match halved(s) {
        Some(t) => Some(t),
        None => unescaped(s),
    }
}

/// Relies on `unescaper::unescape`: expands `\n`, `\t`, `\u{..}`, `\x..` and the
/// other escape sequences once, failing on a malformed one. Its loop copies
/// every character other than a backslash, and turns `\\` into one backslash.
#[verifier::external_body]
fn unescape_value(s: &str) -> (r: Option<String>)
    ensures
        text_view(r) == unescape_result(s@),
        halved(s@) is None ==> text_view(r) == unescaped(s@),
{
    unescaper::unescape(s).ok()
}

/// A text without a backslash is its own halving.
pub proof fn lemma_halved_plain(s: Seq<char>)
    requires
        !has_escape(s),
    ensures
        halved(s) == Some(s),
    decreases s.len(),
{
    if s.len() > 0 {
        assert(s.last() == s[s.len() - 1]);
        assert(!has_escape(s.drop_last())) by {
            if s.drop_last().contains('\\') {
                let i = choose|i: int| 0 <= i < s.drop_last().len() && s.drop_last()[i] == '\\';
                assert(s[i] == '\\');
            }
        }
        lemma_halved_plain(s.drop_last());
        assert(s.drop_last().push(s.last()) =~= s);
    }
}

/// Halving undoes doubling.
pub proof fn lemma_halved_doubled(s: Seq<char>)
    ensures
        halved(doubled(s)) == Some(s),
    decreases s.len(),
{
    if s.len() > 0 {
        lemma_halved_doubled(s.drop_last());
        let d = doubled(s.drop_last());
        let e = doubled(s);
        if s.last() == '\\' {
            assert(e.last() == '\\' && e[e.len() - 2] == '\\');
            assert(e.take(e.len() - 2) =~= d);
        } else {
            assert(e.drop_last() =~= d);
        }
        assert(s.drop_last().push(s.last()) =~= s);
    }
}

/// Doubles every backslash of `s`.
pub fn escape_backslashes(s: &str) -> (r: String)
    ensures
        r@ == doubled(s@),
{
    let n = s.unicode_len();
    let mut r = String::new();
    let mut i: usize = 0;
    assert(s@.take(0) =~= Seq::<char>::empty());
    while i < n
        invariant
            i <= n,
            n == s@.len(),
            r@ == doubled(s@.take(i as int)),
        decreases n - i,
    {
        let ghost before = r@;
        assert(s@.take(i + 1).drop_last() =~= s@.take(i as int));
        assert(s@.take(i + 1).last() == s@[i as int]);
        if s.get_char(i) == '\\' {
            r.append("\\\\");
            proof {
                reveal_strlit("\\\\");
            }
            assert(r@ =~= before + seq!['\\', '\\']);
        } else {
            let one = s.substring_char(i, i + 1);
            r.append(one);
            assert(r@ =~= before.push(s@[i as int]));
        }
        i += 1;
    }
    assert(s@.take(n as int) =~= s@);
    r
}

/// What a write does to a file.
#[derive(Clone, Debug)]
pub enum WriteDecision {
    /// The file already holds the value: nothing is written.
    Unchanged,
    /// The file is replaced atomically with this content.
    Replace(String),
}

/// The view of a write decision: `None` for no change, `Some(c)` to store `c`.
pub open spec fn decision_view(r: Result<WriteDecision, StoreError>) -> Result<Option<Seq<char>>, ErrorKind> {
    match r {
        Ok(WriteDecision::Unchanged) => Ok(None),
        Ok(WriteDecision::Replace(c)) => Ok(Some(c@)),
        Err(e) => Err(e.kind),
    }
}

/// Writing `value` over a file whose content is `current` (`None`: no such
/// file): `InvalidInput` for a malformed escape sequence, no change where the
/// file already holds the unescaped value, else the unescaped value to store.
/// A value without a backslash is stored as it is.
pub open spec fn write_spec(current: Option<Seq<char>>, value: Seq<char>) -> Result<Option<Seq<char>>, ErrorKind> {
    match unescape_result(value) {
        None => Err(ErrorKind::InvalidInput),
        Some(u) => if current == Some(u) {
            Ok(None)
        } else {
            Ok(Some(u))
        },
    }
}

/// The content of a file after a decision `d` was carried out on it.
pub open spec fn content_after(current: Option<Seq<char>>, d: Option<Seq<char>>) -> Option<Seq<char>> {
    match d {
        None => current,
        Some(c) => Some(c),
    }
}

/// Decides what writing `value` over a file with content `current` does.
pub fn decide_write(current: &Option<String>, value: &str) -> (r: Result<WriteDecision, StoreError>)
    ensures
        decision_view(r) == write_spec(
            match current {
                Some(c) => Some(c@),
                None => None,
            },
            value@,
        ),
        !has_escape(value@) ==> decision_view(r) == if current matches Some(c) && c@ == value@ {
            Ok::<Option<Seq<char>>, ErrorKind>(None)
        } else {
            Ok(Some(value@))
        },
{
    proof {
        if !has_escape(value@) {
            lemma_halved_plain(value@);
        }
    }
    match unescape_value(value) {
        None => Err(StoreError::new(ErrorKind::InvalidInput, "Failed to unescape value")),
        Some(u) => {
            let same = match current {
                Some(c) => *c == u,
                None => false,
            };
            if same {
                Ok(WriteDecision::Unchanged)
            } else {
                Ok(WriteDecision::Replace(u))
            }
        },
    }
}

/// Writing the same value twice: the first write changes the file exactly
/// when it did not hold the unescaped value, and the second write is then a
/// no-op that leaves the content as the first left it.
pub proof fn lemma_write_twice(current: Option<Seq<char>>, value: Seq<char>)
    requires
        unescape_result(value) is Some || !has_escape(value),
    ensures
        unescape_result(value) is Some,
        !has_escape(value) ==> unescape_result(value) == Some(value),
        ({
            let u = unescape_result(value)->Some_0;
            let first = write_spec(current, value);
            let after = content_after(current, first->Ok_0);
            &&& (first == Ok::<Option<Seq<char>>, ErrorKind>(Some(u)) <==> current != Some(u))
            &&& after == Some(u)
            &&& write_spec(after, value) == Ok::<Option<Seq<char>>, ErrorKind>(None)
            &&& content_after(after, None) == after
        }),
{
    if !has_escape(value) {
        lemma_halved_plain(value);
    }
}

} // verus!
