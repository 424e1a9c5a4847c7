//! Character-level text primitives: whitespace trimming, substring search and
//! line splitting over character slices, each pinned to a specification
//! function over `Seq<char>`.

use vstd::prelude::*;

verus! {

broadcast use vstd::string::axiom_spec_iter, vstd::string::next_postcondition;

/// The whitespace characters stripped by the trimming rules.
pub open spec fn is_ws_char(c: char) -> bool {
    c == ' ' || c == '\t' || c == '\r' || c == '\n'
}

/// Length of the run of whitespace at the front of `t`.
pub open spec fn ws_prefix_len(t: Seq<char>) -> int
    decreases t,
{
    if t.len() > 0 && is_ws_char(t[0]) {
        1 + ws_prefix_len(t.drop_first())
    } else {
        0
    }
}

/// Length of the run of whitespace at the back of `t`.
pub open spec fn ws_suffix_len(t: Seq<char>) -> int
    decreases t,
{
    if t.len() > 0 && is_ws_char(t.last()) {
        1 + ws_suffix_len(t.drop_last())
    } else {
        0
    }
}

/// `t` with its leading whitespace removed.
pub open spec fn trim_start_spec(t: Seq<char>) -> Seq<char> {
    t.skip(ws_prefix_len(t))
}

/// `t` with its trailing whitespace removed.
pub open spec fn trim_end_spec(t: Seq<char>) -> Seq<char> {
    t.take(t.len() - ws_suffix_len(t))
}

/// `t` with whitespace removed at both ends.
pub open spec fn trim_spec(t: Seq<char>) -> Seq<char> {
    trim_start_spec(trim_end_spec(t))
}

/// Position of the first occurrence of `p` inside `s`, if any.
pub open spec fn find_sub(s: Seq<char>, p: Seq<char>) -> Option<int>
    decreases s,
{
    if p.is_prefix_of(s) {
        Some(0)
    } else if s.len() == 0 {
        None
    } else {
        match find_sub(s.drop_first(), p) {
            Some(j) => Some(j + 1),
            None => None,
        }
    }
}

/// The candidate first line of `t` (everything before the first newline, or
/// all of `t`), paired with what follows the newline.
pub open spec fn split_line_spec(t: Seq<char>) -> (Seq<char>, Seq<char>) {
    match find_sub(t, seq!['\n']) {
        Some(j) => (t.take(j), t.skip(j + 1)),
        None => (t, Seq::empty()),
    }
}

pub proof fn lemma_ws_prefix_len(t: Seq<char>)
    ensures
        0 <= ws_prefix_len(t) <= t.len(),
        forall|i: int| 0 <= i < ws_prefix_len(t) ==> is_ws_char(t[i]),
        ws_prefix_len(t) < t.len() ==> !is_ws_char(t[ws_prefix_len(t)]),
    decreases t,
{
    if t.len() > 0 && is_ws_char(t[0]) {
        lemma_ws_prefix_len(t.drop_first());
        assert forall|i: int| 0 <= i < ws_prefix_len(t) implies is_ws_char(t[i]) by {
            if i > 0 {
                assert(t.drop_first()[i - 1] == t[i]);
            }
        }
    }
}

/// A position that fronts only whitespace and stops at a non-whitespace
/// character is exactly the whitespace-prefix length.
pub proof fn lemma_ws_prefix_len_is(t: Seq<char>, n: int)
    requires
        0 <= n <= t.len(),
        forall|i: int| 0 <= i < n ==> is_ws_char(t[i]),
        n < t.len() ==> !is_ws_char(t[n]),
    ensures
        ws_prefix_len(t) == n,
    decreases t,
{
    if n == 0 {
    } else {
        assert(is_ws_char(t[0]));
        assert(forall|i: int| 0 <= i < n - 1 ==> t.drop_first()[i] == t[i + 1]);
        assert(n - 1 < t.drop_first().len() ==> t.drop_first()[n - 1] == t[n]);
        lemma_ws_prefix_len_is(t.drop_first(), n - 1);
    }
}

pub proof fn lemma_ws_suffix_len(t: Seq<char>)
    ensures
        0 <= ws_suffix_len(t) <= t.len(),
        forall|i: int| t.len() - ws_suffix_len(t) <= i < t.len() ==> is_ws_char(t[i]),
        ws_suffix_len(t) < t.len() ==> !is_ws_char(t[t.len() - ws_suffix_len(t) - 1]),
    decreases t,
{
    if t.len() > 0 && is_ws_char(t.last()) {
        lemma_ws_suffix_len(t.drop_last());
        assert(forall|i: int| 0 <= i < t.len() - 1 ==> t.drop_last()[i] == t[i]);
    }
}

/// A count of trailing whitespace that stops at a non-whitespace character is
/// exactly the whitespace-suffix length.
pub proof fn lemma_ws_suffix_len_is(t: Seq<char>, n: int)
    requires
        0 <= n <= t.len(),
        forall|i: int| t.len() - n <= i < t.len() ==> is_ws_char(t[i]),
        n < t.len() ==> !is_ws_char(t[t.len() - n - 1]),
    ensures
        ws_suffix_len(t) == n,
    decreases t,
{
    if n == 0 {
    } else {
        assert(is_ws_char(t.last()));
        assert(forall|i: int| 0 <= i < t.len() - 1 ==> t.drop_last()[i] == t[i]);
        lemma_ws_suffix_len_is(t.drop_last(), n - 1);
    }
}

/// What `find_sub` returns: the first match position, or a proof that no
/// position matches.
pub proof fn lemma_find_sub(s: Seq<char>, p: Seq<char>)
    ensures
        match find_sub(s, p) {
            Some(j) => 0 <= j && j + p.len() <= s.len() && p.is_prefix_of(s.skip(j)) && forall|
                k: int,
            |
                0 <= k < j ==> !p.is_prefix_of(s.skip(k)),
            None => forall|k: int| 0 <= k <= s.len() ==> !p.is_prefix_of(s.skip(k)),
        },
    decreases s,
{
    if p.is_prefix_of(s) {
        assert(s.skip(0) =~= s);
    } else if s.len() == 0 {
        assert forall|k: int| 0 <= k <= s.len() implies !p.is_prefix_of(s.skip(k)) by {
            assert(s.skip(k) =~= s);
        }
    } else {
        lemma_find_sub(s.drop_first(), p);
        assert forall|k: int| 1 <= k <= s.len() implies s.skip(k) =~= s.drop_first().skip(
            k - 1,
        ) by {}
        assert(s.skip(0) =~= s);
        match find_sub(s.drop_first(), p) {
            Some(j) => {
                assert(s.skip(j + 1) =~= s.drop_first().skip(j));
            },
            None => {},
        }
    }
}

/// Whether `p` is an exact prefix of `text`.
pub fn has_prefix(text: &[char], p: &[char]) -> (r: bool)
    ensures
        r == p@.is_prefix_of(text@),
{
    if p.len() > text.len() {
        return false;
    }
    let mut i: usize = 0;
    while i < p.len()
        invariant
            0 <= i <= p@.len() <= text@.len(),
            forall|j: int| 0 <= j < i ==> text@[j] == p@[j],
        decreases p@.len() - i,
    {
        if text[i] != p[i] {
            assert(!p@.is_prefix_of(text@)) by {
                assert(text@.subrange(0, p@.len() as int)[i as int] == text@[i as int]);
            }
            return false;
        }
        i += 1;
    }
    assert(p@ =~= text@.subrange(0, p@.len() as int));
    true
}

/// Position of the first occurrence of `p` inside `text`, if any.
pub fn find_sub_at(text: &[char], p: &[char]) -> (r: Option<usize>)
    ensures
        match r {
            Some(j) => find_sub(text@, p@) == Some(j as int),
            None => find_sub(text@, p@) == None::<int>,
        },
    decreases text@.len(),
{
    if has_prefix(text, p) {
        return Some(0);
    }
    if text.len() == 0 {
        return None;
    }
    let tail = vstd::slice::slice_subrange(text, 1, text.len());
    assert(tail@ =~= text@.drop_first());
    match find_sub_at(tail, p) {
        Some(j) => {
            proof {
                lemma_find_sub(tail@, p@);
            }
            Some(j + 1)
        },
        None => None,
    }
}

/// Splits `text` at its first newline: the line before it, and everything
/// after it.  Without a newline the line is all of `text` and the rest empty.
pub fn split_line(text: &[char]) -> (r: (&[char], &[char]))
    ensures
        r.0@ == split_line_spec(text@).0,
        r.1@ == split_line_spec(text@).1,
{
    let pat: [char; 1] = ['\n'];
    assert(pat@ =~= seq!['\n']);
    match find_sub_at(text, pat.as_slice()) {
        Some(j) => {
            let n = text.len();
            proof {
                lemma_find_sub(text@, seq!['\n']);
            }
            let line = vstd::slice::slice_subrange(text, 0, j);
            let rest = vstd::slice::slice_subrange(text, j + 1, n);
            assert(line@ =~= text@.take(j as int));
            assert(rest@ =~= text@.skip(j + 1));
            (line, rest)
        },
        None => {
            let empty = vstd::slice::slice_subrange(text, text.len(), text.len());
            assert(empty@ =~= Seq::<char>::empty());
            (text, empty)
        },
    }
}

/// Whether `c` is one of the whitespace characters the trimming rules strip.
pub fn is_ws(c: char) -> (r: bool)
    ensures
        r == is_ws_char(c),
{
    c == ' ' || c == '\t' || c == '\r' || c == '\n'
}

/// `text` with leading whitespace removed.
pub fn trim_start(text: &[char]) -> (r: &[char])
    ensures
        r@ == trim_start_spec(text@),
{
    let mut i: usize = 0;
    while i < text.len() && is_ws(text[i])
        invariant
            0 <= i <= text@.len(),
            forall|j: int| 0 <= j < i ==> is_ws_char(text@[j]),
        decreases text@.len() - i,
    {
        i += 1;
    }
    proof {
        lemma_ws_prefix_len_is(text@, i as int);
    }
    vstd::slice::slice_subrange(text, i, text.len())
}

/// `text` with trailing whitespace removed.
pub fn trim_end(text: &[char]) -> (r: &[char])
    ensures
        r@ == trim_end_spec(text@),
{
    let mut i: usize = text.len();
    while i > 0 && is_ws(text[i - 1])
        invariant
            0 <= i <= text@.len(),
            forall|j: int| i <= j < text@.len() ==> is_ws_char(text@[j]),
        decreases i,
    {
        i -= 1;
    }
    proof {
        lemma_ws_suffix_len_is(text@, text@.len() - i);
    }
    vstd::slice::slice_subrange(text, 0, i)
}

/// `text` with whitespace removed at both ends.
pub fn trim(text: &[char]) -> (r: &[char])
    ensures
        r@ == trim_spec(text@),
{
    trim_start(trim_end(text))
}

/// The characters of `s`, in order, as a vector.
pub fn str_to_chars(s: &str) -> (r: Vec<char>)
    ensures
        r@ == s@,
{
    let mut it = s.chars();
    let mut v: Vec<char> = Vec::new();
    loop
        invariant
            vstd::std_specs::iter::IteratorSpec::remaining(&it) == s@.skip(v@.len() as int),
            v@ =~= s@.take(v@.len() as int),
            v@.len() <= s@.len(),
        ensures
            v@ == s@,
        decreases s@.len() - v@.len(),
    {
        match it.next() {
            Some(c) => {
                proof {
                    assert(s@.skip(v@.len() as int)[0] == s@[v@.len() as int]);
                    assert(s@.skip(v@.len() as int).drop_first() =~= s@.skip(v@.len() as int + 1));
                    assert(s@.take(v@.len() as int).push(s@[v@.len() as int]) =~= s@.take(
                        v@.len() as int + 1,
                    ));
                }
                v.push(c);
            },
            None => {
                proof {
                    assert(v@ =~= s@);
                }
                break ;
            },
        }
    }
    v
}

/// Relies on `String`'s `FromIterator` implementation: collecting the
/// characters of a slice yields the string holding exactly those characters
/// in order.
#[verifier::external_body]
pub(crate) fn chars_to_string(v: &[char]) -> (r: String)
    ensures
        r@ == v@,
{
    v.iter().collect()
}

} // verus!
