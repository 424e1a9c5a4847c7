//! Line-level parsers: the heading rule (`#` run, one mandatory space, rest of
//! the line) and the sentence rule (one whole line).

use crate::ast::Md;
use crate::ast::MdView;
use crate::ast::ParsedResult;
use crate::ast::md_view;
use crate::cursor::space;
use crate::cursor::space_spec;
use crate::inline::words;
use crate::inline::words_spec;
use crate::text::lemma_find_sub;
use crate::text::lemma_ws_prefix_len;
use crate::text::split_line;
use crate::text::split_line_spec;
use vstd::prelude::*;

verus! {

/// Length of the run of `#` characters at the front of `t`.
pub open spec fn hash_run_len(t: Seq<char>) -> int
    decreases t,
{
    if t.len() > 0 && t[0] == '#' {
        1 + hash_run_len(t.drop_first())
    } else {
        0
    }
}

/// A count of leading `#` characters that stops at another character is
/// exactly the hash-run length.
pub proof fn lemma_hash_run_len_is(t: Seq<char>, n: int)
    requires
        0 <= n <= t.len(),
        forall|i: int| 0 <= i < n ==> t[i] == '#',
        n < t.len() ==> t[n] != '#',
    ensures
        hash_run_len(t) == n,
    decreases t,
{
    if n == 0 {
    } else {
        assert(forall|i: int| 0 <= i < n - 1 ==> t.drop_first()[i] == t[i + 1]);
        assert(n - 1 < t.drop_first().len() ==> t.drop_first()[n - 1] == t[n]);
        lemma_hash_run_len_is(t.drop_first(), n - 1);
    }
}

/// The first line of `t` is no longer than `t`, and what follows it is
/// strictly shorter than a non-empty `t`.
pub proof fn lemma_split_line_len(t: Seq<char>)
    ensures
        split_line_spec(t).0.len() <= t.len(),
        split_line_spec(t).1.len() <= t.len(),
        t.len() > 0 ==> split_line_spec(t).1.len() < t.len(),
{
    lemma_find_sub(t, seq!['\n']);
}

/// What the sentence rule returns: one whole line wrapped as a sentence, for
/// any non-empty input.
pub open spec fn sentence_spec(t: Seq<char>) -> Option<(MdView, Seq<char>)> {
    if t.len() == 0 {
        None
    } else {
        let (line, rest) = split_line_spec(t);
        Some((MdView::Sentence(words_spec(line)), rest))
    }
}

/// What the heading rule returns: a run of at least one `#`, one mandatory
/// space (further leading whitespace is skipped), then the rest of the line
/// decoded by the word grammar; the level is the length of the `#` run.
pub open spec fn heading_spec(t: Seq<char>) -> Option<(MdView, Seq<char>)> {
    let n = hash_run_len(t);
    if n == 0 {
        None
    } else {
        match space_spec(t.skip(n)) {
            Some(after) => {
                let (line, rest) = split_line_spec(after);
                Some((MdView::Heading(n, words_spec(line)), rest))
            },
            None => None,
        }
    }
}

/// Consumes exactly one line and wraps its inline decoding as a sentence;
/// fails only on empty remaining input, and always consumes at least one
/// character.
pub fn sentence<'a>(text: &'a [char]) -> (r: Option<ParsedResult<'a, Md>>)
    ensures
        r is Some <==> text@.len() > 0,
        r matches Some(pr) ==> sentence_spec(text@) == Some((md_view(pr.token), pr.rest@)),
        r matches Some(pr) ==> pr.rest@.len() < text@.len(),
{
    if text.len() == 0 {
        return None;
    }
    let (line, rest) = split_line(text);
    proof {
        lemma_split_line_len(text@);
    }
    let ws = words(line);
    Some(ParsedResult::new(Md::Sentence(ws), rest))
}

/// Recognises a heading line and always consumes at least one character; the
/// result is exactly `heading_spec` of the input.
pub fn heading<'a>(text: &'a [char]) -> (r: Option<ParsedResult<'a, Md>>)
    ensures
        match r {
            Some(pr) => heading_spec(text@) == Some((md_view(pr.token), pr.rest@))
                && pr.rest@.len() < text@.len(),
            None => heading_spec(text@) is None,
        },
{
    let mut n: usize = 0;
    while n < text.len() && text[n] == '#'
        invariant
            0 <= n <= text@.len(),
            forall|i: int| 0 <= i < n ==> text@[i] == '#',
        decreases text@.len() - n,
    {
        n += 1;
    }
    proof {
        lemma_hash_run_len_is(text@, n as int);
    }
    if n == 0 {
        return None;
    }
    let after_hashes = vstd::slice::slice_subrange(text, n, text.len());
    match space(after_hashes) {
        Some(rem) => {
            let (line, rest) = split_line(rem);
            let ws = words(line);
            proof {
                lemma_ws_prefix_len(after_hashes@.skip(1));
                lemma_split_line_len(rem@);
            }
            Some(ParsedResult::new(Md::Heading(n, ws), rest))
        },
        None => None,
    }
}

} // verus!
