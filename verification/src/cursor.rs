//! Substring-consumption primitives: exact literal match-and-advance, and
//! whitespace skipping after a mandatory space.

use crate::text::has_prefix;
use crate::text::trim_start;
use crate::text::trim_start_spec;
use vstd::prelude::*;

verus! {

/// What `consume` returns: the suffix after an exact prefix match, or nothing.
pub open spec fn consume_spec(t: Seq<char>, p: Seq<char>) -> Option<Seq<char>> {
    if p.is_prefix_of(t) {
        Some(t.skip(p.len() as int))
    } else {
        None
    }
}

/// What `space` returns: after one mandatory leading space, the remainder with
/// any further run of leading whitespace removed.
pub open spec fn space_spec(t: Seq<char>) -> Option<Seq<char>> {
    if t.len() > 0 && t[0] == ' ' {
        Some(trim_start_spec(t.skip(1)))
    } else {
        None
    }
}

/// Succeeds exactly when `text` starts with `pattern`, and then returns the
/// remaining suffix; no partial consumption.
pub fn consume<'a>(text: &'a [char], pattern: &[char]) -> (r: Option<&'a [char]>)
    ensures
        r is Some <==> pattern@.is_prefix_of(text@),
        r matches Some(rest) ==> rest@ == text@.skip(pattern@.len() as int),
{
    if has_prefix(text, pattern) {
        Some(vstd::slice::slice_subrange(text, pattern.len(), text.len()))
    } else {
        None
    }
}

/// Requires exactly one literal space at the start, then strips any further
/// run of leading whitespace from the remainder.
pub fn space<'a>(text: &'a [char]) -> (r: Option<&'a [char]>)
    ensures
        r is Some <==> (text@.len() > 0 && text@[0] == ' '),
        r matches Some(rest) ==> Some(rest@) == space_spec(text@),
{
    let pat: [char; 1] = [' '];
    proof {
        assert(pat@ =~= seq![' ']);
        if text@.len() > 0 && text@[0] == ' ' {
            assert(pat@.is_prefix_of(text@)) by {
                assert(pat@ =~= text@.subrange(0, 1));
            }
        }
        if pat@.is_prefix_of(text@) {
            assert(text@[0] == text@.subrange(0, 1)[0]);
        }
    }
    match consume(text, pat.as_slice()) {
        Some(rest) => Some(trim_start(rest)),
        None => None,
    }
}

} // verus!
