//! The inline word grammar: one line of raw text becomes an ordered run of
//! spans, recognising the nestable delimiter pairs `**` (bold), `__`
//! (underline), `~~` (strikethrough) and the single-character `*` / `_`
//! (italic), longest match first.
//!
//! The grammar is total: an unclosed opener degrades to literal text, and
//! input without recognised delimiters becomes a single plain span.

use crate::ast::Word;
use crate::ast::WordView;
use crate::ast::lemma_word_seq_view;
use crate::ast::lemma_word_seq_view_add;
use crate::ast::lemma_word_seq_view_push;
use crate::ast::word_seq_view;
use crate::ast::word_view;
use crate::text::chars_to_string;
use crate::text::find_sub;
use crate::text::find_sub_at;
use crate::text::lemma_find_sub;
use vstd::prelude::*;

verus! {

/// One recognised delimiter token, in the grammar's priority order.
#[derive(Debug, PartialEq, Eq, Clone, Copy)]
pub enum Delim {
    Bold,
    Under,
    Strike,
    StarItalic,
    LowItalic,
}

/// The characters of a delimiter token.
pub open spec fn delim_chars(d: Delim) -> Seq<char> {
    match d {
        Delim::Bold => seq!['*', '*'],
        Delim::Under => seq!['_', '_'],
        Delim::Strike => seq!['~', '~'],
        Delim::StarItalic => seq!['*'],
        Delim::LowItalic => seq!['_'],
    }
}

/// The span an opener/closer pair of `d` builds around its children.
pub open spec fn emph_view(d: Delim, children: Seq<WordView>) -> WordView {
    match d {
        Delim::Bold => WordView::Bold(children),
        Delim::Under => WordView::Underline(children),
        Delim::Strike => WordView::StrikeThough(children),
        Delim::StarItalic => WordView::Italic(children),
        Delim::LowItalic => WordView::Italic(children),
    }
}

/// The delimiter that opens at the head of `s`, two-character tokens before
/// one-character ones.
pub open spec fn opener_at(s: Seq<char>) -> Option<Delim> {
    if delim_chars(Delim::Bold).is_prefix_of(s) {
        Some(Delim::Bold)
    } else if delim_chars(Delim::Under).is_prefix_of(s) {
        Some(Delim::Under)
    } else if delim_chars(Delim::Strike).is_prefix_of(s) {
        Some(Delim::Strike)
    } else if delim_chars(Delim::StarItalic).is_prefix_of(s) {
        Some(Delim::StarItalic)
    } else if delim_chars(Delim::LowItalic).is_prefix_of(s) {
        Some(Delim::LowItalic)
    } else {
        None
    }
}

/// The plain span made of an accumulated character run; an empty run yields
/// no span.
pub open spec fn flush_acc(acc: Seq<char>) -> Seq<WordView> {
    if acc.len() == 0 {
        Seq::empty()
    } else {
        seq![WordView::Normal(acc)]
    }
}

/// The left-to-right scan: `acc` holds the plain characters read since the
/// last emitted span.  A closed delimiter pair emits the accumulated plain
/// span and a nested span; an unclosed opener joins the accumulation as
/// literal text.
pub open spec fn scan_spec(s: Seq<char>, acc: Seq<char>) -> Seq<WordView>
    decreases s.len(), 0int,
    when s.len() >= 0
    via scan_spec_decreases
{
    if s.len() == 0 {
        flush_acc(acc)
    } else {
        match opener_at(s) {
            Some(d) => {
                let dl = delim_chars(d).len() as int;
                let body = s.skip(dl);
                match find_sub(body, delim_chars(d)) {
                    Some(j) => {
                        let inner = body.take(j);
                        let rest = body.skip(j + dl);
                        flush_acc(acc) + seq![emph_view(d, words_spec(inner))] + scan_spec(
                            rest,
                            Seq::empty(),
                        )
                    },
                    None => scan_spec(body, acc + delim_chars(d)),
                }
            },
            None => scan_spec(s.drop_first(), acc.push(s[0])),
        }
    }
}

/// The word grammar over a whole line: a scan with an empty accumulator, and
/// a single empty plain span where the scan yields nothing.
pub open spec fn words_spec(s: Seq<char>) -> Seq<WordView>
    decreases s.len(), 1int,
{
    let r = scan_spec(s, Seq::empty());
    if r.len() == 0 {
        seq![WordView::Normal(Seq::empty())]
    } else {
        r
    }
}

#[via_fn]
proof fn scan_spec_decreases(s: Seq<char>, acc: Seq<char>) {
    if s.len() > 0 {
        match opener_at(s) {
            Some(d) => {
                let dl = delim_chars(d).len() as int;
                let body = s.skip(dl);
                lemma_find_sub(body, delim_chars(d));
            },
            None => {},
        }
    }
}

/// The delimiter opening at the head of `text`, if any.
fn opener(text: &[char]) -> (r: Option<Delim>)
    ensures
        r == opener_at(text@),
{
    let n = text.len();
    proof {
        if n >= 1 {
            assert(seq![text@[0]] =~= text@.subrange(0, 1));
            assert(text@.subrange(0, 1)[0] == text@[0]);
        }
        if n >= 2 {
            assert(seq![text@[0], text@[1]] =~= text@.subrange(0, 2));
            assert(text@.subrange(0, 2)[0] == text@[0]);
            assert(text@.subrange(0, 2)[1] == text@[1]);
        }
    }
    if n >= 2 {
        let c0 = text[0];
        let c1 = text[1];
        if c0 == '*' && c1 == '*' {
            return Some(Delim::Bold);
        }
        if c0 == '_' && c1 == '_' {
            return Some(Delim::Under);
        }
        if c0 == '~' && c1 == '~' {
            return Some(Delim::Strike);
        }
    }
    if n >= 1 {
        let c0 = text[0];
        if c0 == '*' {
            return Some(Delim::StarItalic);
        }
        if c0 == '_' {
            return Some(Delim::LowItalic);
        }
    }
    None
}

/// The characters of a delimiter token, as a vector.
fn delim_vec(d: Delim) -> (r: Vec<char>)
    ensures
        r@ == delim_chars(d),
{
    let mut v: Vec<char> = Vec::new();
    match d {
        Delim::Bold => {
            v.push('*');
            v.push('*');
        },
        Delim::Under => {
            v.push('_');
            v.push('_');
        },
        Delim::Strike => {
            v.push('~');
            v.push('~');
        },
        Delim::StarItalic => {
            v.push('*');
        },
        Delim::LowItalic => {
            v.push('_');
        },
    }
    proof {
        assert(v@ =~= delim_chars(d));
    }
    v
}

/// The span an opener/closer pair of `d` builds around `children`.
fn emph_word(d: Delim, children: Vec<Word>) -> (r: Word)
    ensures
        word_view(r) == emph_view(d, word_seq_view(children@)),
{
    match d {
        Delim::Bold => Word::Bold(children),
        Delim::Under => Word::Underline(children),
        Delim::Strike => Word::StrikeThough(children),
        Delim::StarItalic => Word::Italic(children),
        Delim::LowItalic => Word::Italic(children),
    }
}

/// The left-to-right scan over `text` with the accumulated plain run `acc`.
fn scan(text: &[char], acc: Vec<char>) -> (r: Vec<Word>)
    ensures
        word_seq_view(r@) == scan_spec(text@, acc@),
    decreases text@.len(), 0int,
{
    let ghost goal = scan_spec(text@, acc@);
    if text.len() == 0 {
        let mut r: Vec<Word> = Vec::new();
        if acc.len() == 0 {
            assert(word_seq_view(r@) =~= flush_acc(acc@));
            r
        } else {
            r.push(Word::Normal(chars_to_string(acc.as_slice())));
            proof {
                lemma_word_seq_view(r@);
                assert(word_seq_view(r@) =~= flush_acc(acc@));
            }
            r
        }
    } else {
        match opener(text) {
            Some(d) => {
                let pat = delim_vec(d);
                let dl = pat.len();
                let body = vstd::slice::slice_subrange(text, dl, text.len());
                proof {
                    assert(delim_chars(d).is_prefix_of(text@));
                    assert(body@ =~= text@.skip(dl as int));
                }
                match find_sub_at(body, pat.as_slice()) {
                    Some(j) => {
                        proof {
                            lemma_find_sub(body@, delim_chars(d));
                        }
                        let inner = vstd::slice::slice_subrange(body, 0, j);
                        let rest = vstd::slice::slice_subrange(body, j + dl, body.len());
                        proof {
                            assert(inner@ =~= body@.take(j as int));
                            assert(rest@ =~= body@.skip(j + dl));
                        }
                        let mut r: Vec<Word> = Vec::new();
                        if acc.len() > 0 {
                            r.push(Word::Normal(chars_to_string(acc.as_slice())));
                        }
                        let children = words(inner);
                        let w = emph_word(d, children);
                        let ghost before = r@;
                        r.push(w);
                        proof {
                            lemma_word_seq_view(before);
                            lemma_word_seq_view_push(before, w);
                            assert(word_seq_view(before) =~= flush_acc(acc@));
                            assert(word_seq_view(r@) =~= flush_acc(acc@) + seq![
                                emph_view(d, words_spec(inner@)),
                            ]);
                        }
                        let mut tail = scan(rest, Vec::new());
                        let ghost head = r@;
                        let ghost tail0 = tail@;
                        r.append(&mut tail);
                        proof {
                            lemma_word_seq_view_add(head, tail0);
                            assert(r@ =~= head + tail0);
                            assert(word_seq_view(r@) =~= flush_acc(acc@) + seq![
                                emph_view(d, words_spec(inner@)),
                            ] + scan_spec(rest@, Seq::empty()));
                            assert(word_seq_view(r@) == goal);
                        }
                        r
                    },
                    None => {
                        let mut acc2 = acc;
                        let mut k: usize = 0;
                        while k < pat.len()
                            invariant
                                0 <= k <= pat@.len(),
                                acc2@ == acc@ + pat@.take(k as int),
                                pat@ == delim_chars(d),
                            decreases pat@.len() - k,
                        {
                            let c = pat[k];
                            acc2.push(c);
                            proof {
                                assert(acc@ + pat@.take(k as int) + seq![pat@[k as int]] =~= acc@
                                    + pat@.take(k + 1));
                            }
                            k += 1;
                        }
                        proof {
                            assert(acc2@ =~= acc@ + delim_chars(d));
                        }
                        scan(body, acc2)
                    },
                }
            },
            None => {
                let c = text[0];
                let mut acc2 = acc;
                acc2.push(c);
                let tail = vstd::slice::slice_subrange(text, 1, text.len());
                proof {
                    assert(tail@ =~= text@.drop_first());
                }
                scan(tail, acc2)
            },
        }
    }
}

/// Turns one line of raw text into an ordered run of spans.  The grammar is
/// total: the result is exactly `words_spec` of the input, and is never empty.
pub fn words(text: &[char]) -> (r: Vec<Word>)
    ensures
        word_seq_view(r@) == words_spec(text@),
        r@.len() > 0,
    decreases text@.len(), 1int,
{
    let r = scan(text, Vec::new());
    proof {
        lemma_word_seq_view(r@);
    }
    if r.len() == 0 {
        let mut v: Vec<Word> = Vec::new();
        v.push(Word::Normal(String::new()));
        proof {
            lemma_word_seq_view(v@);
            assert(word_seq_view(v@) =~= seq![WordView::Normal(Seq::<char>::empty())]);
        }
        v
    } else {
        r
    }
}

} // verus!
