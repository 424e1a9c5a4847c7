//! Laws of the grammar and the renderer, proved over the specification
//! functions that the executable functions' contracts use.

use crate::ast::MdView;
use crate::ast::WordView;
use crate::inline::Delim;
use crate::inline::delim_chars;
use crate::inline::flush_acc;
use crate::inline::opener_at;
use crate::inline::scan_spec;
use crate::inline::words_spec;
use crate::render::md_html;
use crate::table::align_row_spec;
use crate::table::header_spec;
use crate::table::lemma_records_rec_spec;
use crate::table::table_spec;
use vstd::prelude::*;

verus! {

/// The characters that can take part in a delimiter token.
pub open spec fn is_delim_char(c: char) -> bool {
    c == '*' || c == '_' || c == '~'
}

/// No delimiter opens at the head of text whose first character is no
/// delimiter character.
proof fn lemma_no_opener(s: Seq<char>)
    requires
        s.len() > 0,
        !is_delim_char(s[0]),
    ensures
        opener_at(s) is None,
{
    if delim_chars(Delim::Bold).is_prefix_of(s) {
        assert(s.subrange(0, 2)[0] == s[0]);
    }
    if delim_chars(Delim::Under).is_prefix_of(s) {
        assert(s.subrange(0, 2)[0] == s[0]);
    }
    if delim_chars(Delim::Strike).is_prefix_of(s) {
        assert(s.subrange(0, 2)[0] == s[0]);
    }
    if delim_chars(Delim::StarItalic).is_prefix_of(s) {
        assert(s.subrange(0, 1)[0] == s[0]);
    }
    if delim_chars(Delim::LowItalic).is_prefix_of(s) {
        assert(s.subrange(0, 1)[0] == s[0]);
    }
}

/// Over delimiter-free text the scan only accumulates: it yields the plain
/// span of the accumulator followed by that text.
proof fn lemma_scan_no_delims(s: Seq<char>, acc: Seq<char>)
    requires
        forall|i: int| 0 <= i < s.len() ==> !is_delim_char(s[i]),
    ensures
        scan_spec(s, acc) == flush_acc(acc + s),
    decreases s.len(),
{
    if s.len() == 0 {
        assert(acc + s =~= acc);
    } else {
        lemma_no_opener(s);
        assert(forall|i: int| 0 <= i < s.drop_first().len() ==> s.drop_first()[i] == s[i + 1]);
        lemma_scan_no_delims(s.drop_first(), acc.push(s[0]));
        assert(acc.push(s[0]) + s.drop_first() =~= acc + s);
    }
}

/// Law: the word grammar on text containing no delimiter characters yields a
/// single plain span equal to that text.
pub proof fn lemma_plain_input_single_span(s: Seq<char>)
    requires
        forall|i: int| 0 <= i < s.len() ==> !is_delim_char(s[i]),
    ensures
        words_spec(s) == seq![WordView::Normal(s)],
{
    lemma_scan_no_delims(s, Seq::empty());
    assert(Seq::<char>::empty() + s =~= s);
    if s.len() == 0 {
        assert(s =~= Seq::<char>::empty());
    }
}

/// Law: in a successfully parsed table, the alignment count equals the header
/// cell count, and every body row has exactly that many cells.
pub proof fn lemma_table_column_counts(t: Seq<char>)
    ensures
        table_spec(t) matches Some(pair) ==> pair.0 matches MdView::Table(tv)
            && tv.align.len() == tv.header.len() && (forall|i: int|
            0 <= i < tv.records.len() ==> #[trigger] tv.records[i].len() == tv.header.len()),
{
    match header_spec(t) {
        Some(h) => {
            match align_row_spec(h.1, h.0.len() as int) {
                Some(al) => {
                    lemma_records_rec_spec(al.1, h.0.len() as int);
                },
                None => {},
            }
        },
        None => {},
    }
}

/// Law: rendering is a pure function of the tree.  `to_html`'s contract ties
/// its result to `md_html` of its argument, so any two renderings of equal
/// document nodes are byte-identical.
pub proof fn lemma_render_deterministic(m1: MdView, m2: MdView, r1: Seq<char>, r2: Seq<char>)
    requires
        m1 == m2,
        r1 == md_html(m1),
        r2 == md_html(m2),
    ensures
        r1 == r2,
{
}

} // verus!
