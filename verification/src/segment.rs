//! The document segmenter: repeatedly tries the table, heading and sentence
//! rules, in that order, until none matches, collecting one document node per
//! success.

use crate::ast::Md;
use crate::ast::MdView;
use crate::ast::md_seq_view;
use crate::ast::md_view;
use crate::block::heading;
use crate::block::heading_spec;
use crate::block::lemma_split_line_len;
use crate::block::sentence;
use crate::block::sentence_spec;
use crate::block::hash_run_len;
use crate::cursor::space_spec;
use crate::table::lemma_records_rec_spec;
use crate::table::lemma_row_rest;
use crate::table::table;
use crate::table::table_spec;
use crate::text::lemma_ws_prefix_len;
use crate::text::str_to_chars;
use vstd::prelude::*;

verus! {

/// The run of leading `#` characters never reaches past the input.
proof fn lemma_hash_run_len_bounds(t: Seq<char>)
    ensures
        0 <= hash_run_len(t) <= t.len(),
    decreases t,
{
    if t.len() > 0 && t[0] == '#' {
        lemma_hash_run_len_bounds(t.drop_first());
    }
}

/// A successful heading parse consumes at least one character.
pub proof fn lemma_heading_rest(t: Seq<char>)
    ensures
        heading_spec(t) matches Some(pair) ==> pair.1.len() < t.len(),
{
    lemma_hash_run_len_bounds(t);
    let n = hash_run_len(t);
    if n > 0 {
        match space_spec(t.skip(n)) {
            Some(after) => {
                lemma_ws_prefix_len(t.skip(n).skip(1));
                lemma_split_line_len(after);
            },
            None => {},
        }
    }
}

/// A successful sentence parse consumes at least one character.
pub proof fn lemma_sentence_rest(t: Seq<char>)
    ensures
        sentence_spec(t) matches Some(pair) ==> pair.1.len() < t.len(),
{
    lemma_split_line_len(t);
}

/// A successful table parse consumes at least one character.
pub proof fn lemma_table_rest(t: Seq<char>)
    ensures
        table_spec(t) matches Some(pair) ==> pair.1.len() < t.len(),
{
    lemma_row_rest(t);
    match crate::table::header_spec(t) {
        Some(h) => {
            lemma_row_rest(h.1);
            match crate::table::align_row_spec(h.1, h.0.len() as int) {
                Some(al) => {
                    lemma_records_rec_spec(al.1, h.0.len() as int);
                },
                None => {},
            }
        },
        None => {},
    }
}

/// The document model: table first, then heading, then sentence; the first
/// rule that matches contributes one node and the rest is segmented in turn;
/// the sequence ends when no rule matches.
pub open spec fn parse_spec(t: Seq<char>) -> Seq<MdView>
    decreases t.len(),
    when t.len() >= 0
    via parse_spec_decreases
{
    match table_spec(t) {
        Some(pair) => seq![pair.0] + parse_spec(pair.1),
        None => match heading_spec(t) {
            Some(pair) => seq![pair.0] + parse_spec(pair.1),
            None => match sentence_spec(t) {
                Some(pair) => seq![pair.0] + parse_spec(pair.1),
                None => Seq::empty(),
            },
        },
    }
}

#[via_fn]
proof fn parse_spec_decreases(t: Seq<char>) {
    lemma_table_rest(t);
    lemma_heading_rest(t);
    lemma_sentence_rest(t);
}

/// Segments the whole input into document nodes: the result is exactly the
/// document model of the input text.
pub fn parse(text: &str) -> (r: Vec<Md>)
    ensures
        md_seq_view(r@) == parse_spec(text@),
{
    let chars = str_to_chars(text);
    let mut md: Vec<Md> = Vec::new();
    let mut cur: &[char] = chars.as_slice();
    proof {
        assert(md_seq_view(md@) + parse_spec(cur@) =~= parse_spec(text@));
    }
    loop
        invariant
            md_seq_view(md@) + parse_spec(cur@) == parse_spec(text@),
        ensures
            md_seq_view(md@) == parse_spec(text@),
        decreases cur@.len(),
    {
        let step = match table(cur) {
            Some(pr) => Some(pr),
            None => match heading(cur) {
                Some(pr) => Some(pr),
                None => sentence(cur),
            },
        };
        match step {
            Some(pr) => {
                proof {
                    assert(parse_spec(cur@) == seq![md_view(pr.token)] + parse_spec(pr.rest@));
                }
                let ghost md0 = md@;
                let ghost tokview = md_view(pr.token);
                md.push(pr.token);
                proof {
                    assert(md_seq_view(md@) =~= md_seq_view(md0).push(tokview));
                    assert(md_seq_view(md@) + parse_spec(pr.rest@) =~= md_seq_view(md0) + (seq![
                        tokview,
                    ] + parse_spec(pr.rest@)));
                }
                cur = pr.rest;
            },
            None => {
                proof {
                    assert(parse_spec(cur@) =~= Seq::<MdView>::empty());
                    assert(md_seq_view(md@) + parse_spec(cur@) =~= md_seq_view(md@));
                }
                break ;
            },
        }
    }
    md
}

} // verus!
