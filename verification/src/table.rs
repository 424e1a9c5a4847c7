//! The table grammar: a generic pipe-delimited row primitive, the header row,
//! the alignment row, and the body rows with their early-stop rule.

use crate::ast::Align;
use crate::ast::Md;
use crate::ast::MdView;
use crate::ast::ParsedResult;
use crate::ast::Record;
use crate::ast::Table;
use crate::ast::TableView;
use crate::ast::Words;
use crate::ast::WordView;
use crate::ast::md_view;
use crate::ast::record_seq_view;
use crate::ast::record_view;
use crate::ast::words_view;
use crate::inline::words;
use crate::inline::words_spec;
use crate::text::find_sub;
use crate::text::find_sub_at;
use crate::text::lemma_find_sub;
use crate::text::lemma_ws_suffix_len;
use crate::text::split_line;
use crate::text::split_line_spec;
use crate::text::trim;
use crate::text::trim_end;
use crate::text::trim_end_spec;
use crate::text::trim_spec;
use crate::block::lemma_split_line_len;
use vstd::prelude::*;

verus! {

/// The cell texts of a row core: split on `|`, each cell trimmed.
pub open spec fn cells_spec(s: Seq<char>) -> Seq<Seq<char>>
    decreases s.len(),
    when s.len() >= 0
    via cells_spec_decreases
{
    match find_sub(s, seq!['|']) {
        Some(j) => seq![trim_spec(s.take(j))] + cells_spec(s.skip(j + 1)),
        None => seq![trim_spec(s)],
    }
}

#[via_fn]
proof fn cells_spec_decreases(s: Seq<char>) {
    lemma_find_sub(s, seq!['|']);
}

/// What the row primitive returns: the first line, trailing whitespace
/// trimmed, must start and end with `|`; the cell texts are what stands
/// between, split on `|` and trimmed.  The rest is everything after the
/// line's newline.
pub open spec fn row_spec(t: Seq<char>) -> Option<(Seq<Seq<char>>, Seq<char>)> {
    let (line, rest) = split_line_spec(t);
    let lt = trim_end_spec(line);
    if lt.len() >= 2 && lt[0] == '|' && lt[lt.len() - 1] == '|' {
        Some((cells_spec(lt.subrange(1, lt.len() - 1)), rest))
    } else {
        None
    }
}

/// A successful row parse consumes at least one character.
pub proof fn lemma_row_rest(t: Seq<char>)
    ensures
        row_spec(t) matches Some(pair) ==> pair.1.len() < t.len(),
{
    lemma_split_line_len(t);
    let (line, rest) = split_line_spec(t);
    lemma_ws_suffix_len(line);
}

/// The model of a decoded row: the word grammar applied to each cell text.
pub open spec fn decode_words_cells(cells: Seq<Seq<char>>) -> Seq<Seq<WordView>> {
    Seq::new(cells.len(), |i: int| words_spec(cells[i]))
}

/// What the header rule returns: the row's cells, each decoded by the word
/// grammar.
pub open spec fn header_spec(t: Seq<char>) -> Option<(Seq<Seq<WordView>>, Seq<char>)> {
    match row_spec(t) {
        Some(pair) => Some((decode_words_cells(pair.0), pair.1)),
        None => None,
    }
}

/// What one alignment token decodes to.  With `l` / `r` for a leading /
/// trailing colon, the core between them must be a non-empty run of hyphens;
/// `(l, r)` maps to Center when both, Right when only trailing, else Left.
pub open spec fn align_cell_spec(s: Seq<char>) -> Option<Align> {
    let l = s.len() > 0 && s[0] == ':';
    let r = s.len() > 0 && s[s.len() - 1] == ':';
    let start: int = if l {
        1int
    } else {
        0int
    };
    let end: int = s.len() - if r {
        1int
    } else {
        0int
    };
    if start < end && (forall|i: int| start <= i < end ==> s[i] == '-') {
        if l && r {
            Some(Align::Center)
        } else if r {
            Some(Align::Right)
        } else {
            Some(Align::Left)
        }
    } else {
        None
    }
}

/// The decoded alignment row: every cell must decode, else nothing.
pub open spec fn aligns_of_cells(cells: Seq<Seq<char>>) -> Option<Seq<Align>>
    decreases cells.len(),
{
    if cells.len() == 0 {
        Some(Seq::empty())
    } else {
        match align_cell_spec(cells[0]) {
            Some(a) => match aligns_of_cells(cells.drop_first()) {
                Some(tail) => Some(seq![a] + tail),
                None => None,
            },
            None => None,
        }
    }
}

/// `aligns_of_cells` decodes every cell in place, or fails exactly when some
/// cell is invalid.
pub proof fn lemma_aligns_of_cells(cells: Seq<Seq<char>>)
    ensures
        match aligns_of_cells(cells) {
            Some(al) => al.len() == cells.len() && forall|i: int|
                0 <= i < cells.len() ==> align_cell_spec(cells[i]) == Some(al[i]),
            None => exists|k: int| 0 <= k < cells.len() && align_cell_spec(cells[k]) is None,
        },
    decreases cells.len(),
{
    if cells.len() > 0 {
        lemma_aligns_of_cells(cells.drop_first());
        match align_cell_spec(cells[0]) {
            Some(a) => {
                match aligns_of_cells(cells.drop_first()) {
                    Some(tail) => {
                        assert(forall|i: int|
                            0 < i < cells.len() ==> cells.drop_first()[i - 1] == cells[i]);
                        assert(forall|i: int|
                            0 < i < cells.len() ==> (seq![a] + tail)[i] == tail[i - 1]);
                    },
                    None => {
                        let k = choose|k: int|
                            0 <= k < cells.drop_first().len() && align_cell_spec(
                                cells.drop_first()[k],
                            ) is None;
                        assert(cells.drop_first()[k] == cells[k + 1]);
                    },
                }
            },
            None => {
                assert(align_cell_spec(cells[0]) is None);
            },
        }
    }
}

/// What the alignment-row rule returns: a row whose every cell decodes to an
/// alignment token and whose cell count equals the header's column count.
pub open spec fn align_row_spec(t: Seq<char>, num: int) -> Option<(Seq<Align>, Seq<char>)> {
    match row_spec(t) {
        Some(pair) => match aligns_of_cells(pair.0) {
            Some(al) => if al.len() == num {
                Some((al, pair.1))
            } else {
                None
            },
            None => None,
        },
        None => None,
    }
}

/// The body-row collection: rows are decoded while their cell count equals
/// the header's; the first row with another count is left unconsumed and
/// stops the collection.
pub open spec fn records_rec_spec(t: Seq<char>, n: int) -> (Seq<Seq<Seq<WordView>>>, Seq<char>)
    decreases t.len(),
    when t.len() >= 0
    via records_rec_spec_decreases
{
    match row_spec(t) {
        Some(pair) => if pair.0.len() == n {
            let tail = records_rec_spec(pair.1, n);
            (seq![decode_words_cells(pair.0)] + tail.0, tail.1)
        } else {
            (Seq::empty(), t)
        },
        None => (Seq::empty(), t),
    }
}

#[via_fn]
proof fn records_rec_spec_decreases(t: Seq<char>, n: int) {
    lemma_row_rest(t);
}

/// What the body-row rule returns: at least one collected row, else nothing.
pub open spec fn records_spec(t: Seq<char>, n: int) -> Option<(Seq<Seq<Seq<WordView>>>, Seq<char>)> {
    let pair = records_rec_spec(t, n);
    if pair.0.len() == 0 {
        None
    } else {
        Some(pair)
    }
}

/// The collected body rows never reach past the input, consume something as
/// soon as one row is collected, and all have exactly `n` cells.
pub proof fn lemma_records_rec_spec(t: Seq<char>, n: int)
    ensures
        records_rec_spec(t, n).1.len() <= t.len(),
        records_rec_spec(t, n).0.len() > 0 ==> records_rec_spec(t, n).1.len() < t.len(),
        forall|i: int|
            0 <= i < records_rec_spec(t, n).0.len() ==> records_rec_spec(t, n).0[i].len() == n,
    decreases t.len(),
{
    lemma_row_rest(t);
    match row_spec(t) {
        Some(pair) => {
            if pair.0.len() == n {
                lemma_records_rec_spec(pair.1, n);
            }
        },
        None => {},
    }
}

/// What the whole table rule returns: the header parses; the alignment row
/// parses against the header's column count; at least one body row parses.
/// Any stage failing fails the whole attempt.
pub open spec fn table_spec(t: Seq<char>) -> Option<(MdView, Seq<char>)> {
    match header_spec(t) {
        Some(h) => match align_row_spec(h.1, h.0.len() as int) {
            Some(al) => match records_spec(al.1, h.0.len() as int) {
                Some(rs) => Some(
                    (
                        MdView::Table(TableView { header: h.0, align: al.0, records: rs.0 }),
                        rs.1,
                    ),
                ),
                None => None,
            },
            None => None,
        },
        None => None,
    }
}

/// The deep view of a vector of cell texts is the element-wise view.
proof fn lemma_cells_deep_view(cells: Vec<Vec<char>>)
    ensures
        cells.deep_view().len() == cells@.len(),
        forall|k: int| 0 <= k < cells@.len() ==> cells.deep_view()[k] == cells@[k]@,
{
    assert forall|k: int| 0 <= k < cells@.len() implies cells.deep_view()[k] == cells@[k]@ by {
        assert(cells@[k].deep_view() =~= cells@[k]@);
    }
}

/// One pipe-delimited row: the first line, trailing whitespace trimmed, must
/// both start and end with `|`; returns the trimmed cell texts and the text
/// after the line.
pub fn row<'a>(text: &'a [char]) -> (r: Option<(Vec<Vec<char>>, &'a [char])>)
    ensures
        match r {
            Some(pair) => row_spec(text@) == Some((pair.0.deep_view(), pair.1@)),
            None => row_spec(text@) is None,
        },
{
    let (line, rest) = split_line(text);
    let lt = trim_end(line);
    if lt.len() < 2 {
        return None;
    }
    if lt[0] != '|' || lt[lt.len() - 1] != '|' {
        return None;
    }
    let core = vstd::slice::slice_subrange(lt, 1, lt.len() - 1);
    let cells = split_cells(core);
    Some((cells, rest))
}

/// The cell texts of a row core: split on `|`, each cell trimmed.
fn split_cells(s: &[char]) -> (r: Vec<Vec<char>>)
    ensures
        r.deep_view() == cells_spec(s@),
        r@.len() > 0,
    decreases s@.len(),
{
    let pat: [char; 1] = ['|'];
    proof {
        assert(pat@ =~= seq!['|']);
    }
    match find_sub_at(s, pat.as_slice()) {
        Some(j) => {
            let n = s.len();
            proof {
                lemma_find_sub(s@, seq!['|']);
                assert(j + 1 <= n);
            }
            let head = trim(vstd::slice::slice_subrange(s, 0, j));
            let restsl = vstd::slice::slice_subrange(s, j + 1, n);
            proof {
                assert(restsl@ =~= s@.skip(j + 1));
                assert(s@.take(j as int) =~= s@.subrange(0, j as int));
            }
            let mut r: Vec<Vec<char>> = Vec::new();
            r.push(vstd::slice::slice_to_vec(head));
            let mut tail = split_cells(restsl);
            let ghost r0 = r@;
            let ghost tail0 = tail@;
            let ghost tail_cells = tail.deep_view();
            r.append(&mut tail);
            proof {
                assert(r@ == r0 + tail0);
                lemma_cells_deep_view(r);
                lemma_cells_deep_view(tail);
                assert forall|k: int| 0 <= k < tail0.len() implies #[trigger] tail0[k]@
                    == tail_cells[k] by {
                    assert(tail0[k].deep_view() =~= tail0[k]@);
                }
                assert(r.deep_view() =~= cells_spec(s@));
            }
            r
        },
        None => {
            let cell = trim(s);
            let mut r: Vec<Vec<char>> = Vec::new();
            r.push(vstd::slice::slice_to_vec(cell));
            proof {
                lemma_cells_deep_view(r);
                assert(r.deep_view() =~= cells_spec(s@));
            }
            r
        },
    }
}

/// Decodes each cell text by the word grammar and wraps the result as a row.
fn cells_to_record(cells: &Vec<Vec<char>>) -> (r: Record)
    ensures
        record_view(r) == decode_words_cells(cells.deep_view()),
{
    let mut ws: Vec<Words> = Vec::new();
    let mut i: usize = 0;
    while i < cells.len()
        invariant
            0 <= i <= cells@.len(),
            ws@.len() == i,
            forall|k: int| 0 <= k < i ==> words_view(ws@[k]) == words_spec(cells@[k]@),
        decreases cells@.len() - i,
    {
        let cell = words(cells[i].as_slice());
        ws.push(Words(cell));
        i += 1;
    }
    let r = Record(ws);
    proof {
        lemma_cells_deep_view(*cells);
        assert(record_view(r) =~= decode_words_cells(cells.deep_view()));
    }
    r
}

/// The header row: one pipe-delimited row with every cell decoded by the word
/// grammar.
pub fn header<'a>(texts: &'a [char]) -> (r: Option<ParsedResult<'a, Record>>)
    ensures
        match r {
            Some(pr) => header_spec(texts@) == Some((record_view(pr.token), pr.rest@))
                && pr.rest@.len() < texts@.len(),
            None => header_spec(texts@) is None,
        },
{
    proof {
        lemma_row_rest(texts@);
    }
    match row(texts) {
        Some((cells, rest)) => {
            let rec = cells_to_record(&cells);
            Some(ParsedResult::new(rec, rest))
        },
        None => None,
    }
}

/// Decodes one trimmed alignment token: a leading colon, a non-empty hyphen
/// run, a trailing colon; both colons give Center, only a trailing colon
/// gives Right, anything else valid gives Left.
pub fn align_parse(text: &[char]) -> (r: Option<Align>)
    ensures
        r == align_cell_spec(text@),
{
    let n = text.len();
    if n == 0 {
        return None;
    }
    let l = text[0] == ':';
    let r = text[n - 1] == ':';
    let start: usize = if l {
        1
    } else {
        0
    };
    let end: usize = if r {
        n - 1
    } else {
        n
    };
    if start >= end {
        return None;
    }
    let mut i: usize = start;
    while i < end
        invariant
            text@.len() > 0,
            l == (text@[0] == ':'),
            r == (text@[text@.len() - 1] == ':'),
            start as int == (if l {
                1int
            } else {
                0int
            }),
            end as int == text@.len() - (if r {
                1int
            } else {
                0int
            }),
            start <= i <= end <= text@.len(),
            forall|k: int| start <= k < i ==> text@[k] == '-',
        decreases end - i,
    {
        if text[i] != '-' {
            proof {
                let s = text@;
                let sl = s.len() > 0 && s[0] == ':';
                let sr = s.len() > 0 && s[s.len() - 1] == ':';
                assert(sl == l && sr == r);
                let sstart: int = if sl {
                    1int
                } else {
                    0int
                };
                let send: int = s.len() - if sr {
                    1int
                } else {
                    0int
                };
                assert(sstart == start as int && send == end as int);
                if align_cell_spec(s) is Some {
                    assert(sstart <= i as int && (i as int) < send);
                    assert(s[i as int] == '-');
                }
            }
            return None;
        }
        i += 1;
    }
    if l && r {
        Some(Align::Center)
    } else if r {
        Some(Align::Right)
    } else {
        Some(Align::Left)
    }
}

/// The alignment row: one pipe-delimited row whose every cell decodes to an
/// alignment token, with exactly `num` cells.
pub fn align<'a>(texts: &'a [char], num: usize) -> (r: Option<ParsedResult<'a, Vec<Align>>>)
    ensures
        match r {
            Some(pr) => align_row_spec(texts@, num as int) == Some((pr.token@, pr.rest@))
                && pr.rest@.len() < texts@.len(),
            None => align_row_spec(texts@, num as int) is None,
        },
{
    proof {
        lemma_row_rest(texts@);
    }
    match row(texts) {
        Some((cells, rest)) => {
            proof {
                lemma_aligns_of_cells(cells.deep_view());
                lemma_cells_deep_view(cells);
            }
            let mut aligns: Vec<Align> = Vec::new();
            let mut i: usize = 0;
            while i < cells.len()
                invariant
                    0 <= i <= cells@.len(),
                    aligns@.len() == i,
                    row_spec(texts@) == Some((cells.deep_view(), rest@)),
                    rest@.len() < texts@.len(),
                    forall|k: int|
                        0 <= k < i ==> align_cell_spec(cells.deep_view()[k]) == Some(aligns@[k]),
                    cells.deep_view().len() == cells@.len(),
                    forall|k: int| 0 <= k < cells@.len() ==> cells.deep_view()[k] == cells@[k]@,
                decreases cells@.len() - i,
            {
                match align_parse(cells[i].as_slice()) {
                    Some(a) => {
                        aligns.push(a);
                    },
                    None => {
                        proof {
                            lemma_aligns_of_cells(cells.deep_view());
                            assert(align_cell_spec(cells.deep_view()[i as int]) is None);
                        }
                        return None;
                    },
                }
                i += 1;
            }
            proof {
                match aligns_of_cells(cells.deep_view()) {
                    Some(al) => {
                        assert(aligns@ =~= al);
                    },
                    None => {},
                }
            }
            if aligns.len() != num {
                return None;
            }
            Some(ParsedResult::new(aligns, rest))
        },
        None => None,
    }
}

/// The number of cells of a row.
pub fn record_len(record: &Record) -> (n: usize)
    ensures
        n == record.0@.len(),
{
    record.0.len()
}

/// The body rows: rows are collected while their cell count equals `n`; the
/// first row with another count is left unconsumed and stops the collection.
fn records_rec<'a>(texts: &'a [char], n: usize) -> (r: (Vec<Record>, &'a [char]))
    ensures
        record_seq_view(r.0@) == records_rec_spec(texts@, n as int).0,
        r.1@ == records_rec_spec(texts@, n as int).1,
    decreases texts@.len(),
{
    proof {
        lemma_row_rest(texts@);
    }
    match row(texts) {
        Some((cells, rest)) => {
            if cells.len() == n {
                let rec = cells_to_record(&cells);
                let (mut tail, fin) = records_rec(rest, n);
                let mut v: Vec<Record> = Vec::new();
                v.push(rec);
                let ghost tail0 = tail@;
                v.append(&mut tail);
                proof {
                    assert(v@ =~= seq![rec] + tail0);
                    assert(record_seq_view(v@) =~= records_rec_spec(texts@, n as int).0);
                }
                (v, fin)
            } else {
                let v: Vec<Record> = Vec::new();
                proof {
                    assert(record_seq_view(v@) =~= Seq::<Seq<Seq<WordView>>>::empty());
                }
                (v, texts)
            }
        },
        None => {
            let v: Vec<Record> = Vec::new();
            proof {
                assert(record_seq_view(v@) =~= Seq::<Seq<Seq<WordView>>>::empty());
            }
            (v, texts)
        },
    }
}

/// The body rows of a table: fails unless at least one row is collected.
pub fn records<'a>(texts: &'a [char], n: usize) -> (r: Option<ParsedResult<'a, Vec<Record>>>)
    ensures
        match r {
            Some(pr) => records_spec(texts@, n as int) == Some(
                (record_seq_view(pr.token@), pr.rest@),
            ) && pr.rest@.len() < texts@.len(),
            None => records_spec(texts@, n as int) is None,
        },
{
    proof {
        lemma_records_rec_spec(texts@, n as int);
    }
    let (rs, fin) = records_rec(texts, n);
    if rs.len() == 0 {
        proof {
            assert(record_seq_view(rs@).len() == 0);
        }
        return None;
    }
    proof {
        assert(record_seq_view(rs@).len() == rs@.len());
    }
    Some(ParsedResult::new(rs, fin))
}

/// The whole table rule: header, alignment row against the header's column
/// count, then at least one body row.  On success the header, the alignment
/// sequence and every body row all have the same length.
pub fn table<'a>(texts: &'a [char]) -> (r: Option<ParsedResult<'a, Md>>)
    ensures
        match r {
            Some(pr) => table_spec(texts@) == Some((md_view(pr.token), pr.rest@))
                && pr.rest@.len() < texts@.len(),
            None => table_spec(texts@) is None,
        },
{
    let header_result = match header(texts) {
        Some(h) => h,
        None => {
            return None;
        },
    };
    let column_num = record_len(&header_result.token);
    let align_result = match align(header_result.rest, column_num) {
        Some(a) => a,
        None => {
            return None;
        },
    };
    let records_result = match records(align_result.rest, column_num) {
        Some(rs) => rs,
        None => {
            return None;
        },
    };
    let token = Md::Table(
        Box::new(
            Table {
                header: header_result.token,
                align: align_result.token,
                records: records_result.token,
            },
        ),
    );
    Some(ParsedResult::new(token, records_result.rest))
}

} // verus!
