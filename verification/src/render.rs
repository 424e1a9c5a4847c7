//! The HTML renderer: a stateless recursive tree walk from document nodes to
//! tag strings, pinned to specification functions over `Seq<char>`.

use crate::ast::Align;
use crate::ast::Md;
use crate::ast::MdView;
use crate::ast::Record;
use crate::ast::Table;
use crate::ast::TableView;
use crate::ast::Word;
use crate::ast::WordView;
use crate::ast::md_view;
use crate::ast::record_seq_view;
use crate::ast::record_view;
use crate::ast::table_view;
use crate::ast::word_seq_view;
use crate::ast::word_view;
use crate::ast::words_view;
use crate::text::chars_to_string;
use vstd::prelude::*;
use vstd::string::StringExecFns;

verus! {

/// The HTML of one span: plain text verbatim (no escaping), emphasis spans
/// wrapped in `<i>`, `<b>`, `<s>` or `<u>`.
pub open spec fn word_html(w: WordView) -> Seq<char>
    decreases w,
{
    match w {
        WordView::Normal(s) => s,
        WordView::Italic(ws) => "<i>"@ + words_html(ws) + "</i>"@,
        WordView::Bold(ws) => "<b>"@ + words_html(ws) + "</b>"@,
        WordView::StrikeThough(ws) => "<s>"@ + words_html(ws) + "</s>"@,
        WordView::Underline(ws) => "<u>"@ + words_html(ws) + "</u>"@,
    }
}

/// The HTML of a run of spans, concatenated in order.
pub open spec fn words_html(ws: Seq<WordView>) -> Seq<char>
    decreases ws,
{
    if ws.len() == 0 {
        Seq::empty()
    } else {
        word_html(ws[0]) + words_html(ws.drop_first())
    }
}

/// The HTML of a row's cells, each wrapped in the given tag.
pub open spec fn cells_html(cells: Seq<Seq<WordView>>, tag: Seq<char>) -> Seq<char>
    decreases cells.len(),
{
    if cells.len() == 0 {
        Seq::empty()
    } else {
        "<"@ + tag + ">"@ + words_html(cells[0]) + "</"@ + tag + ">"@ + cells_html(
            cells.drop_first(),
            tag,
        )
    }
}

/// The attribute value of an alignment.
pub open spec fn align_attr(a: Align) -> Seq<char> {
    match a {
        Align::Right => "right"@,
        Align::Center => "center"@,
        Align::Left => "left"@,
    }
}

/// The HTML of one body row: each cell becomes a `<td>` with its column's
/// alignment; pairing stops at the shorter of cells and alignments.
pub open spec fn record_html(cells: Seq<Seq<WordView>>, aligns: Seq<Align>) -> Seq<char>
    decreases cells.len(),
{
    if cells.len() == 0 || aligns.len() == 0 {
        Seq::empty()
    } else {
        "<td align=\""@ + align_attr(aligns[0]) + "\">"@ + words_html(cells[0]) + "</td>"@
            + record_html(cells.drop_first(), aligns.drop_first())
    }
}

/// The HTML of the body rows: one `<tr>` per row, each followed by a newline.
pub open spec fn records_html(records: Seq<Seq<Seq<WordView>>>, aligns: Seq<Align>) -> Seq<char>
    decreases records.len(),
{
    if records.len() == 0 {
        Seq::empty()
    } else {
        "<tr>"@ + record_html(records[0], aligns) + "</tr>\n"@ + records_html(
            records.drop_first(),
            aligns,
        )
    }
}

/// The HTML of a whole table: header cells as `<th>` (alignment not applied),
/// then the body rows.
pub open spec fn table_html(tv: TableView) -> Seq<char> {
    "<table>\n"@ + "<tr>"@ + cells_html(tv.header, "th"@) + "</tr>"@ + "\n"@ + records_html(
        tv.records,
        tv.align,
    ) + "</table>\n"@
}

/// The decimal digits of `n`, most significant first.
pub open spec fn dec_digits(n: int) -> Seq<char>
    decreases n,
    when n >= 0
{
    if n < 10 {
        seq![digit_char_spec(n)]
    } else {
        dec_digits(n / 10).push(digit_char_spec(n % 10))
    }
}

/// The character of one decimal digit.
pub open spec fn digit_char_spec(d: int) -> char {
    if d == 0 {
        '0'
    } else if d == 1 {
        '1'
    } else if d == 2 {
        '2'
    } else if d == 3 {
        '3'
    } else if d == 4 {
        '4'
    } else if d == 5 {
        '5'
    } else if d == 6 {
        '6'
    } else if d == 7 {
        '7'
    } else if d == 8 {
        '8'
    } else {
        '9'
    }
}

/// The HTML of one document node: headings wrapped in `<h{level}>`, sentences
/// bare.  Nodes without a rendering rule have no HTML.
pub open spec fn md_html(m: MdView) -> Seq<char> {
    match m {
        MdView::Heading(n, ws) => "<h"@ + dec_digits(n) + ">"@ + words_html(ws) + "</h"@
            + dec_digits(n) + ">"@,
        MdView::Sentence(ws) => words_html(ws),
        MdView::Table(tv) => Seq::empty(),
        MdView::List(items) => Seq::empty(),
    }
}

/// The character of one decimal digit.
fn digit_char(d: usize) -> (c: char)
    requires
        d < 10,
    ensures
        c == digit_char_spec(d as int),
{
    if d == 0 {
        '0'
    } else if d == 1 {
        '1'
    } else if d == 2 {
        '2'
    } else if d == 3 {
        '3'
    } else if d == 4 {
        '4'
    } else if d == 5 {
        '5'
    } else if d == 6 {
        '6'
    } else if d == 7 {
        '7'
    } else if d == 8 {
        '8'
    } else {
        '9'
    }
}

/// The decimal digits of `n`, most significant first.
fn dec_digits_exec(n: usize) -> (r: Vec<char>)
    ensures
        r@ == dec_digits(n as int),
    decreases n,
{
    let d = n % 10;
    let c = digit_char(d);
    if n < 10 {
        let mut v: Vec<char> = Vec::new();
        v.push(c);
        proof {
            assert(v@ =~= seq![digit_char_spec(n as int)]);
        }
        v
    } else {
        let mut v = dec_digits_exec(n / 10);
        v.push(c);
        v
    }
}

/// Renders one span.
pub fn convert_word(word: &Word) -> (r: String)
    ensures
        r@ == word_html(word_view(*word)),
    decreases *word,
{
    match word {
        Word::Normal(val) => val.clone(),
        Word::Italic(ws) => {
            let mut s = String::new();
            s.append("<i>");
            let inner = convert_words(ws);
            s.append(inner.as_str());
            s.append("</i>");
            s
        },
        Word::Bold(ws) => {
            let mut s = String::new();
            s.append("<b>");
            let inner = convert_words(ws);
            s.append(inner.as_str());
            s.append("</b>");
            s
        },
        Word::StrikeThough(ws) => {
            let mut s = String::new();
            s.append("<s>");
            let inner = convert_words(ws);
            s.append(inner.as_str());
            s.append("</s>");
            s
        },
        Word::Underline(ws) => {
            let mut s = String::new();
            s.append("<u>");
            let inner = convert_words(ws);
            s.append(inner.as_str());
            s.append("</u>");
            s
        },
    }
}

/// Renders a run of spans in order.
pub fn convert_words(words: &Vec<Word>) -> (r: String)
    ensures
        r@ == words_html(word_seq_view(words@)),
    decreases *words,
{
    let ghost full = word_seq_view(words@);
    proof {
        crate::ast::lemma_word_seq_view(words@);
        assert(full.skip(0) =~= full);
    }
    let mut html = String::new();
    let mut i: usize = 0;
    while i < words.len()
        invariant
            0 <= i <= words@.len(),
            full == word_seq_view(words@),
            full.len() == words@.len(),
            forall|k: int| 0 <= k < words@.len() ==> full[k] == word_view(words@[k]),
            html@ + words_html(full.skip(i as int)) == words_html(full),
        decreases words@.len() - i,
    {
        let w = convert_word(&words[i]);
        html.append(w.as_str());
        proof {
            assert(full.skip(i as int)[0] == full[i as int]);
            assert(full.skip(i as int).drop_first() =~= full.skip(i as int + 1));
        }
        i += 1;
    }
    proof {
        assert(full.skip(words@.len() as int) =~= Seq::<WordView>::empty());
        assert(html@ + Seq::<char>::empty() =~= html@);
    }
    html
}

/// Renders a row's cells, each wrapped in the given tag.
pub fn convert_cells(record: &Record, tag: &str) -> (r: String)
    ensures
        r@ == cells_html(record_view(*record), tag@),
{
    let ghost full = record_view(*record);
    proof {
        assert(full.skip(0) =~= full);
    }
    let mut html = String::new();
    let mut i: usize = 0;
    while i < record.0.len()
        invariant
            0 <= i <= record.0@.len(),
            full == record_view(*record),
            html@ + cells_html(full.skip(i as int), tag@) == cells_html(full, tag@),
        decreases record.0@.len() - i,
    {
        html.append("<");
        html.append(tag);
        html.append(">");
        let w = convert_words(&record.0[i].0);
        html.append(w.as_str());
        html.append("</");
        html.append(tag);
        html.append(">");
        proof {
            assert(full.skip(i as int)[0] == full[i as int]);
            assert(full[i as int] == words_view(record.0@[i as int]));
            assert(full.skip(i as int).drop_first() =~= full.skip(i as int + 1));
        }
        i += 1;
    }
    proof {
        assert(full.skip(record.0@.len() as int) =~= Seq::<Seq<WordView>>::empty());
        assert(html@ + Seq::<char>::empty() =~= html@);
    }
    html
}

/// Renders the header row: one `<th>` per cell.
pub fn convert_header(record: &Record) -> (r: String)
    ensures
        r@ == cells_html(record_view(*record), "th"@),
{
    convert_cells(record, "th")
}

/// The attribute value of an alignment.
fn align_name(align: &Align) -> (r: &'static str)
    ensures
        r@ == align_attr(*align),
{
    match align {
        Align::Right => "right",
        Align::Center => "center",
        Align::Left => "left",
    }
}

/// Renders one body row: each cell becomes a `<td>` with its column's
/// alignment; pairing stops at the shorter of cells and alignments.
pub fn convert_record(record: &Record, aligns: &Vec<Align>) -> (r: String)
    ensures
        r@ == record_html(record_view(*record), aligns@),
{
    let ghost full = record_view(*record);
    let ghost av = aligns@;
    proof {
        assert(full.skip(0) =~= full);
        assert(av.skip(0) =~= av);
    }
    let mut html = String::new();
    let mut i: usize = 0;
    while i < record.0.len() && i < aligns.len()
        invariant
            0 <= i <= record.0@.len(),
            0 <= i <= av.len(),
            full == record_view(*record),
            av == aligns@,
            html@ + record_html(full.skip(i as int), av.skip(i as int)) == record_html(full, av),
        decreases record.0@.len() - i,
    {
        html.append("<td align=\"");
        let a = align_name(&aligns[i]);
        html.append(a);
        html.append("\">");
        let w = convert_words(&record.0[i].0);
        html.append(w.as_str());
        html.append("</td>");
        proof {
            assert(full.skip(i as int)[0] == full[i as int]);
            assert(av.skip(i as int)[0] == av[i as int]);
            assert(full[i as int] == words_view(record.0@[i as int]));
            assert(full.skip(i as int).drop_first() =~= full.skip(i as int + 1));
            assert(av.skip(i as int).drop_first() =~= av.skip(i as int + 1));
        }
        i += 1;
    }
    proof {
        if i < record.0@.len() {
            assert(av.skip(i as int).len() == 0);
        } else {
            assert(full.skip(i as int).len() == 0);
        }
        assert(record_html(full.skip(i as int), av.skip(i as int)) =~= Seq::<char>::empty());
        assert(html@ + Seq::<char>::empty() =~= html@);
    }
    html
}

/// Renders the body rows: one `<tr>` per row, each followed by a newline.
pub fn convert_records(records: &Vec<Record>, aligns: &Vec<Align>) -> (r: String)
    ensures
        r@ == records_html(record_seq_view(records@), aligns@),
{
    let ghost full = record_seq_view(records@);
    proof {
        assert(full.skip(0) =~= full);
    }
    let mut html = String::new();
    let mut i: usize = 0;
    while i < records.len()
        invariant
            0 <= i <= records@.len(),
            full == record_seq_view(records@),
            full.len() == records@.len(),
            aligns@ == aligns@,
            html@ + records_html(full.skip(i as int), aligns@) == records_html(full, aligns@),
        decreases records@.len() - i,
    {
        html.append("<tr>");
        let w = convert_record(&records[i], aligns);
        html.append(w.as_str());
        html.append("</tr>\n");
        proof {
            assert(full.skip(i as int)[0] == full[i as int]);
            assert(full[i as int] == record_view(records@[i as int]));
            assert(full.skip(i as int).drop_first() =~= full.skip(i as int + 1));
        }
        i += 1;
    }
    proof {
        assert(full.skip(records@.len() as int) =~= Seq::<Seq<Seq<WordView>>>::empty());
        assert(html@ + Seq::<char>::empty() =~= html@);
    }
    html
}

/// Renders a whole table: `<table>`, the header row of `<th>` cells, one
/// `<tr>` per body row, `</table>`.
pub fn convert_table(table: Box<Table>) -> (r: String)
    ensures
        r@ == table_html(table_view(*table)),
{
    let header = convert_header(&table.header);
    let records = convert_records(&table.records, &table.align);
    let mut html = String::new();
    html.append("<table>\n");
    html.append("<tr>");
    html.append(header.as_str());
    html.append("</tr>");
    html.append("\n");
    html.append(records.as_str());
    html.append("</table>\n");
    html
}

/// Renders one document node.  Only headings and sentences have a rendering
/// rule; another variant reaching the renderer signals that the tree and the
/// renderer have drifted, so such nodes are left out by contract.
pub fn to_html(md: Md) -> (r: String)
    requires
        md matches Md::Heading(..) || md matches Md::Sentence(..),
    ensures
        r@ == md_html(md_view(md)),
{
    match md {
        Md::Heading(size, words) => {
            let digits = dec_digits_exec(size);
            let ds = chars_to_string(digits.as_slice());
            let inner = convert_words(&words);
            let mut s = String::new();
            s.append("<h");
            s.append(ds.as_str());
            s.append(">");
            s.append(inner.as_str());
            s.append("</h");
            s.append(ds.as_str());
            s.append(">");
            s
        },
        Md::Sentence(words) => convert_words(&words),
        Md::Table(t) => String::new(),
        Md::List(items) => String::new(),
    }
}

} // verus!
