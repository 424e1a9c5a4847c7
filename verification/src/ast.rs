//! The abstract syntax tree shared by the grammars and the renderer, together
//! with its mathematical model (the `*View` types) used by every contract.

use vstd::prelude::*;

verus! {

/// One inline span: a run of plain text, or an emphasis span that owns a
/// sequence of nested spans.
#[derive(Debug, PartialEq)]
pub enum Word {
    Normal(String),
    Italic(Vec<Word>),
    Bold(Vec<Word>),
    StrikeThough(Vec<Word>),
    Underline(Vec<Word>),
}

/// One top-level document construct.
#[derive(Debug, PartialEq)]
pub enum Md {
    Heading(usize, Vec<Word>),
    Sentence(Vec<Word>),
    Table(Box<Table>),
    List(Vec<List>),
}

/// A list item tree.  The data shape is kept for forward compatibility; no
/// grammar rule of this crate produces it.
#[derive(Debug, PartialEq)]
pub enum List {
    Item(Words),
    Items(Words, Vec<List>),
}

/// An ordered run of inline spans: the decoded content of one line or cell.
#[derive(Debug, PartialEq)]
pub struct Words(pub Vec<Word>);

/// One pipe-delimited row's decoded cells, in column order.
#[derive(Debug, PartialEq)]
pub struct Record(pub Vec<Words>);

/// A parsed table: header row, one alignment per column, and body rows.
#[derive(Debug, PartialEq)]
pub struct Table {
    pub header: Record,
    pub align: Vec<Align>,
    pub records: Vec<Record>,
}

/// Column text alignment, decoded from the colon/hyphen tokens of a table's
/// alignment row.
#[derive(Debug, PartialEq, Eq, Clone, Copy)]
pub enum Align {
    Right,
    Center,
    Left,
}

/// The uniform result of a successful grammar rule: the produced value and
/// the unconsumed remainder of the input.
#[derive(Debug, PartialEq, Clone)]
pub struct ParsedResult<'a, T> {
    pub token: T,
    pub rest: &'a [char],
}

impl<'a, T> ParsedResult<'a, T> {
    pub fn new(token: T, rest: &'a [char]) -> (r: ParsedResult<'a, T>)
        ensures
            r.token == token,
            r.rest == rest,
    {
        ParsedResult { token, rest }
    }
}

/// Model of a `Word`: text as `Seq<char>`, children as `Seq` of models.
pub enum WordView {
    Normal(Seq<char>),
    Italic(Seq<WordView>),
    Bold(Seq<WordView>),
    StrikeThough(Seq<WordView>),
    Underline(Seq<WordView>),
}

/// Model of a `Table`.
pub struct TableView {
    pub header: Seq<Seq<WordView>>,
    pub align: Seq<Align>,
    pub records: Seq<Seq<Seq<WordView>>>,
}

/// Model of a `List`.
pub enum ListView {
    Item(Seq<WordView>),
    Items(Seq<WordView>, Seq<ListView>),
}

/// Model of an `Md` node.
pub enum MdView {
    Heading(int, Seq<WordView>),
    Sentence(Seq<WordView>),
    Table(TableView),
    List(Seq<ListView>),
}

/// The model of one inline span.
pub open spec fn word_view(w: Word) -> WordView
    decreases w,
{
    match w {
        Word::Normal(s) => WordView::Normal(s@),
        Word::Italic(ws) => WordView::Italic(word_seq_view(ws@)),
        Word::Bold(ws) => WordView::Bold(word_seq_view(ws@)),
        Word::StrikeThough(ws) => WordView::StrikeThough(word_seq_view(ws@)),
        Word::Underline(ws) => WordView::Underline(word_seq_view(ws@)),
    }
}

/// The model of an ordered run of inline spans, element by element.
pub open spec fn word_seq_view(ws: Seq<Word>) -> Seq<WordView>
    decreases ws,
{
    if ws.len() == 0 {
        Seq::empty()
    } else {
        seq![word_view(ws[0])] + word_seq_view(ws.drop_first())
    }
}

/// The model of a cell run.
pub open spec fn words_view(ws: Words) -> Seq<WordView> {
    word_seq_view(ws.0@)
}

/// The model of a row: one span sequence per cell.
pub open spec fn record_view(r: Record) -> Seq<Seq<WordView>> {
    Seq::new(r.0@.len(), |i: int| words_view(r.0@[i]))
}

/// The model of a body-row sequence.
pub open spec fn record_seq_view(rs: Seq<Record>) -> Seq<Seq<Seq<WordView>>> {
    Seq::new(rs.len(), |i: int| record_view(rs[i]))
}

/// The model of a table.
pub open spec fn table_view(t: Table) -> TableView {
    TableView { header: record_view(t.header), align: t.align@, records: record_seq_view(t.records@) }
}

/// The model of a list item tree.
pub open spec fn list_view(l: List) -> ListView
    decreases l,
{
    match l {
        List::Item(ws) => ListView::Item(words_view(ws)),
        List::Items(ws, items) => ListView::Items(words_view(ws), list_seq_view(items@)),
    }
}

/// The model of a sequence of list items.
pub open spec fn list_seq_view(ls: Seq<List>) -> Seq<ListView>
    decreases ls,
{
    if ls.len() == 0 {
        Seq::empty()
    } else {
        seq![list_view(ls[0])] + list_seq_view(ls.drop_first())
    }
}

/// The model of one document node.
pub open spec fn md_view(m: Md) -> MdView {
    match m {
        Md::Heading(level, ws) => MdView::Heading(level as int, word_seq_view(ws@)),
        Md::Sentence(ws) => MdView::Sentence(word_seq_view(ws@)),
        Md::Table(t) => MdView::Table(table_view(*t)),
        Md::List(items) => MdView::List(list_seq_view(items@)),
    }
}

/// The model of a sequence of document nodes.
pub open spec fn md_seq_view(ms: Seq<Md>) -> Seq<MdView> {
    Seq::new(ms.len(), |i: int| md_view(ms[i]))
}

/// `word_seq_view` is the element-wise model: it keeps the length and models
/// each element in place.
pub proof fn lemma_word_seq_view(ws: Seq<Word>)
    ensures
        word_seq_view(ws).len() == ws.len(),
        forall|i: int| 0 <= i < ws.len() ==> word_seq_view(ws)[i] == word_view(ws[i]),
    decreases ws,
{
    if ws.len() > 0 {
        lemma_word_seq_view(ws.drop_first());
    }
}

/// Appending one span to a run appends its model to the run's model.
pub proof fn lemma_word_seq_view_push(ws: Seq<Word>, w: Word)
    ensures
        word_seq_view(ws.push(w)) == word_seq_view(ws).push(word_view(w)),
    decreases ws,
{
    if ws.len() == 0 {
        reveal_with_fuel(word_seq_view, 2);
        assert(ws.push(w).drop_first() =~= Seq::<Word>::empty());
        assert(word_seq_view(ws.push(w)) =~= word_seq_view(ws).push(word_view(w)));
    } else {
        let p = ws.push(w);
        lemma_word_seq_view_push(ws.drop_first(), w);
        assert(p[0] == ws[0]);
        assert(p.drop_first() =~= ws.drop_first().push(w));
        assert(word_seq_view(p) == seq![word_view(ws[0])] + word_seq_view(ws.drop_first()).push(
            word_view(w),
        ));
        assert(word_seq_view(p) =~= word_seq_view(ws).push(word_view(w)));
    }
}

/// Concatenating two runs concatenates their models.
pub proof fn lemma_word_seq_view_add(a: Seq<Word>, b: Seq<Word>)
    ensures
        word_seq_view(a + b) == word_seq_view(a) + word_seq_view(b),
    decreases b,
{
    if b.len() == 0 {
        assert(a + b =~= a);
        assert(word_seq_view(a) + word_seq_view(b) =~= word_seq_view(a));
    } else {
        lemma_word_seq_view_add(a.push(b[0]), b.drop_first());
        lemma_word_seq_view_push(a, b[0]);
        assert(a + b =~= a.push(b[0]) + b.drop_first());
        lemma_word_seq_view(a);
        lemma_word_seq_view(b);
        lemma_word_seq_view(a + b);
        assert(word_seq_view(a + b) =~= word_seq_view(a) + word_seq_view(b));
    }
}

} // verus!
