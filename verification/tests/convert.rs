use mdparse::render::convert_header;
use mdparse::render::convert_record;
use mdparse::render::convert_records;
use mdparse::render::convert_table;
use mdparse::render::convert_word;
use mdparse::render::convert_words;
use mdparse::render::to_html;
use mdparse::Align;
use mdparse::Md;
use mdparse::Record;
use mdparse::Table;
use mdparse::Word;
use mdparse::Words;

#[test]
fn test_to_html() {
    let words = vec![Word::Normal("Hello".to_string())];
    let md = Md::Heading(1, words);
    assert_eq!(to_html(md), "<h1>Hello</h1>".to_string());

    let words = vec![Word::Normal("Hello".to_string())];
    let md = Md::Sentence(words);
    assert_eq!(to_html(md), "Hello".to_string());
}

#[test]
fn test_word() {
    let word = Word::Normal("Hello".to_string());
    assert_eq!(convert_word(&word), "Hello".to_string());

    let word = Word::Normal("Hello".to_string());
    let italic = Word::Italic(vec![word]);
    assert_eq!(convert_word(&italic), "<i>Hello</i>".to_string());

    let word = Word::Normal("Hello".to_string());
    let bold = Word::Bold(vec![word]);
    assert_eq!(convert_word(&bold), "<b>Hello</b>".to_string());

    let word = Word::Normal("Hello".to_string());
    let strike = Word::StrikeThough(vec![word]);
    assert_eq!(convert_word(&strike), "<s>Hello</s>".to_string());

    let word = Word::Normal("Hello".to_string());
    let line = Word::Underline(vec![word]);
    assert_eq!(convert_word(&line), "<u>Hello</u>".to_string());
}

#[test]
fn test_words_to_html() {
    let word = Word::Normal("Hello".to_string());
    let word1 = Word::Normal("World!".to_string());
    let bold = Word::Bold(vec![word1]);
    let words = vec![word, bold];
    assert_eq!(convert_words(&words), "Hello<b>World!</b>".to_string());
}

#[test]
fn test_header_to_html() {
    let hello = Words(vec![Word::Normal("hello".to_string())]);
    let world = Words(vec![Word::Normal("world".to_string())]);
    let header = Record(vec![hello, world]);
    assert_eq!(convert_header(&header), "<th>hello</th><th>world</th>".to_string());
}

#[test]
fn test_record_to_html() {
    let hello = Words(vec![Word::Normal("hello".to_string())]);
    let world = Words(vec![Word::Normal("world".to_string())]);
    let record = Record(vec![hello, world]);
    let align = vec![Align::Left, Align::Left];
    assert_eq!(
        convert_record(&record, &align),
        "<td align=\"left\">hello</td><td align=\"left\">world</td>".to_string()
    );

    let hello = Words(vec![Word::Normal("hello".to_string())]);
    let world = Words(vec![Word::Normal("world".to_string())]);
    let record = Record(vec![hello, world]);
    let align = vec![Align::Center, Align::Right];
    assert_eq!(
        convert_record(&record, &align),
        "<td align=\"center\">hello</td><td align=\"right\">world</td>".to_string()
    );
}

#[test]
fn test_records_to_html() {
    let hello = Words(vec![Word::Normal("hello".to_string())]);
    let record0 = Record(vec![hello]);
    let world = Words(vec![Word::Normal("world".to_string())]);
    let record1 = Record(vec![world]);
    let records = vec![record0, record1];
    let aligns = vec![Align::Left];
    assert_eq!(
        convert_records(&records, &aligns),
        "<tr><td align=\"left\">hello</td></tr>\n<tr><td align=\"left\">world</td></tr>\n"
            .to_string()
    );
}

#[test]
fn test_table_to_html() {
    let hello = Words(vec![Word::Normal("hello".to_string())]);
    let header = Record(vec![hello]);
    let world = Words(vec![Word::Normal("world".to_string())]);
    let record = Record(vec![world]);
    let records = vec![record];
    let aligns = vec![Align::Left];
    let table = Box::new(Table { header, align: aligns, records });
    assert_eq!(
        convert_table(table),
        "<table>\n<tr><th>hello</th></tr>\n<tr><td align=\"left\">world</td></tr>\n</table>\n"
            .to_string()
    );
}
