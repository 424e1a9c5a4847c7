use mdparse::cursor::consume;
use mdparse::cursor::space;
use mdparse::inline::words;
use mdparse::render::convert_table;
use mdparse::render::to_html;
use mdparse::segment::parse;
use mdparse::table::align_parse;
use mdparse::table::table;
use mdparse::Align;
use mdparse::Md;
use mdparse::Record;
use mdparse::Table;
use mdparse::Word;
use mdparse::Words;

fn chars(s: &str) -> Vec<char> {
    s.chars().collect()
}

#[test]
fn plain_text_single_span() {
    let input = chars("Hello World!");
    assert_eq!(words(&input), vec![Word::Normal("Hello World!".to_string())]);

    let empty = chars("");
    assert_eq!(words(&empty), vec![Word::Normal("".to_string())]);
}

#[test]
fn nesting_keeps_outer_delimiter() {
    let bold_outer = parse("**__X__**");
    let expected = Md::Sentence(vec![Word::Bold(vec![Word::Underline(vec![Word::Normal(
        "X".to_string(),
    )])])]);
    assert_eq!(bold_outer, vec![expected]);

    let underline_outer = parse("__**X**__");
    let expected = Md::Sentence(vec![Word::Underline(vec![Word::Bold(vec![Word::Normal(
        "X".to_string(),
    )])])]);
    assert_eq!(underline_outer, vec![expected]);
}

#[test]
fn unclosed_delimiter_is_literal_text() {
    let parsed = parse("**X");
    let expected = Md::Sentence(vec![Word::Normal("**X".to_string())]);
    assert_eq!(parsed, vec![expected]);
}

#[test]
fn alignment_token_table() {
    assert_eq!(align_parse(&chars("---")), Some(Align::Left));
    assert_eq!(align_parse(&chars("---:")), Some(Align::Right));
    assert_eq!(align_parse(&chars(":---")), Some(Align::Left));
    assert_eq!(align_parse(&chars(":---:")), Some(Align::Center));
    assert_eq!(align_parse(&chars(":-b:")), None);
    assert_eq!(align_parse(&chars(":")), None);
    assert_eq!(align_parse(&chars("")), None);
}

#[test]
fn body_row_early_stop() {
    let input = chars("| A | B | C |\n|-|-|-|\n| a | b | c |\n| d | e | f |\n| x | y |\n");
    let result = table(&input).expect("table should parse");
    match result.token {
        Md::Table(t) => {
            assert_eq!(t.records.len(), 2);
            assert_eq!(t.header.0.len(), 3);
            assert_eq!(t.align.len(), 3);
            for record in &t.records {
                assert_eq!(record.0.len(), 3);
            }
        }
        _ => panic!("expected a table"),
    }
    let remaining: String = result.rest.iter().collect();
    assert_eq!(remaining, "| x | y |\n");
}

#[test]
fn segmenter_round_trip() {
    let parsed = parse("# Hello World!\nplain line\n**bold**");
    let heading = Md::Heading(1, vec![Word::Normal("Hello World!".to_string())]);
    let sentence = Md::Sentence(vec![Word::Normal("plain line".to_string())]);
    let bold = Md::Sentence(vec![Word::Bold(vec![Word::Normal("bold".to_string())])]);
    assert_eq!(parsed, vec![heading, sentence, bold]);
}

#[test]
fn table_rendering_scenario() {
    let header = Record(vec![
        Words(vec![Word::Normal("A".to_string())]),
        Words(vec![Word::Normal("B".to_string())]),
    ]);
    let align = vec![Align::Right, Align::Center];
    let row = Record(vec![
        Words(vec![Word::Normal("a".to_string())]),
        Words(vec![Word::Normal("b".to_string())]),
    ]);
    let table = Box::new(Table { header, align, records: vec![row] });
    assert_eq!(
        convert_table(table),
        "<table>\n<tr><th>A</th><th>B</th></tr>\n<tr><td align=\"right\">a</td><td align=\"center\">b</td></tr>\n</table>\n"
    );
}

#[test]
fn rendering_is_idempotent() {
    let make = || Md::Heading(2, vec![Word::Bold(vec![Word::Normal("same".to_string())])]);
    let first = to_html(make());
    let second = to_html(make());
    assert_eq!(first, second);
    assert_eq!(first, "<h2><b>same</b></h2>");
}

#[test]
fn heading_level_digits() {
    let md = Md::Heading(12, vec![Word::Normal("deep".to_string())]);
    assert_eq!(to_html(md), "<h12>deep</h12>");
}

#[test]
fn consume_and_space() {
    let text = chars("abc");
    let pat = chars("ab");
    let rest = consume(&text, &pat).expect("prefix should match");
    assert_eq!(rest, &['c']);

    let pat = chars("b");
    assert_eq!(consume(&text, &pat), None);

    let text = chars("  x");
    let rest = space(&text).expect("leading space");
    assert_eq!(rest, &['x']);

    let text = chars("x");
    assert_eq!(space(&text), None);
}

#[test]
fn table_needs_body_row() {
    let input = chars("| A |\n|-|\n");
    assert_eq!(table(&input), None);
}

#[test]
fn table_align_count_must_match() {
    let input = chars("| A | B | C |\n|-|-|\n| a | b | c |\n");
    assert_eq!(table(&input), None);
}
