use mdparse::table::align;
use mdparse::table::header;
use mdparse::table::records;
use mdparse::table::table;
use mdparse::Align;
use mdparse::Md;
use mdparse::ParsedResult;
use mdparse::Record;
use mdparse::Table;
use mdparse::Word;
use mdparse::Words;

fn chars(s: &str) -> Vec<char> {
    s.chars().collect()
}

#[test]
fn test_header() {
    let a = Words(vec![Word::Normal("A".to_string())]);
    let b = Words(vec![Word::Normal("B".to_string())]);
    let c = Words(vec![Word::Normal("C".to_string())]);
    let token = Record(vec![a, b, c]);
    let rest: &[char] = &[];
    let input = chars("| A | B | C | \n");
    assert_eq!(header(&input), Some(ParsedResult { token, rest }));

    let nul = Words(vec![Word::Normal("".to_string())]);
    let b = Words(vec![Word::Normal("B".to_string())]);
    let c = Words(vec![Word::Normal("C".to_string())]);
    let token = Record(vec![nul, b, c]);
    let rest: &[char] = &[];
    let input = chars("|  | B | C |\n");
    assert_eq!(header(&input), Some(ParsedResult { token, rest }));

    let input = chars("| A | B | C \n");
    assert_eq!(header(&input), None);
}

#[test]
fn test_align() {
    let token = vec![Align::Right, Align::Center, Align::Left, Align::Left];
    let rest: &[char] = &[];
    let input = chars("| -: | :-: | :- | --- |\n");
    assert_eq!(align(&input, 4), Some(ParsedResult { token, rest }));

    let input = chars("| -: | :-b: | :- | - |\n");
    assert_eq!(align(&input, 4), None);

    let input = chars("|  | :-: | :- | - |\n");
    assert_eq!(align(&input, 4), None);
}

#[test]
fn test_records() {
    let a = Words(vec![Word::Normal("A".to_string())]);
    let b = Words(vec![Word::Normal("B".to_string())]);
    let c = Words(vec![Word::Normal("C".to_string())]);
    let record0 = Record(vec![a, b, c]);
    let a = Words(vec![Word::Normal("a".to_string())]);
    let b = Words(vec![Word::Normal("b".to_string())]);
    let c = Words(vec![Word::Normal("c".to_string())]);
    let record1 = Record(vec![a, b, c]);
    let j = Words(vec![Word::Normal("j".to_string())]);
    let k = Words(vec![Word::Normal("k".to_string())]);
    let l = Words(vec![Word::Normal("l".to_string())]);
    let record2 = Record(vec![j, k, l]);
    let token = vec![record0, record1, record2];
    let rest: &[char] = &[];
    let input = chars("| A | B | C |\n| a | b | c |\n| j | k | l |\n");
    assert_eq!(records(&input, 3), Some(ParsedResult { token, rest }));
}

#[test]
fn table_test_table() {
    let a = Words(vec![Word::Normal("A".to_string())]);
    let b = Words(vec![Word::Normal("B".to_string())]);
    let c = Words(vec![Word::Normal("C".to_string())]);
    let header = Record(vec![a, b, c]);
    let align = vec![Align::Right, Align::Left, Align::Center];

    let a = Words(vec![Word::Normal("a".to_string())]);
    let b = Words(vec![Word::Normal("b".to_string())]);
    let c = Words(vec![Word::Normal("c".to_string())]);
    let record0 = Record(vec![a, b, c]);
    let j = Words(vec![Word::Normal("j".to_string())]);
    let k = Words(vec![Word::Normal("k".to_string())]);
    let l = Words(vec![Word::Normal("l".to_string())]);
    let record1 = Record(vec![j, k, l]);
    let records = vec![record0, record1];

    let token = Md::Table(Box::new(Table { header, align, records }));
    let rest: &[char] = &[];
    let input = chars("| A | B | C | \n|-:|--|:-:|\n| a | b | c |\n| j | k | l |\n");
    assert_eq!(table(&input), Some(ParsedResult { token, rest }));
}
