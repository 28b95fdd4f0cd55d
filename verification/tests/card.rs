use coach::card::{is_answer_for_card, make_card, parse_card, parse_new_card, Card};

fn card(query: &str, answers: &[&str]) -> Card {
    make_card(
        String::from(query),
        answers.iter().map(|a| String::from(*a)).collect(),
    )
}

fn strings(items: &[&str]) -> Vec<String> {
    items.iter().map(|s| String::from(*s)).collect()
}

#[test]
fn parse_reads_query_and_answers() {
    let (query, answers) = parse_new_card("cat, gato, felino").unwrap();
    assert_eq!(query, "cat");
    assert_eq!(answers, strings(&["gato", "felino"]));
}

#[test]
fn parse_card_keeps_query_and_answers() {
    let card = parse_card("cat, gato, felino").unwrap();
    assert_eq!(card.query(), "cat");
    assert_eq!(card.answers(), &strings(&["gato", "felino"]));
}

#[test]
fn render_gives_the_line_back() {
    let card = parse_card("cat, gato, felino").unwrap();
    assert_eq!(card.render(), "cat, gato, felino");
}

#[test]
fn render_of_one_answer() {
    assert_eq!(card("dog", &["perro"]).render(), "dog, perro");
}

#[test]
fn render_normalises_the_white_space() {
    let card = parse_card("  cat ,gato  ,\tfelino\n").unwrap();
    assert_eq!(card.render(), "cat, gato, felino");
}

#[test]
fn render_then_parse_gives_the_card_back() {
    let card = card("to run", &["correr", "echar a correr"]);
    let again = parse_card(&card.render()).unwrap();
    assert_eq!(again.query(), card.query());
    assert_eq!(again.answers(), card.answers());
}

#[test]
fn embedded_commas_do_not_survive() {
    let card = card("a,b", &["c"]);
    assert_eq!(card.render(), "a,b, c");
    let again = parse_card(&card.render()).unwrap();
    assert_eq!(again.query(), "a");
    assert_eq!(again.answers(), &strings(&["b", "c"]));
}

#[test]
fn answers_text_joins_with_comma_and_space() {
    assert_eq!(card("cat", &["gato", "felino"]).answers_text(), "gato, felino");
    assert_eq!(card("cat", &["gato"]).answers_text(), "gato");
}

#[test]
fn parse_rejects_a_line_without_answers() {
    assert!(parse_new_card("onlyquery").is_none());
    assert!(parse_card("onlyquery").is_none());
}

#[test]
fn parse_rejects_an_empty_line() {
    assert!(parse_new_card("").is_none());
    assert!(parse_new_card("   ").is_none());
}

#[test]
fn trailing_comma_gives_an_empty_answer() {
    let (query, answers) = parse_new_card("cat,").unwrap();
    assert_eq!(query, "cat");
    assert_eq!(answers, strings(&[""]));
}

#[test]
fn empty_query_is_accepted() {
    let (query, answers) = parse_new_card(", gato").unwrap();
    assert_eq!(query, "");
    assert_eq!(answers, strings(&["gato"]));
    let (query, answers) = parse_new_card(",").unwrap();
    assert_eq!(query, "");
    assert_eq!(answers, strings(&[""]));
}

#[test]
fn empty_fields_in_the_middle_are_kept() {
    let (query, answers) = parse_new_card("a,, b , ,c").unwrap();
    assert_eq!(query, "a");
    assert_eq!(answers, strings(&["", "b", "", "c"]));
}

#[test]
fn parse_keeps_inner_white_space() {
    let (query, answers) = parse_new_card(" good  morning ,  buenos   dias ").unwrap();
    assert_eq!(query, "good  morning");
    assert_eq!(answers, strings(&["buenos   dias"]));
}

#[test]
fn parse_handles_characters_beyond_ascii() {
    let (query, answers) = parse_new_card("\u{a0}ma\u{f1}ana\u{3000}, \u{2003}ma\u{f1}ana\u{2028}").unwrap();
    assert_eq!(query, "ma\u{f1}ana");
    assert_eq!(answers, strings(&["ma\u{f1}ana"]));
}

#[test]
fn parse_agrees_with_split_and_trim() {
    let lines = [
        "cat, gato, felino",
        "onlyquery",
        "",
        ",",
        ",,",
        " , ",
        "a,b",
        " a , b , c ",
        "x,\ty\r\n",
        "\u{1680}q\u{205f},\u{202f}a\u{85}",
        "tr\u{e8}s bien, very good ,  very well",
        "no answers here ",
        "a, b,",
    ];
    for line in lines.iter() {
        let mut terms = line.split(',');
        let query = String::from(terms.next().unwrap().trim());
        let answers: Vec<String> = terms.map(|x| String::from(x.trim())).collect();
        let expected = if answers.is_empty() { None } else { Some((query, answers)) };
        assert_eq!(parse_new_card(line), expected);
    }
}

#[test]
fn answers_match_whatever_the_case() {
    let paris = card("capital of France", &["Paris"]);
    assert!(is_answer_for_card("PARIS", &paris));
    assert!(is_answer_for_card("paris", &paris));
    assert!(is_answer_for_card("Paris", &paris));
    assert!(!is_answer_for_card("Pari", &paris));
    assert!(!is_answer_for_card("Pariss", &paris));
    assert!(!is_answer_for_card("", &paris));
}

#[test]
fn any_of_the_answers_matches() {
    let cat = card("cat", &["gato", "felino", "minino"]);
    assert!(is_answer_for_card("gato", &cat));
    assert!(is_answer_for_card("FELINO", &cat));
    assert!(is_answer_for_card("Minino", &cat));
    assert!(!is_answer_for_card("perro", &cat));
    assert!(!is_answer_for_card("gato, felino", &cat));
}

#[test]
fn matching_does_not_trim() {
    let cat = card("cat", &["gato"]);
    assert!(!is_answer_for_card(" gato", &cat));
    assert!(!is_answer_for_card("gato ", &cat));
}

#[test]
fn only_ascii_letters_are_folded() {
    let card = card("morning", &["ma\u{f1}ana", "\u{c9}t\u{e9}"]);
    assert!(is_answer_for_card("MA\u{f1}ANA", &card));
    assert!(!is_answer_for_card("MA\u{d1}ANA", &card));
    assert!(is_answer_for_card("\u{c9}T\u{e9}", &card));
    assert!(!is_answer_for_card("\u{e9}t\u{e9}", &card));
}

#[test]
fn an_empty_answer_matches_an_empty_input() {
    let card = parse_card("cat,").unwrap();
    assert!(is_answer_for_card("", &card));
    assert!(!is_answer_for_card("cat", &card));
}
