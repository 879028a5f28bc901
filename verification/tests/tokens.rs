use calculator::tokens::generate_tokens;

fn toks(line: &str) -> Vec<String> {
    generate_tokens(&line.to_string())
}

#[test]
fn splits_words_and_symbols() {
    assert_eq!(toks("1 + 2*3"), vec!["1", "+", "2", "*", "3"]);
}

#[test]
fn grouping_markers_stand_alone() {
    assert_eq!(toks("(a+b)"), vec!["(", "a", "+", "b", ")"]);
    assert_eq!(toks("[1,2]"), vec!["[", "1", ",", "2", "]"]);
    assert_eq!(toks("{x}"), vec!["{", "x", "}"]);
}

#[test]
fn symbol_runs_stay_together() {
    assert_eq!(toks("x=>y"), vec!["x", "=>", "y"]);
    assert_eq!(toks("a // b"), vec!["a", "//", "b"]);
}

#[test]
fn decimal_point_belongs_to_word_runs() {
    assert_eq!(toks(".5+2"), vec![".5", "+", "2"]);
    assert_eq!(toks("ab2.c"), vec!["ab2.c"]);
}

#[test]
fn whitespace_is_dropped() {
    assert_eq!(toks("  1   +\t2  "), vec!["1", "+", "2"]);
    assert_eq!(toks(""), Vec::<String>::new());
    assert_eq!(toks("   "), Vec::<String>::new());
}
