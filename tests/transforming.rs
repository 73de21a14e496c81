use split_preserve::SplitPreserveWS;

#[test]
fn map_words_reverses_each_word() {
    let out = SplitPreserveWS::new("Line\twith\nweird whitespace")
        .map_words(|f| f.chars().rev().collect::<String>())
        .concat();
    assert_eq!(out, "eniL\thtiw\ndriew ecapsetihw");
}

#[test]
fn map_whitespace_collapses_runs() {
    let out = SplitPreserveWS::new("Line\twith\nweird whitespace")
        .map_whitespace(|_| String::from(" "))
        .concat();
    assert_eq!(out, "Line with weird whitespace");
}

#[test]
fn identity_map_words_reproduces_input() {
    for s in ["", "  a  bb\tccc\n", "Line\twith\nweird whitespace", "ü\u{3000}ß"] {
        assert_eq!(SplitPreserveWS::new(s).map_words(|w| w.to_string()).concat(), s);
    }
}

#[test]
fn identity_map_whitespace_reproduces_input() {
    for s in ["", "  a  bb\tccc\n", "Line\twith\nweird whitespace", "ü\u{3000}ß"] {
        assert_eq!(SplitPreserveWS::new(s).map_whitespace(|w| w.to_string()).concat(), s);
    }
}

#[test]
fn map_words_leaves_whitespace_alone() {
    let out = SplitPreserveWS::new(" ab\t\tc ").map_words(|_| String::from("XYZ"));
    assert_eq!(out, vec![" ", "XYZ", "\t\t", "XYZ", " "]);
}

#[test]
fn map_whitespace_leaves_words_alone() {
    let out = SplitPreserveWS::new(" ab\t\tc ").map_whitespace(|w| w.to_uppercase() + "|");
    assert_eq!(out, vec![" |", "ab", "\t\t|", "c", " |"]);
}

#[test]
fn map_words_may_change_lengths() {
    let out = SplitPreserveWS::new("a bb").map_words(|w| w.repeat(2)).concat();
    assert_eq!(out, "aa bbbb");
}

#[test]
fn transformers_on_empty_input_give_nothing() {
    assert!(SplitPreserveWS::new("").map_words(|w| w.to_string()).is_empty());
    assert!(SplitPreserveWS::new("").map_whitespace(|w| w.to_string()).is_empty());
}
