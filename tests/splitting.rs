use split_preserve::{SplitPreserveWS, Token};

fn all_tokens(s: &str) -> Vec<Token<'_>> {
    SplitPreserveWS::new(s).tokens()
}

fn joined(tokens: &[Token<'_>]) -> String {
    let mut out = String::new();
    for t in tokens {
        match t {
            Token::Whitespace(s) | Token::Other(s) => out.push_str(s),
        }
    }
    out
}

fn is_ws_token(t: &Token<'_>) -> bool {
    matches!(t, Token::Whitespace(_))
}

#[test]
fn trailing_whitespace_gives_two_segments() {
    assert_eq!(
        all_tokens("aa  "),
        vec![Token::Other("aa"), Token::Whitespace("  ")]
    );
}

#[test]
fn first_next_of_aa_is_other() {
    assert_eq!(SplitPreserveWS::new("aa  ").next(), Some(Token::Other("aa")));
}

#[test]
fn empty_input_gives_no_segments() {
    assert!(all_tokens("").is_empty());
    let mut sp = SplitPreserveWS::new("");
    assert_eq!(sp.next(), None);
    assert_eq!(sp.next(), None);
}

#[test]
fn all_whitespace_is_one_segment() {
    assert_eq!(all_tokens("   "), vec![Token::Whitespace("   ")]);
}

#[test]
fn single_word_is_one_segment() {
    assert_eq!(all_tokens("word"), vec![Token::Other("word")]);
}

#[test]
fn next_walks_the_runs_then_stops() {
    let mut sp = SplitPreserveWS::new(" a\tb ");
    assert_eq!(sp.next(), Some(Token::Whitespace(" ")));
    assert_eq!(sp.next(), Some(Token::Other("a")));
    assert_eq!(sp.next(), Some(Token::Whitespace("\t")));
    assert_eq!(sp.next(), Some(Token::Other("b")));
    assert_eq!(sp.next(), Some(Token::Whitespace(" ")));
    assert_eq!(sp.next(), None);
    assert_eq!(sp.next(), None);
}

#[test]
fn mixed_whitespace_kinds_form_one_run() {
    assert_eq!(
        all_tokens("x \t\r\n y"),
        vec![
            Token::Other("x"),
            Token::Whitespace(" \t\r\n "),
            Token::Other("y")
        ]
    );
}

#[test]
fn unicode_whitespace_is_recognised() {
    assert_eq!(
        all_tokens("a\u{3000}b\u{a0}c\u{2028}"),
        vec![
            Token::Other("a"),
            Token::Whitespace("\u{3000}"),
            Token::Other("b"),
            Token::Whitespace("\u{a0}"),
            Token::Other("c"),
            Token::Whitespace("\u{2028}")
        ]
    );
}

#[test]
fn multibyte_characters_are_not_split() {
    assert_eq!(
        all_tokens("héllo wörld ✓"),
        vec![
            Token::Other("héllo"),
            Token::Whitespace(" "),
            Token::Other("wörld"),
            Token::Whitespace(" "),
            Token::Other("✓")
        ]
    );
}

#[test]
fn non_whitespace_control_and_zero_width_are_other() {
    assert_eq!(all_tokens("a\u{200b}\u{0}b"), vec![Token::Other("a\u{200b}\u{0}b")]);
}

#[test]
fn round_trip_reconstructs_input() {
    for s in ["", "a", " ", "  lead", "trail  ", "a b  c\t\td\n", "Line\twith\nweird whitespace", "ü \u{3000} ß"] {
        assert_eq!(joined(&all_tokens(s)), s);
    }
}

#[test]
fn classes_alternate() {
    for s in ["a b  c\t\td\n", "  x y ", "Line\twith\nweird whitespace"] {
        let ts = all_tokens(s);
        for w in ts.windows(2) {
            assert_ne!(is_ws_token(&w[0]), is_ws_token(&w[1]));
        }
    }
}

#[test]
fn segments_are_maximal() {
    let s = "ab  cd\te ";
    let ts = all_tokens(s);
    let mut pos = 0;
    for t in &ts {
        let text = match t {
            Token::Whitespace(x) | Token::Other(x) => *x,
        };
        assert!(!text.is_empty());
        assert!(text.chars().all(|c| c.is_whitespace() == is_ws_token(t)));
        pos += text.len();
        if let Some(c) = s[pos..].chars().next() {
            assert_ne!(c.is_whitespace(), is_ws_token(t));
        }
    }
    assert_eq!(pos, s.len());
}

#[test]
fn every_white_space_character_joins_one_run() {
    let ws = "\u{9}\u{a}\u{b}\u{c}\u{d}\u{20}\u{85}\u{a0}\u{1680}\u{2000}\u{2001}\u{2002}\u{2003}\u{2004}\u{2005}\u{2006}\u{2007}\u{2008}\u{2009}\u{200a}\u{2028}\u{2029}\u{202f}\u{205f}\u{3000}";
    assert_eq!(all_tokens(ws), vec![Token::Whitespace(ws)]);
}

#[test]
fn near_miss_characters_are_other() {
    let s = "\u{180e}\u{200b}\u{feff}\u{8}\u{e}";
    assert_eq!(all_tokens(s), vec![Token::Other(s)]);
}
