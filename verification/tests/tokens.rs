use sqldap::tokens::holds_shift_token;
use sqlparser::dialect::GenericDialect;
use sqlparser::tokenizer::{Token, Tokenizer};

fn tokenizer_meets_shift(text: &str) -> Option<bool> {
    match Tokenizer::new(&GenericDialect {}, text).tokenize() {
        Ok(tokens) => Some(
            tokens.iter().any(|token| matches!(token, Token::ShiftLeft | Token::ShiftRight)),
        ),
        Err(_) => None,
    }
}

fn agree(text: &str) {
    if let Some(met) = tokenizer_meets_shift(text) {
        assert_eq!(holds_shift_token(text), met, "{:?}", text);
    }
}

#[test]
fn shift_operators_outside_strings_are_tokens() {
    assert!(holds_shift_token("a << 1"));
    assert!(holds_shift_token("a>>1"));
    assert!(holds_shift_token("<<"));
    assert!(holds_shift_token("'x' >> 'y'"));
    assert!(holds_shift_token("\"x\" << \"y\""));
    assert!(holds_shift_token("/* c */ <<"));
    assert!(holds_shift_token("-- c\n<<"));
    assert!(holds_shift_token("- >>"));
    assert!(holds_shift_token("/ <<"));
    assert!(holds_shift_token("<<<"));
    assert!(holds_shift_token("=>>>"));
    assert!(holds_shift_token("<=>>"));
    assert!(holds_shift_token("!=>>"));
    assert!(holds_shift_token("|/* << */"));
    assert!(holds_shift_token("||/* << */"));
    assert!(holds_shift_token("'it''s' <<"));
    assert!(holds_shift_token("/*/ */ <<"));
}

#[test]
fn shift_characters_elsewhere_are_no_tokens() {
    assert!(!holds_shift_token(""));
    assert!(!holds_shift_token("a < < 1"));
    assert!(!holds_shift_token("a <> 1 AND b >= 2"));
    assert!(!holds_shift_token("'x<<y'"));
    assert!(!holds_shift_token("'it''s >> that'"));
    assert!(!holds_shift_token("N'<<' X'>>'"));
    assert!(!holds_shift_token("\"<<\" \">>\""));
    assert!(!holds_shift_token("/* << */ a /* >> */"));
    assert!(!holds_shift_token("/* * << **/"));
    assert!(!holds_shift_token("/*/ << */"));
    assert!(!holds_shift_token("-- <<\n a"));
    assert!(!holds_shift_token("-- >>"));
    assert!(!holds_shift_token("<>>"));
    assert!(!holds_shift_token("=>>"));
    assert!(!holds_shift_token("'unterminated <<"));
    assert!(!holds_shift_token("\"unterminated >>"));
    assert!(!holds_shift_token("/* unterminated <<"));
    assert!(!holds_shift_token("|| /* << */"));
}

#[test]
fn scan_agrees_with_the_tokenizer_on_every_short_text() {
    let alphabet = ['<', '>', '=', '!', '|', '/', '*', '-', '\'', '"', '\n', 'a', ':'];
    let mut count = 0;
    let mut texts: Vec<String> = vec![String::new()];
    for _length in 0..5 {
        let mut longer = Vec::with_capacity(texts.len() * alphabet.len());
        for text in &texts {
            for c in alphabet {
                let mut next = text.clone();
                next.push(c);
                agree(&next);
                count += 1;
                longer.push(next);
            }
        }
        texts = longer;
    }
    assert_eq!(count, 13 + 169 + 2197 + 28561 + 371293);
}

#[test]
fn scan_agrees_with_the_tokenizer_on_other_characters() {
    let pieces = [
        "<<", ">>", "N'", "x'", "X'", "'", "''", "\"", "--", "/*", "*/", "\r\n", "\r", "\n", " ",
        "\t", "#", "@", "$", "1.5", ".", "\\", "\u{e4}", "\u{1f600}", "[", "]", "`", "(", ")", ",", ";",
        "%", "+", "^", "&", "~", "{", "}", "?", "N", "x", "_",
    ];
    for a in pieces {
        for b in pieces {
            for c in pieces {
                agree(&format!("{}{}{}", a, b, c));
                agree(&format!("{}<<{}>>{}", a, b, c));
            }
        }
    }
}
