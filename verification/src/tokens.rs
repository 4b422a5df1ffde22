//! Where a statement text holds a shift operator as a token.
//!
//! The SQL parser cuts a text into tokens before it parses it. A string, a
//! quoted name and a comment are tokens of their own, whatever they hold;
//! outside of them `<<` and `>>` are shift operators, unless the first of
//! the two characters ends another operator, as in `<>>` and `=>>`. The
//! scan here follows the text as the tokenizer of the parser does in its
//! generic dialect, and says whether it meets a shift operator on the way.

use vstd::prelude::*;
use crate::text::to_chars;

verus! {

/// What the place in a text belongs to.
#[derive(Clone, Copy, Debug, PartialEq, Eq, Structural)]
pub enum Place {
    /// Statement text outside strings, quoted names and comments.
    Code,
    /// A string between single quotes; two single quotes in it stand for
    /// one.
    Text,
    /// A name between double quotes.
    Name,
    /// A comment from `--` to the end of the line.
    Line,
    /// A comment from `/*` to `*/`.
    Block,
    /// A comment from `/*` to `*/`, right behind a `*`.
    Star,
}

/// Whether the text has the character `c` at index `at`.
pub open spec fn has(s: Seq<char>, at: int, c: char) -> bool {
    0 <= at < s.len() && s[at] == c
}

/// How many characters the operator that begins at index `at` takes, where
/// it is none of the shift operators: two for `=>`, `!=`, `!!`, `<=`, `<>`,
/// `>=`, `::`, `||` and `|/`, three for `||/`, and one for every other
/// character.
pub open spec fn operator_len(s: Seq<char>, at: int) -> int {
    if has(s, at, '|') {
        if has(s, at + 1, '/') {
            2
        } else if has(s, at + 1, '|') {
            if has(s, at + 2, '/') {
                3
            } else {
                2
            }
        } else {
            1
        }
    } else if has(s, at, '=') {
        if has(s, at + 1, '>') {
            2
        } else {
            1
        }
    } else if has(s, at, '!') {
        if has(s, at + 1, '=') || has(s, at + 1, '!') {
            2
        } else {
            1
        }
    } else if has(s, at, '<') {
        if has(s, at + 1, '=') || has(s, at + 1, '>') {
            2
        } else {
            1
        }
    } else if has(s, at, '>') {
        if has(s, at + 1, '=') {
            2
        } else {
            1
        }
    } else if has(s, at, ':') {
        if has(s, at + 1, ':') {
            2
        } else {
            1
        }
    } else {
        1
    }
}

/// Whether a shift operator is met from index `at` on, where that index
/// belongs to `place`.
pub open spec fn meets_shift(s: Seq<char>, at: int, place: Place) -> bool
    decreases s.len() - at,
{
    if at < 0 || at >= s.len() {
        false
    } else {
        match place {
            Place::Code => if s[at] == '\'' {
                meets_shift(s, at + 1, Place::Text)
            } else if s[at] == '"' {
                meets_shift(s, at + 1, Place::Name)
            } else if s[at] == '-' && has(s, at + 1, '-') {
                meets_shift(s, at + 2, Place::Line)
            } else if s[at] == '/' && has(s, at + 1, '*') {
                meets_shift(s, at + 2, Place::Block)
            } else if s[at] == '<' && has(s, at + 1, '<') {
                true
            } else if s[at] == '>' && has(s, at + 1, '>') {
                true
            } else {
                meets_shift(s, at + operator_len(s, at), Place::Code)
            },
            Place::Text => if s[at] == '\'' {
                if has(s, at + 1, '\'') {
                    meets_shift(s, at + 2, Place::Text)
                } else {
                    meets_shift(s, at + 1, Place::Code)
                }
            } else {
                meets_shift(s, at + 1, Place::Text)
            },
            Place::Name => if s[at] == '"' {
                meets_shift(s, at + 1, Place::Code)
            } else {
                meets_shift(s, at + 1, Place::Name)
            },
            Place::Line => if s[at] == '\n' {
                meets_shift(s, at + 1, Place::Code)
            } else {
                meets_shift(s, at + 1, Place::Line)
            },
            Place::Block => if s[at] == '*' {
                meets_shift(s, at + 1, Place::Star)
            } else {
                meets_shift(s, at + 1, Place::Block)
            },
            Place::Star => if s[at] == '/' {
                meets_shift(s, at + 1, Place::Code)
            } else if s[at] == '*' {
                meets_shift(s, at + 1, Place::Star)
            } else {
                meets_shift(s, at + 1, Place::Block)
            },
        }
    }
}

/// Whether a statement text holds a shift operator, `<<` or `>>`, as a
/// token: outside every string, quoted name and comment.
pub open spec fn has_shift_token(sql: Seq<char>) -> bool {
    meets_shift(sql, 0, Place::Code)
}

fn is_at(s: &Vec<char>, at: usize, c: char) -> (yes: bool)
    ensures
        yes == has(s@, at as int, c),
{
    at < s.len() && s[at] == c
}

fn length_of_operator(s: &Vec<char>, at: usize) -> (n: usize)
    requires
        at < s.len(),
    ensures
        n == operator_len(s@, at as int),
        1 <= n <= 3,
        at + n <= s.len() + 2,
{
    let c = s[at];
    let next = at + 1;
    if c == '|' {
        if is_at(s, next, '/') {
            2
        } else if is_at(s, next, '|') {
            if is_at(s, next + 1, '/') {
                3
            } else {
                2
            }
        } else {
            1
        }
    } else if c == '=' {
        if is_at(s, next, '>') {
            2
        } else {
            1
        }
    } else if c == '!' {
        if is_at(s, next, '=') || is_at(s, next, '!') {
            2
        } else {
            1
        }
    } else if c == '<' {
        if is_at(s, next, '=') || is_at(s, next, '>') {
            2
        } else {
            1
        }
    } else if c == '>' {
        if is_at(s, next, '=') {
            2
        } else {
            1
        }
    } else if c == ':' {
        if is_at(s, next, ':') {
            2
        } else {
            1
        }
    } else {
        1
    }
}

/// Whether a statement text holds a shift operator as a token.
pub fn holds_shift_token(sql: &str) -> (yes: bool)
    ensures
        yes == has_shift_token(sql@),
{
    let s = to_chars(sql);
    let mut at: usize = 0;
    let mut place = Place::Code;
    while at < s.len()
        invariant
            s@ == sql@,
            has_shift_token(sql@) == meets_shift(s@, at as int, place),
        decreases s.len() - at,
    {
        let c = s[at];
        let next = at + 1;
        match place {
            Place::Code => {
                if c == '\'' {
                    place = Place::Text;
                    at = next;
                } else if c == '"' {
                    place = Place::Name;
                    at = next;
                } else if c == '-' && is_at(&s, next, '-') {
                    place = Place::Line;
                    at = next + 1;
                } else if c == '/' && is_at(&s, next, '*') {
                    place = Place::Block;
                    at = next + 1;
                } else if c == '<' && is_at(&s, next, '<') {
                    return true;
                } else if c == '>' && is_at(&s, next, '>') {
                    return true;
                } else {
                    at = at + length_of_operator(&s, at);
                }
            },
            Place::Text => {
                if c == '\'' {
                    if is_at(&s, next, '\'') {
                        at = next + 1;
                    } else {
                        place = Place::Code;
                        at = next;
                    }
                } else {
                    at = next;
                }
            },
            Place::Name => {
                if c == '"' {
                    place = Place::Code;
                }
                at = next;
            },
            Place::Line => {
                if c == '\n' {
                    place = Place::Code;
                }
                at = next;
            },
            Place::Block => {
                if c == '*' {
                    place = Place::Star;
                }
                at = next;
            },
            Place::Star => {
                if c == '/' {
                    place = Place::Code;
                } else if c != '*' {
                    place = Place::Block;
                }
                at = next;
            },
        }
    }
    false
}

} // verus!
