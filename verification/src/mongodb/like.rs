//! SQL LIKE patterns as regular expressions.

use vstd::prelude::*;

use crate::mongodb::bson::Regex;
use crate::text::char_vec;

verus! {

/// Whether a character beyond ASCII has the Unicode property Alphabetic.
pub uninterp spec fn alphabetic_beyond_ascii(c: char) -> bool;

/// Whether `c` has the Unicode property Alphabetic: the ASCII letters, and what
/// Unicode says beyond them.
pub open spec fn alphabetic(c: char) -> bool {
    if c <= '\u{7f}' {
        letter(c)
    } else {
        alphabetic_beyond_ascii(c)
    }
}

/// `char::is_alphabetic` tells whether a character has the Unicode property
/// Alphabetic. Of the ASCII characters exactly the letters do.
#[verifier::external_body]
fn is_alphabetic(c: char) -> (r: bool)
    ensures
        r == (if c <= '\u{7f}' {
            letter(c)
        } else {
            alphabetic_beyond_ascii(c)
        }),
{
    c.is_alphabetic()
}

/// An ASCII letter.
pub open spec fn letter(c: char) -> bool {
    'a' <= c <= 'z' || 'A' <= c <= 'Z'
}

/// `c`, in lower case if it is an ASCII letter.
pub open spec fn lowered(c: char) -> char {
    if 'A' <= c <= 'Z' {
        (c as u32 + 32) as char
    } else {
        c
    }
}

/// `c`, in upper case if it is an ASCII letter.
pub open spec fn raised(c: char) -> char {
    if 'a' <= c <= 'z' {
        (c as u32 - 32) as char
    } else {
        c
    }
}

/// A control character.
pub open spec fn control(c: char) -> bool {
    c <= '\u{1f}' || '\u{7f}' <= c <= '\u{9f}'
}

/// The hexadecimal digit `d`, in upper case.
pub open spec fn hex_digit(d: nat) -> char {
    if d < 10 {
        (48 + d) as char
    } else {
        (55 + d) as char
    }
}

/// `n` in hexadecimal, in upper case and without leading zeros.
pub open spec fn hex_text(n: nat) -> Seq<char>
    decreases n,
{
    if n < 16 {
        seq![hex_digit(n)]
    } else {
        hex_text(n / 16).push(hex_digit(n % 16))
    }
}

/// One element of a LIKE pattern.
pub enum Token {
    /// Any run of characters.
    Run,
    /// Any one character.
    One,
    /// This character.
    Char(char),
}

/// The element that is the character `c`.
pub open spec fn exactly(c: char) -> Token {
    Token::Char(c)
}

/// The elements of a LIKE pattern: `\` escapes the next character (a trailing
/// one is literal), `%` is any run of characters and `_` any one.
pub open spec fn tokens(pattern: Seq<char>) -> Seq<Token>
    decreases pattern.len(),
{
    if pattern.len() == 0 {
        Seq::empty()
    } else if pattern[0] == '\\' {
        if pattern.len() == 1 {
            seq![exactly('\\')]
        } else {
            seq![exactly(pattern[1])] + tokens(pattern.skip(2))
        }
    } else if pattern[0] == '%' {
        seq![Token::Run] + tokens(pattern.skip(1))
    } else if pattern[0] == '_' {
        seq![Token::One] + tokens(pattern.skip(1))
    } else {
        seq![exactly(pattern[0])] + tokens(pattern.skip(1))
    }
}

/// Whether a regular expression can be written for `c`: letters beyond ASCII
/// have foldings that it does not spell out.
pub open spec fn writable(c: char, case_insensitive: bool) -> bool {
    !(case_insensitive && alphabetic(c) && c > '\u{7f}')
}

/// The regular expression for the character `c`.
pub open spec fn char_regex(c: char, case_insensitive: bool) -> Seq<char> {
    if case_insensitive && letter(c) {
        seq!['[', lowered(c), raised(lowered(c))] + (if lowered(c) == 'k' {
            "\\x{212A}"@
        } else if lowered(c) == 's' {
            "\\x{17F}"@
        } else {
            Seq::empty()
        }) + seq![']']
    } else if letter(c) || '0' <= c <= '9' || (c > '\u{7f}' && !control(c)) {
        seq![c]
    } else if ' ' <= c <= '~' {
        seq!['\\', c]
    } else {
        "\\x{"@ + hex_text(c as nat) + "}"@
    }
}

/// The regular expression for one element of a pattern.
pub open spec fn token_regex(token: Token, case_insensitive: bool) -> Seq<char> {
    match token {
        Token::Run => ".*"@,
        Token::One => "."@,
        Token::Char(c) => char_regex(c, case_insensitive),
    }
}

/// The regular expressions for the elements of a pattern, one after the other.
pub open spec fn tokens_regex(tokens: Seq<Token>, case_insensitive: bool) -> Seq<char>
    decreases tokens.len(),
{
    if tokens.len() == 0 {
        Seq::empty()
    } else {
        token_regex(tokens[0], case_insensitive) + tokens_regex(tokens.skip(1), case_insensitive)
    }
}

/// Whether a regular expression can be written for every element.
pub open spec fn all_writable(tokens: Seq<Token>, case_insensitive: bool) -> bool {
    forall|i: int|
        0 <= i < tokens.len() ==> (#[trigger] tokens[i] matches Token::Char(c) ==> writable(
            c,
            case_insensitive,
        ))
}

/// The whole regular expression for a pattern: anchored at both ends.
pub open spec fn pattern_regex(pattern: Seq<char>, case_insensitive: bool) -> Seq<char> {
    "\\A"@ + tokens_regex(tokens(pattern), case_insensitive) + "\\z"@
}

fn hex_digit_char(d: u8) -> (c: char)
    requires
        d < 16,
    ensures
        c == hex_digit(d as nat),
{
    if d < 10 {
        (48 + d) as char
    } else {
        (55 + d) as char
    }
}

/// Appends `n` in hexadecimal.
fn push_hex(regex: &mut String, n: u32)
    ensures
        final(regex)@ == old(regex)@ + hex_text(n as nat),
    decreases n,
{
    if n < 16 {
        regex.push(hex_digit_char(n as u8));
        assert(regex@ =~= old(regex)@ + hex_text(n as nat));
    } else {
        push_hex(regex, n / 16);
        regex.push(hex_digit_char((n % 16) as u8));
        assert(regex@ =~= old(regex)@ + hex_text(n as nat));
    }
}

/// Appends the regular expression for the character `c`, or gives `None` where
/// there is none.
pub fn push_literal(regex: &mut String, c: char, case_insensitive: bool) -> (r: Option<()>)
    ensures
        r is Some == writable(c, case_insensitive),
        r is Some ==> final(regex)@ == old(regex)@ + char_regex(c, case_insensitive),
        r is None ==> final(regex)@ == old(regex)@,
{
    let ghost before = regex@;
    if case_insensitive && is_alphabetic(c) {
        if c > '\u{7f}' {
            return None;
        }
        let lower: char = if 'A' <= c && c <= 'Z' {
            (c as u8 + 32) as char
        } else {
            c
        };
        assert(lower == lowered(c));
        let upper: char = (lower as u8 - 32) as char;
        assert(upper == raised(lower));
        regex.push('[');
        regex.push(lower);
        regex.push(upper);
        assert(regex@ =~= before + seq!['[', lower, upper]);
        if lower == 'k' {
            regex.append("\\x{212A}");
        } else if lower == 's' {
            regex.append("\\x{17F}");
        }
        regex.push(']');
        assert(regex@ =~= before + char_regex(c, case_insensitive));
    } else if ('a' <= c && c <= 'z') || ('A' <= c && c <= 'Z') || ('0' <= c && c <= '9') || (c
        > '\u{9f}') {
        regex.push(c);
        assert(regex@ =~= before + char_regex(c, case_insensitive));
    } else if ' ' <= c && c <= '~' {
        regex.push('\\');
        regex.push(c);
        assert(regex@ =~= before + char_regex(c, case_insensitive));
    } else {
        // Control characters, NUL included, which a BSON regex cannot hold.
        regex.append("\\x{");
        push_hex(regex, c as u32);
        regex.append("}");
        assert(regex@ =~= before + char_regex(c, case_insensitive));
    }
    Some(())
}

proof fn tokens_regex_concat(a: Seq<Token>, b: Seq<Token>, ci: bool)
    ensures
        tokens_regex(a + b, ci) == tokens_regex(a, ci) + tokens_regex(b, ci),
    decreases a.len(),
{
    if a.len() == 0 {
        assert(a + b =~= b);
        assert(tokens_regex(a, ci) =~= Seq::<char>::empty());
        assert(tokens_regex(a, ci) + tokens_regex(b, ci) =~= tokens_regex(b, ci));
    } else {
        tokens_regex_concat(a.skip(1), b, ci);
        assert((a + b).skip(1) =~= a.skip(1) + b);
        assert((a + b)[0] == a[0]);
        assert(tokens_regex(a + b, ci) =~= tokens_regex(a, ci) + tokens_regex(b, ci));
    }
}

/// The first element of a pattern, and how many characters it takes.
proof fn tokens_front(pattern: Seq<char>)
    requires
        pattern.len() > 0,
    ensures
        tokens(pattern).len() > 0,
        tokens(pattern)[0] == (if pattern[0] == '%' {
            Token::Run
        } else if pattern[0] == '_' {
            Token::One
        } else if pattern[0] == '\\' && pattern.len() > 1 {
            exactly(pattern[1])
        } else {
            exactly(pattern[0])
        }),
        tokens(pattern) == seq![tokens(pattern)[0]] + tokens(
            pattern.skip(
                if pattern[0] == '\\' && pattern.len() > 1 {
                    2
                } else {
                    1
                },
            ),
        ),
{
    if pattern[0] == '\\' && pattern.len() == 1 {
        assert(pattern.skip(1) =~= Seq::<char>::empty());
        assert(tokens(pattern.skip(1)) =~= Seq::<Token>::empty());
        assert(tokens(pattern) =~= seq![exactly('\\')] + tokens(pattern.skip(1)));
    }
}

/// A MongoDB regular expression matching the strings that `pattern` matches as
/// a SQL LIKE pattern: `\` escapes the next character (a trailing one is
/// literal), `%` matches any run of characters and `_` any one, newlines
/// included. For ILIKE, only ASCII letters are folded, to the characters
/// Unicode simple case folding relates them to; `None` for a pattern with a
/// letter beyond ASCII.
pub fn like_regex(pattern: &str, case_insensitive: bool) -> (r: Option<Regex>)
    ensures
        r is Some == all_writable(tokens(pattern@), case_insensitive),
        r matches Some(regex) ==> regex.pattern@ == pattern_regex(pattern@, case_insensitive)
            && regex.options@ == "s"@,
{
    let cs = char_vec(pattern);
    let mut regex: String = "\\A".to_owned();
    let mut i: usize = 0;
    let ghost all = tokens(pattern@);
    let ghost mut done: Seq<Token> = Seq::empty();
    proof {
        assert(pattern@.skip(0) =~= pattern@);
        assert(done + all =~= all);
        assert(tokens_regex(done, case_insensitive) =~= Seq::<char>::empty());
        assert(regex@ =~= "\\A"@ + tokens_regex(done, case_insensitive));
    }
    while i < cs.len()
        invariant
            i <= cs.len(),
            cs@ == pattern@,
            all == tokens(pattern@),
            all == done + tokens(pattern@.skip(i as int)),
            regex@ == "\\A"@ + tokens_regex(done, case_insensitive),
            all_writable(done, case_insensitive),
        decreases cs.len() - i,
    {
        let c: char = cs[i];
        let ghost rest = pattern@.skip(i as int);
        let ghost token: Token = tokens(rest)[0];
        let ghost written = regex@;
        proof {
            assert(rest[0] == c);
            assert(rest.skip(1) =~= pattern@.skip(i as int + 1));
            if i + 1 < cs.len() {
                assert(rest.skip(2) =~= pattern@.skip(i as int + 2));
                assert(rest[1] == cs@[i as int + 1]);
            }
            tokens_front(rest);
            assert(all[done.len() as int] == token);
        }
        if c == '%' {
            regex.append(".*");
            i += 1;
        } else if c == '_' {
            regex.append(".");
            i += 1;
        } else {
            let escaped = c == '\\' && i + 1 < cs.len();
            let literal: char = if escaped {
                cs[i + 1]
            } else {
                c
            };
            assert(token == Token::Char(literal));
            match push_literal(&mut regex, literal, case_insensitive) {
                Some(_) => {},
                None => {
                    return None;
                },
            }
            if escaped {
                i += 2;
            } else {
                i += 1;
            }
        }
        proof {
            let next = done.push(token);
            assert(tokens(rest) == seq![token] + tokens(pattern@.skip(i as int)));
            assert(done + (seq![token] + tokens(pattern@.skip(i as int))) =~= next + tokens(
                pattern@.skip(i as int),
            ));
            assert(done + seq![token] =~= next);
            tokens_regex_concat(done, seq![token], case_insensitive);
            assert(seq![token].skip(1) =~= Seq::<Token>::empty());
            assert(tokens_regex(seq![token], case_insensitive) =~= token_regex(
                token,
                case_insensitive,
            ) + tokens_regex(seq![token].skip(1), case_insensitive));
            assert(tokens_regex(seq![token], case_insensitive) =~= token_regex(
                token,
                case_insensitive,
            ));
            assert(regex@ =~= "\\A"@ + tokens_regex(next, case_insensitive));
            done = next;
        }
    }
    proof {
        assert(tokens(pattern@.skip(i as int)) =~= Seq::<Token>::empty());
        assert(done =~= all);
    }
    regex.append("\\z");
    // `s`: `.` matches a newline, as `%` and `_` do.
    Some(Regex { pattern: regex, options: "s".to_owned() })
}

/// A part of a regular expression.
pub enum Atom {
    /// Any run of characters.
    Run,
    /// Any one character.
    One,
    /// One of these characters.
    Among(Seq<char>),
}

/// The value of a hexadecimal digit.
pub open spec fn digit_value(c: char) -> nat {
    if '0' <= c <= '9' {
        (c as int - 48) as nat
    } else if 'A' <= c <= 'F' {
        (c as int - 55) as nat
    } else if 'a' <= c <= 'f' {
        (c as int - 87) as nat
    } else {
        0
    }
}

/// The number that hexadecimal digits spell.
pub open spec fn hex_number(s: Seq<char>) -> nat
    decreases s.len(),
{
    if s.len() == 0 {
        0
    } else {
        hex_number(s.drop_last()) * 16 + digit_value(s.last())
    }
}

/// The position of the first `c` in `s` at or behind `i`, or the end.
pub open spec fn position(s: Seq<char>, c: char, i: int) -> int
    decreases s.len() - i,
{
    if i >= s.len() || s[i] == c {
        i
    } else {
        position(s, c, i + 1)
    }
}

/// The character at the start of a regular expression, which can be written as
/// its code point in hexadecimal or behind a backslash, and how long it is
/// written.
pub open spec fn written_char(regex: Seq<char>) -> (char, int) {
    if regex.len() > 3 && regex[0] == '\\' && regex[1] == 'x' && regex[2] == '{' {
        let end = position(regex, '}', 3);
        (hex_number(regex.subrange(3, end)) as char, end + 1)
    } else if regex.len() > 1 && regex[0] == '\\' {
        (regex[1], 2)
    } else {
        (regex[0], 1)
    }
}

/// The characters of a class in brackets, up to the closing one.
pub open spec fn class_chars(regex: Seq<char>) -> (Seq<char>, int)
    decreases regex.len(),
{
    if regex.len() == 0 || regex[0] == ']' {
        (Seq::empty(), 1)
    } else {
        let (c, n) = written_char(regex);
        if 0 < n <= regex.len() {
            let (more, m) = class_chars(regex.skip(n));
            (seq![c] + more, n + m)
        } else {
            (Seq::empty(), 1)
        }
    }
}

/// The first part of a regular expression, and how long it is written.
pub open spec fn first_atom(regex: Seq<char>) -> (Atom, int) {
    if regex[0] == '.' {
        if regex.len() > 1 && regex[1] == '*' {
            (Atom::Run, 2)
        } else {
            (Atom::One, 1)
        }
    } else if regex[0] == '[' {
        let (among, n) = class_chars(regex.skip(1));
        (Atom::Among(among), n + 1)
    } else {
        let (c, n) = written_char(regex);
        (Atom::Among(seq![c]), n)
    }
}

/// Whether the rest of a regular expression, up to the end of the text that `\\z`
/// stands for, matches all of `s`. The dot matches every character, line breaks
/// among them.
pub open spec fn rest_matches(regex: Seq<char>, s: Seq<char>) -> bool
    decreases regex.len(),
{
    if regex.len() == 0 {
        true
    } else if regex.len() == 2 && regex[0] == '\\' && regex[1] == 'z' {
        s.len() == 0
    } else {
        let (atom, n) = first_atom(regex);
        0 < n <= regex.len() && match atom {
            Atom::Run => exists|k: int|
                0 <= k <= s.len() && rest_matches(regex.skip(n), #[trigger] s.skip(k)),
            Atom::One => s.len() > 0 && rest_matches(regex.skip(n), s.skip(1)),
            Atom::Among(chars) => s.len() > 0 && chars.contains(s[0]) && rest_matches(
                regex.skip(n),
                s.skip(1),
            ),
        }
    }
}

/// Whether a regular expression that starts at the start of the text, `\\A`,
/// matches.
pub open spec fn regex_matches(regex: Seq<char>, s: Seq<char>) -> bool {
    regex.len() >= 2 && regex[0] == '\\' && regex[1] == 'A' && rest_matches(regex.skip(2), s)
}

} // verus!
