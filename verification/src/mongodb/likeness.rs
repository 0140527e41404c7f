//! The regular expression of a `LIKE` pattern matches what the pattern does.

use vstd::prelude::*;

use crate::mongodb::like;
use crate::mongodb::like::{Atom, Token};
use crate::mongodb::meaning;
use crate::mongodb::meaning::Reader;

verus! {

/// A number in hexadecimal is the number, and its digits hold no closing brace.
proof fn hex_reads_back(n: nat)
    ensures
        like::hex_number(like::hex_text(n)) == n,
        like::hex_text(n).len() > 0,
        forall|i: int| 0 <= i < like::hex_text(n).len() ==> #[trigger] like::hex_text(n)[i] != '}',
    decreases n,
{
    if n < 16 {
        let s = like::hex_text(n);
        assert(s.drop_last() =~= Seq::<char>::empty());
        assert(like::hex_number(Seq::<char>::empty()) == 0);
        assert(s.last() == like::hex_digit(n));
    } else {
        hex_reads_back(n / 16);
        let s = like::hex_text(n);
        assert(s.drop_last() =~= like::hex_text(n / 16));
        assert(s.last() == like::hex_digit(n % 16));
        assert forall|i: int| 0 <= i < s.len() implies #[trigger] s[i] != '}' by {
            if i < s.len() - 1 {
                assert(s[i] == like::hex_text(n / 16)[i]);
            }
        }
    }
}

proof fn position_is(s: Seq<char>, c: char, i: int, k: int)
    requires
        0 <= i <= k < s.len(),
        s[k] == c,
        forall|j: int| i <= j < k ==> #[trigger] s[j] != c,
    ensures
        like::position(s, c, i) == k,
    decreases k - i,
{
    if i < k {
        position_is(s, c, i + 1, k);
    }
}

/// A code point in hexadecimal stands for its character.
proof fn hex_is_written(n: nat, rest: Seq<char>)
    ensures
        like::written_char("\\x{"@ + like::hex_text(n) + "}"@ + rest) == (
            n as char,
            like::hex_text(n).len() as int + 4,
        ),
{
    reveal_strlit("\\x{");
    reveal_strlit("}");
    hex_reads_back(n);
    let digits = like::hex_text(n);
    let regex = "\\x{"@ + digits + "}"@ + rest;
    let end = 3 + digits.len();
    assert(regex[0] == '\\' && regex[1] == 'x' && regex[2] == '{');
    assert(regex[end as int] == '}');
    assert forall|j: int| 3 <= j < end implies #[trigger] regex[j] != '}' by {
        assert(regex[j] == digits[j - 3]);
    }
    position_is(regex, '}', 3, end as int);
    assert(regex.subrange(3, end as int) =~= digits);
}

/// The characters that a character of a pattern stands for in the expression.
spec fn meant(c: char, case_insensitive: bool) -> Seq<char> {
    if case_insensitive && like::letter(c) {
        seq![like::lowered(c), like::raised(like::lowered(c))] + (if like::lowered(c) == 'k' {
            seq!['\u{212A}']
        } else if like::lowered(c) == 's' {
            seq!['\u{17F}']
        } else {
            Seq::empty()
        })
    } else {
        seq![c]
    }
}

/// A class without further characters ends at its bracket.
proof fn class_ends(rest: Seq<char>)
    ensures
        like::class_chars(seq![']'] + rest) == (Seq::<char>::empty(), 1int),
{
    assert((seq![']'] + rest)[0] == ']');
}

/// A character that is written as it is comes first in its class.
proof fn class_starts(c: char, more: Seq<char>)
    requires
        c != ']',
        c != '\\',
    ensures
        like::class_chars(seq![c] + more) == (
            seq![c] + like::class_chars(more).0,
            1 + like::class_chars(more).1,
        ),
{
    let regex = seq![c] + more;
    assert(regex[0] == c);
    assert(like::written_char(regex) == (c, 1int));
    assert(regex.skip(1) =~= more);
}

/// A letter whose case is ignored is written as a class of its forms.
proof fn letter_is_written(c: char, rest: Seq<char>)
    requires
        like::letter(c),
    ensures
        like::first_atom(like::char_regex(c, true) + rest) == (
            Atom::Among(meant(c, true)),
            like::char_regex(c, true).len() as int,
        ),
{
    let lower = like::lowered(c);
    let upper = like::raised(lower);
    let regex = like::char_regex(c, true) + rest;
    let end = seq![']'] + rest;
    class_ends(rest);
    assert(regex[0] == '[');
    if lower == 'k' || lower == 's' {
        let n: nat = if lower == 'k' {
            0x212A
        } else {
            0x17F
        };
        let special = if lower == 'k' {
            "\\x{212A}"@
        } else {
            "\\x{17F}"@
        };
        reveal_strlit("\\x{212A}");
        reveal_strlit("\\x{17F}");
        reveal_strlit("\\x{");
        reveal_strlit("}");
        reveal_with_fuel(like::hex_text, 5);
        assert(special =~= "\\x{"@ + like::hex_text(n) + "}"@);
        let tail = special + end;
        assert(tail =~= "\\x{"@ + like::hex_text(n) + "}"@ + end);
        hex_is_written(n, end);
        let w = special.len() as int;
        assert(like::written_char(tail) == (n as char, w));
        assert(tail[0] == '\\');
        assert(tail.skip(w) =~= end);
        assert(like::class_chars(tail).0 =~= seq![n as char]);
        assert(like::class_chars(tail).1 == w + 1);
        let second = seq![upper] + tail;
        class_starts(upper, tail);
        class_starts(lower, second);
        assert(regex.skip(1) =~= seq![lower] + second);
        assert(meant(c, true) =~= like::class_chars(seq![lower] + second).0);
    } else {
        let second = seq![upper] + end;
        class_starts(upper, end);
        class_starts(lower, second);
        assert(regex.skip(1) =~= seq![lower] + second);
        assert(meant(c, true) =~= like::class_chars(seq![lower] + second).0);
    }
}

/// A character is written so that the expression reads it back.
proof fn char_is_written(c: char, case_insensitive: bool, rest: Seq<char>)
    ensures
        like::first_atom(like::char_regex(c, case_insensitive) + rest) == (
            Atom::Among(meant(c, case_insensitive)),
            like::char_regex(c, case_insensitive).len() as int,
        ),
        like::char_regex(c, case_insensitive).len() > 0,
        like::char_regex(c, case_insensitive)[0] != '*',
{
    let written = like::char_regex(c, case_insensitive);
    let regex = written + rest;
    if case_insensitive && like::letter(c) {
        letter_is_written(c, rest);
        assert(written[0] == '[');
    } else if like::letter(c) || '0' <= c <= '9' || (c > '\u{7f}' && !like::control(c)) {
        assert(regex[0] == c);
        assert(like::written_char(regex) == (c, 1int));
    } else if ' ' <= c <= '~' {
        assert(regex[0] == '\\' && regex[1] == c);
        assert(like::written_char(regex) == (c, 2int));
    } else {
        reveal_strlit("\\x{");
        hex_is_written(c as nat, rest);
        assert(regex =~= "\\x{"@ + like::hex_text(c as nat) + "}"@ + rest);
        assert(regex[0] == '\\');
        reveal_strlit("}");
        assert((c as nat) as char == c);
    }
}

/// The characters that a character of a pattern stands for are those that are the
/// same.
proof fn meant_is_same(reader: Reader, c: char, other: char, case_insensitive: bool)
    requires
        like::writable(c, case_insensitive),
    ensures
        meant(c, case_insensitive).contains(other) == meaning::same_char(
            reader,
            c,
            other,
            case_insensitive,
        ),
{
    let chars = meant(c, case_insensitive);
    if case_insensitive && like::letter(c) {
        let lower = like::lowered(c);
        assert(chars[0] == lower && chars[1] == like::raised(lower));
        if lower == 'k' {
            assert(chars[2] == '\u{212A}');
        } else if lower == 's' {
            assert(chars[2] == '\u{17F}');
        }
        if like::lowered(other) == lower {
            assert(other == lower || other == like::raised(lower));
        }
    } else {
        assert(chars[0] == c);
    }
}

/// The rest of an expression never starts with a star.
proof fn rest_starts_apart(tokens: Seq<Token>, case_insensitive: bool)
    ensures
        ({
            let rest = like::tokens_regex(tokens, case_insensitive) + "\\z"@;
            rest.len() >= 2 && rest[0] != '*'
        }),
{
    reveal_strlit("\\z");
    reveal_strlit(".*");
    reveal_strlit(".");
    if tokens.len() > 0 {
        let first = like::token_regex(tokens[0], case_insensitive);
        if let Token::Char(c) = tokens[0] {
            char_is_written(c, case_insensitive, Seq::empty());
        }
        let rest = like::tokens_regex(tokens, case_insensitive) + "\\z"@;
        assert(rest[0] == first[0]);
    }
}

/// The expression of the tokens of a pattern matches what is like them.
proof fn tokens_match(reader: Reader, tokens: Seq<Token>, s: Seq<char>, case_insensitive: bool)
    requires
        like::all_writable(tokens, case_insensitive),
    ensures
        like::rest_matches(like::tokens_regex(tokens, case_insensitive) + "\\z"@, s)
            == meaning::like(reader, tokens, s, case_insensitive),
    decreases tokens.len(),
{
    reveal_strlit("\\z");
    reveal_strlit(".*");
    reveal_strlit(".");
    let regex = like::tokens_regex(tokens, case_insensitive) + "\\z"@;
    if tokens.len() == 0 {
        assert(regex =~= "\\z"@);
    } else {
        let more = tokens.skip(1);
        assert(like::all_writable(more, case_insensitive)) by {
            assert forall|i: int| 0 <= i < more.len() implies (#[trigger] more[i] matches Token::Char(
                c,
            ) ==> like::writable(c, case_insensitive)) by {
                assert(more[i] == tokens[i + 1]);
            }
        }
        let first = like::token_regex(tokens[0], case_insensitive);
        let rest = like::tokens_regex(more, case_insensitive) + "\\z"@;
        assert(regex =~= first + rest);
        rest_starts_apart(more, case_insensitive);
        match tokens[0] {
            Token::Run => {
                assert(regex[0] == '.' && regex[1] == '*');
                assert(like::first_atom(regex) == (Atom::Run, 2int));
                assert(regex.skip(2) =~= rest);
                assert forall|k: int| 0 <= k <= s.len() implies like::rest_matches(
                    rest,
                    #[trigger] s.skip(k),
                ) == meaning::like(reader, more, s.skip(k), case_insensitive) by {
                    tokens_match(reader, more, s.skip(k), case_insensitive);
                }
                assert(like::rest_matches(regex, s) == (exists|k: int|
                    0 <= k <= s.len() && like::rest_matches(rest, #[trigger] s.skip(k))));
                assert(meaning::like(reader, tokens, s, case_insensitive) == (exists|k: int|
                    0 <= k <= s.len() && meaning::like(
                        reader,
                        more,
                        #[trigger] s.skip(k),
                        case_insensitive,
                    )));
            },
            Token::One => {
                assert(regex[0] == '.' && regex[1] == rest[0]);
                assert(like::first_atom(regex) == (Atom::One, 1int));
                assert(regex.skip(1) =~= rest);
                if s.len() > 0 {
                    tokens_match(reader, more, s.skip(1), case_insensitive);
                }
            },
            Token::Char(c) => {
                assert(tokens[0] == Token::Char(c));
                char_is_written(c, case_insensitive, rest);
                let n = first.len() as int;
                assert(regex.skip(n) =~= rest);
                if s.len() > 0 {
                    meant_is_same(reader, c, s[0], case_insensitive);
                    tokens_match(reader, more, s.skip(1), case_insensitive);
                }
            },
        }
    }
}

/// The regular expression that a `LIKE` pattern is translated into matches exactly
/// the texts that are like the pattern.
pub proof fn a_pattern_matches_as_its_regex(
    reader: Reader,
    pattern: Seq<char>,
    s: Seq<char>,
    case_insensitive: bool,
)
    requires
        like::all_writable(like::tokens(pattern), case_insensitive),
    ensures
        like::regex_matches(like::pattern_regex(pattern, case_insensitive), s) == meaning::like(
            reader,
            like::tokens(pattern),
            s,
            case_insensitive,
        ),
{
    reveal_strlit("\\A");
    let regex = like::pattern_regex(pattern, case_insensitive);
    let tokens = like::tokens(pattern);
    assert(regex[0] == '\\' && regex[1] == 'A');
    assert(regex.skip(2) =~= like::tokens_regex(tokens, case_insensitive) + "\\z"@);
    tokens_match(reader, tokens, s, case_insensitive);
}

} // verus!
