//! Building and reading SQL text as sequences of characters.

use vstd::prelude::*;

verus! {

broadcast use vstd::string::group_string_axioms;

/// `String::push` appends one character to the end of the string.
pub assume_specification[ std::string::String::push ](s: &mut std::string::String, c: char)
    ensures
        final(s)@ == old(s)@.push(c),
;

/// `==` on two `str`s (std's `impl PartialEq for str`) holds exactly when they
/// have the same characters in the same order.
#[verifier::external_body]
pub(crate) fn same(a: &str, b: &str) -> (r: bool)
    ensures
        r == (a@ == b@),
{
    a == b
}

/// The characters of each string of `v`.
pub open spec fn texts(v: Seq<String>) -> Seq<Seq<char>> {
    Seq::new(v.len(), |i: int| v[i]@)
}

/// `parts` one after the other, `separator` between each two.
pub open spec fn joined(parts: Seq<Seq<char>>, separator: Seq<char>) -> Seq<char>
    decreases parts.len(),
{
    if parts.len() == 0 {
        Seq::empty()
    } else if parts.len() == 1 {
        parts[0]
    } else {
        joined(parts.drop_last(), separator) + separator + parts.last()
    }
}

/// `s` with every `quote` in it written twice.
pub open spec fn doubled(s: Seq<char>, quote: char) -> Seq<char>
    decreases s.len(),
{
    if s.len() == 0 {
        Seq::empty()
    } else if s.last() == quote {
        doubled(s.drop_last(), quote).push(quote).push(quote)
    } else {
        doubled(s.drop_last(), quote).push(s.last())
    }
}

/// `s` between two `quote`s, every `quote` inside it written twice.
pub open spec fn quoted(s: Seq<char>, quote: char) -> Seq<char> {
    seq![quote] + doubled(s, quote) + seq![quote]
}

/// How a reader that takes a doubled quote for one quote, and a single one for
/// the end, reads a quoted run whose opening quote is already consumed: the
/// characters read and what follows the closing quote, or `None` when the run
/// never closes.
pub open spec fn scanned(t: Seq<char>, quote: char) -> Option<(Seq<char>, Seq<char>)>
    decreases t.len(),
{
    if t.len() == 0 {
        None
    } else if t[0] != quote {
        match scanned(t.drop_first(), quote) {
            Some((value, rest)) => Some((seq![t[0]] + value, rest)),
            None => None,
        }
    } else if t.len() >= 2 && t[1] == quote {
        match scanned(t.subrange(2, t.len() as int), quote) {
            Some((value, rest)) => Some((seq![quote] + value, rest)),
            None => None,
        }
    } else {
        Some((Seq::empty(), t.drop_first()))
    }
}

/// Reading `s` doubled from the front.
proof fn doubled_front(s: Seq<char>, quote: char)
    requires
        s.len() > 0,
    ensures
        doubled(s, quote) == (if s[0] == quote {
            seq![quote, quote]
        } else {
            seq![s[0]]
        }) + doubled(s.drop_first(), quote),
    decreases s.len(),
{
    if s.len() == 1 {
        assert(s.drop_last() =~= Seq::<char>::empty());
        assert(s.drop_first() =~= Seq::<char>::empty());
        assert(doubled(s.drop_last(), quote) =~= Seq::<char>::empty());
    } else {
        doubled_front(s.drop_last(), quote);
        assert(s.drop_last().drop_first() =~= s.drop_first().drop_last());
        assert(s.drop_first().last() == s.last());
    }
}

/// A quoted run reads back as the characters it was made from, whatever stands
/// behind it, so long as that does not begin with another quote.
pub proof fn quoted_reads_back(s: Seq<char>, quote: char, rest: Seq<char>)
    requires
        rest.len() == 0 || rest[0] != quote,
    ensures
        (quoted(s, quote) + rest)[0] == quote,
        scanned((quoted(s, quote) + rest).drop_first(), quote) == Some((s, rest)),
    decreases s.len(),
{
    let t = (quoted(s, quote) + rest).drop_first();
    assert(t =~= doubled(s, quote) + seq![quote] + rest);
    if s.len() == 0 {
        assert(doubled(s, quote) =~= Seq::<char>::empty());
        assert(t =~= seq![quote] + rest);
        assert(t.drop_first() =~= rest);
        assert(s =~= Seq::<char>::empty());
    } else {
        let tail = s.drop_first();
        quoted_reads_back(tail, quote, rest);
        doubled_front(s, quote);
        let u = (quoted(tail, quote) + rest).drop_first();
        assert(u =~= doubled(tail, quote) + seq![quote] + rest);
        assert(seq![s[0]] + tail =~= s);
        if s[0] == quote {
            assert(t =~= seq![quote, quote] + u);
            assert(t.subrange(2, t.len() as int) =~= u);
        } else {
            assert(t =~= seq![s[0]] + u);
            assert(t.drop_first() =~= u);
        }
    }
}

/// Two values with the same quoted form are the same value.
pub proof fn quoted_is_injective(a: Seq<char>, b: Seq<char>, quote: char)
    requires
        quoted(a, quote) == quoted(b, quote),
    ensures
        a == b,
{
    quoted_reads_back(a, quote, Seq::empty());
    quoted_reads_back(b, quote, Seq::empty());
}

/// The decimal digit `d`.
pub open spec fn digit(d: nat) -> char {
    (48 + d) as char
}

/// `n` in decimal, without leading zeros.
pub open spec fn nat_text(n: nat) -> Seq<char>
    decreases n,
{
    if n < 10 {
        seq![digit(n)]
    } else {
        nat_text(n / 10).push(digit(n % 10))
    }
}

/// `i` in decimal, with a `-` in front when it is negative.
pub open spec fn int_text(i: int) -> Seq<char> {
    if i < 0 {
        seq!['-'] + nat_text((-i) as nat)
    } else {
        nat_text(i as nat)
    }
}

/// The number that the decimal digits `s` spell, read from the left.
pub open spec fn digits_value(s: Seq<char>) -> nat
    decreases s.len(),
{
    if s.len() == 0 {
        0
    } else {
        digits_value(s.drop_last()) * 10 + (s.last() as nat - 48) as nat
    }
}

/// Whether every character of `s` is an ASCII digit.
pub open spec fn all_digits(s: Seq<char>) -> bool {
    forall|i: int| 0 <= i < s.len() ==> '0' <= #[trigger] s[i] <= '9'
}

/// Decimal text spells the number it was made from.
pub proof fn nat_text_reads_back(n: nat)
    ensures
        digits_value(nat_text(n)) == n,
        all_digits(nat_text(n)),
        nat_text(n).len() > 0,
    decreases n,
{
    if n < 10 {
        assert(nat_text(n).drop_last() =~= Seq::<char>::empty());
        assert(digits_value(Seq::<char>::empty()) == 0);
    } else {
        nat_text_reads_back(n / 10);
        assert(nat_text(n).drop_last() =~= nat_text(n / 10));
    }
}

/// The characters of `s`.
pub fn char_vec(s: &str) -> (v: Vec<char>)
    ensures
        v@ == s@,
{
    let mut v: Vec<char> = Vec::new();
    let ghost all = s@;
    for c in it: s.chars()
        invariant
            it.seq() == all,
            v@ == all.take(it.index() as int),
    {
        v.push(c);
        assert(v@ =~= all.take(it.index() as int + 1));
    }
    assert(all.take(all.len() as int) =~= all);
    v
}

/// The string of the characters `v`.
pub fn string_of(v: &Vec<char>) -> (s: String)
    ensures
        s@ == v@,
{
    let mut s: String = String::new();
    let mut i: usize = 0;
    while i < v.len()
        invariant
            i <= v.len(),
            s@ == v@.take(i as int),
        decreases v.len() - i,
    {
        s.push(v[i]);
        i += 1;
        assert(s@ =~= v@.take(i as int));
    }
    assert(v@.take(v.len() as int) =~= v@);
    s
}

/// `s` between two `quote`s, every `quote` inside it written twice.
pub fn quote_text(s: &str, quote: char) -> (r: String)
    ensures
        r@ == quoted(s@, quote),
{
    let cs = char_vec(s);
    let mut r: String = String::new();
    r.push(quote);
    let mut i: usize = 0;
    while i < cs.len()
        invariant
            i <= cs.len(),
            r@ == seq![quote] + doubled(cs@.take(i as int), quote),
        decreases cs.len() - i,
    {
        let c: char = cs[i];
        proof {
            assert(cs@.take(i as int + 1).drop_last() =~= cs@.take(i as int));
            assert(cs@.take(i as int + 1).last() == c);
        }
        r.push(c);
        if c == quote {
            r.push(c);
        }
        i += 1;
        assert(r@ =~= seq![quote] + doubled(cs@.take(i as int), quote));
    }
    assert(cs@.take(cs.len() as int) =~= cs@);
    r.push(quote);
    assert(r@ =~= quoted(s@, quote));
    r
}

/// `parts` one after the other, `separator` between each two.
pub fn join(parts: &Vec<String>, separator: &str) -> (r: String)
    ensures
        r@ == joined(texts(parts@), separator@),
{
    let mut r: String = String::new();
    let mut i: usize = 0;
    while i < parts.len()
        invariant
            i <= parts.len(),
            r@ == joined(texts(parts@).take(i as int), separator@),
        decreases parts.len() - i,
    {
        let ghost so_far = texts(parts@).take(i as int);
        let ghost next = texts(parts@).take(i as int + 1);
        proof {
            assert(next.drop_last() =~= so_far);
            assert(next.last() == parts@[i as int]@);
        }
        if i > 0 {
            r.append(separator);
        }
        r.append(parts[i].as_str());
        i += 1;
        proof {
            if i == 1 {
                assert(so_far =~= Seq::<Seq<char>>::empty());
                assert(r@ =~= parts@[0]@);
                assert(next[0] == parts@[0]@);
            }
        }
    }
    assert(texts(parts@).take(parts.len() as int) =~= texts(parts@));
    r
}

/// The decimal digit `d`.
fn digit_char(d: u8) -> (c: char)
    requires
        d < 10,
    ensures
        c == digit(d as nat),
{
    (48 + d) as char
}

/// `n` in decimal.
pub fn u128_text(n: u128) -> (r: String)
    ensures
        r@ == nat_text(n as nat),
    decreases n,
{
    if n < 10 {
        let mut r: String = String::new();
        r.push(digit_char(n as u8));
        assert(r@ =~= nat_text(n as nat));
        r
    } else {
        let mut r = u128_text(n / 10);
        r.push(digit_char((n % 10) as u8));
        r
    }
}

/// `i` in decimal.
pub fn i128_text(i: i128) -> (r: String)
    ensures
        r@ == int_text(i as int),
{
    if i < 0 {
        let mut r: String = String::new();
        r.push('-');
        let magnitude: u128 = (-(i + 1)) as u128 + 1;
        let digits = u128_text(magnitude);
        r.append(digits.as_str());
        assert(r@ =~= int_text(i as int));
        r
    } else {
        u128_text(i as u128)
    }
}

/// Whether `s` begins with `prefix`.
pub fn starts_with(s: &str, prefix: &str) -> (r: bool)
    ensures
        r == prefix@.is_prefix_of(s@),
{
    let a = char_vec(s);
    let b = char_vec(prefix);
    if a.len() < b.len() {
        return false;
    }
    let mut i: usize = 0;
    while i < b.len()
        invariant
            i <= b.len() <= a.len(),
            a@ == s@,
            b@ == prefix@,
            forall|k: int| 0 <= k < i ==> a@[k] == b@[k],
        decreases b.len() - i,
    {
        if a[i] != b[i] {
            assert(s@.subrange(0, b@.len() as int)[i as int] != b@[i as int]);
            return false;
        }
        i += 1;
    }
    assert(b@ =~= a@.subrange(0, b@.len() as int));
    true
}

/// What is said of bytes that are not UTF-8.
pub uninterp spec fn utf8_error(bytes: Seq<u8>) -> Seq<char>;

/// The text whose UTF-8 encoding the bytes are, if they are one.
pub open spec fn utf8_text(bytes: Seq<u8>) -> Option<Seq<char>> {
    if vstd::utf8::valid_utf8(bytes) {
        Some(vstd::utf8::decode_utf8(bytes))
    } else {
        None
    }
}

/// `String::from_utf8` gives the text that the bytes are in UTF-8, and where
/// they are not valid UTF-8 an error whose words depend on the bytes alone.
#[verifier::external_body]
pub(crate) fn from_utf8(bytes: Vec<u8>) -> (r: Result<String, String>)
    ensures
        match r {
            Ok(text) => utf8_text(bytes@) == Some(text@),
            Err(words) => utf8_text(bytes@) is None && words@ == utf8_error(bytes@),
        },
{
    String::from_utf8(bytes).map_err(|error| error.to_string())
}

/// The integer that decimal text spells: its digits, less than zero behind a `-`.
pub open spec fn spelled_integer(s: Seq<char>) -> int {
    if s.len() > 0 && s[0] == '-' {
        -digits_value(s.drop_first())
    } else {
        digits_value(s) as int
    }
}

/// The text of an integer spells it, in digits behind at most one `-`, and so the
/// texts of two integers differ.
pub proof fn int_text_reads_back(i: int)
    ensures
        spelled_integer(int_text(i)) == i,
        int_text(i).len() > 0,
        (int_text(i)[0] == '-') == (i < 0),
        all_digits(
            if i < 0 {
                int_text(i).drop_first()
            } else {
                int_text(i)
            },
        ),
{
    if i < 0 {
        nat_text_reads_back((-i) as nat);
        assert(int_text(i).drop_first() =~= nat_text((-i) as nat));
    } else {
        nat_text_reads_back(i as nat);
    }
}

/// Decimal digits are worth ten times what stands in front of the last, and the
/// last.
pub proof fn digits_are_worth_their_places(s: Seq<char>, c: char)
    ensures
        digits_value(Seq::empty()) == 0,
        '0' <= c <= '9' ==> digits_value(s.push(c)) == 10 * digits_value(s) + (c as int - '0' as int),
{
    assert(s.push(c).drop_last() =~= s);
}

/// Nothing joined is nothing, one part is itself, and another part follows behind
/// the separator: what stands in front stays.
pub proof fn joining_puts_one_behind_the_other(
    parts: Seq<Seq<char>>,
    more: Seq<char>,
    separator: Seq<char>,
)
    ensures
        joined(Seq::empty(), separator) == Seq::<char>::empty(),
        joined(seq![more], separator) == more,
        parts.len() > 0 ==> joined(parts.push(more), separator) == joined(parts, separator)
            + separator + more,
{
    assert(parts.push(more).drop_last() =~= parts);
}

} // verus!
