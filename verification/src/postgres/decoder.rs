//! What the decoder of JSON can be handed: the types and the lines on which it
//! comes to an end, with a column or an error.

use vstd::prelude::*;

use crate::text::char_vec;
use crate::types::{DataType, DataTypeView, Field, FieldView};

verus! {

/// A count above which no more is counted.
pub const LONG: u32 = 100_000;

/// How many digits and how large an exponent a decoder counts in 16 bits.
pub const COUNTED: u32 = 10_000;

/// How deep arrays and objects may be nested.
pub const DEEPEST: u32 = 1_000;

/// How many positions a decoder may list.
pub const MOST_POSITIONS: u64 = 72_057_594_037_927_936;

/// What is counted of `n`.
pub open spec fn counted(n: int) -> u32 {
    if n > LONG {
        LONG
    } else {
        n as u32
    }
}

fn count(n: u32) -> (r: u32)
    ensures
        r == counted(n as int),
{
    if n > LONG {
        LONG
    } else {
        n
    }
}

/// The start of a decimal number, as far as it was read.
#[derive(Clone, Copy, Debug, PartialEq, Eq, Structural)]
pub struct Numeral {
    /// Whether anything was read.
    pub begun: bool,
    /// The digits before the point, from the first that is not zero.
    pub whole: u32,
    /// Whether the point was read.
    pub point: bool,
    /// The digits after the point.
    pub fraction: u32,
    /// Whether an exponent was begun.
    pub powered: bool,
    /// The exponent without its sign.
    pub exponent: u32,
    /// Whether the exponent has a sign.
    pub signed: bool,
    /// Whether the exponent is negative.
    pub negative: bool,
}

/// Whether `c` is a decimal digit.
pub open spec fn is_digit(c: char) -> bool {
    '0' <= c <= '9'
}

impl Numeral {
    /// A number of which nothing was read.
    pub open spec fn nothing() -> Numeral {
        Numeral {
            begun: false,
            whole: 0,
            point: false,
            fraction: 0,
            powered: false,
            exponent: 0,
            signed: false,
            negative: false,
        }
    }

    /// The number with one more character, if it goes on with that.
    pub open spec fn followed_by(self, c: char) -> Option<Numeral> {
        if is_digit(c) {
            if self.powered {
                Some(
                    Numeral {
                        exponent: counted(self.exponent * 10 + (c as int - '0' as int)),
                        ..self
                    },
                )
            } else if self.point {
                Some(Numeral { fraction: counted(self.fraction + 1), ..self })
            } else if self.whole == 0 && c == '0' {
                Some(Numeral { begun: true, ..self })
            } else {
                Some(Numeral { begun: true, whole: counted(self.whole + 1), ..self })
            }
        } else if c == '.' && !self.point && !self.powered {
            Some(Numeral { begun: true, point: true, ..self })
        } else if (c == 'e' || c == 'E') && !self.powered {
            Some(Numeral { begun: true, powered: true, ..self })
        } else if (c == '+' || c == '-') && self.powered && !self.signed {
            Some(Numeral { signed: true, negative: c == '-', ..self })
        } else if (c == '+' || c == '-') && !self.begun {
            Some(Numeral { begun: true, ..self })
        } else {
            None
        }
    }

    /// Whether a decimal of so many bits and digits after the point can be read
    /// from the number. The digits are counted in eight bits, those after the
    /// point up to the decimal's, and with an exponent in 16 bits; the digits
    /// beyond the decimal's are taken off by a division by a power of ten, which
    /// wraps to zero once its exponent reaches the number of bits. A number with
    /// a negative exponent that leaves none of its digits is zero undivided.
    pub open spec fn fits(self, bits: int, scale: int) -> bool {
        let kept = if 0 <= scale <= self.fraction {
            scale
        } else {
            self.fraction as int
        };
        let shift = if self.negative {
            self.fraction + self.exponent - scale
        } else {
            self.fraction - self.exponent - scale
        };
        &&& kept <= 127
        &&& self.whole + kept <= 255
        &&& kept < scale ==> self.whole + scale <= 255
        &&& self.powered ==> {
            &&& self.whole + self.fraction <= COUNTED
            &&& self.exponent <= COUNTED
            &&& shift < bits || (self.negative && self.exponent > self.whole + self.fraction
                + scale)
        }
    }

    fn none() -> (r: Numeral)
        ensures
            r == Numeral::nothing(),
    {
        Numeral {
            begun: false,
            whole: 0,
            point: false,
            fraction: 0,
            powered: false,
            exponent: 0,
            signed: false,
            negative: false,
        }
    }

    /// Whether nothing was counted beyond what is.
    pub open spec fn wf(self) -> bool {
        self.whole <= LONG && self.fraction <= LONG && self.exponent <= LONG
    }

    fn with(self, c: char) -> (r: Option<Numeral>)
        requires
            self.wf(),
        ensures
            r == self.followed_by(c),
            r matches Some(n) ==> n.wf(),
    {
        if '0' <= c && c <= '9' {
            if self.powered {
                let digit: u32 = c as u32 - '0' as u32;
                Some(Numeral { exponent: count(self.exponent * 10 + digit), ..self })
            } else if self.point {
                Some(Numeral { fraction: count(self.fraction + 1), ..self })
            } else if self.whole == 0 && c == '0' {
                Some(Numeral { begun: true, ..self })
            } else {
                Some(Numeral { begun: true, whole: count(self.whole + 1), ..self })
            }
        } else if c == '.' && !self.point && !self.powered {
            Some(Numeral { begun: true, point: true, ..self })
        } else if (c == 'e' || c == 'E') && !self.powered {
            Some(Numeral { begun: true, powered: true, ..self })
        } else if (c == '+' || c == '-') && self.powered && !self.signed {
            Some(Numeral { signed: true, negative: c == '-', ..self })
        } else if (c == '+' || c == '-') && !self.begun {
            Some(Numeral { begun: true, ..self })
        } else {
            None
        }
    }

    fn is_fit(self, bits: i64, scale: i8) -> (r: bool)
        requires
            self.wf(),
            0 <= bits <= 256,
        ensures
            r == self.fits(bits as int, scale as int),
    {
        let whole = self.whole as i64;
        let fraction = self.fraction as i64;
        let exponent = self.exponent as i64;
        let scale = scale as i64;
        let kept: i64 = if 0 <= scale && scale <= fraction {
            scale
        } else {
            fraction
        };
        let shift: i64 = if self.negative {
            fraction + exponent - scale
        } else {
            fraction - exponent - scale
        };
        if kept > 127 || whole + kept > 255 || (kept < scale && whole + scale > 255) {
            return false;
        }
        !self.powered || (whole + fraction <= COUNTED as i64 && exponent <= COUNTED as i64 && (shift
            < bits || (self.negative && exponent > whole + fraction + scale)))
    }
}

/// Whether each decimal within a type can be read from a number.
pub open spec fn reads(t: DataTypeView, n: Numeral) -> bool
    decreases t,
{
    match t {
        DataTypeView::Decimal32(_, scale) => n.fits(32, scale as int),
        DataTypeView::Decimal64(_, scale) => n.fits(64, scale as int),
        DataTypeView::Decimal128(_, scale) => n.fits(128, scale as int),
        DataTypeView::Decimal256(_, scale) => n.fits(256, scale as int),
        DataTypeView::List(f)
        | DataTypeView::ListView(f)
        | DataTypeView::LargeList(f)
        | DataTypeView::LargeListView(f)
        | DataTypeView::FixedSizeList(f, _)
        | DataTypeView::MapOf(f, _)
        | DataTypeView::RunEndEncoded(_, f) => reads(f.data_type, n),
        DataTypeView::Struct(members) => all_read(members, n),
        _ => true,
    }
}

/// Whether each decimal within the types of `members` can be read from a number.
pub open spec fn all_read(members: Seq<FieldView>, n: Numeral) -> bool
    decreases members,
{
    forall|i: int| 0 <= i < members.len() ==> reads((#[trigger] members[i]).data_type, n)
}

fn do_read(fields: &Vec<Field>, n: Numeral) -> (r: bool)
    requires
        n.wf(),
    ensures
        r == all_read(crate::types::field_views(fields@), n),
    decreases fields@,
{
    let ghost views = crate::types::field_views(fields@);
    let mut i: usize = 0;
    while i < fields.len()
        invariant
            i <= fields.len(),
            n.wf(),
            views == crate::types::field_views(fields@),
            forall|k: int| 0 <= k < i ==> reads((#[trigger] views[k]).data_type, n),
        decreases fields.len() - i,
    {
        assert(views[i as int] == fields@[i as int]@);
        assert(decreases_to!(fields@ => fields@[i as int]));
        if !does_read(&fields[i].data_type, n) {
            assert(!reads(views[i as int].data_type, n));
            return false;
        }
        i += 1;
    }
    true
}

fn does_read(data_type: &DataType, n: Numeral) -> (r: bool)
    requires
        n.wf(),
    ensures
        r == reads(data_type@, n),
    decreases data_type,
{
    proof {
        reveal_with_fuel(DataType::view, 3);
        reveal_with_fuel(Field::view, 3);
    }
    match data_type {
        DataType::Decimal32(_, scale) => n.is_fit(32, *scale),
        DataType::Decimal64(_, scale) => n.is_fit(64, *scale),
        DataType::Decimal128(_, scale) => n.is_fit(128, *scale),
        DataType::Decimal256(_, scale) => n.is_fit(256, *scale),
        DataType::List(f)
        | DataType::ListView(f)
        | DataType::LargeList(f)
        | DataType::LargeListView(f)
        | DataType::FixedSizeList(f, _)
        | DataType::MapOf(f, _)
        | DataType::RunEndEncoded(_, f) => does_read(&f.data_type, n),
        DataType::Struct(members) => {
            let r = do_read(members, n);
            assert(r == all_read(data_type@->Struct_0, n));
            r
        },
        _ => true,
    }
}

/// Whether a type holds no bytes of a fixed length, of which a decoder reads
/// nothing but strings and nulls.
pub open spec fn without_fixed_bytes(t: DataTypeView) -> bool
    decreases t,
{
    match t {
        DataTypeView::FixedSizeBinary(_) => false,
        DataTypeView::List(f)
        | DataTypeView::ListView(f)
        | DataTypeView::LargeList(f)
        | DataTypeView::LargeListView(f)
        | DataTypeView::FixedSizeList(f, _)
        | DataTypeView::MapOf(f, _)
        | DataTypeView::RunEndEncoded(_, f) => without_fixed_bytes(f.data_type),
        DataTypeView::Struct(members) => all_without_fixed_bytes(members),
        _ => true,
    }
}

/// Whether the types of `members` hold no bytes of a fixed length.
pub open spec fn all_without_fixed_bytes(members: Seq<FieldView>) -> bool
    decreases members,
{
    forall|i: int|
        0 <= i < members.len() ==> without_fixed_bytes((#[trigger] members[i]).data_type)
}

fn have_no_fixed_bytes(fields: &Vec<Field>) -> (r: bool)
    ensures
        r == all_without_fixed_bytes(crate::types::field_views(fields@)),
    decreases fields@,
{
    let ghost views = crate::types::field_views(fields@);
    let mut i: usize = 0;
    while i < fields.len()
        invariant
            i <= fields.len(),
            views == crate::types::field_views(fields@),
            forall|k: int| 0 <= k < i ==> without_fixed_bytes((#[trigger] views[k]).data_type),
        decreases fields.len() - i,
    {
        assert(views[i as int] == fields@[i as int]@);
        assert(decreases_to!(fields@ => fields@[i as int]));
        if !has_no_fixed_bytes(&fields[i].data_type) {
            assert(!without_fixed_bytes(views[i as int].data_type));
            return false;
        }
        i += 1;
    }
    true
}

fn has_no_fixed_bytes(data_type: &DataType) -> (r: bool)
    ensures
        r == without_fixed_bytes(data_type@),
    decreases data_type,
{
    proof {
        reveal_with_fuel(DataType::view, 3);
        reveal_with_fuel(Field::view, 3);
    }
    match data_type {
        DataType::FixedSizeBinary(_) => false,
        DataType::List(f)
        | DataType::ListView(f)
        | DataType::LargeList(f)
        | DataType::LargeListView(f)
        | DataType::FixedSizeList(f, _)
        | DataType::MapOf(f, _)
        | DataType::RunEndEncoded(_, f) => has_no_fixed_bytes(&f.data_type),
        DataType::Struct(members) => {
            let r = have_no_fixed_bytes(members);
            assert(r == all_without_fixed_bytes(data_type@->Struct_0));
            r
        },
        _ => true,
    }
}

/// How many positions a decoder lists at most within a type for each position
/// outside it: a null of a list of a fixed size stands for that many elements,
/// and a struct has a position for each of its members.
pub open spec fn breadth(t: DataTypeView) -> nat
    decreases t, 0nat,
{
    match t {
        DataTypeView::List(f)
        | DataTypeView::ListView(f)
        | DataTypeView::LargeList(f)
        | DataTypeView::LargeListView(f)
        | DataTypeView::MapOf(f, _) => 1 + breadth(f.data_type),
        DataTypeView::RunEndEncoded(_, f) => 2 + breadth(f.data_type),
        DataTypeView::FixedSizeList(f, n) => if n < 0 {
            1 + breadth(f.data_type)
        } else {
            ((n + 1) * (1 + breadth(f.data_type))) as nat
        },
        DataTypeView::Struct(members) => 1 + breadths(members, members.len()),
        _ => 1,
    }
}

/// The breadths of the types of the first `n` of `members`, together.
pub open spec fn breadths(members: Seq<FieldView>, n: nat) -> nat
    decreases members, n,
{
    if n == 0 || n > members.len() {
        0
    } else {
        breadths(members, (n - 1) as nat) + breadth(members[n - 1].data_type)
    }
}

/// `n`, or any number above [`MOST_POSITIONS`] as the first of them.
pub open spec fn bounded(n: nat) -> nat {
    if n > MOST_POSITIONS {
        (MOST_POSITIONS + 1) as nat
    } else {
        n
    }
}

fn bound(n: u128) -> (r: u64)
    ensures
        r == bounded(n as nat),
{
    if n > MOST_POSITIONS as u128 {
        MOST_POSITIONS + 1
    } else {
        n as u64
    }
}

fn breadths_of(fields: &Vec<Field>) -> (r: u64)
    ensures
        r == bounded(breadths(crate::types::field_views(fields@), fields@.len())),
    decreases fields@,
{
    let ghost views = crate::types::field_views(fields@);
    let mut sum: u64 = 0;
    let mut i: usize = 0;
    while i < fields.len()
        invariant
            i <= fields.len(),
            views == crate::types::field_views(fields@),
            views.len() == fields.len(),
            sum == bounded(breadths(views, i as nat)),
        decreases fields.len() - i,
    {
        assert(views[i as int] == fields@[i as int]@);
        assert(decreases_to!(fields@ => fields@[i as int]));
        let more: u64 = breadth_of(&fields[i].data_type);
        assert(breadths(views, (i + 1) as nat) == breadths(views, i as nat) + breadth(
            views[i as int].data_type,
        ));
        sum = bound(sum as u128 + more as u128);
        i += 1;
    }
    sum
}

fn breadth_of(data_type: &DataType) -> (r: u64)
    ensures
        r == bounded(breadth(data_type@)),
    decreases data_type,
{
    proof {
        reveal_with_fuel(DataType::view, 3);
        reveal_with_fuel(Field::view, 3);
    }
    match data_type {
        DataType::List(f)
        | DataType::ListView(f)
        | DataType::LargeList(f)
        | DataType::LargeListView(f)
        | DataType::MapOf(f, _) => bound(1 + breadth_of(&f.data_type) as u128),
        DataType::RunEndEncoded(_, f) => bound(2 + breadth_of(&f.data_type) as u128),
        DataType::FixedSizeList(f, n) => {
            let within: u128 = 1 + breadth_of(&f.data_type) as u128;
            if *n < 0 {
                return bound(within);
            }
            let times: u128 = *n as u128 + 1;
            let ghost all = 1 + breadth(f.data_type@);
            assert(times * within <= 0xFFFF_FFFF * 0x1FF_FFFF_FFFF_FFFF) by (nonlinear_arith)
                requires
                    times <= 0xFFFF_FFFF,
                    within <= 0x1FF_FFFF_FFFF_FFFF,
            ;
            assert(within <= all && times >= 1 ==> within <= times * within && all <= times * all)
                by (nonlinear_arith);
            bound(times * within)
        },
        DataType::Struct(members) => {
            let within: u128 = breadths_of(members) as u128;
            assert(data_type@->Struct_0 == crate::types::field_views(members@));
            bound(1 + within)
        },
        _ => 1,
    }
}

/// What comes after a backslash within a string.
#[derive(Clone, Copy, Debug, PartialEq, Eq, Structural)]
pub enum Escape {
    /// No backslash was read.
    Out,
    /// A backslash was read.
    Begun,
    /// A character is spelled by its code: the hexadecimal digits that are still to
    /// come, and the code so far.
    Code(u32, u32),
}

/// Where the reading of lines has come to.
#[derive(Clone, Copy, Debug, PartialEq, Eq, Structural)]
pub struct Scan {
    /// Whether a string is being read.
    pub text: bool,
    /// What comes after a backslash within it.
    pub escape: Escape,
    /// The number being read, within a string or outside.
    pub numeral: Option<Numeral>,
    /// How deep arrays and objects are nested.
    pub depth: u32,
    /// Whether each number could be read so far, and nothing was nested too deep.
    pub fine: bool,
}

/// The value of a hexadecimal digit.
pub open spec fn hex_value(c: char) -> u32 {
    if is_digit(c) {
        (c as u32 - '0' as u32) as u32
    } else if 'a' <= c <= 'f' {
        (c as u32 - 'a' as u32 + 10) as u32
    } else if 'A' <= c <= 'F' {
        (c as u32 - 'A' as u32 + 10) as u32
    } else {
        0
    }
}

/// The character of a code among those that a number is made of, or one that it
/// is not made of.
pub open spec fn spelled(code: u32) -> char {
    if code < 128 {
        code as char
    } else {
        ' '
    }
}

impl Scan {
    /// Before the first line.
    pub open spec fn start() -> Scan {
        Scan { text: false, escape: Escape::Out, numeral: None, depth: 0, fine: true }
    }

    /// Whether all is well once the number being read has ended.
    pub open spec fn fine_at_end(self, t: DataTypeView) -> bool {
        self.fine && (self.numeral matches Some(n) ==> reads(t, n))
    }

    /// Once the number being read has ended.
    pub open spec fn ended(self, t: DataTypeView) -> Scan {
        Scan { numeral: None, fine: self.fine_at_end(t), ..self }
    }

    /// After one more character of a string.
    pub open spec fn spells(self, c: char, t: DataTypeView) -> Scan {
        match self.numeral {
            Some(n) => match n.followed_by(c) {
                Some(more) => Scan { numeral: Some(more), ..self },
                None => self.ended(t),
            },
            None => self,
        }
    }

    /// After one more character, while a string is being read.
    pub open spec fn in_text(self, c: char, t: DataTypeView) -> Scan {
        match self.escape {
            Escape::Out => if c == '\\' {
                Scan { escape: Escape::Begun, ..self }
            } else if c == '"' {
                Scan { text: false, ..self.ended(t) }
            } else {
                self.spells(c, t)
            },
            Escape::Begun => if c == 'u' {
                Scan { escape: Escape::Code(4, 0), ..self }
            } else {
                Scan { escape: Escape::Out, ..self.ended(t) }
            },
            Escape::Code(left, code) => {
                let code = (code * 16 + hex_value(c)) as u32;
                if left > 1 {
                    Scan { escape: Escape::Code((left - 1) as u32, code), ..self }
                } else {
                    Scan { escape: Escape::Out, ..self }.spells(spelled(code), t)
                }
            },
        }
    }

    /// After one more character, while no string is being read.
    pub open spec fn outside(self, c: char, t: DataTypeView) -> Scan {
        if c == '"' {
            Scan { text: true, numeral: Some(Numeral::nothing()), ..self.ended(t) }
        } else if c == '[' || c == '{' {
            Scan {
                depth: counted(self.depth + 1),
                fine: self.fine_at_end(t) && self.depth < DEEPEST,
                ..self.ended(t)
            }
        } else if c == ']' || c == '}' {
            Scan {
                depth: if self.depth > 0 {
                    (self.depth - 1) as u32
                } else {
                    0
                },
                ..self.ended(t)
            }
        } else if self.numeral is None {
            Scan {
                numeral: if is_digit(c) || c == '-' {
                    Numeral::nothing().followed_by(c)
                } else {
                    None
                },
                ..self
            }
        } else {
            self.spells(c, t)
        }
    }

    /// After one more character.
    pub open spec fn step(self, c: char, t: DataTypeView) -> Scan {
        if self.text {
            self.in_text(c, t)
        } else {
            self.outside(c, t)
        }
    }

    /// Whether nothing was counted beyond what is.
    pub open spec fn wf(self) -> bool {
        &&& self.numeral matches Some(n) ==> n.wf()
        &&& self.depth <= LONG
        &&& match self.escape {
            Escape::Code(left, code) => 1 <= left <= 4 && (left == 4 ==> code == 0) && (left == 3
                ==> code < 16) && (left == 2 ==> code < 256) && (left == 1 ==> code < 4096),
            _ => true,
        }
    }

    fn after_number(self, data_type: &DataType) -> (r: Scan)
        requires
            self.wf(),
        ensures
            r == self.ended(data_type@),
            r.wf(),
    {
        let read = match self.numeral {
            Some(n) => does_read(data_type, n),
            None => true,
        };
        Scan { numeral: None, fine: self.fine && read, ..self }
    }

    fn after_spelling(self, c: char, data_type: &DataType) -> (r: Scan)
        requires
            self.wf(),
        ensures
            r == self.spells(c, data_type@),
            r.wf(),
    {
        match self.numeral {
            Some(n) => match n.with(c) {
                Some(more) => Scan { numeral: Some(more), ..self },
                None => self.after_number(data_type),
            },
            None => self,
        }
    }

    fn after(self, c: char, data_type: &DataType) -> (r: Scan)
        requires
            self.wf(),
        ensures
            r == self.step(c, data_type@),
            r.wf(),
    {
        if self.text {
            match self.escape {
                Escape::Out => if c == '\\' {
                    Scan { escape: Escape::Begun, ..self }
                } else if c == '"' {
                    Scan { text: false, ..self.after_number(data_type) }
                } else {
                    self.after_spelling(c, data_type)
                },
                Escape::Begun => if c == 'u' {
                    Scan { escape: Escape::Code(4, 0), ..self }
                } else {
                    Scan { escape: Escape::Out, ..self.after_number(data_type) }
                },
                Escape::Code(left, code) => {
                    let code: u32 = code * 16 + hex_digit(c);
                    if left > 1 {
                        Scan { escape: Escape::Code(left - 1, code), ..self }
                    } else {
                        Scan { escape: Escape::Out, ..self }.after_spelling(
                            character(code),
                            data_type,
                        )
                    }
                },
            }
        } else if c == '"' {
            Scan { text: true, numeral: Some(Numeral::none()), ..self.after_number(data_type) }
        } else if c == '[' || c == '{' {
            let ended = self.after_number(data_type);
            Scan {
                depth: count(self.depth + 1),
                fine: ended.fine && self.depth < DEEPEST,
                ..ended
            }
        } else if c == ']' || c == '}' {
            Scan {
                depth: if self.depth > 0 {
                    self.depth - 1
                } else {
                    0
                },
                ..self.after_number(data_type)
            }
        } else {
            match self.numeral {
                Some(_) => self.after_spelling(c, data_type),
                None => Scan {
                    numeral: if ('0' <= c && c <= '9') || c == '-' {
                        Numeral::none().with(c)
                    } else {
                        None
                    },
                    ..self
                },
            }
        }
    }
}

fn hex_digit(c: char) -> (r: u32)
    ensures
        r == hex_value(c),
        r < 16,
{
    if '0' <= c && c <= '9' {
        c as u32 - '0' as u32
    } else if 'a' <= c && c <= 'f' {
        c as u32 - 'a' as u32 + 10
    } else if 'A' <= c && c <= 'F' {
        c as u32 - 'A' as u32 + 10
    } else {
        0
    }
}

fn character(code: u32) -> (r: char)
    ensures
        r == spelled(code),
{
    if code < 128 {
        code as u8 as char
    } else {
        ' '
    }
}

/// Where the reading of the first `n` characters has come to.
pub open spec fn scanned(lines: Seq<char>, n: nat, t: DataTypeView) -> Scan
    decreases n,
{
    if n == 0 {
        Scan::start()
    } else {
        scanned(lines, (n - 1) as nat, t).step(lines[n - 1], t)
    }
}

/// Whether the decoder of JSON comes to an end on lines, for a column of a type.
/// It counts their bytes in 32 bits. It reads bytes of a fixed length from nothing
/// but strings and nulls, and gives up on anything else; so a type with such bytes
/// is left out. It lists the positions of the elements of a list of a fixed size,
/// even of one that is null. It counts the digits of what it reads a decimal from,
/// which may be any number or string of the lines. It describes a value that it
/// did not expect by recursion over what is nested in it.
pub open spec fn answers(lines: Seq<char>, t: DataTypeView) -> bool {
    let bytes = vstd::utf8::encode_utf8(lines).len();
    &&& bytes <= u32::MAX
    &&& without_fixed_bytes(t)
    &&& (bytes + 1) * breadth(t) <= MOST_POSITIONS
    &&& scanned(lines, lines.len(), t).fine
}

/// Whether the decoder of JSON comes to an end on lines: see [`answers`].
pub fn decoder_answers(lines: &str, data_type: &DataType) -> (r: bool)
    ensures
        r == answers(lines@, data_type@),
{
    let bytes: usize = lines.as_bytes().len();
    if bytes > u32::MAX as usize || !has_no_fixed_bytes(data_type) {
        return false;
    }
    let times: u128 = bytes as u128 + 1;
    let breadth: u128 = breadth_of(data_type) as u128;
    let ghost all = self::breadth(data_type@);
    assert(times * breadth <= 0x1_0000_0000 * 0x1FF_FFFF_FFFF_FFFF) by (nonlinear_arith)
        requires
            times <= 0x1_0000_0000,
            breadth <= 0x1FF_FFFF_FFFF_FFFF,
    ;
    assert(times >= 1 ==> breadth <= times * breadth && all <= times * all) by (nonlinear_arith);
    if times * breadth > MOST_POSITIONS as u128 {
        return false;
    }
    let chars = char_vec(lines);
    let mut scan = Scan { text: false, escape: Escape::Out, numeral: None, depth: 0, fine: true };
    let mut i: usize = 0;
    while i < chars.len()
        invariant
            i <= chars.len(),
            chars@ == lines@,
            scan.wf(),
            scan == scanned(lines@, i as nat, data_type@),
        decreases chars.len() - i,
    {
        scan = scan.after(chars[i], data_type);
        i += 1;
    }
    scan.fine
}

/// How many of the first `n` characters open an array or an object.
pub open spec fn openings(lines: Seq<char>, n: nat) -> nat
    decreases n,
{
    if n == 0 {
        0
    } else {
        openings(lines, (n - 1) as nat) + (if lines[n - 1] == '[' || lines[n - 1] == '{' {
            1nat
        } else {
            0nat
        })
    }
}

proof fn few_openings_nest_little(lines: Seq<char>, n: nat, t: DataTypeView)
    requires
        n <= lines.len(),
        openings(lines, n) <= DEEPEST,
        forall|number: Numeral| #[trigger] reads(t, number),
    ensures
        scanned(lines, n, t).fine,
        scanned(lines, n, t).depth <= openings(lines, n),
    decreases n,
{
    if n > 0 {
        few_openings_nest_little(lines, (n - 1) as nat, t);
    }
}

/// A decoder that reads any number into the type comes to an end on lines that are
/// not too long and open no more arrays and objects than may be nested.
pub proof fn lines_that_nest_little_are_decoded(lines: Seq<char>, t: DataTypeView)
    requires
        forall|number: Numeral| #[trigger] reads(t, number),
        without_fixed_bytes(t),
        vstd::utf8::encode_utf8(lines).len() <= u32::MAX,
        (vstd::utf8::encode_utf8(lines).len() + 1) * breadth(t) <= 72_057_594_037_927_936,
        openings(lines, lines.len()) <= 1_000,
    ensures
        answers(lines, t),
{
    few_openings_nest_little(lines, lines.len(), t);
}

/// Only decimals limit the numbers that are read, wherever in a type they are.
pub proof fn decimals_alone_limit_the_numbers(t: DataTypeView, number: Numeral)
    ensures
        !reads(t, number) ==> t is Decimal32 || t is Decimal64 || t is Decimal128 || t is Decimal256
            || t is List || t is ListView || t is LargeList || t is LargeListView
            || t is FixedSizeList || t is MapOf || t is RunEndEncoded || t is Struct,
        t matches DataTypeView::List(f) ==> reads(t, number) == reads(f.data_type, number),
        t matches DataTypeView::LargeList(f) ==> reads(t, number) == reads(f.data_type, number),
        t matches DataTypeView::FixedSizeList(f, _) ==> reads(t, number) == reads(
            f.data_type,
            number,
        ),
        t matches DataTypeView::MapOf(f, _) ==> reads(t, number) == reads(f.data_type, number),
        t matches DataTypeView::Struct(members) ==> reads(t, number) == (forall|i: int|
            0 <= i < members.len() ==> reads((#[trigger] members[i]).data_type, number)),
{
    if let DataTypeView::Struct(members) = t {
        assert(reads(t, number) == all_read(members, number));
        assert(all_read(members, number) == (forall|i: int|
            0 <= i < members.len() ==> reads((#[trigger] members[i]).data_type, number)));
    }
}

/// A number without an exponent is read into a decimal where its digits and those
/// of the decimal's fraction are no more than 127; one with an exponent where these
/// and the exponent are no more than 31 in all.
pub proof fn ordinary_numbers_are_read(number: Numeral, precision: u8, scale: i8)
    requires
        scale >= 0,
        !number.powered ==> number.whole + number.fraction + scale <= 127,
        number.powered ==> number.whole + number.fraction + number.exponent + scale <= 31,
    ensures
        reads(DataTypeView::Decimal32(precision, scale), number),
        reads(DataTypeView::Decimal64(precision, scale), number),
        reads(DataTypeView::Decimal128(precision, scale), number),
        reads(DataTypeView::Decimal256(precision, scale), number),
{
}

} // verus!
