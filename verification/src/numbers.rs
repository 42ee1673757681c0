//! Bounded decimal values: a three-digit word and a two-digit address, each
//! with wrap-around arithmetic that reports a transient flag.

use crate::text::{
    padded_decimal, push_padded_decimal, push_signed_decimal, signed_decimal,
};
use vstd::prelude::*;
use vstd::string::*;

verus! {

/// The condition raised by the most recent arithmetic operation.
#[derive(Debug, PartialEq, Eq, Clone, Copy, Structural)]
pub enum Flag {
    /// A subtraction went below zero.
    NEG,
    /// An addition went past the largest value.
    OVERFLOW,
}

/// Why a bounded number could not be built.
#[derive(Debug, PartialEq, Eq, Clone, Copy, Structural)]
pub enum NumberError {
    /// The offending value lies outside the bounds of the type.
    OutOfBounds(i64),
}

/// The name of a flag.
pub open spec fn flag_name(flag: Flag) -> Seq<char> {
    match flag {
        Flag::NEG => "NEG"@,
        Flag::OVERFLOW => "OVERFLOW"@,
    }
}

/// The words in which a refused number is reported.
pub open spec fn number_error_message(e: NumberError) -> Seq<char> {
    match e {
        NumberError::OutOfBounds(v) => "number out of bounds: got "@ + signed_decimal(v as int),
    }
}

impl Flag {
    /// The name of the flag.
    pub fn to_string(&self) -> (s: String)
        ensures
            s@ == flag_name(*self),
    {
        match self {
            Flag::NEG => "NEG".to_owned(),
            Flag::OVERFLOW => "OVERFLOW".to_owned(),
        }
    }
}

impl NumberError {
    /// The words in which the refusal is reported.
    pub fn to_string(&self) -> (s: String)
        ensures
            s@ == number_error_message(*self),
    {
        match self {
            NumberError::OutOfBounds(v) => {
                let mut s = "number out of bounds: got ".to_owned();
                push_signed_decimal(&mut s, *v);
                s
            },
        }
    }
}

/// The mathematical content of a bounded number: its value and the flag that
/// the operation which produced it raised, if any.
pub ghost struct Word {
    pub value: int,
    pub flag: Option<Flag>,
}

/// The words that a vector of three-digit numbers holds, in order.
pub open spec fn words(v: Seq<ThreeDigitNumber>) -> Seq<Word> {
    Seq::new(v.len(), |i: int| v[i]@)
}

/// The largest value of a three-digit number.
pub const THREE_DIGIT_MAX: i16 = 999;

/// The largest value of a two-digit number.
pub const TWO_DIGIT_MAX: u8 = 99;

/// Sum of two three-digit values: at most 999 it is kept, above it wraps by
/// 1000 and raises `OVERFLOW`.
pub open spec fn three_digit_sum(a: int, b: int) -> Word {
    if a + b > 999 {
        Word { value: a + b - 1000, flag: Some(Flag::OVERFLOW) }
    } else {
        Word { value: a + b, flag: None }
    }
}

/// Difference of two three-digit values: below zero it wraps by 1000 and
/// raises `NEG`.
pub open spec fn three_digit_difference(a: int, b: int) -> Word {
    if a - b < 0 {
        Word { value: (a - b) % 1000, flag: Some(Flag::NEG) }
    } else {
        Word { value: a - b, flag: None }
    }
}

/// Sum of two two-digit values: above 99 it wraps by 100 and raises
/// `OVERFLOW`.
pub open spec fn two_digit_sum(a: int, b: int) -> Word {
    if a + b > 99 {
        Word { value: (a + b) % 100, flag: Some(Flag::OVERFLOW) }
    } else {
        Word { value: a + b, flag: None }
    }
}

/// A decimal number from 000 to 999.
#[derive(Debug, PartialEq, Eq, Clone, Copy)]
pub struct ThreeDigitNumber(i16, Option<Flag>);

impl View for ThreeDigitNumber {
    type V = Word;

    closed spec fn view(&self) -> Word {
        Word { value: self.0 as int, flag: self.1 }
    }
}

impl ThreeDigitNumber {
    #[verifier::type_invariant]
    spec fn in_bounds(self) -> bool {
        0 <= self.0 <= 999
    }

    /// Builds the number `value` with no flag; fails when `value` is not a
    /// three-digit number.
    pub fn new(value: i16) -> (r: Result<Self, NumberError>)
        ensures
            0 <= value <= 999 ==> r is Ok && r->Ok_0@ == (Word { value: value as int, flag: None }),
            !(0 <= value <= 999) ==> r == Err::<Self, NumberError>(
                NumberError::OutOfBounds(value as i64),
            ),
    {
        if 0 <= value && value <= THREE_DIGIT_MAX {
            Ok(ThreeDigitNumber(value, None))
        } else {
            Err(NumberError::OutOfBounds(value as i64))
        }
    }

    /// Builds the number `value` carrying `flag`; fails when `value` is not a
    /// three-digit number.
    pub fn new_with_flag(value: i16, flag: Option<Flag>) -> (r: Result<Self, NumberError>)
        ensures
            0 <= value <= 999 ==> r is Ok && r->Ok_0@ == (Word { value: value as int, flag }),
            !(0 <= value <= 999) ==> r == Err::<Self, NumberError>(
                NumberError::OutOfBounds(value as i64),
            ),
    {
        if 0 <= value && value <= THREE_DIGIT_MAX {
            Ok(ThreeDigitNumber(value, flag))
        } else {
            Err(NumberError::OutOfBounds(value as i64))
        }
    }

    /// The value, always within 0..=999.
    pub fn value(&self) -> (v: i16)
        ensures
            v == self@.value,
            0 <= v <= 999,
    {
        proof {
            use_type_invariant(self);
        }
        self.0
    }

    /// The flag raised by the operation that produced this number.
    pub fn flag(&self) -> (f: Option<Flag>)
        ensures
            f == self@.flag,
    {
        self.1
    }

    /// The three decimal digits of the number, zeros in front included.
    pub fn to_string(&self) -> (s: String)
        ensures
            s@ == padded_decimal(self@.value as nat, 3),
            s@.len() == 3,
    {
        proof {
            use_type_invariant(self);
            reveal_with_fuel(padded_decimal, 4);
        }
        let mut s = String::new();
        push_padded_decimal(&mut s, self.0 as u64, 3);
        s
    }

    /// Wrapping addition; the flags of the operands play no part.
    pub fn add(self, other: Self) -> (r: Result<Self, NumberError>)
        ensures
            r is Ok,
            r->Ok_0@ == three_digit_sum(self@.value, other@.value),
    {
        proof {
            use_type_invariant(self);
            use_type_invariant(other);
        }
        let sum: i16 = self.0 + other.0;
        if sum > THREE_DIGIT_MAX {
            Ok(ThreeDigitNumber(sum - 1000, Some(Flag::OVERFLOW)))
        } else {
            Ok(ThreeDigitNumber(sum, None))
        }
    }

    /// Replaces `self` by the wrapping sum of `self` and `other`.
    pub fn add_assign(&mut self, other: Self)
        ensures
            final(self)@ == three_digit_sum(old(self)@.value, other@.value),
    {
        proof {
            use_type_invariant(*self);
            use_type_invariant(other);
        }
        let sum: i16 = self.0 + other.0;
        if sum > THREE_DIGIT_MAX {
            *self = ThreeDigitNumber(sum - 1000, Some(Flag::OVERFLOW));
        } else {
            *self = ThreeDigitNumber(sum, None);
        }
    }

    /// Wrapping subtraction; the flags of the operands play no part.
    pub fn sub(self, other: Self) -> (r: Result<Self, NumberError>)
        ensures
            r is Ok,
            r->Ok_0@ == three_digit_difference(self@.value, other@.value),
    {
        proof {
            use_type_invariant(self);
            use_type_invariant(other);
        }
        let diff: i16 = self.0 - other.0;
        if diff < 0 {
            Ok(ThreeDigitNumber(diff + 1000, Some(Flag::NEG)))
        } else {
            Ok(ThreeDigitNumber(diff, None))
        }
    }

    /// Replaces `self` by the wrapping difference of `self` and `other`.
    pub fn sub_assign(&mut self, other: Self)
        ensures
            final(self)@ == three_digit_difference(old(self)@.value, other@.value),
    {
        proof {
            use_type_invariant(*self);
            use_type_invariant(other);
        }
        let diff: i16 = self.0 - other.0;
        if diff < 0 {
            *self = ThreeDigitNumber(diff + 1000, Some(Flag::NEG));
        } else {
            *self = ThreeDigitNumber(diff, None);
        }
    }
}

/// A decimal number from 00 to 99: a mailbox address.
#[derive(Debug, PartialEq, Eq, Clone, Copy)]
pub struct TwoDigitNumber(u8, Option<Flag>);

impl View for TwoDigitNumber {
    type V = Word;

    closed spec fn view(&self) -> Word {
        Word { value: self.0 as int, flag: self.1 }
    }
}

impl TwoDigitNumber {
    #[verifier::type_invariant]
    spec fn in_bounds(self) -> bool {
        self.0 <= 99
    }

    /// Builds the address `value` with no flag; fails when `value` is not a
    /// two-digit number.
    pub fn new(value: u8) -> (r: Result<Self, NumberError>)
        ensures
            value <= 99 ==> r is Ok && r->Ok_0@ == (Word { value: value as int, flag: None }),
            value > 99 ==> r == Err::<Self, NumberError>(NumberError::OutOfBounds(value as i64)),
    {
        if value <= TWO_DIGIT_MAX {
            Ok(TwoDigitNumber(value, None))
        } else {
            Err(NumberError::OutOfBounds(value as i64))
        }
    }

    /// Builds the address `value` carrying `flag`; fails when `value` is not
    /// a two-digit number.
    pub fn new_with_flag(value: u8, flag: Option<Flag>) -> (r: Result<Self, NumberError>)
        ensures
            value <= 99 ==> r is Ok && r->Ok_0@ == (Word { value: value as int, flag }),
            value > 99 ==> r == Err::<Self, NumberError>(NumberError::OutOfBounds(value as i64)),
    {
        if value <= TWO_DIGIT_MAX {
            Ok(TwoDigitNumber(value, flag))
        } else {
            Err(NumberError::OutOfBounds(value as i64))
        }
    }

    /// The value, always within 0..=99.
    pub fn value(&self) -> (v: u8)
        ensures
            v == self@.value,
            v <= 99,
    {
        proof {
            use_type_invariant(self);
        }
        self.0
    }

    /// The flag raised by the operation that produced this number.
    pub fn flag(&self) -> (f: Option<Flag>)
        ensures
            f == self@.flag,
    {
        self.1
    }

    /// The two decimal digits of the number, a zero in front included.
    pub fn to_string(&self) -> (s: String)
        ensures
            s@ == padded_decimal(self@.value as nat, 2),
            s@.len() == 2,
    {
        proof {
            reveal_with_fuel(padded_decimal, 3);
        }
        let mut s = String::new();
        push_padded_decimal(&mut s, self.0 as u64, 2);
        s
    }

    /// Wrapping addition: past 99 the sum resumes at 0.
    pub fn add(self, other: Self) -> (r: Result<Self, NumberError>)
        ensures
            r is Ok,
            r->Ok_0@ == two_digit_sum(self@.value, other@.value),
    {
        proof {
            use_type_invariant(self);
            use_type_invariant(other);
        }
        let sum: u8 = self.0 + other.0;
        if sum > TWO_DIGIT_MAX {
            Ok(TwoDigitNumber(sum % 100, Some(Flag::OVERFLOW)))
        } else {
            Ok(TwoDigitNumber(sum, None))
        }
    }

    /// Replaces `self` by the wrapping sum of `self` and `other`.
    pub fn add_assign(&mut self, other: Self)
        ensures
            final(self)@ == two_digit_sum(old(self)@.value, other@.value),
    {
        proof {
            use_type_invariant(*self);
            use_type_invariant(other);
        }
        let sum: u8 = self.0 + other.0;
        if sum > TWO_DIGIT_MAX {
            *self = TwoDigitNumber(sum % 100, Some(Flag::OVERFLOW));
        } else {
            *self = TwoDigitNumber(sum, None);
        }
    }
}

/// Three-digit addition is addition modulo 1000, and raises `OVERFLOW`
/// exactly when the true sum exceeds 999.
pub proof fn lemma_three_digit_sum_is_modular(a: int, b: int)
    requires
        0 <= a <= 999,
        0 <= b <= 999,
    ensures
        three_digit_sum(a, b).value == (a + b) % 1000,
        0 <= three_digit_sum(a, b).value <= 999,
        three_digit_sum(a, b).flag == Some(Flag::OVERFLOW) <==> a + b > 999,
        three_digit_sum(a, b).flag is None <==> a + b <= 999,
{
}

/// Three-digit subtraction is subtraction modulo 1000, and raises `NEG`
/// exactly when the minuend is the smaller operand.
pub proof fn lemma_three_digit_difference_is_modular(a: int, b: int)
    requires
        0 <= a <= 999,
        0 <= b <= 999,
    ensures
        three_digit_difference(a, b).value == (a - b) % 1000,
        0 <= three_digit_difference(a, b).value <= 999,
        three_digit_difference(a, b).flag == Some(Flag::NEG) <==> a < b,
        three_digit_difference(a, b).flag is None <==> a >= b,
{
}

/// Two-digit addition is addition modulo 100: an address stepped past 99
/// resumes at 0.
pub proof fn lemma_two_digit_sum_is_modular(a: int, b: int)
    requires
        0 <= a <= 99,
        0 <= b <= 99,
    ensures
        two_digit_sum(a, b).value == (a + b) % 100,
        0 <= two_digit_sum(a, b).value <= 99,
        two_digit_sum(a, b).flag == Some(Flag::OVERFLOW) <==> a + b > 99,
        two_digit_sum(99, 1).value == 0,
{
}

} // verus!
