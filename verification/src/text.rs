//! Character-level rules shared by every textual format of the machine:
//! what counts as white space, how a line is trimmed and cut into tokens, how
//! a field is cut at a delimiter, and how a decimal integer is read.

use vstd::prelude::*;
use vstd::string::*;

verus! {

/// White space: the code points that Unicode gives the property
/// `White_Space`.
pub open spec fn is_space(c: char) -> bool {
    let n = c as u32;
    ||| 0x09 <= n <= 0x0D
    ||| n == 0x20
    ||| n == 0x85
    ||| n == 0xA0
    ||| n == 0x1680
    ||| 0x2000 <= n <= 0x200A
    ||| n == 0x2028
    ||| n == 0x2029
    ||| n == 0x202F
    ||| n == 0x205F
    ||| n == 0x3000
}

/// The texts that a vector of strings holds, in order.
pub open spec fn texts(v: Seq<String>) -> Seq<Seq<char>> {
    Seq::new(v.len(), |i: int| v[i]@)
}

/// The first position at or after `i` that holds no white space (the length
/// of `s` if there is none).
pub open spec fn skip_spaces(s: Seq<char>, i: int) -> int
    decreases s.len() - i,
{
    if 0 <= i < s.len() && is_space(s[i]) {
        skip_spaces(s, i + 1)
    } else {
        i
    }
}

/// The end of the text that is left of `s[..j]` once its trailing white
/// space is removed.
pub open spec fn skip_spaces_back(s: Seq<char>, j: int) -> int
    decreases j,
{
    if 0 < j <= s.len() && is_space(s[j - 1]) {
        skip_spaces_back(s, j - 1)
    } else {
        j
    }
}

/// `s` without its leading and trailing white space.
pub open spec fn trimmed(s: Seq<char>) -> Seq<char> {
    let a = skip_spaces(s, 0);
    let b = skip_spaces_back(s, s.len() as int);
    if a < b {
        s.subrange(a, b)
    } else {
        Seq::empty()
    }
}

/// The first position at or after `i` that holds white space (the length of
/// `s` if there is none).
pub open spec fn word_end(s: Seq<char>, i: int) -> int
    decreases s.len() - i,
{
    if 0 <= i < s.len() && !is_space(s[i]) {
        word_end(s, i + 1)
    } else {
        i
    }
}

/// The tokens of `s` that start at or after `i`: the maximal runs of
/// characters that are not white space, from left to right.
pub open spec fn tokens_from(s: Seq<char>, i: int) -> Seq<Seq<char>>
    decreases s.len() - i,
{
    if i < 0 || i >= s.len() {
        Seq::empty()
    } else if is_space(s[i]) {
        tokens_from(s, i + 1)
    } else {
        let e = word_end(s, i + 1);
        proof {
            lemma_word_end_bounds(s, i + 1);
        }
        seq![s.subrange(i, e)] + tokens_from(s, e)
    }
}

/// The tokens of a line: its maximal runs of characters that are not white
/// space.
pub open spec fn tokens(s: Seq<char>) -> Seq<Seq<char>> {
    tokens_from(s, 0)
}

/// A word that starts within the text ends after its start and within the
/// text.
pub proof fn lemma_word_end_bounds(s: Seq<char>, i: int)
    requires
        0 <= i <= s.len(),
    ensures
        i <= word_end(s, i) <= s.len(),
        word_end(s, i) < s.len() ==> is_space(s[word_end(s, i)]),
        forall|k: int| i <= k < word_end(s, i) ==> !is_space(#[trigger] s[k]),
    decreases s.len() - i,
{
    if i < s.len() && !is_space(s[i]) {
        lemma_word_end_bounds(s, i + 1);
    }
}

/// Whether `c` is white space.
pub fn is_whitespace(c: char) -> (b: bool)
    ensures
        b == is_space(c),
{
    let n: u32 = c as u32;
    (0x09 <= n && n <= 0x0D) || n == 0x20 || n == 0x85 || n == 0xA0 || n == 0x1680 || (0x2000 <= n
        && n <= 0x200A) || n == 0x2028 || n == 0x2029 || n == 0x202F || n == 0x205F || n == 0x3000
}

/// The characters of `s`, one by one.
pub fn to_chars(s: &str) -> (v: Vec<char>)
    ensures
        v@ == s@,
{
    let mut v: Vec<char> = Vec::new();
    for c in it: s.chars()
        invariant
            it.seq() == s@,
            v@ == it.seq().take(it.index() as int),
    {
        v.push(c);
    }
    proof {
        assert(v@ == s@);
    }
    v
}

/// Whether two texts hold the same characters.
pub fn same_text(a: &str, b: &str) -> (r: bool)
    ensures
        r == (a@ == b@),
{
    let x = to_chars(a);
    let y = to_chars(b);
    if x.len() != y.len() {
        return false;
    }
    let n = x.len();
    let mut i: usize = 0;
    while i < n
        invariant
            i <= n,
            n == x@.len(),
            n == y@.len(),
            x@ == a@,
            y@ == b@,
            x@.take(i as int) == y@.take(i as int),
        decreases n - i,
    {
        if x[i] != y[i] {
            return false;
        }
        proof {
            assert(x@.take(i + 1) == x@.take(i as int).push(x@[i as int]));
            assert(y@.take(i + 1) == y@.take(i as int).push(y@[i as int]));
        }
        i += 1;
    }
    proof {
        assert(x@ == x@.take(n as int));
        assert(y@ == y@.take(n as int));
    }
    true
}

/// `s` without its leading and trailing white space.
pub fn trim(s: &str) -> (r: String)
    ensures
        r@ == trimmed(s@),
{
    let chars = to_chars(s);
    let n = chars.len();
    let mut a: usize = 0;
    while a < n && is_whitespace(chars[a])
        invariant
            a <= n,
            n == chars@.len(),
            skip_spaces(chars@, 0) == skip_spaces(chars@, a as int),
        decreases n - a,
    {
        a += 1;
    }
    let mut b: usize = n;
    while b > 0 && is_whitespace(chars[b - 1])
        invariant
            b <= n,
            n == chars@.len(),
            skip_spaces_back(chars@, n as int) == skip_spaces_back(chars@, b as int),
        decreases b,
    {
        b -= 1;
    }
    if a < b {
        s.substring_char(a, b).to_owned()
    } else {
        String::new()
    }
}

/// The tokens of `s`: its maximal runs of characters that are not white
/// space, from left to right.
pub fn split_whitespace(s: &str) -> (r: Vec<String>)
    ensures
        texts(r@) == tokens(s@),
{
    let chars = to_chars(s);
    let n = chars.len();
    let mut out: Vec<String> = Vec::new();
    let mut i: usize = 0;
    while i < n
        invariant
            i <= n,
            n == chars@.len(),
            chars@ == s@,
            tokens(s@) == texts(out@) + tokens_from(s@, i as int),
        decreases n - i,
    {
        if is_whitespace(chars[i]) {
            i += 1;
        } else {
            let start = i;
            i += 1;
            while i < n && !is_whitespace(chars[i])
                invariant
                    start < i <= n,
                    n == chars@.len(),
                    word_end(chars@, start + 1) == word_end(chars@, i as int),
                decreases n - i,
            {
                i += 1;
            }
            let token = s.substring_char(start, i).to_owned();
            proof {
                assert(texts(out@.push(token)) == texts(out@).push(token@));
            }
            out.push(token);
        }
    }
    out
}

/// The first position at or after `i` that holds `delimiter` (the length of
/// `s` if there is none).
pub open spec fn next_delimiter(s: Seq<char>, i: int, delimiter: char) -> int
    decreases s.len() - i,
{
    if 0 <= i < s.len() && s[i] != delimiter {
        next_delimiter(s, i + 1, delimiter)
    } else {
        i
    }
}

/// The fields of `s[i..]`: the pieces between one `delimiter` and the next.
/// There is always at least one field, and a field may be empty.
pub open spec fn fields_from(s: Seq<char>, i: int, delimiter: char) -> Seq<Seq<char>>
    decreases s.len() - i,
{
    if i < 0 || i > s.len() {
        Seq::empty()
    } else {
        let e = next_delimiter(s, i, delimiter);
        proof {
            lemma_next_delimiter_bounds(s, i, delimiter);
        }
        if e >= s.len() {
            seq![s.subrange(i, s.len() as int)]
        } else {
            seq![s.subrange(i, e)] + fields_from(s, e + 1, delimiter)
        }
    }
}

/// The fields of `s`: the pieces between one `delimiter` and the next.
pub open spec fn fields(s: Seq<char>, delimiter: char) -> Seq<Seq<char>> {
    fields_from(s, 0, delimiter)
}

/// The search for a delimiter stays within the text and passes over none.
pub proof fn lemma_next_delimiter_bounds(s: Seq<char>, i: int, delimiter: char)
    requires
        0 <= i <= s.len(),
    ensures
        i <= next_delimiter(s, i, delimiter) <= s.len(),
        next_delimiter(s, i, delimiter) < s.len() ==> s[next_delimiter(s, i, delimiter)]
            == delimiter,
        forall|k: int| i <= k < next_delimiter(s, i, delimiter) ==> #[trigger] s[k] != delimiter,
    decreases s.len() - i,
{
    if i < s.len() && s[i] != delimiter {
        lemma_next_delimiter_bounds(s, i + 1, delimiter);
    }
}

/// The fields of `s`: the pieces between one `delimiter` and the next.
pub fn split(s: &str, delimiter: char) -> (r: Vec<String>)
    ensures
        texts(r@) == fields(s@, delimiter),
        r@.len() >= 1,
{
    let chars = to_chars(s);
    let n = chars.len();
    let mut out: Vec<String> = Vec::new();
    let mut start: usize = 0;
    let mut done = false;
    while !done
        invariant
            start <= n,
            n == chars@.len(),
            chars@ == s@,
            !done ==> fields(s@, delimiter) == texts(out@) + fields_from(
                s@,
                start as int,
                delimiter,
            ),
            done ==> fields(s@, delimiter) == texts(out@) && out@.len() >= 1,
        decreases n - start + (if done { 0int } else { 1int }),
    {
        let mut e: usize = start;
        while e < n && chars[e] != delimiter
            invariant
                start <= e <= n,
                n == chars@.len(),
                next_delimiter(chars@, start as int, delimiter) == next_delimiter(
                    chars@,
                    e as int,
                    delimiter,
                ),
            decreases n - e,
        {
            e += 1;
        }
        let field = s.substring_char(start, e).to_owned();
        proof {
            assert(texts(out@.push(field)) == texts(out@).push(field@));
        }
        out.push(field);
        if e >= n {
            done = true;
        } else {
            start = e + 1;
        }
    }
    out
}

/// Why a text is no decimal integer of the wanted type.
#[derive(Debug, PartialEq, Eq, Clone, Copy, Structural)]
pub enum IntegerFault {
    /// The text is empty.
    Empty,
    /// The text holds a character that is no decimal digit where one is
    /// needed, or is a sign alone.
    InvalidDigit,
    /// The number is above the largest value of the type.
    PosOverflow,
    /// The number is below the smallest value of the type.
    NegOverflow,
}

/// Whether `c` is one of the ten decimal digits.
pub open spec fn is_digit(c: char) -> bool {
    0x30 <= c as u32 <= 0x39
}

/// The value of the decimal digit `c`.
pub open spec fn digit_value(c: char) -> int {
    c as u32 - 0x30
}

/// Reads the digits `s[i..]` from left to right onto the value `acc` read so
/// far, adding each digit or, for a negative number, subtracting it. The
/// first character that is no digit, or the first digit that takes the value
/// out of `min..=max`, ends the reading with the fault it causes.
pub open spec fn read_digits(
    s: Seq<char>,
    i: int,
    acc: int,
    negative: bool,
    min: int,
    max: int,
) -> Result<int, IntegerFault>
    decreases s.len() - i,
{
    if i < 0 || i >= s.len() {
        Ok(acc)
    } else if !is_digit(s[i]) {
        Err(IntegerFault::InvalidDigit)
    } else {
        let next = if negative {
            acc * 10 - digit_value(s[i])
        } else {
            acc * 10 + digit_value(s[i])
        };
        if next > max {
            Err(IntegerFault::PosOverflow)
        } else if next < min {
            Err(IntegerFault::NegOverflow)
        } else {
            read_digits(s, i + 1, next, negative, min, max)
        }
    }
}

/// The decimal integer that `s` denotes within `min..=max`: an optional sign
/// (`-` only where `signed`) followed by one or more digits and nothing
/// else.
pub open spec fn parse_integer(s: Seq<char>, signed: bool, min: int, max: int) -> Result<
    int,
    IntegerFault,
> {
    if s.len() == 0 {
        Err(IntegerFault::Empty)
    } else if s.len() == 1 && (s[0] == '+' || s[0] == '-') {
        Err(IntegerFault::InvalidDigit)
    } else if s[0] == '+' {
        read_digits(s, 1, 0, false, min, max)
    } else if s[0] == '-' && signed {
        read_digits(s, 1, 0, true, min, max)
    } else {
        read_digits(s, 0, 0, false, min, max)
    }
}

/// The signed 64-bit integer that `s` denotes.
pub open spec fn parse_i64_text(s: Seq<char>) -> Result<int, IntegerFault> {
    parse_integer(s, true, i64::MIN as int, i64::MAX as int)
}

/// The unsigned machine-sized integer that `s` denotes.
pub open spec fn parse_usize_text(s: Seq<char>) -> Result<int, IntegerFault> {
    parse_integer(s, false, 0, usize::MAX as int)
}

/// The words in which each fault is reported.
pub open spec fn fault_message(fault: IntegerFault) -> Seq<char> {
    match fault {
        IntegerFault::Empty => "cannot parse integer from empty string"@,
        IntegerFault::InvalidDigit => "invalid digit found in string"@,
        IntegerFault::PosOverflow => "number too large to fit in target type"@,
        IntegerFault::NegOverflow => "number too small to fit in target type"@,
    }
}

impl IntegerFault {
    /// The words in which the fault is reported.
    pub fn message(&self) -> (m: String)
        ensures
            m@ == fault_message(*self),
    {
        match self {
            IntegerFault::Empty => "cannot parse integer from empty string".to_owned(),
            IntegerFault::InvalidDigit => "invalid digit found in string".to_owned(),
            IntegerFault::PosOverflow => "number too large to fit in target type".to_owned(),
            IntegerFault::NegOverflow => "number too small to fit in target type".to_owned(),
        }
    }
}

/// Reads `s` as a signed 64-bit decimal integer.
pub fn parse_i64(s: &str) -> (r: Result<i64, IntegerFault>)
    ensures
        match r {
            Ok(v) => parse_i64_text(s@) == Ok::<int, IntegerFault>(v as int),
            Err(e) => parse_i64_text(s@) == Err::<int, IntegerFault>(e),
        },
{
    let chars = to_chars(s);
    let n = chars.len();
    if n == 0 {
        return Err(IntegerFault::Empty);
    }
    let first = chars[0];
    if n == 1 && (first == '+' || first == '-') {
        return Err(IntegerFault::InvalidDigit);
    }
    let negative = first == '-';
    let mut i: usize = if first == '+' || first == '-' {
        1
    } else {
        0
    };
    let mut acc: i64 = 0;
    while i < n
        invariant
            i <= n,
            n == chars@.len(),
            chars@ == s@,
            parse_i64_text(s@) == read_digits(
                s@,
                i as int,
                acc as int,
                negative,
                i64::MIN as int,
                i64::MAX as int,
            ),
        decreases n - i,
    {
        let c = chars[i];
        let code: u32 = c as u32;
        if code < 0x30 || code > 0x39 {
            return Err(IntegerFault::InvalidDigit);
        }
        let d: i128 = (code - 0x30) as i128;
        let wide: i128 = acc as i128;
        let next: i128 = if negative {
            wide * 10 - d
        } else {
            wide * 10 + d
        };
        if next > 9223372036854775807 {
            return Err(IntegerFault::PosOverflow);
        }
        if next < -9223372036854775808 {
            return Err(IntegerFault::NegOverflow);
        }
        acc = next as i64;
        i += 1;
    }
    Ok(acc)
}

/// Reads `s` as an unsigned machine-sized decimal integer.
pub fn parse_usize(s: &str) -> (r: Result<usize, IntegerFault>)
    ensures
        match r {
            Ok(v) => parse_usize_text(s@) == Ok::<int, IntegerFault>(v as int),
            Err(e) => parse_usize_text(s@) == Err::<int, IntegerFault>(e),
        },
{
    let chars = to_chars(s);
    let n = chars.len();
    if n == 0 {
        return Err(IntegerFault::Empty);
    }
    let first = chars[0];
    if n == 1 && (first == '+' || first == '-') {
        return Err(IntegerFault::InvalidDigit);
    }
    let mut i: usize = if first == '+' {
        1
    } else {
        0
    };
    let mut acc: usize = 0;
    while i < n
        invariant
            i <= n,
            n == chars@.len(),
            chars@ == s@,
            parse_usize_text(s@) == read_digits(
                s@,
                i as int,
                acc as int,
                false,
                0,
                usize::MAX as int,
            ),
        decreases n - i,
    {
        let c = chars[i];
        let code: u32 = c as u32;
        if code < 0x30 || code > 0x39 {
            return Err(IntegerFault::InvalidDigit);
        }
        let d: usize = (code - 0x30) as usize;
        if acc > (usize::MAX - d) / 10 {
            return Err(IntegerFault::PosOverflow);
        }
        acc = acc * 10 + d;
        i += 1;
    }
    Ok(acc)
}

/// The character of the decimal digit `d`.
pub open spec fn digit_char(d: int) -> char {
    (0x30 + d) as char
}

/// The decimal digits of `n`, the most significant first, without leading
/// zeros.
pub open spec fn decimal(n: nat) -> Seq<char>
    decreases n,
{
    if n < 10 {
        seq![digit_char(n as int)]
    } else {
        decimal(n / 10).push(digit_char((n % 10) as int))
    }
}

/// The decimal digits of `v`, behind a minus sign where `v` is negative.
pub open spec fn signed_decimal(v: int) -> Seq<char> {
    if v < 0 {
        seq!['-'] + decimal((-v) as nat)
    } else {
        decimal(v as nat)
    }
}

/// The last `width` decimal digits of `n`, with zeros in front where `n` has
/// fewer.
pub open spec fn padded_decimal(n: nat, width: nat) -> Seq<char>
    decreases width,
{
    if width == 0 {
        Seq::empty()
    } else {
        padded_decimal(n / 10, (width - 1) as nat).push(digit_char((n % 10) as int))
    }
}

/// The text of the decimal digit `d`.
pub fn digit_text(d: u8) -> (r: &'static str)
    requires
        d < 10,
    ensures
        r@ == seq![digit_char(d as int)],
{
    proof {
        reveal_strlit("0");
        reveal_strlit("1");
        reveal_strlit("2");
        reveal_strlit("3");
        reveal_strlit("4");
        reveal_strlit("5");
        reveal_strlit("6");
        reveal_strlit("7");
        reveal_strlit("8");
        reveal_strlit("9");
    }
    let r = if d == 0 {
        "0"
    } else if d == 1 {
        "1"
    } else if d == 2 {
        "2"
    } else if d == 3 {
        "3"
    } else if d == 4 {
        "4"
    } else if d == 5 {
        "5"
    } else if d == 6 {
        "6"
    } else if d == 7 {
        "7"
    } else if d == 8 {
        "8"
    } else {
        "9"
    };
    assert(r@ =~= seq![digit_char(d as int)]);
    r
}

/// Writes the decimal digits of `n` behind `out`.
pub fn push_decimal(out: &mut String, n: u64)
    ensures
        final(out)@ == old(out)@ + decimal(n as nat),
    decreases n,
{
    if n >= 10 {
        push_decimal(out, n / 10);
    }
    out.append(digit_text((n % 10) as u8));
    proof {
        assert(final(out)@ =~= old(out)@ + decimal(n as nat));
    }
}

/// Writes the decimal digits of `v`, with its sign where it is negative,
/// behind `out`.
pub fn push_signed_decimal(out: &mut String, v: i64)
    ensures
        final(out)@ == old(out)@ + signed_decimal(v as int),
{
    if v < 0 {
        proof {
            reveal_strlit("-");
        }
        out.append("-");
        let magnitude: u64 = if v == i64::MIN {
            9223372036854775808u64
        } else {
            (-v) as u64
        };
        push_decimal(out, magnitude);
        proof {
            assert(final(out)@ =~= old(out)@ + signed_decimal(v as int));
        }
    } else {
        push_decimal(out, v as u64);
    }
}

/// Writes the last `width` decimal digits of `n` behind `out`, with zeros in
/// front where `n` has fewer.
pub fn push_padded_decimal(out: &mut String, n: u64, width: u8)
    ensures
        final(out)@ == old(out)@ + padded_decimal(n as nat, width as nat),
    decreases width,
{
    if width > 0 {
        push_padded_decimal(out, n / 10, width - 1);
        out.append(digit_text((n % 10) as u8));
    }
    proof {
        assert(final(out)@ =~= old(out)@ + padded_decimal(n as nat, width as nat));
    }
}

} // verus!
