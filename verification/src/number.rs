//! Unsigned decimal numbers as they are written on a command line.
//!
//! The texts accepted are those of `str::parse` for Rust's unsigned integers: an
//! optional `+`, then one or more ASCII digits. A text is read from left to right
//! and the first character at which it cannot go on decides the error.

use vstd::arithmetic::power::{lemma_pow0, pow};
use vstd::prelude::*;

verus! {

/// Why a text is not a number of the wanted type.
#[derive(Clone, Copy, Debug, PartialEq, Eq, Structural)]
pub enum NumberError {
    /// The text is empty.
    Empty,
    /// A character is not a digit where one is needed.
    InvalidDigit,
    /// The number is larger than the type can hold.
    PosOverflow,
    /// The number is zero where zero is not allowed.
    Zero,
}

impl NumberError {
    /// The message for a user.
    pub fn message(&self) -> (text: &'static str)
        ensures
            text@ == self.text(),
            *self == NumberError::Empty ==> text@ == "cannot parse integer from empty string"@,
            *self == NumberError::InvalidDigit ==> text@ == "invalid digit found in string"@,
            *self == NumberError::PosOverflow ==> text@
                == "number too large to fit in target type"@,
            *self == NumberError::Zero ==> text@ == "number would be zero for non-zero type"@,
    {
        match self {
            NumberError::Empty => "cannot parse integer from empty string",
            NumberError::InvalidDigit => "invalid digit found in string",
            NumberError::PosOverflow => "number too large to fit in target type",
            NumberError::Zero => "number would be zero for non-zero type",
        }
    }

    /// The characters of [`NumberError::message`].
    pub open spec fn text(&self) -> Seq<char> {
        match self {
            NumberError::Empty => "cannot parse integer from empty string"@,
            NumberError::InvalidDigit => "invalid digit found in string"@,
            NumberError::PosOverflow => "number too large to fit in target type"@,
            NumberError::Zero => "number would be zero for non-zero type"@,
        }
    }
}

/// Whether `c` is one of the ten ASCII digits.
pub open spec fn is_digit(c: char) -> bool {
    '0' <= c <= '9'
}

/// The value of the digit `c`.
pub open spec fn digit_value(c: char) -> int {
    c as int - '0' as int
}

/// Reads `digits` from left to right into a number that is at most `max`.
pub open spec fn read_digits(digits: Seq<char>, max: int) -> Result<int, NumberError>
    decreases digits.len(),
{
    if digits.len() == 0 {
        Ok(0)
    } else {
        match read_digits(digits.drop_last(), max) {
            Err(e) => Err(e),
            Ok(n) => if !is_digit(digits.last()) {
                Err(NumberError::InvalidDigit)
            } else if n * 10 + digit_value(digits.last()) > max {
                Err(NumberError::PosOverflow)
            } else {
                Ok(n * 10 + digit_value(digits.last()))
            },
        }
    }
}

/// The part of `text` behind an optional leading `+`.
pub open spec fn unsigned_part(text: Seq<char>) -> Seq<char> {
    if text.len() > 0 && text[0] == '+' {
        text.skip(1)
    } else {
        text
    }
}

/// What `text` says as a number that is at most `max`.
pub open spec fn read_number(text: Seq<char>, max: int) -> Result<int, NumberError> {
    if text.len() == 0 {
        Err(NumberError::Empty)
    } else if unsigned_part(text).len() == 0 {
        Err(NumberError::InvalidDigit)
    } else {
        read_digits(unsigned_part(text), max)
    }
}

/// What `text` says as a number from 1 to `max`.
pub open spec fn read_nonzero(text: Seq<char>, max: int) -> Result<int, NumberError> {
    match read_number(text, max) {
        Ok(n) => if n == 0 {
            Err(NumberError::Zero)
        } else {
            Ok(n)
        },
        Err(e) => Err(e),
    }
}

/// The number that a sequence of digits denotes in base ten.
pub open spec fn decimal_value(digits: Seq<char>) -> int
    decreases digits.len(),
{
    if digits.len() == 0 {
        0
    } else {
        decimal_value(digits.drop_last()) * 10 + digit_value(digits.last())
    }
}

/// Whether `text` is written as a number: an optional `+`, then digits only.
pub open spec fn is_number(text: Seq<char>) -> bool {
    let digits = unsigned_part(text);
    &&& digits.len() > 0
    &&& forall|i: int| 0 <= i < digits.len() ==> is_digit(#[trigger] digits[i])
}

/// An error in the first part of a text is the error of the whole text.
proof fn lemma_error_stays(digits: Seq<char>, k: int, max: int)
    requires
        0 <= k <= digits.len(),
        read_digits(digits.take(k), max) is Err,
    ensures
        read_digits(digits, max) == read_digits(digits.take(k), max),
    decreases digits.len(),
{
    if k == digits.len() {
        assert(digits.take(k) =~= digits);
    } else {
        assert(digits.drop_last().take(k) =~= digits.take(k));
        lemma_error_stays(digits.drop_last(), k, max);
    }
}

/// Reads `text` as a number that is at most `max`.
pub fn parse_number(text: &str, max: u64) -> (res: Result<u64, NumberError>)
    ensures
        match res {
            Ok(n) => read_number(text@, max as int) == Ok::<int, NumberError>(n as int),
            Err(e) => read_number(text@, max as int) == Err::<int, NumberError>(e),
        },
{
    let len: usize = text.unicode_len();
    if len == 0 {
        return Err(NumberError::Empty);
    }
    let start: usize = if text.get_char(0) == '+' { 1 } else { 0 };
    let ghost digits = unsigned_part(text@);
    if start == len {
        return Err(NumberError::InvalidDigit);
    }
    let mut n: u64 = 0;
    let mut i: usize = start;
    assert(digits.take(0) =~= Seq::<char>::empty());
    while i < len
        invariant
            start <= i <= len,
            start <= 1,
            len == text@.len(),
            digits == text@.skip(start as int),
            digits == unsigned_part(text@),
            digits.len() > 0,
            text@.len() > 0,
            read_digits(digits.take(i - start), max as int) == Ok::<int, NumberError>(n as int),
            n <= max,
        decreases len - i,
    {
        let c: char = text.get_char(i);
        let ghost next = digits.take(i - start + 1);
        assert(next.drop_last() =~= digits.take(i - start));
        assert(next.last() == c);
        if c < '0' || '9' < c {
            proof {
                lemma_error_stays(digits, i - start + 1, max as int);
            }
            return Err(NumberError::InvalidDigit);
        }
        let d: u64 = (c as u32 - '0' as u32) as u64;
        let wide: u128 = n as u128 * 10 + d as u128;
        if wide > max as u128 {
            proof {
                lemma_error_stays(digits, i - start + 1, max as int);
            }
            return Err(NumberError::PosOverflow);
        }
        n = wide as u64;
        i = i + 1;
    }
    assert(digits.take(i - start) =~= digits);
    Ok(n)
}

/// Reads `text` as a `u64`.
pub fn parse_u64(text: &str) -> (res: Result<u64, NumberError>)
    ensures
        match res {
            Ok(n) => read_number(text@, u64::MAX as int) == Ok::<int, NumberError>(n as int),
            Err(e) => read_number(text@, u64::MAX as int) == Err::<int, NumberError>(e),
        },
{
    parse_number(text, u64::MAX)
}

/// Reads `text` as a `usize`.
pub fn parse_usize(text: &str) -> (res: Result<usize, NumberError>)
    ensures
        match res {
            Ok(n) => read_number(text@, usize::MAX as int) == Ok::<int, NumberError>(n as int),
            Err(e) => read_number(text@, usize::MAX as int) == Err::<int, NumberError>(e),
        },
{
    match parse_number(text, usize::MAX as u64) {
        Ok(n) => {
            proof {
                law_read_number_is_bounded(text@, usize::MAX as int);
            }
            Ok(n as usize)
        },
        Err(e) => Err(e),
    }
}

/// Reads `text` as a `u16`.
pub fn parse_u16(text: &str) -> (res: Result<u16, NumberError>)
    ensures
        match res {
            Ok(n) => read_number(text@, u16::MAX as int) == Ok::<int, NumberError>(n as int),
            Err(e) => read_number(text@, u16::MAX as int) == Err::<int, NumberError>(e),
        },
{
    match parse_number(text, u16::MAX as u64) {
        Ok(n) => {
            proof {
                law_read_number_is_bounded(text@, u16::MAX as int);
            }
            Ok(n as u16)
        },
        Err(e) => Err(e),
    }
}

/// Reads `text` as a `u32` that is not zero.
pub fn parse_nonzero_u32(text: &str) -> (res: Result<u32, NumberError>)
    ensures
        match res {
            Ok(n) => read_nonzero(text@, u32::MAX as int) == Ok::<int, NumberError>(n as int),
            Err(e) => read_nonzero(text@, u32::MAX as int) == Err::<int, NumberError>(e),
        },
{
    match parse_number(text, u32::MAX as u64) {
        Ok(n) => {
            proof {
                law_read_number_is_bounded(text@, u32::MAX as int);
            }
            if n == 0 {
                Err(NumberError::Zero)
            } else {
                Ok(n as u32)
            }
        },
        Err(e) => Err(e),
    }
}

/// A prefix of a text of digits denotes no more than the whole.
proof fn lemma_decimal_value_grows(digits: Seq<char>)
    requires
        forall|i: int| 0 <= i < digits.len() ==> is_digit(#[trigger] digits[i]),
    ensures
        0 <= decimal_value(digits),
        digits.len() > 0 ==> decimal_value(digits.drop_last()) <= decimal_value(digits),
    decreases digits.len(),
{
    if digits.len() > 0 {
        assert forall|i: int| 0 <= i < digits.drop_last().len() implies is_digit(
            #[trigger] digits.drop_last()[i],
        ) by {
            assert(is_digit(digits[i]));
        }
        lemma_decimal_value_grows(digits.drop_last());
        assert(is_digit(digits[digits.len() - 1]));
    }
}

proof fn lemma_read_digits(digits: Seq<char>, max: int)
    requires
        0 <= max,
    ensures
        read_digits(digits, max) is Ok <==> {
            &&& forall|i: int| 0 <= i < digits.len() ==> is_digit(#[trigger] digits[i])
            &&& decimal_value(digits) <= max
        },
        read_digits(digits, max) matches Ok(n) ==> n == decimal_value(digits) && 0 <= n <= max,
    decreases digits.len(),
{
    if digits.len() > 0 {
        let front = digits.drop_last();
        lemma_read_digits(front, max);
        assert forall|i: int| 0 <= i < front.len() implies front[i] == digits[i] by {}
        if forall|i: int| 0 <= i < digits.len() ==> is_digit(#[trigger] digits[i]) {
            assert forall|i: int| 0 <= i < front.len() implies is_digit(#[trigger] front[i]) by {
                assert(is_digit(digits[i]));
            }
            lemma_decimal_value_grows(digits);
            assert(is_digit(digits.last()));
        }
        if read_digits(digits, max) is Ok {
            assert forall|i: int| 0 <= i < digits.len() implies is_digit(#[trigger] digits[i]) by {
                if i < front.len() {
                    assert(is_digit(front[i]));
                }
            }
        }
    }
}

/// A number that was read lies between zero and the bound it was read under.
pub proof fn law_read_number_is_bounded(text: Seq<char>, max: int)
    requires
        0 <= max,
    ensures
        read_number(text, max) matches Ok(n) ==> 0 <= n <= max,
{
    lemma_read_digits(unsigned_part(text), max);
}

/// A text is read exactly if it is written as a number and that number fits, and
/// what is read is the number that its digits denote in base ten.
pub proof fn law_reads_the_numbers_that_fit(text: Seq<char>, max: int)
    requires
        0 <= max,
    ensures
        read_number(text, max) is Ok <==> is_number(text) && decimal_value(unsigned_part(text))
            <= max,
        read_number(text, max) matches Ok(n) ==> n == decimal_value(unsigned_part(text)),
{
    lemma_read_digits(unsigned_part(text), max);
}

/// A text that is written as a number is refused only for its size.
pub proof fn law_a_number_is_refused_only_for_its_size(text: Seq<char>, max: int)
    requires
        0 <= max,
        is_number(text),
    ensures
        read_number(text, max) matches Err(e) ==> e == NumberError::PosOverflow,
{
    lemma_refused_for_size(unsigned_part(text), max);
}

proof fn lemma_refused_for_size(digits: Seq<char>, max: int)
    requires
        forall|i: int| 0 <= i < digits.len() ==> is_digit(#[trigger] digits[i]),
    ensures
        read_digits(digits, max) matches Err(e) ==> e == NumberError::PosOverflow,
    decreases digits.len(),
{
    if digits.len() > 0 {
        let front = digits.drop_last();
        assert forall|i: int| 0 <= i < front.len() implies is_digit(#[trigger] front[i]) by {
            assert(is_digit(digits[i]));
        }
        lemma_refused_for_size(front, max);
        assert(is_digit(digits[digits.len() - 1]));
    }
}

/// The digit for `n` in base ten.
pub open spec fn digit_char(n: int) -> char {
    ('0' as int + n) as char
}

/// A number that is not negative, written in base ten.
pub open spec fn nat_text(n: nat) -> Seq<char>
    decreases n,
{
    if n < 10 {
        seq![digit_char(n as int)]
    } else {
        nat_text(n / 10).push(digit_char((n % 10) as int))
    }
}

/// A number written in base ten, with a `-` in front if it is negative.
pub open spec fn int_text(n: int) -> Seq<char> {
    if n < 0 {
        seq!['-'] + nat_text((-n) as nat)
    } else {
        nat_text(n as nat)
    }
}

fn digit_text(n: u32) -> (text: &'static str)
    requires
        n < 10,
    ensures
        text@ == seq![digit_char(n as int)],
{
    proof {
        reveal_strlit("0");
        reveal_strlit("1");
        reveal_strlit("2");
        reveal_strlit("3");
        reveal_strlit("4");
        reveal_strlit("5");
        reveal_strlit("6");
        reveal_strlit("7");
        reveal_strlit("8");
        reveal_strlit("9");
    }
    let text: &'static str = match n {
        0 => "0",
        1 => "1",
        2 => "2",
        3 => "3",
        4 => "4",
        5 => "5",
        6 => "6",
        7 => "7",
        8 => "8",
        _ => "9",
    };
    assert(text@ =~= seq![digit_char(n as int)]);
    text
}

fn format_u32(n: u32) -> (text: String)
    ensures
        text@ == nat_text(n as nat),
    decreases n,
{
    if n < 10 {
        digit_text(n).to_string()
    } else {
        let front: String = format_u32(n / 10);
        let text: String = front.concat(digit_text(n % 10));
        assert(text@ =~= nat_text(n as nat));
        text
    }
}

/// Writes a number in base ten.
pub fn format_i32(n: i32) -> (text: String)
    ensures
        text@ == int_text(n as int),
{
    if n < 0 {
        proof {
            reveal_strlit("-");
            assert("-"@ =~= seq!['-']);
        }
        let size: u32 = (-(n as i64)) as u32;
        "-".to_string().concat(format_u32(size).as_str())
    } else {
        format_u32(n as u32)
    }
}

proof fn lemma_nat_text_reads_back(n: nat)
    ensures
        nat_text(n).len() > 0,
        forall|i: int| 0 <= i < nat_text(n).len() ==> is_digit(#[trigger] nat_text(n)[i]),
        decimal_value(nat_text(n)) == n,
    decreases n,
{
    let text = nat_text(n);
    let last = digit_char((n % 10) as int);
    assert(is_digit(last) && digit_value(last) == n % 10);
    if n < 10 {
        assert(text.drop_last() =~= Seq::<char>::empty());
        assert(decimal_value(text.drop_last()) == 0);
    } else {
        lemma_nat_text_reads_back(n / 10);
        let front = nat_text(n / 10);
        assert(text.drop_last() =~= front);
        assert forall|i: int| 0 <= i < text.len() implies is_digit(#[trigger] text[i]) by {
            if i < front.len() {
                assert(text[i] == front[i]);
            }
        }
    }
}

/// A number that is written and read again is the same number.
pub proof fn law_written_numbers_read_back(n: nat, max: int)
    requires
        n <= max,
    ensures
        read_number(int_text(n as int), max) == Ok::<int, NumberError>(n as int),
{
    lemma_nat_text_reads_back(n);
    let text = nat_text(n);
    assert(is_digit(text[0]));
    assert(unsigned_part(text) == text);
    law_reads_the_numbers_that_fit(text, max);
}

/// The ten digits are the characters from `0` to `9`, and each has its place in that list as
/// its value.
pub proof fn law_digits_have_their_values(c: char)
    ensures
        is_digit(c) <==> exists|d: int| 0 <= d < 10 && #[trigger] "0123456789"@[d] == c,
        forall|d: int| 0 <= d < 10 ==> digit_value(#[trigger] "0123456789"@[d]) == d,
        forall|d: int| 0 <= d < 10 ==> digit_char(d) == #[trigger] "0123456789"@[d],
{
    reveal_strlit("0123456789");
    let digits = "0123456789"@;
    assert(digits.len() == 10);
    assert forall|d: int| 0 <= d < 10 implies digits[d] as int == 48 + d by {
        assert(d == 0 || d == 1 || d == 2 || d == 3 || d == 4 || d == 5 || d == 6 || d == 7 || d
            == 8 || d == 9);
    }
    assert forall|d: int| 0 <= d < 10 implies digit_char(d) == #[trigger] digits[d] by {
        assert(digit_char(d) as int == 48 + d);
    }
    if is_digit(c) {
        assert(digits[c as int - 48] == c);
    }
}

/// A digit counts ten times as much for each place further to the left: the digits of `a`, in
/// front of `b`, count as often as ten to the number of digits in `b` says.
pub proof fn law_places_count_ten_times(a: Seq<char>, b: Seq<char>)
    ensures
        decimal_value(a + b) == decimal_value(a) * pow(10, b.len()) + decimal_value(b),
        decimal_value(Seq::empty()) == 0,
        forall|c: char| #[trigger] decimal_value(seq![c]) == digit_value(c),
    decreases b.len(),
{
    assert forall|c: char| #[trigger] decimal_value(seq![c]) == digit_value(c) by {
        assert(seq![c].drop_last() =~= Seq::<char>::empty());
        assert(decimal_value(seq![c].drop_last()) == 0);
    }
    if b.len() == 0 {
        lemma_pow0(10);
        assert(a + b =~= a);
    } else {
        let front = b.drop_last();
        law_places_count_ten_times(a, front);
        assert((a + b).drop_last() =~= a + front);
        assert((a + b).last() == b.last());
        reveal(pow);
        assert(pow(10, b.len()) == 10 * pow(10, front.len()));
        let x = decimal_value(a);
        let y = pow(10, front.len());
        assert((x * y) * 10 == x * (10 * y)) by (nonlinear_arith);
    }
}

/// A leading `+` is passed over, and nothing else is.
pub proof fn law_a_plus_is_passed_over(text: Seq<char>)
    ensures
        unsigned_part(seq!['+'] + text) == text,
        text.len() == 0 || text[0] != '+' ==> unsigned_part(text) == text,
{
    assert((seq!['+'] + text).skip(1) =~= text);
}

/// Why a text is refused. An empty one is refused as such, and one that ends after a `+` for
/// want of a digit. Else the text is read up to place `k`, behind a `+`: if the digits so far
/// denote too much, it is refused for its size; if they do not and no digit follows, for what
/// follows in its place.
pub proof fn law_why_a_text_is_refused(text: Seq<char>, max: int, k: int)
    requires
        0 <= max,
    ensures
        read_number(text, max) == Err::<int, NumberError>(NumberError::Empty) <==> text.len() == 0,
        text.len() > 0 && unsigned_part(text).len() == 0 ==> read_number(text, max) == Err::<
            int,
            NumberError,
        >(NumberError::InvalidDigit),
        ({
            let digits = unsigned_part(text);
            0 <= k < digits.len() && !is_digit(digits[k]) && (forall|i: int|
                0 <= i < k ==> is_digit(#[trigger] digits[i])) && decimal_value(digits.take(k))
                <= max ==> read_number(text, max) == Err::<int, NumberError>(
                NumberError::InvalidDigit,
            )
        }),
        ({
            let digits = unsigned_part(text);
            0 <= k <= digits.len() && (forall|i: int|
                0 <= i < k ==> is_digit(#[trigger] digits[i])) && decimal_value(digits.take(k))
                > max ==> read_number(text, max) == Err::<int, NumberError>(
                NumberError::PosOverflow,
            )
        }),
{
    let digits = unsigned_part(text);
    lemma_digits_are_not_empty(digits, max);
    if 0 <= k <= digits.len() && (forall|i: int| 0 <= i < k ==> is_digit(#[trigger] digits[i])) {
        let known = digits.take(k);
        assert forall|i: int| 0 <= i < known.len() implies is_digit(#[trigger] known[i]) by {
            assert(is_digit(digits[i]));
        }
        lemma_read_digits(known, max);
        if decimal_value(known) > max {
            assert(k > 0);
            lemma_refused_for_size(known, max);
            lemma_error_stays(digits, k, max);
        } else if k < digits.len() && !is_digit(digits[k]) {
            let next = digits.take(k + 1);
            assert(next.drop_last() =~= known);
            assert(next.last() == digits[k]);
            lemma_error_stays(digits, k + 1, max);
        }
    }
}

proof fn lemma_digits_are_not_empty(digits: Seq<char>, max: int)
    ensures
        read_digits(digits, max) != Err::<int, NumberError>(NumberError::Empty),
        read_digits(digits, max) != Err::<int, NumberError>(NumberError::Zero),
    decreases digits.len(),
{
    if digits.len() > 0 {
        lemma_digits_are_not_empty(digits.drop_last(), max);
    }
}

/// Where zero is not allowed, zero is refused as such, every other number is read as it is, and
/// what is no number is refused as ever.
pub proof fn law_only_zero_is_refused_as_zero(text: Seq<char>, max: int)
    requires
        0 <= max,
    ensures
        read_nonzero(text, max) == Err::<int, NumberError>(NumberError::Zero) <==> is_number(text)
            && decimal_value(unsigned_part(text)) == 0,
        is_number(text) && 0 < decimal_value(unsigned_part(text)) <= max ==> read_nonzero(
            text,
            max,
        ) == Ok::<int, NumberError>(decimal_value(unsigned_part(text))),
        read_number(text, max) is Err ==> read_nonzero(text, max) == read_number(text, max),
        read_nonzero(text, max) matches Ok(n) ==> 0 < n <= max && is_number(text) && n
            == decimal_value(unsigned_part(text)),
{
    law_reads_the_numbers_that_fit(text, max);
    law_read_number_is_bounded(text, max);
    lemma_digits_are_not_empty(unsigned_part(text), max);
}

/// A number is written with digits only and without zeros in front, and the digits denote it;
/// a negative one is written as the positive one behind a `-`.
pub proof fn law_how_numbers_are_written(n: nat)
    ensures
        is_number(int_text(n as int)),
        unsigned_part(int_text(n as int)) == int_text(n as int),
        decimal_value(int_text(n as int)) == n,
        int_text(n as int).len() > 1 ==> int_text(n as int)[0] != '0',
        n > 0 ==> int_text(-n) == seq!['-'] + int_text(n as int),
{
    lemma_nat_text_reads_back(n);
    lemma_no_leading_zero(n);
    assert(is_digit(nat_text(n)[0]));
}

proof fn lemma_no_leading_zero(n: nat)
    ensures
        nat_text(n).len() > 0,
        n > 0 ==> nat_text(n)[0] != '0',
        n == 0 ==> nat_text(n).len() == 1,
    decreases n,
{
    if n < 10 {
        assert(digit_char(n as int) as int == 48 + n);
    } else {
        lemma_no_leading_zero(n / 10);
    }
}

/// A text is written as a number exactly if it consists of digits, at least one, behind a `+`
/// or not.
pub proof fn law_what_is_written_as_a_number(text: Seq<char>)
    ensures
        is_number(text) <==> {
            &&& unsigned_part(text).len() > 0
            &&& forall|i: int|
                0 <= i < unsigned_part(text).len() ==> '0' <= #[trigger] unsigned_part(text)[i]
                    <= '9'
        },
{
    let digits = unsigned_part(text);
    if forall|i: int| 0 <= i < digits.len() ==> '0' <= #[trigger] digits[i] <= '9' {
        assert forall|i: int| 0 <= i < digits.len() implies is_digit(#[trigger] digits[i]) by {}
    }
    if is_number(text) {
        assert forall|i: int| 0 <= i < digits.len() implies '0' <= #[trigger] digits[i] <= '9' by {
            assert(is_digit(digits[i]));
        }
    }
}

} // verus!
