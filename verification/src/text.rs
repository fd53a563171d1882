//! Text as sequences of characters: rendering numbers, reading them back, and
//! the handful of string operations that the collectors and parsers share.

use vstd::prelude::*;
use vstd::utf8::*;

verus! {

/// `String::push` appends one character.
pub assume_specification[ String::push ](s: &mut String, c: char)
    ensures
        final(s)@ == old(s)@.push(c),
;

/// The text inside an optional string.
pub open spec fn opt_text(value: Option<String>) -> Option<Seq<char>> {
    match value {
        Some(s) => Some(s@),
        None => None,
    }
}

/// The text inside an optional string slice.
pub open spec fn opt_str(value: Option<&str>) -> Option<Seq<char>> {
    match value {
        Some(s) => Some(s@),
        None => None,
    }
}

/// The texts of a sequence of strings.
pub open spec fn texts(values: Seq<String>) -> Seq<Seq<char>> {
    values.map_values(|s: String| s@)
}

// ---------------------------------------------------------------------------
// Conversions
// ---------------------------------------------------------------------------

/// The characters of `s`, in order.
pub fn chars_of(s: &str) -> (r: Vec<char>)
    ensures
        r@ == s@,
{
    let mut out: Vec<char> = Vec::new();
    for c in it: s.chars()
        invariant
            it.seq() == s@,
            out@ == it.seq().take(it.index() as int),
    {
        out.push(c);
        proof {
            assert(it.seq().take(it.index() + 1) =~= it.seq().take(it.index() as int).push(c));
        }
    }
    proof {
        assert(out@ =~= s@);
    }
    out
}

/// The string made of `chars`.
pub fn string_of(chars: &[char]) -> (r: String)
    ensures
        r@ == chars@,
{
    let mut out = String::new();
    let mut i: usize = 0;
    while i < chars.len()
        invariant
            i <= chars.len(),
            out@ == chars@.take(i as int),
        decreases chars.len() - i,
    {
        out.push(chars[i]);
        proof {
            assert(chars@.take(i + 1) =~= chars@.take(i as int).push(chars@[i as int]));
        }
        i = i + 1;
    }
    proof {
        assert(chars@.take(i as int) =~= chars@);
    }
    out
}

/// A copy of an optional string slice.
pub fn owned(value: Option<&str>) -> (r: Option<String>)
    ensures
        opt_text(r) == opt_str(value),
{
    match value {
        Some(s) => Some(s.to_owned()),
        None => None,
    }
}

/// A copy of an optional string.
pub fn copied(value: &Option<String>) -> (r: Option<String>)
    ensures
        r == *value,
{
    match value {
        Some(s) => Some(s.clone()),
        None => None,
    }
}

proof fn lemma_encoding_injective(a: Seq<char>, b: Seq<char>)
    requires
        encode_utf8(a) == encode_utf8(b),
    ensures
        a == b,
{
    encode_utf8_decode_utf8(a);
    encode_utf8_decode_utf8(b);
}

/// Whether two strings hold the same characters.
pub fn same_text(a: &str, b: &str) -> (r: bool)
    ensures
        r == (a@ == b@),
{
    let left = a.as_bytes();
    let right = b.as_bytes();
    if left.len() != right.len() {
        return false;
    }
    let mut i: usize = 0;
    while i < left.len()
        invariant
            i <= left.len(),
            left.len() == right.len(),
            left@ == encode_utf8(a@),
            right@ == encode_utf8(b@),
            forall|j: int| 0 <= j < i ==> left@[j] == right@[j],
        decreases left.len() - i,
    {
        if left[i] != right[i] {
            return false;
        }
        i = i + 1;
    }
    proof {
        assert(left@ =~= right@);
        lemma_encoding_injective(a@, b@);
    }
    true
}

/// Whether two optional strings hold the same text.
pub fn same_opt(a: Option<&str>, b: Option<&str>) -> (r: bool)
    ensures
        r == (opt_str(a) == opt_str(b)),
{
    match (a, b) {
        (Some(x), Some(y)) => same_text(x, y),
        (None, None) => true,
        _ => false,
    }
}

/// The string slice inside an optional string.
pub fn as_deref(value: &Option<String>) -> (r: Option<&str>)
    ensures
        opt_str(r) == opt_text(*value),
{
    match value {
        Some(s) => Some(s.as_str()),
        None => None,
    }
}

/// Whether two character slices hold the same characters.
pub fn same_chars(a: &[char], b: &[char]) -> (r: bool)
    ensures
        r == (a@ == b@),
{
    if a.len() != b.len() {
        return false;
    }
    let mut i: usize = 0;
    while i < a.len()
        invariant
            i <= a.len(),
            a.len() == b.len(),
            forall|j: int| 0 <= j < i ==> a@[j] == b@[j],
        decreases a.len() - i,
    {
        if a[i] != b[i] {
            return false;
        }
        i = i + 1;
    }
    proof {
        assert(a@ =~= b@);
    }
    true
}

/// A character with its ASCII upper-case letters made lower case.
pub open spec fn ascii_lower(c: char) -> char {
    if 'A' <= c <= 'Z' {
        ((c as u8) + 32) as char
    } else {
        c
    }
}

/// Text with its ASCII letters in lower case.
pub open spec fn lower_text(s: Seq<char>) -> Seq<char> {
    s.map_values(|c: char| ascii_lower(c))
}

fn lower(c: char) -> (r: char)
    ensures
        r == ascii_lower(c),
{
    if 'A' <= c && c <= 'Z' {
        ((c as u8) + 32) as char
    } else {
        c
    }
}

/// Whether two strings are equal up to the case of ASCII letters.
pub fn same_ignoring_case(a: &str, b: &str) -> (r: bool)
    ensures
        r == (lower_text(a@) == lower_text(b@)),
{
    let left = chars_of(a);
    let right = chars_of(b);
    if left.len() != right.len() {
        proof {
            assert(lower_text(a@).len() != lower_text(b@).len());
        }
        return false;
    }
    let mut i: usize = 0;
    while i < left.len()
        invariant
            i <= left.len(),
            left.len() == right.len(),
            left@ == a@,
            right@ == b@,
            forall|j: int| 0 <= j < i ==> ascii_lower(a@[j]) == ascii_lower(b@[j]),
        decreases left.len() - i,
    {
        if lower(left[i]) != lower(right[i]) {
            proof {
                assert(lower_text(a@)[i as int] != lower_text(b@)[i as int]);
            }
            return false;
        }
        i = i + 1;
    }
    proof {
        assert(lower_text(a@) =~= lower_text(b@));
    }
    true
}

/// What `str::to_lowercase` makes of a text.
pub uninterp spec fn unicode_lower(s: Seq<char>) -> Seq<char>;

/// `str::to_lowercase` gives a text in lower case, by Unicode's rules; for
/// ASCII text that is the lower case of its letters.
#[verifier::external_body]
pub(crate) fn to_lowercase(s: &str) -> (r: String)
    ensures
        r@ == unicode_lower(s@),
        is_ascii_chars(s@) ==> r@ == lower_text(s@),
{
    s.to_lowercase()
}

// ---------------------------------------------------------------------------
// Rendering numbers
// ---------------------------------------------------------------------------

/// The character of a decimal digit.
pub open spec fn digit_char(d: int) -> char {
    (('0' as int) + d) as char
}

/// `n` in decimal, without leading zeros.
pub open spec fn decimal(n: nat) -> Seq<char>
    decreases n,
{
    if n < 10 {
        seq![digit_char(n as int)]
    } else {
        decimal(n / 10).push(digit_char((n % 10) as int))
    }
}

/// `i` in decimal, with a leading `-` where it is negative.
pub open spec fn signed_decimal(i: int) -> Seq<char> {
    if i < 0 {
        seq!['-'] + decimal((-i) as nat)
    } else {
        decimal(i as nat)
    }
}

/// `count` zeros.
pub open spec fn zeros(count: nat) -> Seq<char> {
    Seq::new(count, |i: int| '0')
}

/// `i` in decimal, filled with zeros after the sign to at least `width`
/// characters.
pub open spec fn padded(i: int, width: nat) -> Seq<char> {
    let sign: Seq<char> = if i < 0 {
        seq!['-']
    } else {
        seq![]
    };
    let digits = decimal(abs(i));
    let used = sign.len() + digits.len();
    sign + zeros(if used < width {
        (width - used) as nat
    } else {
        0
    }) + digits
}

/// The magnitude of `i`.
pub open spec fn abs(i: int) -> nat {
    if i < 0 {
        (-i) as nat
    } else {
        i as nat
    }
}

/// The character of a hexadecimal digit, in lower case.
pub open spec fn hex_char(d: int) -> char {
    if d < 10 {
        digit_char(d)
    } else {
        (('a' as int) + d - 10) as char
    }
}

/// A byte as two lower-case hexadecimal digits.
pub open spec fn hex2(b: u8) -> Seq<char> {
    seq![hex_char((b / 16) as int), hex_char((b % 16) as int)]
}

fn digit(d: u8) -> (r: char)
    requires
        d < 10,
    ensures
        r == digit_char(d as int),
{
    (0x30u8 + d) as char
}

fn hex_digit(d: u8) -> (r: char)
    requires
        d < 16,
    ensures
        r == hex_char(d as int),
{
    if d < 10 {
        digit(d)
    } else {
        (0x61u8 + (d - 10)) as char
    }
}

/// Append `n` in decimal.
pub fn append_decimal(s: &mut String, n: u64)
    ensures
        final(s)@ == old(s)@ + decimal(n as nat),
    decreases n,
{
    if n >= 10 {
        append_decimal(s, n / 10);
    }
    s.push(digit((n % 10) as u8));
    proof {
        assert(s@ =~= old(s)@ + decimal(n as nat));
    }
}

/// Append `i` in decimal, with its sign.
pub fn append_signed(s: &mut String, i: i64)
    ensures
        final(s)@ == old(s)@ + signed_decimal(i as int),
{
    if i < 0 {
        s.push('-');
        append_decimal(s, magnitude(i));
        proof {
            assert(s@ =~= old(s)@ + signed_decimal(i as int));
        }
    } else {
        append_decimal(s, i as u64);
    }
}

fn magnitude(i: i64) -> (r: u64)
    ensures
        r == abs(i as int),
{
    if i >= 0 {
        i as u64
    } else {
        (-(i + 1)) as u64 + 1
    }
}

/// Append a byte as two hexadecimal digits.
pub fn append_hex2(s: &mut String, b: u8)
    ensures
        final(s)@ == old(s)@ + hex2(b),
{
    s.push(hex_digit(b / 16));
    s.push(hex_digit(b % 16));
    proof {
        assert(s@ =~= old(s)@ + hex2(b));
    }
}

/// How many decimal digits `n` has.
fn digit_count(n: u64) -> (r: usize)
    ensures
        r == decimal(n as nat).len(),
        1 <= r <= 20,
{
    let mut rest: u64 = n;
    let mut count: usize = 1;
    proof {
        lemma_decimal_length(n as nat);
    }
    while rest >= 10
        invariant
            1 <= count,
            decimal(n as nat).len() == count - 1 + decimal(rest as nat).len(),
            decimal(n as nat).len() <= 20,
        decreases rest,
    {
        proof {
            assert(decimal(rest as nat).len() == decimal((rest / 10) as nat).len() + 1);
            lemma_decimal_length((rest / 10) as nat);
        }
        rest = rest / 10;
        count = count + 1;
    }
    count
}

/// Ten to the power of `k`.
pub open spec fn pow10(k: nat) -> nat
    decreases k,
{
    if k == 0 {
        1
    } else {
        10 * pow10((k - 1) as nat)
    }
}

proof fn lemma_decimal_length(n: nat)
    requires
        n <= u64::MAX,
    ensures
        1 <= decimal(n).len() <= 20,
{
    assert(pow10(20) == 100_000_000_000_000_000_000) by {
        reveal_with_fuel(pow10, 21);
    }
    lemma_decimal_len_below(n, 20);
}

/// A number below `10^k` has at most `k` digits.
pub proof fn lemma_decimal_len_below(n: nat, k: nat)
    requires
        n < pow10(k),
        k >= 1,
    ensures
        1 <= decimal(n).len() <= k,
    decreases k,
{
    if n >= 10 {
        assert(k >= 2) by {
            assert(pow10(1) == 10) by {
                reveal_with_fuel(pow10, 2);
            }
        }
        assert(n / 10 < pow10((k - 1) as nat));
        lemma_decimal_len_below(n / 10, (k - 1) as nat);
    }
}

/// Append `i` filled with zeros to at least `width` characters.
pub fn append_padded(s: &mut String, i: i64, width: usize)
    ensures
        final(s)@ == old(s)@ + padded(i as int, width as nat),
{
    let n: u64 = magnitude(i);
    let digits: usize = digit_count(n);
    let used: usize = if i < 0 {
        s.push('-');
        digits + 1
    } else {
        digits
    };
    let ghost signed = s@;
    let mut k: usize = used;
    while k < width
        invariant
            used <= k,
            k <= width || k == used,
            s@ == signed + zeros((k - used) as nat),
        decreases width - k,
    {
        s.push('0');
        k = k + 1;
        proof {
            assert(zeros((k - used) as nat) =~= zeros((k - 1 - used) as nat).push('0'));
        }
    }
    append_decimal(s, n);
    proof {
        assert(s@ =~= old(s)@ + padded(i as int, width as nat));
    }
}

// ---------------------------------------------------------------------------
// Reading numbers
// ---------------------------------------------------------------------------

/// What a character stands for as a digit below `radix`, which is at most 36.
pub open spec fn digit_value(c: char, radix: nat) -> Option<nat> {
    let code = c as int;
    let value = if '0' as int <= code <= '9' as int {
        code - '0' as int
    } else if 'a' as int <= code <= 'z' as int {
        code - 'a' as int + 10
    } else if 'A' as int <= code <= 'Z' as int {
        code - 'A' as int + 10
    } else {
        -1
    };
    if 0 <= value < radix {
        Some(value as nat)
    } else {
        None
    }
}

/// The number that a run of digits writes; the empty run writes zero.
pub open spec fn digits_value(s: Seq<char>, radix: nat) -> Option<nat>
    decreases s.len(),
{
    if s.len() == 0 {
        Some(0)
    } else {
        match (digits_value(s.drop_last(), radix), digit_value(s.last(), radix)) {
            (Some(head), Some(last)) => Some(head * radix + last),
            _ => None,
        }
    }
}

/// The number written by `s`: digits, at least one, after an optional `+`.
pub open spec fn parse_unsigned(s: Seq<char>, radix: nat) -> Option<nat> {
    let digits = if s.len() > 0 && s[0] == '+' {
        s.drop_first()
    } else {
        s
    };
    if digits.len() == 0 {
        None
    } else {
        digits_value(digits, radix)
    }
}

/// A number that fits below `bound`, if that is what was written.
pub open spec fn at_most(value: Option<nat>, bound: nat) -> Option<nat> {
    match value {
        Some(n) => if n <= bound {
            Some(n)
        } else {
            None
        },
        None => None,
    }
}

fn digit_of(c: char, radix: u32) -> (r: Option<u32>)
    requires
        2 <= radix <= 36,
    ensures
        match r {
            Some(d) => digit_value(c, radix as nat) == Some(d as nat) && d < radix,
            None => digit_value(c, radix as nat) is None,
        },
{
    let code: u32 = c as u32;
    let value: u32 = if 0x30 <= code && code <= 0x39 {
        code - 0x30
    } else if 0x61 <= code && code <= 0x7a {
        code - 0x61 + 10
    } else if 0x41 <= code && code <= 0x5a {
        code - 0x41 + 10
    } else {
        36
    };
    if value < radix {
        Some(value)
    } else {
        None
    }
}

proof fn lemma_digits_grow(s: Seq<char>, i: int, radix: nat)
    requires
        0 <= i <= s.len(),
        radix >= 2,
        digits_value(s, radix) is Some,
    ensures
        digits_value(s.take(i), radix) is Some,
        digits_value(s.take(i), radix)->0 <= digits_value(s, radix)->0,
    decreases s.len() - i,
{
    if i == s.len() {
        assert(s.take(i) =~= s);
    } else {
        lemma_digits_grow(s, i + 1, radix);
        let longer = s.take(i + 1);
        assert(longer.drop_last() =~= s.take(i));
        let head = digits_value(s.take(i), radix)->0;
        assert(head <= head * radix) by (nonlinear_arith)
            requires
                radix >= 2,
        ;
    }
}

/// The number written by `digits`, or `None` where a character is no digit or
/// the number exceeds `u64`.
pub fn read_digits(digits: &[char], radix: u32) -> (r: Option<u64>)
    requires
        2 <= radix <= 36,
    ensures
        match r {
            Some(v) => digits_value(digits@, radix as nat) == Some(v as nat),
            None => at_most(digits_value(digits@, radix as nat), u64::MAX as nat) is None,
        },
{
    let mut value: u64 = 0;
    let mut i: usize = 0;
    while i < digits.len()
        invariant
            i <= digits.len(),
            2 <= radix <= 36,
            digits_value(digits@.take(i as int), radix as nat) == Some(value as nat),
        decreases digits.len() - i,
    {
        proof {
            assert(digits@.take(i + 1).drop_last() =~= digits@.take(i as int));
            if digits_value(digits@, radix as nat) is Some {
                lemma_digits_grow(digits@, i + 1, radix as nat);
            }
        }
        let d: u32 = match digit_of(digits[i], radix) {
            Some(d) => d,
            None => {
                return None;
            },
        };
        let scaled: u64 = match value.checked_mul(radix as u64) {
            Some(v) => v,
            None => {
                return None;
            },
        };
        value = match scaled.checked_add(d as u64) {
            Some(v) => v,
            None => {
                return None;
            },
        };
        i = i + 1;
    }
    proof {
        assert(digits@.take(i as int) =~= digits@);
    }
    Some(value)
}

/// Read an unsigned number of at most `bound`.
pub fn read_unsigned(s: &[char], radix: u32, bound: u64) -> (r: Option<u64>)
    requires
        2 <= radix <= 36,
    ensures
        match r {
            Some(v) => at_most(parse_unsigned(s@, radix as nat), bound as nat) == Some(v as nat),
            None => at_most(parse_unsigned(s@, radix as nat), bound as nat) is None,
        },
{
    let digits = if s.len() > 0 && s[0] == '+' {
        let rest = vstd::slice::slice_subrange(s, 1, s.len());
        proof {
            assert(rest@ =~= s@.drop_first());
        }
        rest
    } else {
        s
    };
    if digits.len() == 0 {
        return None;
    }
    match read_digits(digits, radix) {
        Some(v) => if v <= bound {
            Some(v)
        } else {
            None
        },
        None => None,
    }
}

/// Reading a rendered number gives it back.
pub proof fn lemma_decimal_reads_back(n: nat)
    ensures
        digits_value(decimal(n), 10) == Some(n),
        decimal(n).len() >= 1,
        forall|i: int| 0 <= i < decimal(n).len() ==> '0' <= #[trigger] decimal(n)[i] <= '9',
    decreases n,
{
    if n < 10 {
        assert(decimal(n).drop_last() =~= seq![]);
        assert(digits_value(decimal(n).drop_last(), 10) == Some(0nat));
    } else {
        lemma_decimal_reads_back(n / 10);
        assert(decimal(n).drop_last() =~= decimal(n / 10));
    }
}

/// Leading zeros do not change a number.
pub proof fn lemma_leading_zeros(count: nat, s: Seq<char>)
    requires
        digits_value(s, 10) is Some,
    ensures
        digits_value(zeros(count) + s, 10) == digits_value(s, 10),
    decreases s.len(), count,
{
    if s.len() > 0 {
        lemma_leading_zeros(count, s.drop_last());
        assert((zeros(count) + s).drop_last() =~= zeros(count) + s.drop_last());
    } else if count > 0 {
        lemma_leading_zeros((count - 1) as nat, s);
        assert((zeros(count) + s).drop_last() =~= zeros((count - 1) as nat) + s);
    } else {
        assert(zeros(count) + s =~= s);
    }
}

/// A run of `n` decimal digits writes a number below `10^n`.
pub proof fn lemma_digits_below(s: Seq<char>)
    ensures
        match digits_value(s, 10) {
            Some(v) => v < pow10(s.len()),
            None => true,
        },
    decreases s.len(),
{
    if s.len() > 0 {
        lemma_digits_below(s.drop_last());
    }
}

/// A number filled to a width that it fits in reads back, and takes up that
/// width in ASCII.
pub proof fn lemma_padded_reads_back(n: nat, width: nat)
    requires
        decimal(n).len() <= width,
    ensures
        padded(n as int, width).len() == width,
        is_ascii_chars(padded(n as int, width)),
        digits_value(padded(n as int, width), 10) == Some(n),
{
    let digits = decimal(n);
    lemma_decimal_reads_back(n);
    let fill = zeros((width - digits.len()) as nat);
    lemma_leading_zeros(fill.len(), digits);
    let s = padded(n as int, width);
    assert(s =~= fill + digits);
    assert forall|k: int| 0 <= k < s.len() implies '\0' <= #[trigger] s[k] <= '\u{7f}' by {
        if k >= fill.len() {
            assert(s[k] == digits[k - fill.len()]);
        }
    }
}

/// Each of the twenty-six letters has a lower case, and nothing else changes.
pub proof fn lemma_letters_have_a_lower_case(d: nat, c: char)
    requires
        d < 26,
    ensures
        ascii_lower((0x41 + d) as char) == (0x61 + d) as char,
        ascii_lower((0x61 + d) as char) == (0x61 + d) as char,
        (c as int) < 0x41 || (c as int) > 0x5a ==> ascii_lower(c) == c,
{
}

/// Text keeps its length in lower case, and is in lower case from there on.
pub proof fn lemma_lower_case_stays(s: Seq<char>, i: int)
    requires
        0 <= i < s.len(),
    ensures
        lower_text(s).len() == s.len(),
        lower_text(s)[i] == ascii_lower(s[i]),
        lower_text(lower_text(s)) == lower_text(s),
{
    assert forall|k: int| 0 <= k < s.len() implies #[trigger] lower_text(lower_text(s))[k]
        == lower_text(s)[k] by {
        assert(lower_text(s)[k] == ascii_lower(s[k]));
        assert(lower_text(lower_text(s))[k] == ascii_lower(lower_text(s)[k]));
    }
    assert(lower_text(lower_text(s)) =~= lower_text(s));
}

/// A negative number is written with a sign before its magnitude, and reads
/// back behind it.
pub proof fn lemma_signed_numbers_read_back(i: int)
    ensures
        i >= 0 ==> digits_value(signed_decimal(i), 10) == Some(i as nat),
        i < 0 ==> signed_decimal(i)[0] == '-' && digits_value(signed_decimal(i).skip(1), 10) == Some(
            (-i) as nat,
        ),
{
    if i < 0 {
        lemma_decimal_reads_back((-i) as nat);
        assert(signed_decimal(i).skip(1) =~= decimal((-i) as nat));
    } else {
        lemma_decimal_reads_back(i as nat);
    }
}

/// A number may be written behind a plus sign; without a digit, or with anything
/// that is none, there is no number.
pub proof fn lemma_numbers_are_all_digits(n: nat, s: Seq<char>, i: int)
    requires
        0 <= i < s.len(),
        !('0' <= s[i] <= '9'),
        i > 0 || s[i] != '+',
    ensures
        parse_unsigned(seq!['+'] + decimal(n), 10) == Some(n),
        parse_unsigned(decimal(n), 10) == Some(n),
        parse_unsigned(seq![], 10) is None,
        parse_unsigned(seq!['+'], 10) is None,
        parse_unsigned(s, 10) is None,
        n <= u64::MAX ==> at_most(Some(n), u64::MAX as nat) == Some(n),
        n > u64::MAX ==> at_most(Some(n), u64::MAX as nat) is None,
{
    lemma_decimal_reads_back(n);
    let signed = seq!['+'] + decimal(n);
    assert(signed.drop_first() =~= decimal(n));
    assert('0' <= decimal(n)[0] <= '9');
    let plus = seq!['+'];
    assert(plus.drop_first().len() == 0);
    if s[0] == '+' {
        assert(s.drop_first()[i - 1] == s[i]);
        lemma_no_digit(s.drop_first(), i - 1);
    } else {
        lemma_no_digit(s, i);
    }
}

proof fn lemma_no_digit(s: Seq<char>, i: int)
    requires
        0 <= i < s.len(),
        !('0' <= s[i] <= '9'),
    ensures
        digits_value(s, 10) is None,
    decreases s.len(),
{
    if i < s.len() - 1 {
        assert(s.drop_last()[i] == s[i]);
        lemma_no_digit(s.drop_last(), i);
    } else {
        assert(s.last() == s[i]);
    }
}

} // verus!
