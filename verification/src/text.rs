//! Numbers and byte strings as text, and the other way round.
use vstd::prelude::*;
use vstd::utf8::*;

verus! {

/// `String::push` appends one character.
pub assume_specification[ String::push ](s: &mut String, c: char)
    ensures
        final(s)@ == old(s)@.push(c),
;

// ---------------------------------------------------------------------------
// Decimal and hexadecimal numbers

/// The digit of value `d`, in lower case where it is a letter.
pub open spec fn digit(d: int) -> char {
    if d < 10 {
        (48 + d) as char
    } else {
        (87 + d) as char
    }
}

/// `n` in decimal notation, without leading zeros.
pub open spec fn decimal(n: nat) -> Seq<char>
    decreases n,
{
    if n < 10 {
        seq![digit(n as int)]
    } else {
        decimal(n / 10).push(digit((n % 10) as int))
    }
}

/// `n` in decimal notation, with a minus sign where it is negative.
pub open spec fn signed_decimal(n: int) -> Seq<char> {
    if n < 0 {
        seq!['-'] + decimal((-n) as nat)
    } else {
        decimal(n as nat)
    }
}

/// The low `width` hexadecimal digits of `n`.
pub open spec fn hex(n: nat, width: nat) -> Seq<char>
    decreases width,
{
    if width == 0 {
        Seq::empty()
    } else {
        hex(n / 16, (width - 1) as nat).push(digit((n % 16) as int))
    }
}

pub fn push_digit(out: &mut String, d: u8)
    requires
        d < 16,
    ensures
        final(out)@ == old(out)@.push(digit(d as int)),
{
    if d < 10 {
        out.push((48 + d) as char);
    } else {
        out.push((87 + d) as char);
    }
}

pub fn push_decimal(out: &mut String, n: u64)
    ensures
        final(out)@ == old(out)@ + decimal(n as nat),
    decreases n,
{
    if n >= 10 {
        push_decimal(out, n / 10);
    }
    push_digit(out, (n % 10) as u8);
}

pub fn push_signed_decimal(out: &mut String, n: i64)
    ensures
        final(out)@ == old(out)@ + signed_decimal(n as int),
{
    if n < 0 {
        out.push('-');
        push_decimal(out, (-(n as i128)) as u64);
    } else {
        push_decimal(out, n as u64);
    }
}

pub fn push_hex(out: &mut String, n: u64, width: usize)
    ensures
        final(out)@ == old(out)@ + hex(n as nat, width as nat),
    decreases width,
{
    if width > 0 {
        push_hex(out, n / 16, width - 1);
        push_digit(out, (n % 16) as u8);
    }
}

pub proof fn lemma_concat(a: Seq<char>, b: Seq<char>, c: Seq<char>)
    ensures
        (a + b) + c == a + (b + c),
{
    assert((a + b) + c =~= a + (b + c));
}

/// Whether a text has no line break.
pub open spec fn one_line(s: Seq<char>) -> bool {
    forall|i: int| 0 <= i < s.len() ==> #[trigger] s[i] != '\n'
}

pub proof fn lemma_decimal_one_line(n: nat)
    ensures
        one_line(decimal(n)),
    decreases n,
{
    if n >= 10 {
        lemma_decimal_one_line(n / 10);
    }
}

pub proof fn lemma_join_one_line(parts: Seq<Seq<char>>, sep: Seq<char>)
    requires
        one_line(sep),
        forall|i: int| 0 <= i < parts.len() ==> one_line(#[trigger] parts[i]),
    ensures
        one_line(join(parts, sep)),
    decreases parts.len(),
{
    if parts.len() > 0 {
        assert(one_line(parts.last())) by {
            assert(one_line(parts[parts.len() - 1]));
        }
        assert forall|i: int| 0 <= i < parts.drop_last().len() implies one_line(
            #[trigger] parts.drop_last()[i],
        ) by {
            assert(one_line(parts[i]));
        }
        lemma_join_one_line(parts.drop_last(), sep);
    }
}

/// The parts with `sep` between them.
pub open spec fn join(parts: Seq<Seq<char>>, sep: Seq<char>) -> Seq<char>
    decreases parts.len(),
{
    if parts.len() == 0 {
        Seq::empty()
    } else if parts.len() == 1 {
        parts[0]
    } else {
        join(parts.drop_last(), sep) + sep + parts.last()
    }
}

pub proof fn lemma_join_take(parts: Seq<Seq<char>>, sep: Seq<char>, i: int)
    requires
        0 <= i < parts.len(),
    ensures
        i == 0 ==> join(parts.take(i + 1), sep) == parts[i],
        i > 0 ==> join(parts.take(i + 1), sep) == join(parts.take(i), sep) + sep + parts[i],
        join(parts.take(0), sep).len() == 0,
{
    assert(parts.take(i + 1).drop_last() =~= parts.take(i));
}

// ---------------------------------------------------------------------------
// Equality and order of byte strings and strings

pub fn bytes_eq(a: &[u8], b: &[u8]) -> (equal: bool)
    ensures
        equal == (a@ == b@),
{
    if a.len() != b.len() {
        return false;
    }
    for i in 0..a.len()
        invariant
            a@.len() == b@.len(),
            forall|j: int| 0 <= j < i ==> a@[j] == b@[j],
    {
        if a[i] != b[i] {
            assert(a@[i as int] != b@[i as int]);
            return false;
        }
    }
    assert(a@ =~= b@);
    true
}

/// Different strings have different encodings.
pub proof fn lemma_encode_utf8_injective(a: Seq<char>, b: Seq<char>)
    requires
        encode_utf8(a) == encode_utf8(b),
    ensures
        a == b,
{
    encode_utf8_decode_utf8(a);
    encode_utf8_decode_utf8(b);
}

/// Only the empty string has an empty encoding.
pub proof fn lemma_encode_utf8_empty(s: Seq<char>)
    ensures
        encode_utf8(s).len() == 0 <==> s.len() == 0,
{
    reveal_with_fuel(encode_utf8, 1);
}

pub fn str_eq(a: &str, b: &str) -> (equal: bool)
    ensures
        equal == (a@ == b@),
{
    let equal = bytes_eq(a.as_bytes(), b.as_bytes());
    proof {
        if equal {
            lemma_encode_utf8_injective(a@, b@);
        }
    }
    equal
}

/// Whether `s` begins with `prefix`.
pub open spec fn has_prefix(s: Seq<u8>, prefix: Seq<u8>) -> bool {
    prefix.len() <= s.len() && s.take(prefix.len() as int) == prefix
}

pub fn starts_with(s: &[u8], prefix: &[u8]) -> (yes: bool)
    ensures
        yes == has_prefix(s@, prefix@),
{
    if s.len() < prefix.len() {
        return false;
    }
    bytes_eq(&s[0..prefix.len()], prefix)
}

pub fn contains_byte(s: &[u8], b: u8) -> (yes: bool)
    ensures
        yes == s@.contains(b),
{
    for i in 0..s.len()
        invariant
            forall|j: int| 0 <= j < i ==> s@[j] != b,
    {
        if s[i] == b {
            return true;
        }
    }
    false
}

/// What `std::str::Utf8Error` displays of the first fault in bytes that are not
/// well-formed UTF-8.
pub uninterp spec fn utf8_fault(s: Seq<u8>) -> Seq<char>;

/// The bytes of `s` as a string, if they are well-formed UTF-8, or else what is wrong
/// with them, in words.
///
/// `std::str::from_utf8` succeeds exactly on well-formed UTF-8, and the string
/// that it returns consists of the same bytes. The text of its error tells where the
/// first fault is, which the bytes alone decide; nothing more is said of it.
#[verifier::external_body]
pub(crate) fn from_utf8(s: &[u8]) -> (text: Result<&str, String>)
    ensures
        text is Ok <==> valid_utf8(s@),
        text matches Ok(t) ==> encode_utf8(t@) == s@,
        text matches Err(why) ==> why@ == utf8_fault(s@),
{
    std::str::from_utf8(s).map_err(|error| error.to_string())
}

// ---------------------------------------------------------------------------
// Characters

/// Whether Unicode counts a character as white space.
pub open spec fn whitespace(c: char) -> bool {
    ||| 9 <= c as u32 <= 13
    ||| c as u32 == 0x20
    ||| c as u32 == 0x85
    ||| c as u32 == 0xa0
    ||| c as u32 == 0x1680
    ||| 0x2000 <= c as u32 <= 0x200a
    ||| c as u32 == 0x2028
    ||| c as u32 == 0x2029
    ||| c as u32 == 0x202f
    ||| c as u32 == 0x205f
    ||| c as u32 == 0x3000
}

/// Whether Unicode counts a character as a control character.
pub open spec fn control(c: char) -> bool {
    c as u32 <= 0x1f || 0x7f <= c as u32 <= 0x9f
}

pub fn is_whitespace(c: char) -> (yes: bool)
    ensures
        yes == whitespace(c),
{
    let n: u32 = c as u32;
    (9 <= n && n <= 13) || n == 0x20 || n == 0x85 || n == 0xa0 || n == 0x1680 || (0x2000 <= n && n
        <= 0x200a) || n == 0x2028 || n == 0x2029 || n == 0x202f || n == 0x205f || n == 0x3000
}

pub fn is_control(c: char) -> (yes: bool)
    ensures
        yes == control(c),
{
    let n: u32 = c as u32;
    n <= 0x1f || (0x7f <= n && n <= 0x9f)
}

pub fn has_whitespace(s: &str) -> (yes: bool)
    ensures
        yes == exists|i: int| 0 <= i < s@.len() && whitespace(#[trigger] s@[i]),
{
    for c in it: s.chars()
        invariant
            it.seq() == s@,
            forall|j: int| 0 <= j < it.index() ==> !whitespace(#[trigger] s@[j]),
    {
        if is_whitespace(c) {
            assert(whitespace(s@[it.index() as int]));
            return true;
        }
    }
    false
}

pub fn has_control(s: &str) -> (yes: bool)
    ensures
        yes == exists|i: int| 0 <= i < s@.len() && control(#[trigger] s@[i]),
{
    for c in it: s.chars()
        invariant
            it.seq() == s@,
            forall|j: int| 0 <= j < it.index() ==> !control(#[trigger] s@[j]),
    {
        if is_control(c) {
            assert(control(s@[it.index() as int]));
            return true;
        }
    }
    false
}

// ---------------------------------------------------------------------------
// Splitting

/// How many bytes of `s` stand before the first `b`; all, if there is none.
pub open spec fn find(s: Seq<u8>, b: u8) -> int
    decreases s.len(),
{
    if s.len() == 0 || s[0] == b {
        0
    } else {
        1 + find(s.skip(1), b)
    }
}

pub proof fn lemma_find(s: Seq<u8>, b: u8)
    ensures
        0 <= find(s, b) <= s.len(),
        forall|j: int| 0 <= j < find(s, b) ==> s[j] != b,
        find(s, b) < s.len() ==> s[find(s, b)] == b,
    decreases s.len(),
{
    if s.len() > 0 && s[0] != b {
        lemma_find(s.skip(1), b);
        assert forall|j: int| 0 <= j < find(s, b) implies s[j] != b by {
            if j > 0 {
                assert(s.skip(1)[j - 1] != b);
            }
        }
    }
}

/// `find` is the only index with its properties.
pub proof fn lemma_find_unique(s: Seq<u8>, b: u8, i: int)
    requires
        0 <= i <= s.len(),
        forall|j: int| 0 <= j < i ==> s[j] != b,
        i < s.len() ==> s[i] == b,
    ensures
        i == find(s, b),
{
    lemma_find(s, b);
}

pub fn find_byte(s: &[u8], b: u8) -> (i: usize)
    ensures
        i == find(s@, b),
        i <= s@.len(),
{
    let mut i: usize = 0;
    while i < s.len() && s[i] != b
        invariant
            i <= s@.len(),
            forall|j: int| 0 <= j < i ==> s@[j] != b,
        decreases s.len() - i,
    {
        i = i + 1;
    }
    proof {
        lemma_find_unique(s@, b, i as int);
    }
    i
}

/// Where `pattern` first occurs in `s`.
pub open spec fn index_of(s: Seq<u8>, pattern: Seq<u8>) -> Option<int>
    decreases s.len(),
{
    if has_prefix(s, pattern) {
        Some(0)
    } else if s.len() == 0 {
        None
    } else {
        match index_of(s.skip(1), pattern) {
            Some(i) => Some(i + 1),
            None => None,
        }
    }
}

pub fn find_bytes(s: &[u8], pattern: &[u8]) -> (i: Option<usize>)
    ensures
        match i {
            Some(n) => index_of(s@, pattern@) == Some(n as int) && n + pattern@.len() <= s@.len(),
            None => index_of(s@, pattern@) is None,
        },
{
    let mut i: usize = 0;
    assert(s@.skip(0) =~= s@);
    loop
        invariant
            i <= s@.len(),
            match index_of(s@.skip(i as int), pattern@) {
                Some(k) => index_of(s@, pattern@) == Some(i + k),
                None => index_of(s@, pattern@) is None,
            },
        decreases s@.len() - i,
    {
        let rest: &[u8] = &s[i..s.len()];
        assert(rest@ =~= s@.skip(i as int));
        if starts_with(rest, pattern) {
            return Some(i);
        }
        if i == s.len() {
            return None;
        }
        assert(s@.skip(i as int).skip(1) =~= s@.skip(i + 1));
        i = i + 1;
    }
}

/// The pieces of `s` between the bytes `sep`: one more than `s` holds of them.
pub open spec fn split(s: Seq<u8>, sep: u8) -> Seq<Seq<u8>>
    decreases s.len(),
    via split_decreases
{
    if find(s, sep) < s.len() {
        seq![s.take(find(s, sep))] + split(s.skip(find(s, sep) + 1), sep)
    } else {
        seq![s]
    }
}

#[via_fn]
proof fn split_decreases(s: Seq<u8>, sep: u8) {
    lemma_find(s, sep);
}

/// The views of borrowed byte strings.
pub open spec fn views(parts: Seq<&[u8]>) -> Seq<Seq<u8>> {
    parts.map_values(|p: &[u8]| p@)
}

pub fn split_bytes<'a>(s: &'a [u8], sep: u8) -> (parts: Vec<&'a [u8]>)
    ensures
        views(parts@) == split(s@, sep),
{
    let mut parts: Vec<&'a [u8]> = Vec::new();
    let mut rest: &'a [u8] = s;
    loop
        invariant
            views(parts@) + split(rest@, sep) == split(s@, sep),
        decreases rest@.len(),
    {
        let i: usize = find_byte(rest, sep);
        let ghost before = parts@;
        if i < rest.len() {
            let piece: &'a [u8] = &rest[0..i];
            let tail: &'a [u8] = &rest[i + 1..rest.len()];
            parts.push(piece);
            proof {
                assert(piece@ =~= rest@.take(i as int));
                assert(tail@ =~= rest@.skip(i + 1));
                assert(views(parts@) =~= views(before).push(piece@));
                assert(views(parts@) + split(tail@, sep) =~= views(before) + (seq![piece@]
                    + split(tail@, sep)));
            }
            rest = tail;
        } else {
            parts.push(rest);
            assert(views(parts@) =~= views(before) + seq![rest@]);
            return parts;
        }
    }
}

// ---------------------------------------------------------------------------
// Unsigned numbers from text

/// The value of a digit, or `radix` for a byte that is none.
pub open spec fn digit_value(b: u8, radix: nat) -> nat {
    if 48 <= b <= 57 && b - 48 < radix {
        (b - 48) as nat
    } else if 97 <= b <= 122 && b - 87 < radix {
        (b - 87) as nat
    } else if 65 <= b <= 90 && b - 55 < radix {
        (b - 55) as nat
    } else {
        radix
    }
}

/// Whether every byte is a digit.
pub open spec fn all_digits(s: Seq<u8>, radix: nat) -> bool {
    forall|i: int| 0 <= i < s.len() ==> digit_value(#[trigger] s[i], radix) < radix
}

/// The number that a string of digits denotes.
pub open spec fn digits_value(s: Seq<u8>, radix: nat) -> nat
    decreases s.len(),
{
    if s.len() == 0 {
        0
    } else {
        digits_value(s.drop_last(), radix) * radix + digit_value(s.last(), radix)
    }
}

/// What is left of a number's text without its optional plus sign.
pub open spec fn unsigned_digits(s: Seq<u8>) -> Seq<u8> {
    if s.len() > 1 && s[0] == 43 {
        s.skip(1)
    } else {
        s
    }
}

/// The number that `s` denotes, if it is an optional plus sign and at least one
/// digit, and the number is at most `max`. Leading zeros are allowed.
pub open spec fn number(s: Seq<u8>, radix: nat, max: nat) -> Option<nat> {
    let digits = unsigned_digits(s);
    if digits.len() > 0 && all_digits(digits, radix) && digits_value(digits, radix) <= max {
        Some(digits_value(digits, radix))
    } else {
        None
    }
}

/// Why a text is no number.
#[derive(Debug, Clone, Copy, PartialEq, Eq, Structural)]
pub enum NumberFault {
    Empty,
    /// A character that is no digit.
    Digit,
    /// More than the largest number that is taken.
    TooLarge,
}

/// What stops a reader of digits that comes to the one at `i`: a byte that is none, or
/// a number that is over `max` with it, whichever comes first.
pub open spec fn digits_fault(digits: Seq<u8>, radix: nat, max: nat, i: int) -> NumberFault
    decreases digits.len() - i,
{
    if i < 0 || i >= digits.len() || digit_value(digits[i], radix) >= radix {
        NumberFault::Digit
    } else if digits_value(digits.take(i + 1), radix) > max {
        NumberFault::TooLarge
    } else {
        digits_fault(digits, radix, max, i + 1)
    }
}

/// Why `s` denotes no number.
pub open spec fn number_fault(s: Seq<u8>, radix: nat, max: nat) -> NumberFault {
    if s.len() == 0 {
        NumberFault::Empty
    } else {
        digits_fault(unsigned_digits(s), radix, max, 0)
    }
}

proof fn lemma_digits_value_monotone(s: Seq<u8>, radix: nat, i: int)
    requires
        0 <= i <= s.len(),
        radix >= 1,
    ensures
        digits_value(s.take(i), radix) <= digits_value(s, radix),
    decreases s.len() - i,
{
    if i == s.len() {
        assert(s.take(i) =~= s);
    } else {
        assert(s.take(i + 1).drop_last() =~= s.take(i));
        assert(digits_value(s.take(i), radix) <= digits_value(s.take(i), radix) * radix)
            by (nonlinear_arith)
            requires
                radix >= 1,
        ;
        lemma_digits_value_monotone(s, radix, i + 1);
    }
}

fn digit_of(b: u8, radix: u32) -> (v: u32)
    requires
        2 <= radix <= 36,
    ensures
        v == digit_value(b, radix as nat),
{
    if 48 <= b && b <= 57 && ((b - 48) as u32) < radix {
        (b - 48) as u32
    } else if 97 <= b && b <= 122 && ((b - 87) as u32) < radix {
        (b - 87) as u32
    } else if 65 <= b && b <= 90 && ((b - 55) as u32) < radix {
        (b - 55) as u32
    } else {
        radix
    }
}

/// The number that `s` denotes, or why it denotes none.
pub fn read_number(s: &[u8], radix: u32, max: u32) -> (n: Result<u32, NumberFault>)
    requires
        2 <= radix <= 36,
    ensures
        match n {
            Ok(v) => number(s@, radix as nat, max as nat) == Some(v as nat),
            Err(fault) => number(s@, radix as nat, max as nat) is None && fault == number_fault(
                s@,
                radix as nat,
                max as nat,
            ),
        },
{
    let digits: &[u8] = if s.len() > 1 && s[0] == 43 {
        &s[1..s.len()]
    } else {
        &s[0..s.len()]
    };
    assert(digits@ =~= unsigned_digits(s@));
    if digits.len() == 0 {
        return Err(NumberFault::Empty);
    }
    let mut value: u64 = 0;
    for i in 0..digits.len()
        invariant
            digits@ == unsigned_digits(s@),
            digits@.len() > 0,
            s@.len() > 0,
            digits_fault(digits@, radix as nat, max as nat, 0) == digits_fault(
                digits@,
                radix as nat,
                max as nat,
                i as int,
            ),
            2 <= radix <= 36,
            all_digits(digits@.take(i as int), radix as nat),
            value == digits_value(digits@.take(i as int), radix as nat),
            value <= max,
    {
        let d: u32 = digit_of(digits[i], radix);
        assert(digits@.take(i + 1).drop_last() =~= digits@.take(i as int));
        if d >= radix {
            assert(!all_digits(digits@, radix as nat)) by {
                assert(digit_value(digits@[i as int], radix as nat) == radix);
            }
            return Err(NumberFault::Digit);
        }
        assert(value * radix + d <= 0xffff_ffff * 36 + 36) by (nonlinear_arith)
            requires
                value <= 0xffff_ffff,
                radix <= 36,
                d < radix,
        ;
        assert(value * radix <= 0xffff_ffff * 36) by (nonlinear_arith)
            requires
                value <= 0xffff_ffff,
                radix <= 36,
        ;
        value = value * radix as u64 + d as u64;
        assert(value == digits_value(digits@.take(i + 1), radix as nat));
        if value > max as u64 {
            proof {
                lemma_digits_value_monotone(digits@, radix as nat, i + 1);
            }
            return Err(NumberFault::TooLarge);
        }
        assert(all_digits(digits@.take(i + 1), radix as nat)) by {
            assert forall|j: int| 0 <= j < i + 1 implies digit_value(
                #[trigger] digits@.take(i + 1)[j],
                radix as nat,
            ) < radix as nat by {
                if j < i {
                    assert(digits@.take(i as int)[j] == digits@[j]);
                }
            }
        }
    }
    assert(digits@.take(digits@.len() as int) =~= digits@);
    Ok(value as u32)
}

pub fn parse_number(s: &[u8], radix: u32, max: u32) -> (n: Option<u32>)
    requires
        2 <= radix <= 36,
    ensures
        n is Some <==> number(s@, radix as nat, max as nat) is Some,
        n matches Some(v) ==> number(s@, radix as nat, max as nat) == Some(v as nat),
{
    match read_number(s, radix, max) {
        Ok(v) => Some(v),
        Err(_) => None,
    }
}

} // verus!
