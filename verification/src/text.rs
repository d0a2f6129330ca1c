//! Text in what the device reports.
use vstd::prelude::*;
use vstd::string::*;
use vstd::utf8::*;

verus! {

/// The error of [`core::str::from_utf8`].
#[verifier::external_type_specification]
#[verifier::external_body]
pub struct ExUtf8Error(core::str::Utf8Error);

/// `core::str::from_utf8`: a slice of bytes becomes a string exactly where it is valid UTF-8, and
/// the string is those bytes.
pub assume_specification<'a>[ core::str::from_utf8 ](v: &'a [u8]) -> (r: Result<
    &'a str,
    core::str::Utf8Error,
>)
    ensures
        match r {
            Ok(s) => valid_utf8(v@) && s.spec_bytes() == v@,
            Err(_) => !valid_utf8(v@),
        },
;

/// Where the first NUL stands, or the end.
pub open spec fn first_nul(s: Seq<u8>) -> int
    decreases s.len(),
{
    if s.len() == 0 || s[0] == 0 {
        0
    } else {
        1 + first_nul(s.skip(1))
    }
}

/// The bytes before the first NUL.
pub open spec fn up_to_nul(s: Seq<u8>) -> Seq<u8> {
    s.take(first_nul(s))
}

/// What is cut off before the first NUL holds no NUL, and nothing is cut off that did not have to
/// be.
pub proof fn up_to_nul_stops_at_the_first(s: Seq<u8>)
    ensures
        0 <= first_nul(s) <= s.len(),
        forall|i: int| 0 <= i < first_nul(s) ==> s[i] != 0,
        first_nul(s) < s.len() ==> s[first_nul(s)] == 0,
    decreases s.len(),
{
    if s.len() > 0 && s[0] != 0 {
        let rest = s.skip(1);
        up_to_nul_stops_at_the_first(rest);
        assert forall|i: int| 0 <= i < first_nul(s) implies s[i] != 0 by {
            if i > 0 {
                assert(rest[i - 1] == s[i]);
            }
        }
    }
}

/// Cuts a text off at its first NUL.
pub fn before_nul(bytes: &[u8]) -> (text: &[u8])
    ensures
        text@ == up_to_nul(bytes@),
{
    let mut i: usize = 0;
    while i < bytes.len() && bytes[i] != 0
        invariant
            i <= bytes@.len(),
            forall|k: int| 0 <= k < i ==> bytes@[k] != 0,
        decreases bytes@.len() - i,
    {
        i += 1;
    }
    proof {
        up_to_nul_stops_at_the_first(bytes@);
        let first = first_nul(bytes@);
        if first < i {
            assert(bytes@[first] == 0);
        }
    }
    assert(bytes@.subrange(0, i as int) =~= bytes@.take(i as int));
    vstd::slice::slice_subrange(bytes, 0, i)
}

/// Whether two texts are the same.
pub fn same(a: &str, b: &str) -> (same: bool)
    ensures
        same == (a@ == b@),
{
    let x = a.as_bytes();
    let y = b.as_bytes();
    proof {
        if x@ == y@ {
            encode_utf8_decode_utf8(a@);
            encode_utf8_decode_utf8(b@);
        }
    }
    if x.len() != y.len() {
        return false;
    }
    let mut i: usize = 0;
    while i < x.len()
        invariant
            x@.len() == y@.len(),
            i <= x@.len(),
            x@ == a.spec_bytes(),
            y@ == b.spec_bytes(),
            forall|k: int| 0 <= k < i ==> x@[k] == y@[k],
        decreases x@.len() - i,
    {
        if x[i] != y[i] {
            assert(a.spec_bytes() != b.spec_bytes());
            return false;
        }
        i += 1;
    }
    assert(x@ =~= y@);
    true
}

/// Whether a run of bytes stands in others at `start`.
pub open spec fn occurs_at(bytes: Seq<u8>, part: Seq<u8>, start: int) -> bool {
    &&& 0 <= start
    &&& start + part.len() <= bytes.len()
    &&& bytes.subrange(start, start + part.len()) == part
}

/// Whether a run of bytes stands anywhere in others.
pub open spec fn occurs(bytes: Seq<u8>, part: Seq<u8>) -> bool {
    exists|start: int| occurs_at(bytes, part, start)
}

/// Whether two runs of bytes are the same.
pub fn equal(a: &[u8], b: &[u8]) -> (same: bool)
    ensures
        same == (a@ == b@),
{
    if a.len() != b.len() {
        return false;
    }
    let mut i: usize = 0;
    while i < a.len()
        invariant
            a@.len() == b@.len(),
            i <= a@.len(),
            forall|k: int| 0 <= k < i ==> a@[k] == b@[k],
        decreases a@.len() - i,
    {
        if a[i] != b[i] {
            return false;
        }
        i += 1;
    }
    assert(a@ =~= b@);
    true
}

/// Whether a run of bytes stands anywhere in others.
pub fn contains(bytes: &[u8], part: &[u8]) -> (b: bool)
    ensures
        b == occurs(bytes@, part@),
{
    if part.len() > bytes.len() {
        return false;
    }
    let limit: usize = bytes.len() - part.len();
    let mut start: usize = 0;
    loop
        invariant
            part@.len() <= bytes@.len(),
            limit == bytes@.len() - part@.len(),
            start <= limit,
            forall|k: int| 0 <= k < start ==> !occurs_at(bytes@, part@, k),
        decreases limit - start,
    {
        assert(bytes@.len() == bytes.len());
        if equal(vstd::slice::slice_subrange(bytes, start, start + part.len()), part) {
            assert(occurs_at(bytes@, part@, start as int));
            return true;
        }
        if start == limit {
            assert(forall|k: int| #[trigger] occurs_at(bytes@, part@, k) ==> k <= limit);
            return false;
        }
        start += 1;
    }
}

/// Whether others start with a run of bytes.
pub fn starts_with(bytes: &[u8], part: &[u8]) -> (b: bool)
    ensures
        b == occurs_at(bytes@, part@, 0),
{
    part.len() <= bytes.len() && equal(vstd::slice::slice_subrange(bytes, 0, part.len()), part)
}

/// Whether others end with a run of bytes.
pub fn ends_with(bytes: &[u8], part: &[u8]) -> (b: bool)
    ensures
        b == occurs_at(bytes@, part@, bytes@.len() - part@.len()),
{
    part.len() <= bytes.len() && equal(
        vstd::slice::slice_subrange(bytes, bytes.len() - part.len(), bytes.len()),
        part,
    )
}

/// Whether a run of bytes is one character of white space, in UTF-8.
pub open spec fn is_space(s: Seq<u8>) -> bool {
    ||| s.len() == 1 && (s[0] == 0x20 || 0x09 <= s[0] <= 0x0d)
    ||| s.len() == 2 && s[0] == 0xc2 && (s[1] == 0x85 || s[1] == 0xa0)
    ||| s.len() == 3 && s[0] == 0xe1 && s[1] == 0x9a && s[2] == 0x80
    ||| s.len() == 3 && s[0] == 0xe2 && s[1] == 0x80 && (0x80 <= s[2] <= 0x8a || s[2] == 0xa8
        || s[2] == 0xa9 || s[2] == 0xaf)
    ||| s.len() == 3 && s[0] == 0xe2 && s[1] == 0x81 && s[2] == 0x9f
    ||| s.len() == 3 && s[0] == 0xe3 && s[1] == 0x80 && s[2] == 0x80
}

/// How many bytes of white space a text starts with: one character of it, or none.
pub open spec fn space_before(s: Seq<u8>) -> int {
    if s.len() >= 1 && is_space(s.take(1)) {
        1
    } else if s.len() >= 2 && is_space(s.take(2)) {
        2
    } else if s.len() >= 3 && is_space(s.take(3)) {
        3
    } else {
        0
    }
}

/// How many bytes of white space a text ends with: one character of it, or none.
pub open spec fn space_after(s: Seq<u8>) -> int {
    if s.len() >= 1 && is_space(s.skip(s.len() - 1)) {
        1
    } else if s.len() >= 2 && is_space(s.skip(s.len() - 2)) {
        2
    } else if s.len() >= 3 && is_space(s.skip(s.len() - 3)) {
        3
    } else {
        0
    }
}

/// The value of a digit to a base of up to sixteen, or `None` where the byte is none.
pub open spec fn digit_value(byte: u8, base: int) -> Option<int> {
    let value = if 0x30 <= byte <= 0x39 {
        byte - 0x30
    } else if 0x61 <= byte <= 0x66 {
        byte - 0x61 + 10
    } else if 0x41 <= byte <= 0x46 {
        byte - 0x41 + 10
    } else {
        16
    };
    if value < base {
        Some(value)
    } else {
        None
    }
}

/// The number that some digits write to a base, or `None` where one of them is no digit.
pub open spec fn digits_value(s: Seq<u8>, base: int) -> Option<int>
    decreases s.len(),
{
    if s.len() == 0 {
        Some(0)
    } else {
        match (digits_value(s.drop_last(), base), digit_value(s.last(), base)) {
            (Some(before), Some(digit)) => Some(base * before + digit),
            _ => None,
        }
    }
}

/// A text without the white space at its ends.
pub open spec fn stripped(s: Seq<u8>) -> Seq<u8>
    decreases s.len(),
{
    if space_before(s) > 0 {
        stripped(s.skip(space_before(s)))
    } else if space_after(s) > 0 {
        stripped(s.take(s.len() - space_after(s)))
    } else {
        s
    }
}

/// The digits of a number that a text holds: white space around it and a plus sign before it do not
/// count.
pub open spec fn number_digits(s: Seq<u8>) -> Seq<u8> {
    let t = stripped(s);
    if t.len() > 0 && t[0] == 0x2b {
        t.skip(1)
    } else {
        t
    }
}

/// The number that a text holds, written to a base, where it is at most `limit`.
pub open spec fn number_in(s: Seq<u8>, base: int, limit: int) -> Option<int> {
    let digits = number_digits(s);
    match digits_value(digits, base) {
        Some(v) => if digits.len() > 0 && v <= limit {
            Some(v)
        } else {
            None
        },
        None => None,
    }
}

fn digit(byte: u8, base: u32) -> (r: Option<u32>)
    requires
        base <= 16,
    ensures
        match r {
            Some(v) => digit_value(byte, base as int) == Some(v as int),
            None => digit_value(byte, base as int) is None,
        },
{
    let value: u32 = if 0x30 <= byte && byte <= 0x39 {
        (byte - 0x30) as u32
    } else if 0x61 <= byte && byte <= 0x66 {
        (byte - 0x61) as u32 + 10
    } else if 0x41 <= byte && byte <= 0x46 {
        (byte - 0x41) as u32 + 10
    } else {
        16
    };
    if value < base {
        Some(value)
    } else {
        None
    }
}

fn space(bytes: &[u8]) -> (b: bool)
    ensures
        b == is_space(bytes@),
{
    match bytes.len() {
        1 => bytes[0] == 0x20 || (0x09 <= bytes[0] && bytes[0] <= 0x0d),
        2 => bytes[0] == 0xc2 && (bytes[1] == 0x85 || bytes[1] == 0xa0),
        3 => {
            let (a, b, c): (u8, u8, u8) = (bytes[0], bytes[1], bytes[2]);
            (a == 0xe1 && b == 0x9a && c == 0x80) || (a == 0xe2 && b == 0x80 && ((0x80 <= c && c
                <= 0x8a) || c == 0xa8 || c == 0xa9 || c == 0xaf)) || (a == 0xe2 && b == 0x81 && c
                == 0x9f) || (a == 0xe3 && b == 0x80 && c == 0x80)
        },
        _ => false,
    }
}

fn leading_space(bytes: &[u8]) -> (n: usize)
    ensures
        n == space_before(bytes@),
{
    let mut n: usize = 1;
    while n <= 3 && n <= bytes.len()
        invariant
            1 <= n <= 4,
            forall|k: int| 1 <= k < n ==> k <= bytes@.len() && !is_space(#[trigger] bytes@.take(k)),
        decreases 4 - n,
    {
        let part = vstd::slice::slice_subrange(bytes, 0, n);
        assert(part@ =~= bytes@.take(n as int));
        if space(part) {
            return n;
        }
        n += 1;
    }
    0
}

fn trailing_space(bytes: &[u8]) -> (n: usize)
    ensures
        n == space_after(bytes@),
{
    let mut n: usize = 1;
    while n <= 3 && n <= bytes.len()
        invariant
            1 <= n <= 4,
            forall|k: int|
                1 <= k < n ==> k <= bytes@.len() && !is_space(
                    #[trigger] bytes@.skip(bytes@.len() - k),
                ),
        decreases 4 - n,
    {
        let part = vstd::slice::slice_subrange(bytes, bytes.len() - n, bytes.len());
        assert(part@ =~= bytes@.skip(bytes@.len() - n));
        if space(part) {
            return n;
        }
        n += 1;
    }
    0
}

fn strip(bytes: &[u8]) -> (t: &[u8])
    ensures
        t@ == stripped(bytes@),
{
    let mut rest: &[u8] = bytes;
    loop
        invariant
            stripped(rest@) == stripped(bytes@),
        decreases rest@.len(),
    {
        let len: usize = rest.len();
        let before: usize = leading_space(rest);
        let after: usize = trailing_space(rest);
        if before > 0 {
            let part = vstd::slice::slice_subrange(rest, before, len);
            assert(part@ =~= rest@.skip(before as int));
            rest = part;
        } else if after > 0 {
            let part = vstd::slice::slice_subrange(rest, 0, len - after);
            assert(part@ =~= rest@.take(len - after));
            rest = part;
        } else {
            return rest;
        }
    }
}

proof fn longer_digits_are_no_smaller(s: Seq<u8>, n: int, base: int)
    requires
        0 <= n <= s.len(),
        base > 0,
        digits_value(s, base) is Some,
    ensures
        digits_value(s.take(n), base) is Some,
        0 <= digits_value(s.take(n), base)->Some_0 <= digits_value(s, base)->Some_0,
    decreases s.len(),
{
    if n == s.len() {
        assert(s.take(n) =~= s);
        if n > 0 {
            longer_digits_are_no_smaller(s.drop_last(), n - 1, base);
            assert(s.drop_last().take(n - 1) =~= s.drop_last());
            let before = digits_value(s.drop_last(), base)->Some_0;
            assert(base * before >= 0) by (nonlinear_arith)
                requires
                    base > 0,
                    before >= 0,
            ;
        }
    } else {
        longer_digits_are_no_smaller(s.drop_last(), n, base);
        assert(s.drop_last().take(n) =~= s.take(n));
        let before = digits_value(s.drop_last(), base)->Some_0;
        assert(base * before >= before) by (nonlinear_arith)
            requires
                base > 0,
                before >= 0,
        ;
    }
}

/// Reads the number that a text holds, written to a base, where it is at most `limit`.
pub fn number(bytes: &[u8], base: u32, limit: u32) -> (r: Option<u32>)
    requires
        2 <= base <= 16,
    ensures
        match r {
            Some(v) => number_in(bytes@, base as int, limit as int) == Some(v as int),
            None => number_in(bytes@, base as int, limit as int) is None,
        },
{
    let text = strip(bytes);
    let mut start: usize = 0;
    if text.len() > 0 && text[0] == 0x2b {
        start = 1;
    }
    let digits = vstd::slice::slice_subrange(text, start, text.len());
    assert(digits@ =~= number_digits(bytes@));
    if digits.len() == 0 {
        return None;
    }
    let mut value: u64 = 0;
    let mut i: usize = 0;
    assert(digits@.take(0) =~= Seq::<u8>::empty());
    while i < digits.len()
        invariant
            2 <= base <= 16,
            digits@ == number_digits(bytes@),
            i <= digits@.len(),
            value <= limit,
            digits_value(digits@.take(i as int), base as int) == Some(value as int),
        decreases digits@.len() - i,
    {
        let ghost next = digits@.take(i + 1);
        assert(next.drop_last() =~= digits@.take(i as int));
        match digit(digits[i], base) {
            Some(d) => {
                assert(base * value <= 16 * limit) by (nonlinear_arith)
                    requires
                        base <= 16,
                        value <= limit,
                ;
                value = base as u64 * value + d as u64;
            },
            None => {
                proof {
                    if digits_value(digits@, base as int) is Some {
                        longer_digits_are_no_smaller(digits@, i + 1, base as int);
                    }
                }
                return None;
            },
        }
        i += 1;
        if value > limit as u64 {
            proof {
                if digits_value(digits@, base as int) is Some {
                    longer_digits_are_no_smaller(digits@, i as int, base as int);
                }
            }
            return None;
        }
    }
    assert(digits@.take(i as int) =~= digits@);
    Some(value as u32)
}

/// The bytes of an ASCII string.
pub open spec fn ascii(s: &str) -> Seq<u8> {
    Seq::new(s@.len(), |i: int| s@[i] as u8)
}

/// The bytes of an ASCII string.
pub fn ascii_bytes(s: &'static str) -> (bytes: &'static [u8])
    requires
        is_ascii(s),
    ensures
        bytes@ == ascii(s),
{
    let bytes = s.as_bytes();
    proof {
        is_ascii_spec_bytes(s);
    }
    bytes
}

/// A number in decimal digits.
pub open spec fn decimal(n: nat) -> Seq<u8>
    decreases n,
{
    if n < 10 {
        seq![(0x30 + n) as u8]
    } else {
        decimal(n / 10).push((0x30 + n % 10) as u8)
    }
}

/// Appends a number in decimal digits.
pub fn push_decimal(out: &mut Vec<u8>, n: usize)
    ensures
        final(out)@ == old(out)@ + decimal(n as nat),
    decreases n,
{
    if n >= 10 {
        push_decimal(out, n / 10);
    }
    let ghost before = out@;
    out.push(0x30 + (n % 10) as u8);
    assert(out@ =~= old(out)@ + decimal(n as nat));
}

/// A number below a hundred million has at most eight digits.
pub proof fn decimal_is_short(n: nat)
    requires
        n < 100_000_000,
    ensures
        0 < decimal(n).len() <= 8,
{
    reveal_with_fuel(decimal, 9);
}

/// Different numbers have different digits.
pub proof fn decimals_differ(a: nat, b: nat)
    requires
        decimal(a) == decimal(b),
    ensures
        a == b,
    decreases a,
{
    decimal_is_not_empty(a / 10);
    decimal_is_not_empty(b / 10);
    let x = decimal(a);
    let y = decimal(b);
    assert(x.last() == 0x30 + a % 10);
    assert(y.last() == 0x30 + b % 10);
    if a >= 10 && b >= 10 {
        assert(x.drop_last() =~= decimal(a / 10));
        assert(y.drop_last() =~= decimal(b / 10));
        decimals_differ(a / 10, b / 10);
    }
}

proof fn decimal_is_not_empty(n: nat)
    ensures
        decimal(n).len() > 0,
    decreases n,
{
}

/// The bytes of a character in UTF-8, up to the three-byte ones.
pub open spec fn encoded(c: int) -> Seq<u8> {
    if c < 0x80 {
        seq![c as u8]
    } else if c < 0x800 {
        seq![(0xc0 + c / 0x40) as u8, (0x80 + c % 0x40) as u8]
    } else {
        seq![
            (0xe0 + c / 0x1000) as u8,
            (0x80 + c / 0x40 % 0x40) as u8,
            (0x80 + c % 0x40) as u8,
        ]
    }
}

/// White space is what Unicode calls so: the tab to the carriage return, the space, the next-line and
/// the no-break space, the Ogham space mark, the spaces of the general punctuation with the line and
/// paragraph separators, and the ideographic space.
pub proof fn white_space_is_that_of_unicode(c: int)
    requires
        0 <= c < 0x1_0000,
    ensures
        is_space(encoded(c)) <==> (0x09 <= c <= 0x0d || c == 0x20 || c == 0x85 || c == 0xa0 || c
            == 0x1680 || 0x2000 <= c <= 0x200a || c == 0x2028 || c == 0x2029 || c == 0x202f || c
            == 0x205f || c == 0x3000),
{
}

/// The byte that writes a digit: the letters go on where the figures end.
pub open spec fn digit_byte(d: int, capital: bool) -> u8 {
    if d < 10 {
        (0x30 + d) as u8
    } else if capital {
        (0x41 + d - 10) as u8
    } else {
        (0x61 + d - 10) as u8
    }
}

/// A number written to a base, in capital or in small letters.
pub open spec fn numeral(n: nat, base: nat, capital: bool) -> Seq<u8>
    decreases n,
{
    if n < base || base < 2 {
        seq![digit_byte(n as int, capital)]
    } else {
        proof {
            assert(n / base < n) by (nonlinear_arith)
                requires
                    2 <= base <= n,
            ;
        }
        numeral(n / base, base, capital).push(digit_byte((n % base) as int, capital))
    }
}

/// Some zeros.
pub open spec fn zeros(k: nat) -> Seq<u8> {
    Seq::new(k, |i: int| 0x30u8)
}

/// A plus sign, where there is to be one.
pub open spec fn sign(plus: bool) -> Seq<u8> {
    if plus {
        seq![0x2bu8]
    } else {
        Seq::empty()
    }
}

/// Whether some bytes are blanks: spaces, tabs, and the ends of lines and pages.
pub open spec fn are_blanks(s: Seq<u8>) -> bool {
    forall|i: int| 0 <= i < s.len() ==> (#[trigger] s[i]) == 0x20 || 0x09 <= s[i] <= 0x0d
}

spec fn are_visible(s: Seq<u8>) -> bool {
    forall|i: int| 0 <= i < s.len() ==> 0x21 <= #[trigger] s[i] <= 0x7e
}

/// Whether a byte writes a digit to a base.
pub open spec fn writes_digit(byte: u8, base: int) -> bool {
    exists|d: int| 0 <= d < base && (byte == #[trigger] digit_byte(d, true) || byte == digit_byte(d, false))
}

proof fn blanks_are_stripped(before: Seq<u8>, core: Seq<u8>, after: Seq<u8>)
    requires
        are_blanks(before),
        are_blanks(after),
        are_visible(core),
        core.len() > 0,
    ensures
        stripped(before + core + after) == core,
    decreases before.len() + after.len(),
{
    let s = before + core + after;
    assert forall|i: int| 0 <= i < s.len() implies 0x09 <= #[trigger] s[i] <= 0x7e by {
        if i < before.len() {
            assert(s[i] == before[i]);
        } else if i < before.len() + core.len() {
            assert(s[i] == core[i - before.len()]);
        } else {
            assert(s[i] == after[i - before.len() - core.len()]);
        }
    }
    let n = s.len() as int;
    if n >= 1 {
        assert(s.take(1)[0] == s[0]);
        assert(s.skip(n - 1)[0] == s[n - 1]);
    }
    if n >= 2 {
        assert(s.take(2)[0] == s[0]);
        assert(s.skip(n - 2)[0] == s[n - 2]);
    }
    if n >= 3 {
        assert(s.take(3)[0] == s[0]);
        assert(s.skip(n - 3)[0] == s[n - 3]);
    }
    if before.len() > 0 {
        assert(s[0] == before[0]);
        assert(s.skip(1) =~= before.skip(1) + core + after);
        blanks_are_stripped(before.skip(1), core, after);
    } else {
        assert(s[0] == core[0]);
        if after.len() > 0 {
            assert(s[n - 1] == after.last());
            assert(s.take(n - 1) =~= before + core + after.drop_last());
            blanks_are_stripped(before, core, after.drop_last());
        } else {
            assert(s[n - 1] == core.last());
            assert(s =~= core);
        }
    }
}

proof fn zeros_are_nothing(k: nat, base: int)
    requires
        2 <= base <= 16,
    ensures
        digits_value(zeros(k), base) == Some(0int),
    decreases k,
{
    if k > 0 {
        assert(zeros(k).drop_last() =~= zeros((k - 1) as nat));
        zeros_are_nothing((k - 1) as nat, base);
        assert(base * 0 == 0) by (nonlinear_arith);
    }
}

proof fn a_numeral_has_its_value(n: nat, base: nat, capital: bool, k: nat)
    requires
        2 <= base <= 16,
    ensures
        digits_value(zeros(k) + numeral(n, base, capital), base as int) == Some(n as int),
        are_visible(zeros(k) + numeral(n, base, capital)),
        numeral(n, base, capital).len() > 0,
        forall|i: int|
            0 <= i < numeral(n, base, capital).len() ==> (#[trigger] numeral(n, base, capital)[i])
                >= 0x30,
    decreases n,
{
    let s = zeros(k) + numeral(n, base, capital);
    if n < base {
        zeros_are_nothing(k, base as int);
        assert(s.drop_last() =~= zeros(k));
        assert(s.last() == digit_byte(n as int, capital));
        assert(base * 0 == 0) by (nonlinear_arith);
    } else {
        assert(n / base < n) by (nonlinear_arith)
            requires
                2 <= base <= n,
        ;
        a_numeral_has_its_value(n / base, base, capital, k);
        vstd::arithmetic::div_mod::lemma_fundamental_div_mod(n as int, base as int);
        vstd::arithmetic::div_mod::lemma_mod_bound(n as int, base as int);
        assert(s.drop_last() =~= zeros(k) + numeral(n / base, base, capital));
        assert(s.last() == digit_byte((n % base) as int, capital));
        assert forall|i: int| 0 <= i < s.len() implies 0x21 <= #[trigger] s[i] <= 0x7e by {
            if i < s.len() - 1 {
                assert(s.drop_last()[i] == s[i]);
            }
        }
    }
}

/// A number that was written down is read back, whatever its base and whichever letters it is written
/// in; blanks around it, a plus sign and zeros before it change nothing. One beyond the limit is no
/// number.
pub proof fn a_written_number_is_read(
    n: nat,
    base: nat,
    capital: bool,
    before: Seq<u8>,
    plus: bool,
    k: nat,
    after: Seq<u8>,
    limit: int,
)
    requires
        2 <= base <= 16,
        are_blanks(before),
        are_blanks(after),
    ensures
        number_in(
            before + (sign(plus) + zeros(k) + numeral(n, base, capital)) + after,
            base as int,
            limit,
        ) == (if n <= limit {
            Some(n as int)
        } else {
            None
        }),
{
    let digits = zeros(k) + numeral(n, base, capital);
    let core = sign(plus) + zeros(k) + numeral(n, base, capital);
    a_numeral_has_its_value(n, base, capital, k);
    assert(core =~= sign(plus) + digits);
    assert forall|i: int| 0 <= i < core.len() implies 0x21 <= #[trigger] core[i] <= 0x7e by {
        if i >= sign(plus).len() {
            assert(core[i] == digits[i - sign(plus).len()]);
        }
    }
    blanks_are_stripped(before, core, after);
    if plus {
        assert(core.skip(1) =~= digits);
    } else {
        assert(core =~= digits);
        assert(core[0] >= 0x30) by {
            if k == 0 {
                assert(core[0] == numeral(n, base, capital)[0]);
            }
        }
    }
}

/// Decimal digits are the ones a number is written in to the base ten.
pub proof fn decimals_are_numerals(n: nat, capital: bool)
    ensures
        decimal(n) == numeral(n, 10, capital),
    decreases n,
{
    if n >= 10 {
        decimals_are_numerals(n / 10, capital);
    }
}

proof fn space_cannot_be_seen(s: Seq<u8>)
    ensures
        0 <= space_before(s) <= s.len(),
        0 <= space_after(s) <= s.len(),
        forall|i: int| 0 <= i < space_before(s) ==> !(0x21 <= #[trigger] s[i] <= 0x7e),
        forall|i: int|
            s.len() - space_after(s) <= i < s.len() ==> !(0x21 <= #[trigger] s[i] <= 0x7e),
{
    let n = s.len() as int;
    let b = space_before(s);
    let a = space_after(s);
    if b > 0 {
        assert(is_space(s.take(b)));
        assert forall|i: int| 0 <= i < b implies !(0x21 <= #[trigger] s[i] <= 0x7e) by {
            assert(s.take(b)[i] == s[i]);
        }
    }
    if a > 0 {
        assert(is_space(s.skip(n - a)));
        assert forall|i: int| n - a <= i < n implies !(0x21 <= #[trigger] s[i] <= 0x7e) by {
            assert(s.skip(n - a)[i - (n - a)] == s[i]);
        }
    }
}

#[verifier::spinoff_prover]
#[verifier::rlimit(40)]
proof fn stripping_leaves_a_part(s: Seq<u8>) -> (ends: (int, int))
    ensures
        0 <= ends.0 <= ends.1 <= s.len(),
        stripped(s) == s.subrange(ends.0, ends.1),
        forall|i: int|
            0 <= i < s.len() && !(ends.0 <= i < ends.1) ==> !(0x21 <= #[trigger] s[i] <= 0x7e),
    decreases s.len(),
{
    space_cannot_be_seen(s);
    let b = space_before(s);
    let a = space_after(s);
    if b > 0 {
        let rest = s.skip(b);
        let inner = stripping_leaves_a_part(rest);
        assert(rest.subrange(inner.0, inner.1) =~= s.subrange(inner.0 + b, inner.1 + b));
        assert forall|i: int|
            0 <= i < s.len() && !(inner.0 + b <= i < inner.1 + b) implies !(0x21 <= #[trigger] s[i]
            <= 0x7e) by {
            if i >= b {
                assert(rest[i - b] == s[i]);
            }
        }
        (inner.0 + b, inner.1 + b)
    } else if a > 0 {
        let n = s.len() as int;
        let rest = s.take(n - a);
        let inner = stripping_leaves_a_part(rest);
        assert(rest.subrange(inner.0, inner.1) =~= s.subrange(inner.0, inner.1));
        assert forall|i: int| 0 <= i < s.len() && !(inner.0 <= i < inner.1) implies !(0x21
            <= #[trigger] s[i] <= 0x7e) by {
            if i < n - a {
                assert(rest[i] == s[i]);
            }
        }
        inner
    } else {
        assert(s.subrange(0, s.len() as int) =~= s);
        (0, s.len() as int)
    }
}

proof fn a_digit_is_written(byte: u8, base: int)
    requires
        base <= 16,
        digit_value(byte, base) is Some,
    ensures
        writes_digit(byte, base),
{
    let d = digit_value(byte, base)->Some_0;
    assert(byte == digit_byte(d, true) || byte == digit_byte(d, false));
}

proof fn every_digit_counts(s: Seq<u8>, base: int, i: int)
    requires
        base <= 16,
        digits_value(s, base) is Some,
        0 <= i < s.len(),
    ensures
        writes_digit(s[i], base),
    decreases s.len(),
{
    if i == s.len() - 1 {
        a_digit_is_written(s.last(), base);
    } else {
        every_digit_counts(s.drop_last(), base, i);
    }
}

/// A text that holds a number holds at least one digit, and nothing that can be seen but digits and a
/// plus sign before all of them.
pub proof fn only_digits_are_numbers(s: Seq<u8>, base: int, limit: int)
    requires
        2 <= base <= 16,
        number_in(s, base, limit) is Some,
    ensures
        exists|i: int| 0 <= i < s.len() && writes_digit(#[trigger] s[i], base),
        forall|i: int|
            0 <= i < s.len() && 0x21 <= #[trigger] s[i] <= 0x7e ==> s[i] == 0x2b || writes_digit(
                s[i],
                base,
            ),
        forall|i: int, j: int|
            0 <= i < j < s.len() && #[trigger] s[j] == 0x2b ==> !writes_digit(#[trigger] s[i], base),
        number_in(s, base, limit)->Some_0 <= limit,
{
    let ends = stripping_leaves_a_part(s);
    let t = stripped(s);
    let digits = number_digits(s);
    let signed: int = t.len() - digits.len();
    assert forall|i: int| 0 <= i < digits.len() implies writes_digit(#[trigger] digits[i], base)
        && s[ends.0 + signed + i] == digits[i] by {
        every_digit_counts(digits, base, i);
    }
    assert(writes_digit(digits[0], base));
    assert(writes_digit(s[ends.0 + signed], base));
    assert forall|i: int| 0 <= i < s.len() && 0x21 <= #[trigger] s[i] <= 0x7e implies s[i] == 0x2b
        || writes_digit(s[i], base) by {
        assert(ends.0 <= i < ends.1);
        if i >= ends.0 + signed {
            assert(s[i] == digits[i - ends.0 - signed]);
        } else {
            assert(s[i] == t[0]);
        }
    }
    assert forall|i: int, j: int|
        0 <= i < j < s.len() && #[trigger] s[j] == 0x2b implies !writes_digit(
        #[trigger] s[i],
        base,
    ) by {
        assert(ends.0 <= j < ends.1);
        if j >= ends.0 + signed {
            assert(s[j] == digits[j - ends.0 - signed]);
            let d = choose|d: int|
                0 <= d < base && (s[j] == #[trigger] digit_byte(d, true) || s[j] == digit_byte(
                    d,
                    false,
                ));
            assert(false);
        }
        assert(i < ends.0);
        if writes_digit(s[i], base) {
            let d = choose|d: int|
                0 <= d < base && (s[i] == #[trigger] digit_byte(d, true) || s[i] == digit_byte(
                    d,
                    false,
                ));
            assert(0x21 <= s[i] <= 0x7e);
        }
    }
}

} // verus!
