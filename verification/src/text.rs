//! UTF-8 validation of untrusted bytes, as `std::str::from_utf8` performs it,
//! and ASCII text built from bytes.

use vstd::prelude::*;
use vstd::string::StrSliceExecFns;
use vstd::utf8::{
    decode_utf8, encode_utf8, encode_utf8_decode_utf8, encode_utf8_valid_utf8, is_ascii_chars,
    is_ascii_chars_encode_utf8, valid_utf8,
};

verus! {

/// Calls `std::str::from_utf8` and copies the result into a `String`. The
/// standard library documents that it accepts exactly the valid UTF-8 byte
/// sequences; the characters of the result are the decoding of the bytes.
#[verifier::external_body]
pub fn utf8_to_string(bytes: &[u8]) -> (r: Option<String>)
    ensures
        r is Some <==> valid_utf8(bytes@),
        r matches Some(s) ==> s@ == decode_utf8(bytes@),
{
    std::str::from_utf8(bytes).ok().map(|text| text.to_owned())
}

/// The characters of ASCII bytes.
pub open spec fn ascii_chars(bytes: Seq<u8>) -> Seq<char> {
    Seq::new(bytes.len(), |i: int| bytes[i] as char)
}

pub open spec fn all_ascii(bytes: Seq<u8>) -> bool {
    forall|i: int| 0 <= i < bytes.len() ==> bytes[i] < 128
}

/// ASCII bytes are their own UTF-8 encoding.
pub proof fn lemma_ascii_is_utf8(bytes: Seq<u8>)
    requires
        all_ascii(bytes),
    ensures
        valid_utf8(bytes),
        decode_utf8(bytes) == ascii_chars(bytes),
{
    let c = ascii_chars(bytes);
    assert forall|i: int| 0 <= i < c.len() implies '\0' <= #[trigger] c[i] <= '\u{7f}' by {
        assert(bytes[i] < 128);
    }
    assert(is_ascii_chars(c));
    is_ascii_chars_encode_utf8(c);
    assert forall|i: int| 0 <= i < c.len() implies encode_utf8(c)[i] == bytes[i] by {
        assert(c[i] as u8 == encode_utf8(c)[i]);
        let b = bytes[i];
        assert(b < 128);
        assert((b as char) as u8 == b);
    }
    assert(encode_utf8(c) =~= bytes);
    encode_utf8_valid_utf8(c);
    encode_utf8_decode_utf8(c);
}

/// A `String` holding ASCII bytes as characters.
pub fn ascii_to_string(bytes: &[u8]) -> (r: String)
    requires
        all_ascii(bytes@),
    ensures
        r@ == ascii_chars(bytes@),
{
    proof {
        lemma_ascii_is_utf8(bytes@);
    }
    match utf8_to_string(bytes) {
        Some(text) => text,
        None => String::new(),
    }
}

/// ASCII upper-case letters in lower case; every other character as is.
pub open spec fn ascii_lower(c: char) -> char {
    if 'A' <= c && c <= 'Z' {
        ((c as u32) + 32) as char
    } else {
        c
    }
}

/// A text with its ASCII letters in lower case.
pub open spec fn fold_ascii_case(s: Seq<char>) -> Seq<char> {
    s.map_values(|c: char| ascii_lower(c))
}

/// The characters of a text with its ASCII letters in lower case.
pub fn ascii_folded(reference: &str) -> (r: Vec<char>)
    ensures
        r@ == fold_ascii_case(reference@),
{
    let n = reference.unicode_len();
    let mut out: Vec<char> = Vec::new();
    let mut i: usize = 0;
    while i < n
        invariant
            i <= n,
            n == reference@.len(),
            out@ == fold_ascii_case(reference@.subrange(0, i as int)),
        decreases n - i,
    {
        let c = reference.get_char(i);
        let lower = if 'A' <= c && c <= 'Z' {
            ((c as u8) + 32) as char
        } else {
            c
        };
        out.push(lower);
        i = i + 1;
        assert(out@ =~= fold_ascii_case(reference@.subrange(0, i as int)));
    }
    assert(reference@.subrange(0, i as int) =~= reference@);
    out
}

/// Whether two character sequences are equal.
pub fn same_chars(a: &Vec<char>, b: &Vec<char>) -> (r: bool)
    ensures
        r == (a@ == b@),
{
    if a.len() != b.len() {
        return false;
    }
    let mut i: usize = 0;
    while i < a.len()
        invariant
            i <= a@.len(),
            a@.len() == b@.len(),
            forall|k: int| 0 <= k < i ==> a@[k] == b@[k],
        decreases a@.len() - i,
    {
        if a[i] != b[i] {
            return false;
        }
        i = i + 1;
    }
    assert(a@ =~= b@);
    true
}

/// The value of one digit in base 10 or 16; hexadecimal digits may be in
/// either case.
pub open spec fn digit_value(c: char, radix: nat) -> Option<nat> {
    if '0' <= c && c <= '9' {
        Some((c as u32 - 48) as nat)
    } else if radix == 16 && 'a' <= c && c <= 'f' {
        Some((c as u32 - 87) as nat)
    } else if radix == 16 && 'A' <= c && c <= 'F' {
        Some((c as u32 - 55) as nat)
    } else {
        None
    }
}

/// The value of a run of digits, most significant first; an empty run is
/// zero.
pub open spec fn digits_value(s: Seq<char>, radix: nat) -> Option<nat>
    decreases s.len(),
{
    if s.len() == 0 {
        Some(0)
    } else {
        match (digits_value(s.drop_last(), radix), digit_value(s.last(), radix)) {
            (Some(v), Some(d)) => Some(v * radix + d),
            _ => None,
        }
    }
}

/// The number an unsigned integer text stands for, as Rust's `from_str`
/// and `from_str_radix` read it: an optional `+`, then at least one digit.
pub open spec fn unsigned_text_value(s: Seq<char>, radix: nat) -> Option<nat> {
    let body = if s.len() > 0 && s[0] == '+' {
        s.drop_first()
    } else {
        s
    };
    if body.len() == 0 {
        None
    } else {
        digits_value(body, radix)
    }
}

/// Once a prefix of the digits is worth more than `max`, so is every
/// longer prefix that still is a run of digits.
proof fn lemma_digits_grow(s: Seq<char>, radix: nat, i: int, k: int, max: nat)
    requires
        radix >= 1,
        0 <= i <= k <= s.len(),
        digits_value(s.subrange(0, i), radix) matches Some(v) && v > max,
    ensures
        digits_value(s.subrange(0, k), radix) matches Some(w) ==> w > max,
    decreases k - i,
{
    if k > i {
        let p = s.subrange(0, k);
        assert(p.drop_last() =~= s.subrange(0, k - 1));
        lemma_digits_grow(s, radix, i, k - 1, max);
        if let Some(w) = digits_value(p, radix) {
            let w0 = digits_value(s.subrange(0, k - 1), radix)->0;
            let d = digit_value(p.last(), radix)->0;
            assert(w == w0 * radix + d);
            assert(w0 * radix >= w0) by (nonlinear_arith)
                requires
                    radix >= 1,
            ;
        }
    }
}

/// Reads an unsigned integer text in base 10 or 16 that is at most `max`,
/// as Rust's `from_str_radix` reads one for an integer type whose largest
/// value is `max`.
pub fn parse_unsigned(text: &str, radix: u32, max: u64) -> (r: Option<u64>)
    requires
        radix == 10 || radix == 16,
    ensures
        r == (match unsigned_text_value(text@, radix as nat) {
            Some(v) => if v <= max {
                Some(v as u64)
            } else {
                None
            },
            None => None,
        }),
{
    let n = text.unicode_len();
    let mut start: usize = 0;
    if n > 0 && text.get_char(0) == '+' {
        start = 1;
    }
    let ghost s = text@;
    let ghost body = if s.len() > 0 && s[0] == '+' {
        s.drop_first()
    } else {
        s
    };
    assert(body =~= s.subrange(start as int, s.len() as int));
    if start == n {
        return None;
    }
    assert(unsigned_text_value(s, radix as nat) == digits_value(body, radix as nat));
    assert(body.subrange(0, 0) =~= Seq::<char>::empty());
    let mut value: u64 = 0;
    let mut i: usize = start;
    while i < n
        invariant
            start <= i <= n,
            start < n,
            unsigned_text_value(s, radix as nat) == digits_value(body, radix as nat),
            n == s.len(),
            s == text@,
            radix == 10 || radix == 16,
            body == s.subrange(start as int, n as int),
            digits_value(body.subrange(0, i - start), radix as nat) == Some(value as nat),
            value <= max,
        decreases n - i,
    {
        let c = text.get_char(i);
        let ghost prefix = body.subrange(0, i - start + 1);
        assert(prefix.drop_last() =~= body.subrange(0, i - start));
        assert(prefix.last() == c);
        let digit: u64 = if '0' <= c && c <= '9' {
            (c as u32 - 48) as u64
        } else if radix == 16 && 'a' <= c && c <= 'f' {
            (c as u32 - 87) as u64
        } else if radix == 16 && 'A' <= c && c <= 'F' {
            (c as u32 - 55) as u64
        } else {
            proof {
                assert(digits_value(prefix, radix as nat) is None);
                lemma_digits_none_extends(body, radix as nat, i - start + 1, body.len() as int);
                assert(body.subrange(0, body.len() as int) =~= body);
            }
            return None;
        };
        assert(digit_value(c, radix as nat) == Some(digit as nat));
        if digit > max || value > (max - digit) / (radix as u64) {
            proof {
                if digit <= max {
                    assert(value * radix + digit > max) by (nonlinear_arith)
                        requires
                            value > (max - digit) / (radix as int),
                            radix >= 10,
                            digit <= max,
                    ;
                }
                assert(digits_value(prefix, radix as nat) == Some((value * radix + digit) as nat));
                lemma_digits_grow(body, radix as nat, i - start + 1, body.len() as int, max as nat);
                assert(body.subrange(0, body.len() as int) =~= body);
            }
            return None;
        }
        proof {
            assert(value * radix + digit <= max) by (nonlinear_arith)
                requires
                    value <= (max - digit) / (radix as int),
                    radix >= 10,
                    digit <= max,
            ;
        }
        value = value * (radix as u64) + digit;
        i = i + 1;
    }
    assert(body.subrange(0, n - start) =~= body);
    Some(value)
}

proof fn lemma_digits_none_extends(s: Seq<char>, radix: nat, i: int, k: int)
    requires
        0 <= i <= k <= s.len(),
        digits_value(s.subrange(0, i), radix) is None,
    ensures
        digits_value(s.subrange(0, k), radix) is None,
    decreases k - i,
{
    if k > i {
        assert(s.subrange(0, k).drop_last() =~= s.subrange(0, k - 1));
        lemma_digits_none_extends(s, radix, i, k - 1);
    }
}


/// The ASCII digit for a value below 16: `0` to `9`, then `a` to `f`.
pub open spec fn digit_byte(d: nat) -> u8 {
    if d < 10 {
        (48 + d) as u8
    } else {
        (87 + d) as u8
    }
}

/// `n` in decimal, without leading zeros.
pub open spec fn decimal_bytes(n: nat) -> Seq<u8>
    decreases n,
{
    if n < 10 {
        seq![digit_byte(n)]
    } else {
        decimal_bytes(n / 10).push(digit_byte(n % 10))
    }
}

/// The last `width` hexadecimal digits of `n`, lower case, zero padded.
pub open spec fn hex_width_bytes(n: nat, width: nat) -> Seq<u8>
    decreases width,
{
    if width == 0 {
        Seq::empty()
    } else {
        hex_width_bytes(n / 16, (width - 1) as nat).push(digit_byte(n % 16))
    }
}

/// Sixteen to the power `w`.
pub open spec fn pow16(w: nat) -> nat
    decreases w,
{
    if w == 0 {
        1
    } else {
        16 * pow16((w - 1) as nat)
    }
}

/// Every `u64` has at most sixteen hexadecimal digits.
pub proof fn lemma_pow16_u64()
    ensures
        pow16(16) == 0x1_0000_0000_0000_0000,
{
    reveal_with_fuel(pow16, 17);
}

proof fn lemma_digit_byte(d: nat, radix: nat)
    requires
        d < radix,
        radix == 10 || radix == 16,
    ensures
        digit_value(digit_byte(d) as char, radix) == Some(d),
        digit_byte(d) < 128,
        digit_byte(d) != 43,
{
}

proof fn lemma_ascii_chars_push(s: Seq<u8>, b: u8)
    ensures
        ascii_chars(s.push(b)) == ascii_chars(s).push(b as char),
{
    assert(ascii_chars(s.push(b)) =~= ascii_chars(s).push(b as char));
}

/// Decimal text reads back as its number, as `from_str` reads it.
pub proof fn lemma_decimal_reads_back(n: nat)
    ensures
        digits_value(ascii_chars(decimal_bytes(n)), 10) == Some(n),
        unsigned_text_value(ascii_chars(decimal_bytes(n)), 10) == Some(n),
        all_ascii(decimal_bytes(n)),
        decimal_bytes(n).len() > 0,
        decimal_bytes(n)[0] != 43,
    decreases n,
{
    let c = ascii_chars(decimal_bytes(n));
    if n < 10 {
        lemma_digit_byte(n, 10);
        assert(c =~= seq![digit_byte(n) as char]);
        assert(c.drop_last() =~= Seq::<char>::empty());
        assert(digits_value(Seq::<char>::empty(), 10) == Some(0nat));
        assert(c.last() == digit_byte(n) as char);
        assert(digits_value(c, 10) == Some(0 * 10 + n));
    } else {
        lemma_decimal_reads_back(n / 10);
        lemma_digit_byte(n % 10, 10);
        lemma_ascii_chars_push(decimal_bytes(n / 10), digit_byte(n % 10));
        assert(c.drop_last() =~= ascii_chars(decimal_bytes(n / 10)));
        assert(c.last() == digit_byte(n % 10) as char);
        assert(decimal_bytes(n)[0] == decimal_bytes(n / 10)[0]);
        assert(digits_value(c, 10) == Some((n / 10) * 10 + n % 10));
    }
    assert(c[0] != '+');
    assert(c.len() > 0);
}

/// Zero-padded hexadecimal text of a number below `16^width` reads back as
/// that number, as `from_str_radix(.., 16)` reads it.
pub proof fn lemma_hex_width_reads_back(n: nat, width: nat)
    requires
        n < pow16(width),
    ensures
        digits_value(ascii_chars(hex_width_bytes(n, width)), 16) == Some(n),
        all_ascii(hex_width_bytes(n, width)),
        hex_width_bytes(n, width).len() == width,
        width > 0 ==> unsigned_text_value(ascii_chars(hex_width_bytes(n, width)), 16) == Some(n),
    decreases width,
{
    if width == 0 {
        assert(ascii_chars(hex_width_bytes(n, width)) =~= Seq::<char>::empty());
    } else {
        let w1 = (width - 1) as nat;
        assert(n / 16 < pow16(w1)) by (nonlinear_arith)
            requires
                n < 16 * pow16(w1),
        ;
        lemma_hex_width_reads_back(n / 16, w1);
        lemma_digit_byte(n % 16, 16);
        lemma_ascii_chars_push(hex_width_bytes(n / 16, w1), digit_byte(n % 16));
        let c = ascii_chars(hex_width_bytes(n, width));
        assert(c.drop_last() =~= ascii_chars(hex_width_bytes(n / 16, w1)));
        assert(c[0] != '+') by {
            if w1 == 0 {
                assert(hex_width_bytes(n, width)[0] == digit_byte(n % 16));
            } else {
                assert(hex_width_bytes(n, width)[0] == hex_width_bytes(n / 16, w1)[0]);
                assert(c[0] == hex_width_bytes(n, width)[0] as char);
                assert(all_ascii(hex_width_bytes(n / 16, w1)));
                lemma_hex_width_digit(n / 16, w1, 0);
            }
        }
    }
}

proof fn lemma_hex_width_digit(n: nat, width: nat, i: int)
    requires
        0 <= i < width,
    ensures
        hex_width_bytes(n, width)[i] != 43,
    decreases width,
{
    let w1 = (width - 1) as nat;
    lemma_digit_byte(n % 16, 16);
    if i < w1 {
        lemma_hex_width_digit(n / 16, w1, i);
        lemma_hex_width_len(n / 16, w1);
    } else {
        lemma_hex_width_len(n / 16, w1);
    }
}

proof fn lemma_hex_width_len(n: nat, width: nat)
    ensures
        hex_width_bytes(n, width).len() == width,
    decreases width,
{
    if width > 0 {
        lemma_hex_width_len(n / 16, (width - 1) as nat);
    }
}

fn digit_byte_exec(d: u64) -> (r: u8)
    requires
        d < 16,
    ensures
        r == digit_byte(d as nat),
{
    if d < 10 {
        48 + d as u8
    } else {
        87 + d as u8
    }
}

/// `n` in decimal.
pub fn decimal_text(n: u64) -> (r: Vec<u8>)
    ensures
        r@ == decimal_bytes(n as nat),
    decreases n,
{
    if n < 10 {
        let mut v: Vec<u8> = Vec::new();
        v.push(digit_byte_exec(n));
        v
    } else {
        let mut v = decimal_text(n / 10);
        v.push(digit_byte_exec(n % 10));
        v
    }
}

/// The last `width` hexadecimal digits of `n`, zero padded.
pub fn hex_width_text(n: u64, width: u32) -> (r: Vec<u8>)
    ensures
        r@ == hex_width_bytes(n as nat, width as nat),
    decreases width,
{
    if width == 0 {
        Vec::new()
    } else {
        let mut v = hex_width_text(n / 16, width - 1);
        v.push(digit_byte_exec(n % 16));
        v
    }
}

} // verus!
