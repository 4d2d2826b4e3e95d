//! Text helpers: moving between byte buffers and strings.
//!
//! Kernel parameter names and string-typed parameter values travel as byte
//! buffers.  This module converts between such buffers and `String`s, with
//! the UTF-8 correspondence stated through `vstd`'s `encode_utf8` /
//! `decode_utf8` specifications.

use vstd::prelude::*;
use vstd::string::StrSliceExecFns;
use vstd::utf8::{
    decode_utf8, encode_utf8, encode_utf8_decode_utf8, encode_utf8_valid_utf8, is_ascii_chars,
    is_ascii_chars_encode_utf8, valid_utf8,
};

use crate::errors::ConvertError;

verus! {

/// The characters that a sequence of ASCII bytes spells.
pub open spec fn ascii_chars_of(bytes: Seq<u8>) -> Seq<char> {
    Seq::new(bytes.len(), |i: int| bytes[i] as char)
}

/// Every byte is ASCII.
pub open spec fn all_ascii(bytes: Seq<u8>) -> bool {
    forall|i: int| 0 <= i < bytes.len() ==> bytes[i] < 0x80
}

/// Relies on `String::from_utf8`: succeeds exactly on valid UTF-8 input and
/// returns the string those bytes encode.
#[verifier::external_body]
pub(crate) fn bytes_to_string(v: Vec<u8>) -> (r: Result<String, ConvertError>)
    ensures
        r is Ok <==> valid_utf8(v@),
        r matches Ok(s) ==> s@ == decode_utf8(v@),
{
    String::from_utf8(v).map_err(|_| ConvertError::IntoStringError)
}

/// The bytes of an ASCII buffer, read as a string.
pub fn string_of_ascii(v: Vec<u8>) -> (s: String)
    requires
        all_ascii(v@),
    ensures
        s@ == ascii_chars_of(v@),
{
    proof {
        let chars = ascii_chars_of(v@);
        assert(is_ascii_chars(chars));
        is_ascii_chars_encode_utf8(chars);
        assert(encode_utf8(chars) =~= v@);
        encode_utf8_valid_utf8(chars);
        encode_utf8_decode_utf8(chars);
    }
    match bytes_to_string(v) {
        Ok(s) => s,
        Err(_) => {
            proof {
                assert(false);
            }
            String::new()
        },
    }
}

/// The UTF-8 bytes of a string, as an owned buffer.
pub fn str_bytes(s: &str) -> (r: Vec<u8>)
    ensures
        r@ == encode_utf8(s@),
{
    s.as_bytes_vec()
}

/// The byte is an ASCII decimal digit.
pub open spec fn is_digit_byte(b: u8) -> bool {
    0x30 <= b <= 0x39
}

/// Every byte is an ASCII decimal digit.
pub open spec fn all_digit_bytes(s: Seq<u8>) -> bool {
    forall|i: int| 0 <= i < s.len() ==> is_digit_byte(#[trigger] s[i])
}

/// The number an ASCII decimal numeral spells (non-digit bytes count as zero).
pub open spec fn dec_value_bytes(s: Seq<u8>) -> nat
    decreases s.len(),
{
    if s.len() == 0 {
        0
    } else {
        dec_value_bytes(s.drop_last()) * 10 + (if is_digit_byte(s.last()) {
            (s.last() - 0x30) as nat
        } else {
            0
        })
    }
}

/// A numeral's prefixes spell numbers no larger than the whole numeral's.
proof fn lemma_dec_value_prefix_le(s: Seq<u8>, i: int)
    requires
        0 <= i <= s.len(),
    ensures
        dec_value_bytes(s.take(i)) <= dec_value_bytes(s),
    decreases s.len() - i,
{
    if i < s.len() {
        assert(s.take(i + 1).drop_last() =~= s.take(i));
        assert(s.take(i + 1).last() == s[i]);
        assert(dec_value_bytes(s.take(i)) <= dec_value_bytes(s.take(i + 1)));
        lemma_dec_value_prefix_le(s, i + 1);
    } else {
        assert(s.take(i) =~= s);
    }
}

/// Parse an ASCII decimal numeral as a `usize`.
///
/// Succeeds exactly when the string is non-empty, all digits, and its value
/// fits in `usize`.
pub fn parse_usize(s: &str) -> (r: Result<usize, ConvertError>)
    ensures
        r is Ok <==> (encode_utf8(s@).len() > 0 && all_digit_bytes(encode_utf8(s@))
            && dec_value_bytes(encode_utf8(s@)) <= usize::MAX),
        r matches Ok(n) ==> n == dec_value_bytes(encode_utf8(s@)),
        r is Err ==> r == Err::<usize, ConvertError>(ConvertError::ParseIntError),
{
    let b = str_bytes(s);
    if b.len() == 0 {
        return Err(ConvertError::ParseIntError);
    }
    let mut acc: usize = 0;
    let mut i: usize = 0;
    while i < b.len()
        invariant
            0 <= i <= b@.len(),
            b@ == encode_utf8(s@),
            all_digit_bytes(b@.take(i as int)),
            acc == dec_value_bytes(b@.take(i as int)),
        decreases b@.len() - i,
    {
        let d = b[i];
        if d < 0x30 || d > 0x39 {
            assert(!all_digit_bytes(b@));
            return Err(ConvertError::ParseIntError);
        }
        let dv = (d - 0x30) as usize;
        if acc > (usize::MAX - dv) / 10 {
            proof {
                let next = b@.take(i + 1);
                assert(next.drop_last() =~= b@.take(i as int));
                assert(next.last() == b@[i as int]);
                assert(acc * 10 + dv > usize::MAX) by (nonlinear_arith)
                    requires
                        acc > (usize::MAX - dv) / 10,
                        dv <= 9,
                ;
                assert(dec_value_bytes(next) > usize::MAX);
                lemma_dec_value_prefix_le(b@, i + 1);
            }
            return Err(ConvertError::ParseIntError);
        }
        proof {
            let next = b@.take(i + 1);
            assert(next.drop_last() =~= b@.take(i as int));
            assert(next.last() == b@[i as int]);
            assert(acc * 10 + dv <= usize::MAX) by (nonlinear_arith)
                requires
                    acc <= (usize::MAX - dv) / 10,
                    dv <= 9,
            ;
        }
        acc = acc * 10 + dv;
        i = i + 1;
    }
    proof {
        assert(b@.take(i as int) =~= b@);
    }
    Ok(acc)
}

/// The ASCII decimal numeral of a number, most significant digit first.
pub open spec fn dec_bytes_of(n: nat) -> Seq<u8>
    decreases n,
{
    if n < 10 {
        seq![(0x30 + n) as u8]
    } else {
        dec_bytes_of(n / 10).push((0x30 + n % 10) as u8)
    }
}

/// Decimal numerals are made of digit bytes.
pub proof fn lemma_dec_bytes_all_digits(n: nat)
    ensures
        all_digit_bytes(dec_bytes_of(n)),
        dec_bytes_of(n).len() >= 1,
    decreases n,
{
    if n >= 10 {
        lemma_dec_bytes_all_digits(n / 10);
        assert forall|i: int| 0 <= i < dec_bytes_of(n).len() implies is_digit_byte(
            #[trigger] dec_bytes_of(n)[i],
        ) by {
            if i < dec_bytes_of(n / 10).len() {
                assert(dec_bytes_of(n)[i] == dec_bytes_of(n / 10)[i]);
            }
        }
    }
}

/// The digit bytes of a `u128`, most significant first.
fn dec_bytes_u128(n: u128) -> (r: Vec<u8>)
    ensures
        r@ == dec_bytes_of(n as nat),
{
    let mut rev: Vec<u8> = Vec::new();
    let mut m: u128 = n;
    while m >= 10
        invariant
            dec_bytes_of(n as nat) =~= dec_bytes_of(m as nat) + rev@.reverse(),
        decreases m,
    {
        let d: u8 = (m % 10) as u8 + 0x30;
        proof {
            let old_rev = rev@;
            assert(old_rev.push(d).reverse() =~= seq![d] + old_rev.reverse());
            assert(dec_bytes_of(m as nat) =~= dec_bytes_of((m / 10) as nat).push(d));
            assert(dec_bytes_of((m / 10) as nat).push(d) + old_rev.reverse() =~= dec_bytes_of(
                (m / 10) as nat,
            ) + (seq![d] + old_rev.reverse()));
        }
        rev.push(d);
        m = m / 10;
    }
    let last: u8 = m as u8 + 0x30;
    proof {
        assert(dec_bytes_of(m as nat) =~= seq![last]);
        assert(rev@.push(last).reverse() =~= seq![last] + rev@.reverse());
    }
    rev.push(last);
    let ghost want = dec_bytes_of(n as nat);
    proof {
        assert(rev@.reverse() =~= want);
    }
    let mut out: Vec<u8> = Vec::new();
    let mut j: usize = rev.len();
    while j > 0
        invariant
            j <= rev@.len(),
            rev@.reverse() =~= want,
            out@ =~= want.take(rev@.len() - j),
        decreases j,
    {
        j = j - 1;
        out.push(rev[j]);
        proof {
            assert(out@ =~= want.take(rev@.len() - j));
        }
    }
    proof {
        assert(out@ =~= want.take(rev@.len() as int));
        assert(want.take(rev@.len() as int) =~= want);
    }
    out
}

/// Format a `u128` as its decimal numeral.
pub fn fmt_u128(n: u128) -> (s: String)
    ensures
        s@ == ascii_chars_of(dec_bytes_of(n as nat)),
{
    let b = dec_bytes_u128(n);
    proof {
        lemma_dec_bytes_all_digits(n as nat);
    }
    string_of_ascii(b)
}

/// The digit bytes of a `u128`, most significant first, as a buffer.
pub fn dec_bytes_vec(n: u128) -> (r: Vec<u8>)
    ensures
        r@ == dec_bytes_of(n as nat),
        all_digit_bytes(r@),
        r@.len() >= 1,
{
    proof {
        lemma_dec_bytes_all_digits(n as nat);
    }
    dec_bytes_u128(n)
}

/// The ASCII byte of one hexadecimal digit, lower case.
pub open spec fn hex_digit_byte(d: nat) -> u8
    recommends
        d < 16,
{
    if d < 10 {
        (0x30 + d) as u8
    } else {
        (0x57 + d) as u8
    }
}

/// The ASCII lower-case hexadecimal numeral of a number, most significant
/// digit first.
pub open spec fn hex_bytes_of(n: nat) -> Seq<u8>
    decreases n,
{
    if n < 16 {
        seq![hex_digit_byte(n)]
    } else {
        hex_bytes_of(n / 16).push(hex_digit_byte(n % 16))
    }
}

/// Hexadecimal numerals are ASCII.
pub proof fn lemma_hex_bytes_ascii(n: nat)
    ensures
        all_ascii(hex_bytes_of(n)),
        hex_bytes_of(n).len() >= 1,
    decreases n,
{
    if n >= 16 {
        lemma_hex_bytes_ascii(n / 16);
        assert forall|i: int| 0 <= i < hex_bytes_of(n).len() implies hex_bytes_of(n)[i]
            < 0x80 by {
            if i < hex_bytes_of(n / 16).len() {
                assert(hex_bytes_of(n)[i] == hex_bytes_of(n / 16)[i]);
            }
        }
    }
}

/// The hexadecimal digit bytes of a `u16`, most significant first.
pub fn hex_bytes_u16(n: u16) -> (r: Vec<u8>)
    ensures
        r@ == hex_bytes_of(n as nat),
{
    let mut rev: Vec<u8> = Vec::new();
    let mut m: u16 = n;
    while m >= 16
        invariant
            hex_bytes_of(n as nat) =~= hex_bytes_of(m as nat) + rev@.reverse(),
        decreases m,
    {
        let dig: u8 = (m % 16) as u8;
        let d: u8 = if dig < 10 {
            dig + 0x30
        } else {
            dig + 0x57
        };
        proof {
            let old_rev = rev@;
            assert(d == hex_digit_byte((m % 16) as nat));
            assert(old_rev.push(d).reverse() =~= seq![d] + old_rev.reverse());
            assert(hex_bytes_of(m as nat) =~= hex_bytes_of((m / 16) as nat).push(d));
            assert(hex_bytes_of((m / 16) as nat).push(d) + old_rev.reverse() =~= hex_bytes_of(
                (m / 16) as nat,
            ) + (seq![d] + old_rev.reverse()));
        }
        rev.push(d);
        m = m / 16;
    }
    let dig: u8 = m as u8;
    let last: u8 = if dig < 10 {
        dig + 0x30
    } else {
        dig + 0x57
    };
    proof {
        assert(last == hex_digit_byte(m as nat));
        assert(hex_bytes_of(m as nat) =~= seq![last]);
        assert(rev@.push(last).reverse() =~= seq![last] + rev@.reverse());
    }
    rev.push(last);
    let ghost want = hex_bytes_of(n as nat);
    proof {
        assert(rev@.reverse() =~= want);
    }
    let mut out: Vec<u8> = Vec::new();
    let mut j: usize = rev.len();
    while j > 0
        invariant
            j <= rev@.len(),
            rev@.reverse() =~= want,
            out@ =~= want.take(rev@.len() - j),
        decreases j,
    {
        j = j - 1;
        out.push(rev[j]);
        proof {
            assert(out@ =~= want.take(rev@.len() - j));
        }
    }
    proof {
        assert(out@ =~= want.take(rev@.len() as int));
        assert(want.take(rev@.len() as int) =~= want);
    }
    out
}

/// Byte-vector equality.
pub fn bytes_eq(a: &Vec<u8>, b: &Vec<u8>) -> (r: bool)
    ensures
        r <==> a@ == b@,
{
    if a.len() != b.len() {
        return false;
    }
    let mut i: usize = 0;
    while i < a.len()
        invariant
            i <= a@.len(),
            a@.len() == b@.len(),
            forall|j: int| 0 <= j < i ==> a@[j] == b@[j],
        decreases a@.len() - i,
    {
        if a[i] != b[i] {
            return false;
        }
        i = i + 1;
    }
    proof {
        assert(a@ =~= b@);
    }
    true
}

/// String-slice equality, decided through the UTF-8 bytes.
pub fn str_eq(a: &str, b: &str) -> (r: bool)
    ensures
        r <==> a@ == b@,
{
    let ab = str_bytes(a);
    let bb = str_bytes(b);
    let r = bytes_eq(&ab, &bb);
    proof {
        if r {
            encode_utf8_decode_utf8(a@);
            encode_utf8_decode_utf8(b@);
        }
    }
    r
}

/// ASCII survives concatenation.
pub proof fn lemma_all_ascii_concat(a: Seq<u8>, b: Seq<u8>)
    requires
        all_ascii(a),
        all_ascii(b),
    ensures
        all_ascii(a + b),
{
    assert forall|i: int| 0 <= i < (a + b).len() implies (a + b)[i] < 0x80 by {
        if i < a.len() {
            assert((a + b)[i] == a[i]);
        } else {
            assert((a + b)[i] == b[i - a.len()]);
        }
    }
}

/// Digit bytes are ASCII.
pub proof fn lemma_digits_ascii(s: Seq<u8>)
    requires
        all_digit_bytes(s),
    ensures
        all_ascii(s),
{
}

/// Append every byte of `src` to `dst`.
pub fn push_all(dst: &mut Vec<u8>, src: &Vec<u8>)
    ensures
        final(dst)@ == old(dst)@ + src@,
{
    let mut i: usize = 0;
    while i < src.len()
        invariant
            i <= src@.len(),
            dst@ =~= old(dst)@ + src@.take(i as int),
        decreases src@.len() - i,
    {
        dst.push(src[i]);
        i = i + 1;
        proof {
            assert(dst@ =~= old(dst)@ + src@.take(i as int));
        }
    }
    proof {
        assert(old(dst)@ + src@.take(i as int) =~= old(dst)@ + src@);
    }
}

} // verus!
