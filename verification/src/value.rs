//! The tagged value model.
//!
//! `Val` is the closed union of wire types the kernel parameter protocol
//! understands.  Each value has a byte image — the exact bytes the kernel
//! sees through the region list — given by [`spec_val_bytes`].  Address
//! variants store network-byte-order integers; [`Ip4Addr`] and [`Ip6Addr`]
//! are the host-order forms callers work with.

use vstd::bytes::{
    spec_u128_from_le_bytes, spec_u128_to_le_bytes, spec_u32_from_le_bytes, spec_u32_to_le_bytes,
    spec_u64_from_le_bytes, spec_u64_to_le_bytes, u128_from_le_bytes, u128_to_le_bytes,
    u32_from_le_bytes, u32_to_le_bytes, u64_from_le_bytes, u64_to_le_bytes,
};
use vstd::prelude::*;
use vstd::utf8::{decode_utf8, encode_utf8, valid_utf8};

use vstd::string::StringExecFns;

use crate::errors::{ConvertError, ErrModel, LibJailError};
use crate::text::{
    all_ascii, ascii_chars_of, bytes_to_string, dec_bytes_of, dec_bytes_vec, hex_bytes_of,
    hex_bytes_u16, lemma_all_ascii_concat, lemma_digits_ascii, lemma_hex_bytes_ascii, push_all,
    str_bytes, string_of_ascii,
};

verus! {

/// Reverse the byte order of a 32-bit integer.
pub open spec fn spec_swap32(x: u32) -> u32 {
    ((x >> 0) & 0xff) << 24 | ((x >> 8) & 0xff) << 16 | ((x >> 16) & 0xff) << 8 | ((x >> 24)
        & 0xff) << 0
}

/// Reverse the byte order of a 128-bit integer.
pub open spec fn spec_swap128(x: u128) -> u128 {
    ((x >> 0) & 0xff) << 120 | ((x >> 8) & 0xff) << 112 | ((x >> 16) & 0xff) << 104 | ((x >> 24)
        & 0xff) << 96 | ((x >> 32) & 0xff) << 88 | ((x >> 40) & 0xff) << 80 | ((x >> 48) & 0xff)
        << 72 | ((x >> 56) & 0xff) << 64 | ((x >> 64) & 0xff) << 56 | ((x >> 72) & 0xff) << 48 | ((
    x >> 80) & 0xff) << 40 | ((x >> 88) & 0xff) << 32 | ((x >> 96) & 0xff) << 24 | ((x >> 104)
        & 0xff) << 16 | ((x >> 112) & 0xff) << 8 | ((x >> 120) & 0xff) << 0
}

/// Byte-order reversal undoes itself: 32-bit case.
pub proof fn lemma_swap32_involutes(x: u32)
    ensures
        spec_swap32(spec_swap32(x)) == x,
{
    let y = spec_swap32(x);
    assert(((y >> 0) & 0xff) << 24 | ((y >> 8) & 0xff) << 16 | ((y >> 16) & 0xff) << 8 | ((y >> 24)
        & 0xff) << 0 == x) by (bit_vector)
        requires
            y == ((x >> 0) & 0xff) << 24 | ((x >> 8) & 0xff) << 16 | ((x >> 16) & 0xff) << 8 | ((x
                >> 24) & 0xff) << 0,
    ;
}

/// Byte-order reversal undoes itself: 128-bit case.
pub proof fn lemma_swap128_involutes(x: u128)
    ensures
        spec_swap128(spec_swap128(x)) == x,
{
    let y = spec_swap128(x);
    assert(((y >> 0) & 0xff) << 120 | ((y >> 8) & 0xff) << 112 | ((y >> 16) & 0xff) << 104 | ((y
        >> 24) & 0xff) << 96 | ((y >> 32) & 0xff) << 88 | ((y >> 40) & 0xff) << 80 | ((y >> 48)
        & 0xff) << 72 | ((y >> 56) & 0xff) << 64 | ((y >> 64) & 0xff) << 56 | ((y >> 72) & 0xff)
        << 48 | ((y >> 80) & 0xff) << 40 | ((y >> 88) & 0xff) << 32 | ((y >> 96) & 0xff) << 24 | ((
    y >> 104) & 0xff) << 16 | ((y >> 112) & 0xff) << 8 | ((y >> 120) & 0xff) << 0 == x)
        by (bit_vector)
        requires
            y == ((x >> 0) & 0xff) << 120 | ((x >> 8) & 0xff) << 112 | ((x >> 16) & 0xff) << 104 | (
            (x >> 24) & 0xff) << 96 | ((x >> 32) & 0xff) << 88 | ((x >> 40) & 0xff) << 80 | ((x
                >> 48) & 0xff) << 72 | ((x >> 56) & 0xff) << 64 | ((x >> 64) & 0xff) << 56 | ((x
                >> 72) & 0xff) << 48 | ((x >> 80) & 0xff) << 40 | ((x >> 88) & 0xff) << 32 | ((x
                >> 96) & 0xff) << 24 | ((x >> 104) & 0xff) << 16 | ((x >> 112) & 0xff) << 8 | ((x
                >> 120) & 0xff) << 0,
    ;
}

/// Reverse the byte order of a 32-bit integer.
pub fn swap32(x: u32) -> (r: u32)
    ensures
        r == spec_swap32(x),
{
    ((x >> 0) & 0xff) << 24 | ((x >> 8) & 0xff) << 16 | ((x >> 16) & 0xff) << 8 | ((x >> 24)
        & 0xff) << 0
}

/// Reverse the byte order of a 128-bit integer.
pub fn swap128(x: u128) -> (r: u128)
    ensures
        r == spec_swap128(x),
{
    ((x >> 0) & 0xff) << 120 | ((x >> 8) & 0xff) << 112 | ((x >> 16) & 0xff) << 104 | ((x >> 24)
        & 0xff) << 96 | ((x >> 32) & 0xff) << 88 | ((x >> 40) & 0xff) << 80 | ((x >> 48) & 0xff)
        << 72 | ((x >> 56) & 0xff) << 64 | ((x >> 64) & 0xff) << 56 | ((x >> 72) & 0xff) << 48 | ((
    x >> 80) & 0xff) << 40 | ((x >> 88) & 0xff) << 32 | ((x >> 96) & 0xff) << 24 | ((x >> 104)
        & 0xff) << 16 | ((x >> 112) & 0xff) << 8 | ((x >> 120) & 0xff) << 0
}

/// An IPv4 address in host byte order.
#[derive(Clone, Copy, Debug, PartialEq, Eq, Hash, Structural)]
pub struct Ip4Addr {
    pub bits: u32,
}

/// An IPv6 address in host byte order.
#[derive(Clone, Copy, Debug, PartialEq, Eq, Hash, Structural)]
pub struct Ip6Addr {
    pub bits: u128,
}

impl Ip4Addr {
    /// The address `a.b.c.d`.
    pub fn from_octets(a: u8, b: u8, c: u8, d: u8) -> (r: Ip4Addr)
        ensures
            r.bits == (a as u32) << 24 | (b as u32) << 16 | (c as u32) << 8 | (d as u32),
    {
        Ip4Addr { bits: (a as u32) << 24 | (b as u32) << 16 | (c as u32) << 8 | (d as u32) }
    }

    /// The four octets, most significant first.
    pub fn octets(&self) -> (r: (u8, u8, u8, u8))
        ensures
            r.0 == (self.bits >> 24) & 0xff,
            r.1 == (self.bits >> 16) & 0xff,
            r.2 == (self.bits >> 8) & 0xff,
            r.3 == self.bits & 0xff,
    {
        let b = self.bits;
        proof {
            assert((b >> 24) & 0xff < 256 && (b >> 16) & 0xff < 256 && (b >> 8) & 0xff < 256 && b
                & 0xff < 256) by (bit_vector);
        }
        (((b >> 24) & 0xff) as u8, ((b >> 16) & 0xff) as u8, ((b >> 8) & 0xff) as u8, (b
            & 0xff) as u8)
    }
}

/// The 128-bit value of eight 16-bit segments, most significant first.
pub open spec fn spec_segments_bits(s: Seq<u16>) -> u128
    recommends
        s.len() == 8,
{
    (s[0] as u128) << 112 | (s[1] as u128) << 96 | (s[2] as u128) << 80 | (s[3] as u128) << 64 | (
    s[4] as u128) << 48 | (s[5] as u128) << 32 | (s[6] as u128) << 16 | (s[7] as u128)
}

impl Ip6Addr {
    /// The address whose eight 16-bit segments are given most significant first.
    pub fn from_segments(s: &[u16; 8]) -> (r: Ip6Addr)
        ensures
            r.bits == spec_segments_bits(s@),
    {
        Ip6Addr {
            bits: (s[0] as u128) << 112 | (s[1] as u128) << 96 | (s[2] as u128) << 80 | (s[3]
                as u128) << 64 | (s[4] as u128) << 48 | (s[5] as u128) << 32 | (s[6] as u128) << 16
                | (s[7] as u128),
        }
    }

    /// The eight 16-bit segments, most significant first.
    pub fn segments(&self) -> (r: [u16; 8])
        ensures
            r@.len() == 8,
            r@[0] == ((self.bits >> 112) & 0xffff) as u16,
            r@[1] == ((self.bits >> 96) & 0xffff) as u16,
            r@[2] == ((self.bits >> 80) & 0xffff) as u16,
            r@[3] == ((self.bits >> 64) & 0xffff) as u16,
            r@[4] == ((self.bits >> 48) & 0xffff) as u16,
            r@[5] == ((self.bits >> 32) & 0xffff) as u16,
            r@[6] == ((self.bits >> 16) & 0xffff) as u16,
            r@[7] == (self.bits & 0xffff) as u16,
    {
        let b = self.bits;
        proof {
            assert((b >> 112) & 0xffff < 0x10000 && (b >> 96) & 0xffff < 0x10000 && (b >> 80)
                & 0xffff < 0x10000 && (b >> 64) & 0xffff < 0x10000 && (b >> 48) & 0xffff < 0x10000
                && (b >> 32) & 0xffff < 0x10000 && (b >> 16) & 0xffff < 0x10000 && b & 0xffff
                < 0x10000) by (bit_vector);
        }
        [
            ((b >> 112) & 0xffff) as u16,
            ((b >> 96) & 0xffff) as u16,
            ((b >> 80) & 0xffff) as u16,
            ((b >> 64) & 0xffff) as u16,
            ((b >> 48) & 0xffff) as u16,
            ((b >> 32) & 0xffff) as u16,
            ((b >> 16) & 0xffff) as u16,
            (b & 0xffff) as u16,
        ]
    }
}

/// A parameter value: the closed union of wire types of the kernel
/// parameter protocol.
///
/// `CString` holds NUL-terminated text bytes (trailing NUL included, no
/// interior NUL).  `Ip4` and `Ip6` hold network-byte-order integers.
/// `Null` is the zero-length placeholder.
#[derive(Clone, Debug, PartialEq, Eq, Hash)]
pub enum Val {
    Buffer(Vec<u8>),
    CString(Vec<u8>),
    I32(i32),
    U32(u32),
    U64(u64),
    U128(u128),
    Bool(bool),
    Ip4(u32),
    Ip6(u128),
    Null,
}

/// Mathematical model of a [`Val`].
pub enum ValModel {
    Buffer(Seq<u8>),
    CString(Seq<u8>),
    I32(i32),
    U32(u32),
    U64(u64),
    U128(u128),
    Bool(bool),
    Ip4(u32),
    Ip6(u128),
    Null,
}

impl View for Val {
    type V = ValModel;

    open spec fn view(&self) -> ValModel {
        match self {
            Val::Buffer(b) => ValModel::Buffer(b@),
            Val::CString(b) => ValModel::CString(b@),
            Val::I32(x) => ValModel::I32(*x),
            Val::U32(x) => ValModel::U32(*x),
            Val::U64(x) => ValModel::U64(*x),
            Val::U128(x) => ValModel::U128(*x),
            Val::Bool(x) => ValModel::Bool(*x),
            Val::Ip4(x) => ValModel::Ip4(*x),
            Val::Ip6(x) => ValModel::Ip6(*x),
            Val::Null => ValModel::Null,
        }
    }
}

/// NUL-terminated text bytes: a trailing NUL and no interior NUL.
pub open spec fn cstr_wf(b: Seq<u8>) -> bool {
    &&& b.len() >= 1
    &&& b.last() == 0
    &&& forall|i: int| 0 <= i < b.len() - 1 ==> b[i] != 0
}

/// Structural invariant of a value: `CString` bytes are well-formed text.
pub open spec fn val_wf(v: ValModel) -> bool {
    match v {
        ValModel::CString(b) => cstr_wf(b),
        _ => true,
    }
}

/// The unsigned bit pattern of a signed 32-bit integer.
pub open spec fn u32_of_i32(x: i32) -> u32 {
    if x >= 0 {
        x as u32
    } else {
        (x + 0x1_0000_0000) as u32
    }
}

/// The signed reading of a 32-bit bit pattern.
pub open spec fn i32_of_u32(u: u32) -> i32 {
    if u < 0x8000_0000 {
        u as i32
    } else {
        (u - 0x1_0000_0000) as i32
    }
}

/// The signed and unsigned readings of a 32-bit pattern convert back
/// and forth.
pub proof fn lemma_i32_bits_round_trip(x: i32)
    ensures
        i32_of_u32(u32_of_i32(x)) == x,
{
}

/// The unsigned bit pattern of a signed 32-bit integer.
pub fn i32_bits(x: i32) -> (r: u32)
    ensures
        r == u32_of_i32(x),
{
    if x >= 0 {
        x as u32
    } else {
        let neg: u64 = (-(x as i64)) as u64;
        (0x1_0000_0000u64 - neg) as u32
    }
}

/// The signed reading of a 32-bit bit pattern.
pub fn u32_signed(u: u32) -> (r: i32)
    ensures
        r == i32_of_u32(u),
{
    if u < 0x8000_0000 {
        u as i32
    } else {
        let wide: i64 = (u as i64) - 0x1_0000_0000i64;
        wide as i32
    }
}

/// The byte image of a value: the exact bytes the kernel sees for it.
///
/// Integers lie in memory in little-endian order; text and buffers are
/// their own bytes; the null placeholder is empty.
pub open spec fn spec_val_bytes(v: ValModel) -> Seq<u8> {
    match v {
        ValModel::Buffer(b) => b,
        ValModel::CString(b) => b,
        ValModel::I32(x) => spec_u32_to_le_bytes(u32_of_i32(x)),
        ValModel::U32(x) => spec_u32_to_le_bytes(x),
        ValModel::U64(x) => spec_u64_to_le_bytes(x),
        ValModel::U128(x) => spec_u128_to_le_bytes(x),
        ValModel::Bool(x) => seq![if x { 1u8 } else { 0u8 }],
        ValModel::Ip4(x) => spec_u32_to_le_bytes(x),
        ValModel::Ip6(x) => spec_u128_to_le_bytes(x),
        ValModel::Null => Seq::empty(),
    }
}

impl Val {
    /// The byte image of this value.
    pub fn to_bytes(&self) -> (r: Vec<u8>)
        ensures
            r@ == spec_val_bytes(self@),
    {
        match self {
            Val::Buffer(b) => clone_bytes(b),
            Val::CString(b) => clone_bytes(b),
            Val::I32(x) => u32_to_le_bytes(i32_bits(*x)),
            Val::U32(x) => u32_to_le_bytes(*x),
            Val::U64(x) => u64_to_le_bytes(*x),
            Val::U128(x) => u128_to_le_bytes(*x),
            Val::Bool(x) => {
                let mut v: Vec<u8> = Vec::new();
                v.push(if *x {
                    1
                } else {
                    0
                });
                proof {
                    assert(v@ =~= spec_val_bytes(self@));
                }
                v
            },
            Val::Ip4(x) => u32_to_le_bytes(*x),
            Val::Ip6(x) => u128_to_le_bytes(*x),
            Val::Null => Vec::new(),
        }
    }

    /// The length of this value's byte image.
    pub fn byte_len(&self) -> (r: usize)
        ensures
            r == spec_val_bytes(self@).len(),
    {
        proof {
            vstd::bytes::lemma_auto_spec_u32_to_from_le_bytes();
            vstd::bytes::lemma_auto_spec_u64_to_from_le_bytes();
            vstd::bytes::lemma_auto_spec_u128_to_from_le_bytes();
        }
        match self {
            Val::Buffer(b) => b.len(),
            Val::CString(b) => b.len(),
            Val::I32(_) => 4,
            Val::U32(_) => 4,
            Val::U64(_) => 8,
            Val::U128(_) => 16,
            Val::Bool(_) => 1,
            Val::Ip4(_) => 4,
            Val::Ip6(_) => 16,
            Val::Null => 0,
        }
    }

    /// A copy of this value with the same model.
    pub fn duplicate(&self) -> (r: Val)
        ensures
            r@ == self@,
    {
        match self {
            Val::Buffer(b) => Val::Buffer(clone_bytes(b)),
            Val::CString(b) => Val::CString(clone_bytes(b)),
            Val::I32(x) => Val::I32(*x),
            Val::U32(x) => Val::U32(*x),
            Val::U64(x) => Val::U64(*x),
            Val::U128(x) => Val::U128(*x),
            Val::Bool(x) => Val::Bool(*x),
            Val::Ip4(x) => Val::Ip4(*x),
            Val::Ip6(x) => Val::Ip6(*x),
            Val::Null => Val::Null,
        }
    }
}

/// The index of the first NUL byte, or the length when there is none.
pub open spec fn first_nul(b: Seq<u8>) -> int
    decreases b.len(),
{
    if b.len() == 0 {
        0
    } else if b[0] == 0 {
        0
    } else {
        1 + first_nul(b.drop_first())
    }
}

/// Position and bounds of the first NUL byte.
pub proof fn lemma_first_nul(b: Seq<u8>)
    ensures
        0 <= first_nul(b) <= b.len(),
        forall|i: int| 0 <= i < first_nul(b) ==> b[i] != 0,
        first_nul(b) < b.len() ==> b[first_nul(b)] == 0,
    decreases b.len(),
{
    if b.len() > 0 && b[0] != 0 {
        lemma_first_nul(b.drop_first());
        assert forall|i: int| 0 <= i < first_nul(b) implies b[i] != 0 by {
            if i > 0 {
                assert(b.drop_first()[i - 1] == b[i]);
            }
        }
    }
}

/// The first NUL sits exactly where scanning says it does.
pub proof fn lemma_first_nul_at(b: Seq<u8>, i: int)
    requires
        0 <= i <= b.len(),
        forall|j: int| 0 <= j < i ==> b[j] != 0,
        i < b.len() ==> b[i] == 0,
    ensures
        first_nul(b) == i,
    decreases b.len(),
{
    if b.len() > 0 && b[0] != 0 {
        assert(i > 0);
        lemma_first_nul_at(b.drop_first(), i - 1);
    }
}

/// The index of the first NUL byte of a buffer, or its length when none.
pub fn find_nul(b: &Vec<u8>) -> (r: usize)
    ensures
        r == first_nul(b@),
{
    let mut i: usize = 0;
    while i < b.len()
        invariant
            i <= b@.len(),
            forall|j: int| 0 <= j < i ==> b@[j] != 0,
        decreases b@.len() - i,
    {
        if b[i] == 0 {
            proof {
                lemma_first_nul_at(b@, i as int);
            }
            return i;
        }
        i = i + 1;
    }
    proof {
        lemma_first_nul_at(b@, i as int);
    }
    i
}

/// The text bytes of a buffer: everything before the first NUL.
pub open spec fn trimmed_text(b: Seq<u8>) -> Seq<u8> {
    b.take(first_nul(b))
}

impl Val {
    /// NUL-terminated text from a string slice.
    ///
    /// Fails exactly when the string's bytes contain a NUL.
    pub fn from_text(s: &str) -> (r: Result<Val, ConvertError>)
        ensures
            r is Ok <==> first_nul(encode_utf8(s@)) == encode_utf8(s@).len(),
            r matches Ok(v) ==> v@ == ValModel::CString(encode_utf8(s@).push(0)) && val_wf(v@),
            r is Err ==> r == Err::<Val, ConvertError>(ConvertError::NulError),
    {
        let mut bytes = str_bytes(s);
        let i = find_nul(&bytes);
        if i < bytes.len() {
            proof {
                lemma_first_nul(bytes@);
            }
            Err(ConvertError::NulError)
        } else {
            proof {
                lemma_first_nul(bytes@);
            }
            bytes.push(0);
            Ok(Val::CString(bytes))
        }
    }

    /// NUL-terminated text from an owned string.
    pub fn from_string(s: &String) -> (r: Result<Val, ConvertError>)
        ensures
            r is Ok <==> first_nul(encode_utf8(s@)) == encode_utf8(s@).len(),
            r matches Ok(v) ==> v@ == ValModel::CString(encode_utf8(s@).push(0)) && val_wf(v@),
            r is Err ==> r == Err::<Val, ConvertError>(ConvertError::NulError),
    {
        Val::from_text(s.as_str())
    }

    /// An IPv4 address value; stores the network-byte-order integer.
    pub fn from_ip4(a: Ip4Addr) -> (v: Val)
        ensures
            v@ == ValModel::Ip4(spec_swap32(a.bits)),
    {
        Val::Ip4(swap32(a.bits))
    }

    /// An IPv6 address value; stores the network-byte-order integer.
    pub fn from_ip6(a: Ip6Addr) -> (v: Val)
        ensures
            v@ == ValModel::Ip6(spec_swap128(a.bits)),
    {
        Val::Ip6(swap128(a.bits))
    }
}

/// What a value becomes when the kernel has rewritten its byte image.
///
/// The new bytes must have the old image's length; text buffers must still
/// carry a NUL and are trimmed to it.  `None` marks a shape the protocol
/// does not allow.
pub open spec fn spec_refill(v: ValModel, b: Seq<u8>) -> Option<ValModel> {
    match v {
        ValModel::Buffer(old) => if b.len() == old.len() {
            Some(ValModel::Buffer(b))
        } else {
            None
        },
        ValModel::CString(old) => if b.len() == old.len() && first_nul(b) < b.len() {
            Some(ValModel::CString(trimmed_text(b).push(0)))
        } else {
            None
        },
        ValModel::I32(_) => if b.len() == 4 {
            Some(ValModel::I32(i32_of_u32(spec_u32_from_le_bytes(b))))
        } else {
            None
        },
        ValModel::U32(_) => if b.len() == 4 {
            Some(ValModel::U32(spec_u32_from_le_bytes(b)))
        } else {
            None
        },
        ValModel::U64(_) => if b.len() == 8 {
            Some(ValModel::U64(spec_u64_from_le_bytes(b)))
        } else {
            None
        },
        ValModel::U128(_) => if b.len() == 16 {
            Some(ValModel::U128(spec_u128_from_le_bytes(b)))
        } else {
            None
        },
        ValModel::Bool(_) => if b.len() == 1 {
            Some(ValModel::Bool(b[0] != 0))
        } else {
            None
        },
        ValModel::Ip4(_) => if b.len() == 4 {
            Some(ValModel::Ip4(spec_u32_from_le_bytes(b)))
        } else {
            None
        },
        ValModel::Ip6(_) => if b.len() == 16 {
            Some(ValModel::Ip6(spec_u128_from_le_bytes(b)))
        } else {
            None
        },
        ValModel::Null => if b.len() == 0 {
            Some(ValModel::Null)
        } else {
            None
        },
    }
}

impl Val {
    /// Rebuild this value from the byte image the kernel handed back.
    pub fn refill(&self, b: &Vec<u8>) -> (r: Result<Val, LibJailError>)
        ensures
            r matches Ok(v) ==> spec_refill(self@, b@) == Some(v@) && val_wf(v@),
            r is Err <==> spec_refill(self@, b@) is None,
            r is Err ==> r == Err::<Val, LibJailError>(LibJailError::MismatchCtlValue),
    {
        match self {
            Val::Buffer(old) => {
                if b.len() == old.len() {
                    Ok(Val::Buffer(clone_bytes(b)))
                } else {
                    Err(LibJailError::MismatchCtlValue)
                }
            },
            Val::CString(old) => {
                if b.len() != old.len() {
                    return Err(LibJailError::MismatchCtlValue);
                }
                let i = find_nul(b);
                if i == b.len() {
                    return Err(LibJailError::MismatchCtlValue);
                }
                proof {
                    lemma_first_nul(b@);
                }
                let mut text: Vec<u8> = Vec::new();
                let mut j: usize = 0;
                while j < i
                    invariant
                        j <= i,
                        i < b@.len(),
                        text@ =~= b@.take(j as int),
                    decreases i - j,
                {
                    text.push(b[j]);
                    j = j + 1;
                    proof {
                        assert(text@ =~= b@.take(j as int));
                    }
                }
                text.push(0);
                proof {
                    assert(text@ =~= trimmed_text(b@).push(0));
                }
                Ok(Val::CString(text))
            },
            Val::I32(_) => {
                if b.len() == 4 {
                    Ok(Val::I32(u32_signed(u32_from_le_bytes(b.as_slice()))))
                } else {
                    Err(LibJailError::MismatchCtlValue)
                }
            },
            Val::U32(_) => {
                if b.len() == 4 {
                    Ok(Val::U32(u32_from_le_bytes(b.as_slice())))
                } else {
                    Err(LibJailError::MismatchCtlValue)
                }
            },
            Val::U64(_) => {
                if b.len() == 8 {
                    Ok(Val::U64(u64_from_le_bytes(b.as_slice())))
                } else {
                    Err(LibJailError::MismatchCtlValue)
                }
            },
            Val::U128(_) => {
                if b.len() == 16 {
                    Ok(Val::U128(u128_from_le_bytes(b.as_slice())))
                } else {
                    Err(LibJailError::MismatchCtlValue)
                }
            },
            Val::Bool(_) => {
                if b.len() == 1 {
                    Ok(Val::Bool(b[0] != 0))
                } else {
                    Err(LibJailError::MismatchCtlValue)
                }
            },
            Val::Ip4(_) => {
                if b.len() == 4 {
                    Ok(Val::Ip4(u32_from_le_bytes(b.as_slice())))
                } else {
                    Err(LibJailError::MismatchCtlValue)
                }
            },
            Val::Ip6(_) => {
                if b.len() == 16 {
                    Ok(Val::Ip6(u128_from_le_bytes(b.as_slice())))
                } else {
                    Err(LibJailError::MismatchCtlValue)
                }
            },
            Val::Null => {
                if b.len() == 0 {
                    Ok(Val::Null)
                } else {
                    Err(LibJailError::MismatchCtlValue)
                }
            },
        }
    }
}

/// A decoded parameter value, as handed back to callers.
///
/// Produced only by decoding.  Text buffers come back as strings; address
/// variants carry host-byte-order addresses.
#[derive(Clone, Debug, PartialEq, Eq, Hash)]
pub enum OutVal {
    String(String),
    I32(i32),
    U32(u32),
    U64(u64),
    Bool(bool),
    Ip4(Ip4Addr),
    Ip6(Ip6Addr),
    Null,
}

/// Mathematical model of an [`OutVal`].
pub enum OutValModel {
    String(Seq<char>),
    I32(i32),
    U32(u32),
    U64(u64),
    Bool(bool),
    Ip4(Ip4Addr),
    Ip6(Ip6Addr),
    Null,
}

impl View for OutVal {
    type V = OutValModel;

    open spec fn view(&self) -> OutValModel {
        match self {
            OutVal::String(s) => OutValModel::String(s@),
            OutVal::I32(x) => OutValModel::I32(*x),
            OutVal::U32(x) => OutValModel::U32(*x),
            OutVal::U64(x) => OutValModel::U64(*x),
            OutVal::Bool(x) => OutValModel::Bool(*x),
            OutVal::Ip4(a) => OutValModel::Ip4(*a),
            OutVal::Ip6(a) => OutValModel::Ip6(*a),
            OutVal::Null => OutValModel::Null,
        }
    }
}

impl OutVal {
    /// The carried string, or the empty string for any other variant.
    pub fn into_string(self) -> (r: String)
        ensures
            self@ matches OutValModel::String(s) ==> r@ == s,
            !(self@ is String) ==> r@ == Seq::<char>::empty(),
    {
        match self {
            OutVal::String(value) => value,
            _ => String::new(),
        }
    }
}

/// What decoding a value yields.
///
/// Buffers and text decode as strings trimmed at the first NUL; integers,
/// booleans and addresses decode structurally (addresses swap back to host
/// byte order); a 128-bit integer has no decoded counterpart and is
/// reported as a type mismatch rather than silently defaulted.
pub open spec fn spec_decode(v: ValModel) -> Result<OutValModel, ErrModel> {
    match v {
        ValModel::Buffer(b) => if valid_utf8(trimmed_text(b)) {
            Ok(OutValModel::String(decode_utf8(trimmed_text(b))))
        } else {
            Err(ErrModel::ConvertError(ConvertError::IntoStringError))
        },
        ValModel::CString(b) => if valid_utf8(trimmed_text(b)) {
            Ok(OutValModel::String(decode_utf8(trimmed_text(b))))
        } else {
            Err(ErrModel::ConvertError(ConvertError::IntoStringError))
        },
        ValModel::I32(x) => Ok(OutValModel::I32(x)),
        ValModel::U32(x) => Ok(OutValModel::U32(x)),
        ValModel::U64(x) => Ok(OutValModel::U64(x)),
        ValModel::U128(_) => Err(ErrModel::MismatchCtlType),
        ValModel::Bool(x) => Ok(OutValModel::Bool(x)),
        ValModel::Ip4(x) => Ok(OutValModel::Ip4(Ip4Addr { bits: spec_swap32(x) })),
        ValModel::Ip6(x) => Ok(OutValModel::Ip6(Ip6Addr { bits: spec_swap128(x) })),
        ValModel::Null => Ok(OutValModel::Null),
    }
}

impl Val {
    /// The text bytes of a buffer value: everything before the first NUL.
    fn trimmed_copy(b: &Vec<u8>) -> (r: Vec<u8>)
        ensures
            r@ == trimmed_text(b@),
    {
        let i = find_nul(b);
        proof {
            lemma_first_nul(b@);
        }
        let mut text: Vec<u8> = Vec::new();
        let mut j: usize = 0;
        while j < i
            invariant
                j <= i,
                i == first_nul(b@),
                0 <= i <= b@.len(),
                text@ =~= b@.take(j as int),
            decreases i - j,
        {
            text.push(b[j]);
            j = j + 1;
            proof {
                assert(text@ =~= b@.take(j as int));
            }
        }
        text
    }

    /// Decode this value into its output form.
    pub fn decode(&self) -> (r: Result<OutVal, LibJailError>)
        ensures
            r matches Ok(o) ==> spec_decode(self@) == Ok::<OutValModel, ErrModel>(o@),
            r matches Err(e) ==> spec_decode(self@) == Err::<OutValModel, ErrModel>(e@),
            r is Ok <==> spec_decode(self@) is Ok,
    {
        match self {
            Val::Buffer(b) => {
                let text = Val::trimmed_copy(b);
                match bytes_to_string(text) {
                    Ok(s) => Ok(OutVal::String(s)),
                    Err(_) => Err(LibJailError::ConvertError(ConvertError::IntoStringError)),
                }
            },
            Val::CString(b) => {
                let text = Val::trimmed_copy(b);
                match bytes_to_string(text) {
                    Ok(s) => Ok(OutVal::String(s)),
                    Err(_) => Err(LibJailError::ConvertError(ConvertError::IntoStringError)),
                }
            },
            Val::I32(x) => Ok(OutVal::I32(*x)),
            Val::U32(x) => Ok(OutVal::U32(*x)),
            Val::U64(x) => Ok(OutVal::U64(*x)),
            Val::U128(_) => Err(LibJailError::MismatchCtlType),
            Val::Bool(x) => Ok(OutVal::Bool(*x)),
            Val::Ip4(x) => Ok(OutVal::Ip4(Ip4Addr { bits: swap32(*x) })),
            Val::Ip6(x) => Ok(OutVal::Ip6(Ip6Addr { bits: swap128(*x) })),
            Val::Null => Ok(OutVal::Null),
        }
    }
}

/// The decimal text of a signed 32-bit integer, minus sign included.
pub open spec fn i32_text_bytes(x: i32) -> Seq<u8> {
    if x >= 0 {
        dec_bytes_of(x as nat)
    } else {
        seq![0x2du8] + dec_bytes_of((-(x as int)) as nat)
    }
}

/// The dotted-quad text of a host-order IPv4 address.
pub open spec fn ip4_text_bytes(host: u32) -> Seq<u8> {
    dec_bytes_of(((host >> 24) & 0xff) as nat) + seq![0x2eu8] + dec_bytes_of(
        ((host >> 16) & 0xff) as nat,
    ) + seq![0x2eu8] + dec_bytes_of(((host >> 8) & 0xff) as nat) + seq![0x2eu8] + dec_bytes_of(
        (host & 0xff) as nat,
    )
}

/// The full-form hexadecimal text of a host-order IPv6 address: eight
/// lower-case groups separated by colons, no zero compression.
pub open spec fn ip6_text_bytes(host: u128) -> Seq<u8> {
    hex_bytes_of(((host >> 112) & 0xffff) as nat) + seq![0x3au8] + hex_bytes_of(
        ((host >> 96) & 0xffff) as nat,
    ) + seq![0x3au8] + hex_bytes_of(((host >> 80) & 0xffff) as nat) + seq![0x3au8] + hex_bytes_of(
        ((host >> 64) & 0xffff) as nat,
    ) + seq![0x3au8] + hex_bytes_of(((host >> 48) & 0xffff) as nat) + seq![0x3au8] + hex_bytes_of(
        ((host >> 32) & 0xffff) as nat,
    ) + seq![0x3au8] + hex_bytes_of(((host >> 16) & 0xffff) as nat) + seq![0x3au8] + hex_bytes_of(
        (host & 0xffff) as nat,
    )
}

/// The text rendering of a value.
///
/// Text decodes as a string; integers render in decimal; booleans as
/// `true`/`false`; addresses swap back to host order and render as dotted
/// quad or full-form hexadecimal groups; the null placeholder is empty.
pub open spec fn spec_val_string(v: ValModel) -> Result<Seq<char>, ErrModel> {
    match v {
        ValModel::Buffer(b) => if valid_utf8(trimmed_text(b)) {
            Ok(decode_utf8(trimmed_text(b)))
        } else {
            Err(ErrModel::ConvertError(ConvertError::IntoStringError))
        },
        ValModel::CString(b) => if valid_utf8(trimmed_text(b)) {
            Ok(decode_utf8(trimmed_text(b)))
        } else {
            Err(ErrModel::ConvertError(ConvertError::IntoStringError))
        },
        ValModel::I32(x) => Ok(ascii_chars_of(i32_text_bytes(x))),
        ValModel::U32(x) => Ok(ascii_chars_of(dec_bytes_of(x as nat))),
        ValModel::U64(x) => Ok(ascii_chars_of(dec_bytes_of(x as nat))),
        ValModel::U128(x) => Ok(ascii_chars_of(dec_bytes_of(x as nat))),
        ValModel::Bool(x) => Ok(
            if x {
                "true"@
            } else {
                "false"@
            },
        ),
        ValModel::Ip4(x) => Ok(ascii_chars_of(ip4_text_bytes(spec_swap32(x)))),
        ValModel::Ip6(x) => Ok(ascii_chars_of(ip6_text_bytes(spec_swap128(x)))),
        ValModel::Null => Ok(Seq::<char>::empty()),
    }
}

impl Val {
    /// Render this value as text.
    pub fn into_string(&self) -> (r: Result<String, LibJailError>)
        ensures
            r matches Ok(s) ==> spec_val_string(self@) == Ok::<Seq<char>, ErrModel>(s@),
            r matches Err(e) ==> spec_val_string(self@) == Err::<Seq<char>, ErrModel>(e@),
            r is Ok <==> spec_val_string(self@) is Ok,
    {
        match self {
            Val::Buffer(b) => {
                let text = Val::trimmed_copy(b);
                match bytes_to_string(text) {
                    Ok(s) => Ok(s),
                    Err(_) => Err(LibJailError::ConvertError(ConvertError::IntoStringError)),
                }
            },
            Val::CString(b) => {
                let text = Val::trimmed_copy(b);
                match bytes_to_string(text) {
                    Ok(s) => Ok(s),
                    Err(_) => Err(LibJailError::ConvertError(ConvertError::IntoStringError)),
                }
            },
            Val::I32(x) => {
                let x = *x;
                if x >= 0 {
                    let b = dec_bytes_vec(x as u128);
                    proof {
                        lemma_digits_ascii(b@);
                    }
                    Ok(string_of_ascii(b))
                } else {
                    let neg: u64 = (-(x as i64)) as u64;
                    let mag = dec_bytes_vec(neg as u128);
                    let mut b: Vec<u8> = Vec::new();
                    b.push(0x2d);
                    push_all(&mut b, &mag);
                    proof {
                        assert(b@ =~= i32_text_bytes(x));
                        lemma_digits_ascii(mag@);
                        assert(all_ascii(seq![0x2du8]));
                        lemma_all_ascii_concat(seq![0x2du8], mag@);
                    }
                    Ok(string_of_ascii(b))
                }
            },
            Val::U32(x) => {
                let b = dec_bytes_vec(*x as u128);
                proof {
                    lemma_digits_ascii(b@);
                }
                Ok(string_of_ascii(b))
            },
            Val::U64(x) => {
                let b = dec_bytes_vec(*x as u128);
                proof {
                    lemma_digits_ascii(b@);
                }
                Ok(string_of_ascii(b))
            },
            Val::U128(x) => {
                let b = dec_bytes_vec(*x);
                proof {
                    lemma_digits_ascii(b@);
                }
                Ok(string_of_ascii(b))
            },
            Val::Bool(x) => {
                if *x {
                    Ok(String::from_str("true"))
                } else {
                    Ok(String::from_str("false"))
                }
            },
            Val::Ip4(x) => {
                let host = swap32(*x);
                proof {
                    assert((host >> 24) & 0xff < 256 && (host >> 16) & 0xff < 256 && (host >> 8)
                        & 0xff < 256 && host & 0xff < 256) by (bit_vector);
                }
                let o1 = dec_bytes_vec((((host >> 24) & 0xff) as u8) as u128);
                let o2 = dec_bytes_vec((((host >> 16) & 0xff) as u8) as u128);
                let o3 = dec_bytes_vec((((host >> 8) & 0xff) as u8) as u128);
                let o4 = dec_bytes_vec(((host & 0xff) as u8) as u128);
                let mut b: Vec<u8> = Vec::new();
                push_all(&mut b, &o1);
                b.push(0x2e);
                push_all(&mut b, &o2);
                b.push(0x2e);
                push_all(&mut b, &o3);
                b.push(0x2e);
                push_all(&mut b, &o4);
                proof {
                    assert(b@ =~= ip4_text_bytes(host));
                    lemma_digits_ascii(o1@);
                    lemma_digits_ascii(o2@);
                    lemma_digits_ascii(o3@);
                    lemma_digits_ascii(o4@);
                    assert(all_ascii(b@)) by {
                        assert forall|i: int| 0 <= i < b@.len() implies b@[i] < 0x80 by {
                            let n1 = o1@.len();
                            let n2 = n1 + 1 + o2@.len();
                            let n3 = n2 + 1 + o3@.len();
                            if i < n1 {
                                assert(b@[i] == o1@[i]);
                            } else if i == n1 {
                            } else if i < n2 {
                                assert(b@[i] == o2@[i - n1 - 1]);
                            } else if i == n2 {
                            } else if i < n3 {
                                assert(b@[i] == o3@[i - n2 - 1]);
                            } else if i == n3 {
                            } else {
                                assert(b@[i] == o4@[i - n3 - 1]);
                            }
                        }
                    }
                }
                Ok(string_of_ascii(b))
            },
            Val::Ip6(x) => {
                let host = swap128(*x);
                let segs = Ip6Addr { bits: host }.segments();
                let mut b: Vec<u8> = Vec::new();
                let mut parts: Vec<Vec<u8>> = Vec::new();
                let mut k: usize = 0;
                while k < 8
                    invariant
                        k <= 8,
                        segs@.len() == 8,
                        parts@.len() == k,
                        forall|i: int|
                            0 <= i < k ==> #[trigger] parts@[i]@ == hex_bytes_of(
                                segs@[i] as nat,
                            ) && all_ascii(parts@[i]@),
                    decreases 8 - k,
                {
                    let p = hex_bytes_u16(segs[k]);
                    proof {
                        lemma_hex_bytes_ascii(segs@[k as int] as nat);
                    }
                    parts.push(p);
                    k = k + 1;
                }
                let mut j: usize = 0;
                while j < 8
                    invariant
                        j <= 8,
                        parts@.len() == 8,
                        segs@.len() == 8,
                        forall|i: int|
                            0 <= i < 8 ==> #[trigger] parts@[i]@ == hex_bytes_of(
                                segs@[i] as nat,
                            ) && all_ascii(parts@[i]@),
                        all_ascii(b@),
                        b@ =~= spec_ip6_prefix(segs@, j as int),
                    decreases 8 - j,
                {
                    if j > 0 {
                        b.push(0x3a);
                        proof {
                            lemma_all_ascii_concat(b@.drop_last(), seq![0x3au8]);
                            assert(b@ =~= b@.drop_last() + seq![0x3au8]);
                        }
                    }
                    let ghost before = b@;
                    push_all(&mut b, &parts[j]);
                    proof {
                        lemma_all_ascii_concat(before, parts@[j as int]@);
                        assert(b@ =~= spec_ip6_prefix(segs@, j + 1));
                    }
                    j = j + 1;
                }
                proof {
                    lemma_ip6_prefix_full(host, segs@);
                }
                Ok(string_of_ascii(b))
            },
            Val::Null => Ok(String::new()),
        }
    }
}

/// The colon-joined hexadecimal text of the first `k` segments.
pub open spec fn spec_ip6_prefix(segs: Seq<u16>, k: int) -> Seq<u8>
    decreases k,
{
    if k <= 0 {
        Seq::empty()
    } else if k == 1 {
        hex_bytes_of(segs[0] as nat)
    } else {
        spec_ip6_prefix(segs, k - 1) + seq![0x3au8] + hex_bytes_of(segs[k - 1] as nat)
    }
}

/// Joining all eight segments gives the address text.
proof fn lemma_ip6_prefix_full(host: u128, segs: Seq<u16>)
    requires
        segs.len() == 8,
        segs[0] == ((host >> 112) & 0xffff) as u16,
        segs[1] == ((host >> 96) & 0xffff) as u16,
        segs[2] == ((host >> 80) & 0xffff) as u16,
        segs[3] == ((host >> 64) & 0xffff) as u16,
        segs[4] == ((host >> 48) & 0xffff) as u16,
        segs[5] == ((host >> 32) & 0xffff) as u16,
        segs[6] == ((host >> 16) & 0xffff) as u16,
        segs[7] == (host & 0xffff) as u16,
    ensures
        spec_ip6_prefix(segs, 8) =~= ip6_text_bytes(host),
{
    assert((host >> 112) & 0xffff < 0x10000 && (host >> 96) & 0xffff < 0x10000 && (host >> 80)
        & 0xffff < 0x10000 && (host >> 64) & 0xffff < 0x10000 && (host >> 48) & 0xffff < 0x10000
        && (host >> 32) & 0xffff < 0x10000 && (host >> 16) & 0xffff < 0x10000 && host & 0xffff
        < 0x10000) by (bit_vector);
    assert(spec_ip6_prefix(segs, 1) =~= hex_bytes_of(segs[0] as nat));
    assert(spec_ip6_prefix(segs, 2) =~= spec_ip6_prefix(segs, 1) + seq![0x3au8] + hex_bytes_of(
        segs[1] as nat,
    ));
    assert(spec_ip6_prefix(segs, 3) =~= spec_ip6_prefix(segs, 2) + seq![0x3au8] + hex_bytes_of(
        segs[2] as nat,
    ));
    assert(spec_ip6_prefix(segs, 4) =~= spec_ip6_prefix(segs, 3) + seq![0x3au8] + hex_bytes_of(
        segs[3] as nat,
    ));
    assert(spec_ip6_prefix(segs, 5) =~= spec_ip6_prefix(segs, 4) + seq![0x3au8] + hex_bytes_of(
        segs[4] as nat,
    ));
    assert(spec_ip6_prefix(segs, 6) =~= spec_ip6_prefix(segs, 5) + seq![0x3au8] + hex_bytes_of(
        segs[5] as nat,
    ));
    assert(spec_ip6_prefix(segs, 7) =~= spec_ip6_prefix(segs, 6) + seq![0x3au8] + hex_bytes_of(
        segs[6] as nat,
    ));
    assert(spec_ip6_prefix(segs, 8) =~= spec_ip6_prefix(segs, 7) + seq![0x3au8] + hex_bytes_of(
        segs[7] as nat,
    ));
}

/// Round-trip identity of a placeholder: a well-formed value whose byte
/// image comes back from the kernel unchanged rebuilds as exactly itself.
pub proof fn lemma_placeholder_round_trip(v: ValModel)
    requires
        val_wf(v),
    ensures
        spec_refill(v, spec_val_bytes(v)) == Some(v),
{
    vstd::bytes::lemma_auto_spec_u32_to_from_le_bytes();
    vstd::bytes::lemma_auto_spec_u64_to_from_le_bytes();
    vstd::bytes::lemma_auto_spec_u128_to_from_le_bytes();
    match v {
        ValModel::CString(b) => {
            lemma_first_nul_at(b, b.len() - 1);
            assert(trimmed_text(b).push(0) =~= b);
        },
        ValModel::I32(x) => {
            lemma_i32_bits_round_trip(x);
        },
        _ => {},
    }
}

/// Decoding is untouched by an unmutated round trip: rebuilding a
/// well-formed value from its own byte image decodes to what the value
/// itself decodes to.
pub proof fn lemma_decode_after_round_trip(v: ValModel)
    requires
        val_wf(v),
    ensures
        spec_refill(v, spec_val_bytes(v)) matches Some(w) && spec_decode(w) == spec_decode(v),
{
    lemma_placeholder_round_trip(v);
}

/// IPv4 byte-order round trip: an address turned into a value decodes
/// back to the same address.
pub proof fn lemma_ip4_addr_round_trip(a: Ip4Addr)
    ensures
        spec_decode(ValModel::Ip4(spec_swap32(a.bits))) == Ok::<OutValModel, ErrModel>(
            OutValModel::Ip4(a),
        ),
{
    lemma_swap32_involutes(a.bits);
}

/// IPv6 byte-order round trip: an address turned into a value decodes
/// back to the same address.
pub proof fn lemma_ip6_addr_round_trip(a: Ip6Addr)
    ensures
        spec_decode(ValModel::Ip6(spec_swap128(a.bits))) == Ok::<OutValModel, ErrModel>(
            OutValModel::Ip6(a),
        ),
{
    lemma_swap128_involutes(a.bits);
}

/// An element-for-element copy of a byte vector.
pub fn clone_bytes(b: &Vec<u8>) -> (r: Vec<u8>)
    ensures
        r@ == b@,
{
    let mut r: Vec<u8> = Vec::new();
    let mut i: usize = 0;
    while i < b.len()
        invariant
            i <= b@.len(),
            r@ =~= b@.take(i as int),
        decreases b@.len() - i,
    {
        r.push(b[i]);
        i = i + 1;
        proof {
            assert(r@ =~= b@.take(i as int));
        }
    }
    proof {
        assert(b@.take(i as int) =~= b@);
    }
    r
}

} // verus!
