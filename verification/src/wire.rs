//! Stateless wire primitives: variable-length integers, zigzag transforms,
//! fixed-width values, tag packing and length-delimited framing.
//!
//! Every encoder appends to a byte vector and is specified against a spec
//! function that gives the exact bytes produced; every decoder reads at a
//! cursor position and is specified by an exact case analysis of the input
//! bytes, including which error it returns on which malformed input.

use vstd::prelude::*;

use crate::error::DecodeError;

verus! {

/// The 3-bit wire-type category carried in every tag.
#[derive(Clone, Copy, Debug, PartialEq, Eq, Structural)]
pub enum WireType {
    /// Code 0: a variable-length integer.
    Varint,
    /// Code 1: a little-endian 64-bit value.
    Fixed64,
    /// Code 2: a length-prefixed run of bytes.
    LengthDelimited,
    /// Code 5: a little-endian 32-bit value.
    Fixed32,
}

impl WireType {
    /// The numeric code of this wire type as it appears in a tag.
    pub open spec fn code(self) -> u64 {
        match self {
            WireType::Varint => 0,
            WireType::Fixed64 => 1,
            WireType::LengthDelimited => 2,
            WireType::Fixed32 => 5,
        }
    }

    /// Returns the numeric code of this wire type.
    pub fn to_code(&self) -> (r: u32)
        ensures
            r as u64 == self.code(),
    {
        match self {
            WireType::Varint => 0,
            WireType::Fixed64 => 1,
            WireType::LengthDelimited => 2,
            WireType::Fixed32 => 5,
        }
    }

    /// Maps a numeric code back to a wire type; codes 3, 4, 6 and 7 name no
    /// wire type supported here and yield `None`.
    pub fn from_code(code: u64) -> (r: Option<WireType>)
        ensures
            match r {
                Some(wt) => wt.code() == code,
                None => code != 0 && code != 1 && code != 2 && code != 5,
            },
    {
        if code == 0 {
            Some(WireType::Varint)
        } else if code == 1 {
            Some(WireType::Fixed64)
        } else if code == 2 {
            Some(WireType::LengthDelimited)
        } else if code == 5 {
            Some(WireType::Fixed32)
        } else {
            None
        }
    }
}

// ---------------------------------------------------------------------------
// Variable-length integers (7 payload bits per byte, little-endian groups,
// continuation bit in the high bit).
// ---------------------------------------------------------------------------

/// The canonical varint encoding of `n`: base-128 digits, least significant
/// first, every byte but the last carrying the continuation bit.
pub open spec fn varint_bytes(n: u64) -> Seq<u8>
    decreases n,
{
    if n < 128 {
        seq![n as u8]
    } else {
        seq![(128 + (n % 128)) as u8] + varint_bytes(n / 128)
    }
}

/// Powers of 128, the positional weight of each varint byte.
pub open spec fn pow128(i: nat) -> nat
    decreases i,
{
    if i == 0 {
        1
    } else {
        128 * pow128((i - 1) as nat)
    }
}

/// The integer denoted by a run of varint bytes (payload bits only; the
/// continuation bits are ignored).
pub open spec fn varint_int(s: Seq<u8>) -> int
    decreases s.len(),
{
    if s.len() == 0 {
        0
    } else {
        (s[0] % 128) + 128 * varint_int(s.skip(1))
    }
}

/// `data` carries, starting at `pos`, `j` continuation bytes followed by one
/// terminating byte (high bit clear) at offset `j`.
pub open spec fn varint_term_at(data: Seq<u8>, pos: int, j: int) -> bool {
    &&& 0 <= j
    &&& pos + j < data.len()
    &&& data[pos + j] < 128
    &&& forall|k: int| 0 <= k < j ==> #[trigger] data[pos + k] >= 128
}

proof fn lemma_varint_int_snoc(s: Seq<u8>, b: u8)
    ensures
        varint_int(s.push(b)) == varint_int(s) + (b % 128) * pow128(s.len()),
    decreases s.len(),
{
    if s.len() == 0 {
        assert(s.push(b).len() == 1);
        assert(s.push(b)[0] == b);
        assert(s.push(b).skip(1) =~= Seq::<u8>::empty());
        assert(varint_int(s.push(b)) == (b % 128) + 128 * varint_int(Seq::<u8>::empty()));
        assert(pow128(0) == 1);
    } else {
        assert(s.push(b).skip(1) =~= s.skip(1).push(b));
        lemma_varint_int_snoc(s.skip(1), b);
        assert(s.push(b)[0] == s[0]);
        let a = varint_int(s.skip(1));
        let c = (b % 128) as int;
        let p = pow128((s.len() - 1) as nat) as int;
        assert(s.skip(1).len() == s.len() - 1);
        assert(varint_int(s.skip(1).push(b)) == a + c * p);
        assert(varint_int(s.push(b)) == (s[0] % 128) + 128 * (a + c * p));
        assert(128 * (a + c * p) == 128 * a + c * (128 * p)) by (nonlinear_arith);
        assert(pow128(s.len()) == 128 * pow128((s.len() - 1) as nat));
    }
}

/// The canonical encoding of `n` denotes `n`, is 1 to 10 bytes long, has the
/// continuation bit on every byte but the last, its most significant digit is
/// `n` shifted down by the preceding digits, and it reaches 10 bytes only
/// with a final byte of 1.
pub proof fn lemma_varint_bytes_wf(n: u64)
    ensures
        varint_int(varint_bytes(n)) == n,
        1 <= varint_bytes(n).len() <= 10,
        varint_bytes(n).last() < 128,
        forall|k: int| 0 <= k < varint_bytes(n).len() - 1 ==> varint_bytes(n)[k] >= 128,
        varint_bytes(n).last() == n as int / pow128((varint_bytes(n).len() - 1) as nat) as int,
        varint_bytes(n).len() >= 2 ==> varint_bytes(n).last() >= 1,
        varint_bytes(n).len() == 10 ==> varint_bytes(n).last() == 1,
        n < 128 <==> varint_bytes(n).len() == 1,
    decreases n,
{
    lemma_pow128_10();
    if n < 128 {
        assert(varint_bytes(n) =~= seq![n as u8]);
        assert(varint_bytes(n).skip(1) =~= Seq::<u8>::empty());
        assert(varint_int(varint_bytes(n)) == (n as u8 % 128) + 128 * varint_int(
            Seq::<u8>::empty(),
        ));
        assert(pow128(0) == 1);
        assert(varint_bytes(n).last() == n as int / 1int);
    } else {
        lemma_varint_bytes_wf(n / 128);
        let s = varint_bytes(n);
        let rest = varint_bytes(n / 128);
        assert(s =~= seq![(128 + (n % 128)) as u8] + rest);
        assert(s.skip(1) =~= rest);
        assert(s[0] == 128 + (n % 128));
        assert(s[0] % 128 == n % 128);
        assert(varint_int(s) == (s[0] % 128) + 128 * varint_int(s.skip(1)));
        assert(varint_int(s.skip(1)) == varint_int(rest));
        assert(varint_int(rest) == n / 128);
        assert(varint_int(s) == (n % 128) + 128 * ((n / 128) as int));
        vstd::arithmetic::div_mod::lemma_fundamental_div_mod(n as int, 128);
        assert(varint_int(s) == n);
        // The most significant digit of n is the most significant digit of
        // n / 128, shifted one place: (n / 128) / 128^(k-1) == n / 128^k.
        let k = (rest.len() - 1) as nat;
        lemma_pow128_pos(k);
        vstd::arithmetic::div_mod::lemma_div_denominator(n as int, 128, pow128(k) as int);
        assert(s.last() == rest.last());
        assert(rest.last() == (n / 128) as int / pow128(k) as int);
        assert(pow128((s.len() - 1) as nat) == 128 * pow128(k));
        // Length: n / 128 < 128^9, so rest has at most 9 digits.
        lemma_varint_len_le(n / 128, 9);
        if rest.len() == 1 {
            assert(rest.last() == n / 128);
            assert(n / 128 >= 1);
        }
        if s.len() == 10 {
            // The tenth digit of a 64-bit value is exactly 1.
            assert(s.last() == n as int / pow128(9) as int);
            assert(pow128(9) == 0x8000000000000000);
            assert(n as int / 0x8000000000000000int <= 1);
            assert(s.last() >= 1);
        }
    }
}

proof fn lemma_pow128_10()
    ensures
        pow128(9) == 0x8000000000000000,
        pow128(8) == 0x100000000000000,
{
    assert(pow128(0) == 1);
    assert(pow128(1) == 128);
    assert(pow128(2) == 0x4000);
    assert(pow128(3) == 0x200000);
    assert(pow128(4) == 0x10000000);
    assert(pow128(5) == 0x800000000);
    assert(pow128(6) == 0x40000000000);
    assert(pow128(7) == 0x2000000000000);
    assert(pow128(8) == 0x100000000000000);
    assert(pow128(9) == 0x8000000000000000);
}

proof fn lemma_pow128_pos(i: nat)
    ensures
        pow128(i) >= 1,
    decreases i,
{
    if i > 0 {
        lemma_pow128_pos((i - 1) as nat);
    }
}

/// A value below `128^i` encodes in at most `i` bytes.
proof fn lemma_varint_len_le(n: u64, i: nat)
    requires
        i >= 1,
        n < pow128(i),
    ensures
        varint_bytes(n).len() <= i,
    decreases i,
{
    if n < 128 {
    } else {
        lemma_pow128_pos((i - 1) as nat);
        assert(n / 128 < pow128((i - 1) as nat)) by (nonlinear_arith)
            requires
                n >= 128 && n < 128 * pow128((i - 1) as nat) && pow128((i - 1) as nat) >= 1,
        ;
        lemma_varint_len_le(n / 128, (i - 1) as nat);
        assert(varint_bytes(n) =~= seq![(128 + (n % 128)) as u8] + varint_bytes(n / 128));
    }
}

/// Appends the varint encoding of `n` to `buf`.
pub fn encode_varint(n: u64, buf: &mut Vec<u8>)
    ensures
        final(buf)@ == old(buf)@ + varint_bytes(n),
{
    let ghost start = buf@;
    let mut x: u64 = n;
    while x >= 128
        invariant
            start + varint_bytes(n) == buf@ + varint_bytes(x),
        decreases x,
    {
        buf.push((128 + (x % 128) as u8) as u8);
        proof {
            assert(varint_bytes(x) =~= seq![(128 + (x % 128)) as u8] + varint_bytes(x / 128));
            assert(start + varint_bytes(n) =~= buf@ + varint_bytes(x / 128));
        }
        x = x / 128;
    }
    buf.push(x as u8);
    proof {
        assert(varint_bytes(x) =~= seq![x as u8]);
        assert(buf@ =~= start + varint_bytes(n));
    }
}

/// Returns the number of bytes `encode_varint` would append for `n`.
pub fn encoded_len_varint(n: u64) -> (r: usize)
    ensures
        r == varint_bytes(n).len(),
        1 <= r <= 10,
{
    proof {
        lemma_varint_bytes_wf(n);
    }
    let mut x: u64 = n;
    let mut len: usize = 1;
    while x >= 128
        invariant
            1 <= len,
            len + varint_bytes(x).len() == 1 + varint_bytes(n).len(),
            varint_bytes(n).len() <= 10,
        decreases x,
    {
        proof {
            assert(varint_bytes(x) =~= seq![(128 + (x % 128)) as u8] + varint_bytes(x / 128));
        }
        x = x / 128;
        len = len + 1;
    }
    len
}

/// Reads one varint at `pos`.
///
/// Fails with `Truncated` when the buffer ends before a terminating byte,
/// and with `VarintOverflow` when ten bytes pass without termination or the
/// tenth byte carries payload bits beyond the 64-bit range.
pub fn decode_varint(data: &[u8], pos: usize) -> (r: Result<(u64, usize), DecodeError>)
    requires
        pos <= data@.len(),
    ensures
        match r {
            Ok((n, end)) => {
                &&& pos < end <= data@.len()
                &&& end - pos <= 10
                &&& varint_term_at(data@, pos as int, end - pos - 1)
                &&& (end - pos == 10 ==> data@[pos + 9] <= 1)
                &&& n == varint_int(data@.subrange(pos as int, end as int))
            },
            Err(DecodeError::Truncated) => {
                &&& data@.len() - pos < 10
                &&& forall|k: int|
                    pos <= k < data@.len() ==> #[trigger] data@[k] >= 128
            },
            Err(DecodeError::VarintOverflow) => {
                ||| (forall|k: int|
                    pos <= k < pos + 10 ==> k < data@.len() && #[trigger] data@[k] >= 128)
                ||| (varint_term_at(data@, pos as int, 9) && data@[pos + 9] > 1)
            },
            Err(_) => false,
        },
{
    let len = data.len();
    let mut value: u64 = 0;
    let mut mult: u64 = 1;
    let mut i: usize = 0;
    proof {
        lemma_pow128_10();
        assert(data@.subrange(pos as int, pos as int) =~= Seq::<u8>::empty());
    }
    while i < 10
        invariant
            pos <= len == data@.len(),
            0 <= i <= 9,
            pos + i <= len,
            mult == pow128(i as nat),
            value == varint_int(data@.subrange(pos as int, pos + i)),
            value < pow128(i as nat),
            pow128(9) == 0x8000000000000000,
            forall|k: int| pos <= k < pos + i ==> #[trigger] data@[k] >= 128,
        decreases 10 - i,
    {
        if i >= len - pos {
            return Err(DecodeError::Truncated);
        }
        let b = data[pos + i];
        proof {
            lemma_pow128_pos(i as nat);
            assert(data@.subrange(pos as int, pos + i + 1) =~= data@.subrange(
                pos as int,
                pos + i,
            ).push(b));
            lemma_varint_int_snoc(data@.subrange(pos as int, pos + i), b);
        }
        if b < 128 {
            if i == 9 && b > 1 {
                return Err(DecodeError::VarintOverflow);
            }
            proof {
                if i < 9 {
                    assert(value + (b as int) * (mult as int) < 128 * pow128(i as nat))
                        by (nonlinear_arith)
                        requires
                            value < pow128(i as nat) && (b as int) < 128 && mult == pow128(
                                i as nat,
                            ) && pow128(i as nat) >= 1,
                    ;
                    assert(128 * pow128(i as nat) == pow128((i + 1) as nat));
                    lemma_pow128_le((i + 1) as nat, 9nat);
                } else {
                    assert(b == 0 || b == 1);
                    assert((b as int) * (mult as int) == if b == 0 {
                        0int
                    } else {
                        mult as int
                    });
                    assert(value + (b as int) * (mult as int) <= 0x7fffffffffffffff
                        + 0x8000000000000000);
                }
            }
            let result = value + (b as u64) * mult;
            return Ok((result, pos + i + 1));
        }
        if i == 9 {
            return Err(DecodeError::VarintOverflow);
        }
        proof {
            assert(value + ((b - 128) as int) * (mult as int) < 128 * pow128(i as nat))
                by (nonlinear_arith)
                requires
                    value < pow128(i as nat) && ((b - 128) as int) < 128 && mult == pow128(
                        i as nat,
                    ) && pow128(i as nat) >= 1,
            ;
            assert(128 * pow128(i as nat) == pow128((i + 1) as nat));
            lemma_pow128_le((i + 1) as nat, 9nat);
        }
        value = value + ((b - 128) as u64) * mult;
        mult = mult * 128;
        i = i + 1;
    }
    proof {
        assert(false);
    }
    Err(DecodeError::VarintOverflow)
}

proof fn lemma_pow128_le(i: nat, j: nat)
    requires
        i <= j,
    ensures
        pow128(i) <= pow128(j),
    decreases j,
{
    if i < j {
        lemma_pow128_le(i, (j - 1) as nat);
        lemma_pow128_pos((j - 1) as nat);
    }
}

// ---------------------------------------------------------------------------
// Zigzag transforms and two's-complement casts.
// ---------------------------------------------------------------------------

/// The zigzag image of a signed 64-bit value: non-negative `n` maps to `2n`,
/// negative `n` to `2|n| - 1`, so small magnitudes stay short under varint
/// encoding.
pub open spec fn zigzag64(n: i64) -> u64 {
    if n >= 0 {
        (2 * (n as int)) as u64
    } else {
        (-2 * (n as int) - 1) as u64
    }
}

/// The inverse of `zigzag64`.
pub open spec fn unzigzag64(z: u64) -> i64 {
    if z % 2 == 0 {
        ((z as int) / 2) as i64
    } else {
        (-((z as int) + 1) / 2) as i64
    }
}

/// The zigzag image of a signed 32-bit value.
pub open spec fn zigzag32(n: i32) -> u32 {
    if n >= 0 {
        (2 * (n as int)) as u32
    } else {
        (-2 * (n as int) - 1) as u32
    }
}

/// The inverse of `zigzag32`.
pub open spec fn unzigzag32(z: u32) -> i32 {
    if z % 2 == 0 {
        ((z as int) / 2) as i32
    } else {
        (-((z as int) + 1) / 2) as i32
    }
}

/// Applies the zigzag transform to a signed 64-bit value.
pub fn zigzag_encode64(n: i64) -> (r: u64)
    ensures
        r == zigzag64(n),
{
    if n >= 0 {
        (n as u64) * 2
    } else {
        ((-(n + 1)) as u64) * 2 + 1
    }
}

/// Undoes the zigzag transform on a 64-bit wire value.
pub fn zigzag_decode64(z: u64) -> (r: i64)
    ensures
        r == unzigzag64(z),
{
    if z % 2 == 0 {
        (z / 2) as i64
    } else {
        -((z / 2) as i64) - 1
    }
}

/// Applies the zigzag transform to a signed 32-bit value.
pub fn zigzag_encode32(n: i32) -> (r: u32)
    ensures
        r == zigzag32(n),
{
    if n >= 0 {
        (n as u32) * 2
    } else {
        ((-(n + 1)) as u32) * 2 + 1
    }
}

/// Undoes the zigzag transform on a 32-bit wire value.
pub fn zigzag_decode32(z: u32) -> (r: i32)
    ensures
        r == unzigzag32(z),
{
    if z % 2 == 0 {
        (z / 2) as i32
    } else {
        -((z / 2) as i32) - 1
    }
}

/// The zigzag transform is a bijection: decoding an encoded value returns it,
/// for every `i64` including the extremes.
pub proof fn lemma_zigzag64_round_trip(n: i64)
    ensures
        unzigzag64(zigzag64(n)) == n,
{
}

/// The 32-bit zigzag transform is a bijection as well.
pub proof fn lemma_zigzag32_round_trip(n: i32)
    ensures
        unzigzag32(zigzag32(n)) == n,
{
}

/// The unsigned 64-bit reading of a signed value's two's-complement bits.
pub open spec fn sext64(n: i64) -> u64 {
    if n >= 0 {
        n as u64
    } else {
        ((n as int) + 0x10000000000000000) as u64
    }
}

/// The signed reading of an unsigned 64-bit value's bits.
pub open spec fn as_i64(u: u64) -> i64 {
    if u <= 0x7fffffffffffffff {
        u as i64
    } else {
        ((u as int) - 0x10000000000000000) as i64
    }
}

/// The signed reading of the low 32 bits of an unsigned 64-bit value.
pub open spec fn as_i32(u: u64) -> i32 {
    if u % 0x100000000 < 0x80000000 {
        (u % 0x100000000) as i32
    } else {
        ((u % 0x100000000) - 0x100000000) as i32
    }
}

/// Reinterprets a signed 64-bit value as its two's-complement bits.
pub fn encode_sext64(n: i64) -> (r: u64)
    ensures
        r == sext64(n),
{
    if n >= 0 {
        n as u64
    } else {
        0xffffffffffffffff - ((-(n + 1)) as u64)
    }
}

/// Reinterprets an unsigned 64-bit value as a signed one.
pub fn decode_as_i64(u: u64) -> (r: i64)
    ensures
        r == as_i64(u),
{
    if u <= 0x7fffffffffffffff {
        u as i64
    } else {
        -(((0xffffffffffffffffu64 - u) as u64) as i64) - 1
    }
}

/// Takes the low 32 bits of a wire value and reads them as signed.
pub fn decode_as_i32(u: u64) -> (r: i32)
    ensures
        r == as_i32(u),
{
    let low = u % 0x100000000;
    if low < 0x80000000 {
        low as i32
    } else {
        -(((0xffffffffu64 - low) as u64) as i32) - 1
    }
}

/// Sign extension and truncation cancel for 64-bit values.
pub proof fn lemma_sext64_round_trip(n: i64)
    ensures
        as_i64(sext64(n)) == n,
{
}

/// A signed 32-bit value survives sign extension to 64 bits and truncation
/// back.
pub proof fn lemma_sext32_round_trip(n: i32)
    ensures
        as_i32(sext64(n as i64)) == n,
{
}

// ---------------------------------------------------------------------------
// Fixed-width little-endian values.
// ---------------------------------------------------------------------------

/// The four little-endian bytes of a 32-bit value.
pub open spec fn le4_bytes(n: u32) -> Seq<u8> {
    seq![
        (n % 256) as u8,
        ((n / 0x100) % 256) as u8,
        ((n / 0x10000) % 256) as u8,
        ((n / 0x1000000) % 256) as u8,
    ]
}

/// The eight little-endian bytes of a 64-bit value.
pub open spec fn le8_bytes(n: u64) -> Seq<u8> {
    seq![
        (n % 256) as u8,
        ((n / 0x100) % 256) as u8,
        ((n / 0x10000) % 256) as u8,
        ((n / 0x1000000) % 256) as u8,
        ((n / 0x100000000) % 256) as u8,
        ((n / 0x10000000000) % 256) as u8,
        ((n / 0x1000000000000) % 256) as u8,
        ((n / 0x100000000000000) % 256) as u8,
    ]
}

/// The 32-bit value denoted by four little-endian bytes.
pub open spec fn le4_value(s: Seq<u8>) -> u32
    recommends
        s.len() == 4,
{
    (s[0] + s[1] * 0x100 + s[2] * 0x10000 + s[3] * 0x1000000) as u32
}

/// The 64-bit value denoted by eight little-endian bytes.
pub open spec fn le8_value(s: Seq<u8>) -> u64
    recommends
        s.len() == 8,
{
    (s[0] + s[1] * 0x100 + s[2] * 0x10000 + s[3] * 0x1000000 + s[4] * 0x100000000 + s[5]
        * 0x10000000000 + s[6] * 0x1000000000000 + s[7] * 0x100000000000000) as u64
}

/// Reading back the little-endian bytes of a value returns the value.
pub proof fn lemma_le4_round_trip(n: u32)
    ensures
        le4_value(le4_bytes(n)) == n,
{
    let ni = n as int;
    vstd::arithmetic::div_mod::lemma_fundamental_div_mod(ni, 0x100);
    vstd::arithmetic::div_mod::lemma_fundamental_div_mod(ni / 0x100, 0x100);
    vstd::arithmetic::div_mod::lemma_fundamental_div_mod(ni / 0x10000, 0x100);
    vstd::arithmetic::div_mod::lemma_div_denominator(ni, 0x100, 0x100);
    vstd::arithmetic::div_mod::lemma_div_denominator(ni, 0x10000, 0x100);
    assert(ni / 0x1000000 < 0x100);
}

/// Reading back the little-endian bytes of a 64-bit value returns the value.
pub proof fn lemma_le8_round_trip(n: u64)
    ensures
        le8_value(le8_bytes(n)) == n,
{
    let ni = n as int;
    vstd::arithmetic::div_mod::lemma_fundamental_div_mod(ni, 0x100);
    vstd::arithmetic::div_mod::lemma_fundamental_div_mod(ni / 0x100, 0x100);
    vstd::arithmetic::div_mod::lemma_fundamental_div_mod(ni / 0x10000, 0x100);
    vstd::arithmetic::div_mod::lemma_fundamental_div_mod(ni / 0x1000000, 0x100);
    vstd::arithmetic::div_mod::lemma_fundamental_div_mod(ni / 0x100000000, 0x100);
    vstd::arithmetic::div_mod::lemma_fundamental_div_mod(ni / 0x10000000000, 0x100);
    vstd::arithmetic::div_mod::lemma_fundamental_div_mod(ni / 0x1000000000000, 0x100);
    vstd::arithmetic::div_mod::lemma_div_denominator(ni, 0x100, 0x100);
    vstd::arithmetic::div_mod::lemma_div_denominator(ni, 0x10000, 0x100);
    vstd::arithmetic::div_mod::lemma_div_denominator(ni, 0x1000000, 0x100);
    vstd::arithmetic::div_mod::lemma_div_denominator(ni, 0x100000000, 0x100);
    vstd::arithmetic::div_mod::lemma_div_denominator(ni, 0x10000000000, 0x100);
    vstd::arithmetic::div_mod::lemma_div_denominator(ni, 0x1000000000000, 0x100);
    assert(ni / 0x100000000000000 < 0x100);
}

/// Appends the four little-endian bytes of `n`.
pub fn encode_fixed32(n: u32, buf: &mut Vec<u8>)
    ensures
        final(buf)@ == old(buf)@ + le4_bytes(n),
{
    buf.push((n % 256) as u8);
    buf.push(((n / 0x100) % 256) as u8);
    buf.push(((n / 0x10000) % 256) as u8);
    buf.push(((n / 0x1000000) % 256) as u8);
    proof {
        assert(buf@ =~= old(buf)@ + le4_bytes(n));
    }
}

/// Appends the eight little-endian bytes of `n`.
pub fn encode_fixed64(n: u64, buf: &mut Vec<u8>)
    ensures
        final(buf)@ == old(buf)@ + le8_bytes(n),
{
    buf.push((n % 256) as u8);
    buf.push(((n / 0x100) % 256) as u8);
    buf.push(((n / 0x10000) % 256) as u8);
    buf.push(((n / 0x1000000) % 256) as u8);
    buf.push(((n / 0x100000000) % 256) as u8);
    buf.push(((n / 0x10000000000) % 256) as u8);
    buf.push(((n / 0x1000000000000) % 256) as u8);
    buf.push(((n / 0x100000000000000) % 256) as u8);
    proof {
        assert(buf@ =~= old(buf)@ + le8_bytes(n));
    }
}

/// Reads four little-endian bytes at `pos`; fails with `Truncated` when
/// fewer than four remain.
pub fn decode_fixed32(data: &[u8], pos: usize) -> (r: Result<(u32, usize), DecodeError>)
    requires
        pos <= data@.len(),
    ensures
        match r {
            Ok((n, end)) => {
                &&& end == pos + 4 <= data@.len()
                &&& n == le4_value(data@.subrange(pos as int, pos + 4))
            },
            Err(DecodeError::Truncated) => data@.len() - pos < 4,
            Err(_) => false,
        },
{
    if data.len() - pos < 4 {
        return Err(DecodeError::Truncated);
    }
    let b0 = data[pos] as u32;
    let b1 = data[pos + 1] as u32;
    let b2 = data[pos + 2] as u32;
    let b3 = data[pos + 3] as u32;
    let n = b0 + b1 * 0x100 + b2 * 0x10000 + b3 * 0x1000000;
    proof {
        let s = data@.subrange(pos as int, pos + 4);
        assert(s[0] == data@[pos as int] && s[1] == data@[pos + 1] && s[2] == data@[pos + 2]
            && s[3] == data@[pos + 3]);
    }
    Ok((n, pos + 4))
}

/// Reads eight little-endian bytes at `pos`; fails with `Truncated` when
/// fewer than eight remain.
pub fn decode_fixed64(data: &[u8], pos: usize) -> (r: Result<(u64, usize), DecodeError>)
    requires
        pos <= data@.len(),
    ensures
        match r {
            Ok((n, end)) => {
                &&& end == pos + 8 <= data@.len()
                &&& n == le8_value(data@.subrange(pos as int, pos + 8))
            },
            Err(DecodeError::Truncated) => data@.len() - pos < 8,
            Err(_) => false,
        },
{
    if data.len() - pos < 8 {
        return Err(DecodeError::Truncated);
    }
    let b0 = data[pos] as u64;
    let b1 = data[pos + 1] as u64;
    let b2 = data[pos + 2] as u64;
    let b3 = data[pos + 3] as u64;
    let b4 = data[pos + 4] as u64;
    let b5 = data[pos + 5] as u64;
    let b6 = data[pos + 6] as u64;
    let b7 = data[pos + 7] as u64;
    let n = b0 + b1 * 0x100 + b2 * 0x10000 + b3 * 0x1000000 + b4 * 0x100000000 + b5 * 0x10000000000
        + b6 * 0x1000000000000 + b7 * 0x100000000000000;
    proof {
        let s = data@.subrange(pos as int, pos + 8);
        assert(s[0] == data@[pos as int] && s[1] == data@[pos + 1] && s[2] == data@[pos + 2]
            && s[3] == data@[pos + 3] && s[4] == data@[pos + 4] && s[5] == data@[pos + 5] && s[6]
            == data@[pos + 6] && s[7] == data@[pos + 7]);
    }
    Ok((n, pos + 8))
}

// ---------------------------------------------------------------------------
// Tags: field number and wire type packed into one varint.
// ---------------------------------------------------------------------------

/// The greatest legal field number: tags occupy 29 bits above the 3-bit wire
/// type.
pub const MAX_TAG: u32 = 0x1fffffff;

/// The packed numeric form of a tag: field number shifted past the wire-type
/// code.
pub open spec fn tag_value(tag: u32, wt: WireType) -> u64 {
    ((tag as int) * 8 + wt.code() as int) as u64
}

/// The bytes of an encoded tag.
pub open spec fn tag_bytes(tag: u32, wt: WireType) -> Seq<u8> {
    varint_bytes(tag_value(tag, wt))
}

/// Appends the tag for field number `tag` with wire type `wt`.
pub fn encode_tag(tag: u32, wt: WireType, buf: &mut Vec<u8>)
    ensures
        final(buf)@ == old(buf)@ + tag_bytes(tag, wt),
{
    encode_varint((tag as u64) * 8 + wt.to_code() as u64, buf);
}

/// Returns the number of bytes an encoded tag occupies.
pub fn encoded_len_tag(tag: u32, wt: WireType) -> (r: usize)
    ensures
        r == tag_bytes(tag, wt).len(),
{
    encoded_len_varint((tag as u64) * 8 + wt.to_code() as u64)
}

/// Reads one tag at `pos`, returning the field number and wire type.
///
/// A wire-type code that names no supported wire type, a field number of
/// zero and a field number beyond the 29-bit range are all reported as
/// `UnexpectedWireType`.
pub fn decode_tag(data: &[u8], pos: usize) -> (r: Result<((u32, WireType), usize), DecodeError>)
    requires
        pos <= data@.len(),
    ensures
        match r {
            Ok(((tag, wt), end)) => {
                &&& pos < end <= data@.len()
                &&& end - pos <= 10
                &&& varint_term_at(data@, pos as int, end - pos - 1)
                &&& (end - pos == 10 ==> data@[pos + 9] <= 1)
                &&& 1 <= tag <= MAX_TAG
                &&& tag_value(tag, wt) == varint_int(
                    data@.subrange(pos as int, end as int),
                )
            },
            Err(DecodeError::UnexpectedWireType) => exists|end: int|
                {
                    &&& pos < end <= data@.len()
                    &&& end - pos <= 10
                    &&& #[trigger] varint_term_at(data@, pos as int, end - pos - 1)
                    &&& (end - pos == 10 ==> data@[pos + 9] <= 1)
                    &&& {
                        let v = varint_int(data@.subrange(pos as int, end));
                        ||| (v % 8 != 0 && v % 8 != 1 && v % 8 != 2 && v % 8 != 5)
                        ||| v / 8 == 0
                        ||| v / 8 > MAX_TAG
                    }
                },
            Err(e) => decode_varint_err_spec(data@, pos as int, e),
        },
{
    let (v, end) = match decode_varint(data, pos) {
        Ok(x) => x,
        Err(e) => {
            return Err(e);
        },
    };
    let code = v % 8;
    let field = v / 8;
    let wt = match WireType::from_code(code) {
        Some(wt) => wt,
        None => {
            proof {
                assert(varint_term_at(data@, pos as int, end - pos - 1));
            }
            return Err(DecodeError::UnexpectedWireType);
        },
    };
    if field == 0 || field > MAX_TAG as u64 {
        proof {
            assert(varint_term_at(data@, pos as int, end - pos - 1));
        }
        return Err(DecodeError::UnexpectedWireType);
    }
    proof {
        vstd::arithmetic::div_mod::lemma_fundamental_div_mod(v as int, 8);
    }
    Ok(((field as u32, wt), end))
}

/// The exact failure cases of `decode_varint`, shared by the contracts of
/// the decoders that read a varint first.
pub open spec fn decode_varint_err_spec(data: Seq<u8>, pos: int, e: DecodeError) -> bool {
    match e {
        DecodeError::Truncated => {
            &&& data.len() - pos < 10
            &&& forall|k: int| pos <= k < data.len() ==> #[trigger] data[k] >= 128
        },
        DecodeError::VarintOverflow => {
            ||| (forall|k: int| pos <= k < pos + 10 ==> k < data.len() && #[trigger] data[k] >= 128)
            ||| (varint_term_at(data, pos, 9) && data[pos + 9] > 1)
        },
        _ => false,
    }
}

/// A varint denotation is bounded by the positional weight of its length.
pub proof fn lemma_varint_int_range(s: Seq<u8>)
    ensures
        0 <= varint_int(s) < pow128(s.len()),
    decreases s.len(),
{
    if s.len() == 0 {
        assert(pow128(0) == 1);
    } else {
        lemma_varint_int_range(s.skip(1));
        assert(s.skip(1).len() == s.len() - 1);
        assert(pow128(s.len()) == 128 * pow128((s.len() - 1) as nat));
    }
}

/// A varint of at most ten bytes whose tenth byte is at most 1 denotes a
/// 64-bit value.
pub proof fn lemma_varint_int_bound(s: Seq<u8>)
    requires
        s.len() <= 10,
        s.len() == 10 ==> s[9] <= 1,
    ensures
        0 <= varint_int(s) <= 0xffffffffffffffff,
{
    lemma_pow128_10();
    if s.len() < 10 {
        lemma_varint_int_range(s);
        lemma_pow128_le(s.len(), 9nat);
    } else {
        let t = s.take(9);
        assert(s =~= t.push(s[9]));
        lemma_varint_int_snoc(t, s[9]);
        lemma_varint_int_range(t);
        assert(pow128(t.len()) == 0x8000000000000000);
        assert((s[9] % 128) * pow128(9) <= 1 * pow128(9)) by (nonlinear_arith)
            requires
                s[9] <= 1,
        ;
    }
}

/// The functional mirror of varint decoding: scanning from offset `j`, the
/// offset one past the terminating byte of the varint at the start of `s`,
/// or the exact error. Ten continuation bytes, or payload bits beyond the
/// 64-bit range in the tenth byte, are an overflow; running out of bytes
/// first is a truncation.
pub open spec fn varint_prefix(s: Seq<u8>, j: int) -> Result<int, DecodeError>
    decreases 10 - j,
{
    if j >= 10 {
        Err(DecodeError::VarintOverflow)
    } else if j >= s.len() {
        Err(DecodeError::Truncated)
    } else if s[j] < 128 {
        if j == 9 && s[j] > 1 {
            Err(DecodeError::VarintOverflow)
        } else {
            Ok(j + 1)
        }
    } else {
        varint_prefix(s, j + 1)
    }
}

/// The value of a varint prefix fits in 64 bits, and its length is bounded.
pub proof fn lemma_varint_prefix_ok(s: Seq<u8>, j: int)
    requires
        0 <= j <= 10,
    ensures
        match varint_prefix(s, j) {
            Ok(l) => {
                &&& j < l <= 10
                &&& l <= s.len()
                &&& s[l - 1] < 128
                &&& (forall|k: int| j <= k < l - 1 ==> #[trigger] s[k] >= 128)
                &&& (l == 10 ==> s[9] <= 1)
            },
            Err(_) => true,
        },
    decreases 10 - j,
{
    if j < 10 && j < s.len() && s[j] >= 128 {
        lemma_varint_prefix_ok(s, j + 1);
    }
}

/// `decode_varint` at `pos` agrees exactly with the functional prefix spec
/// applied to the bytes from `pos` on: same success offset, same value, same
/// error.
pub proof fn lemma_varint_prefix_bridge(data: Seq<u8>, pos: int, r: Result<(u64, int), DecodeError>)
    requires
        0 <= pos <= data.len(),
        match r {
            Ok((n, end)) => {
                &&& pos < end <= data.len()
                &&& end - pos <= 10
                &&& varint_term_at(data, pos, end - pos - 1)
                &&& (end - pos == 10 ==> data[pos + 9] <= 1)
                &&& n == varint_int(data.subrange(pos, end))
            },
            Err(DecodeError::Truncated) => {
                &&& data.len() - pos < 10
                &&& forall|k: int| pos <= k < data.len() ==> #[trigger] data[k] >= 128
            },
            Err(DecodeError::VarintOverflow) => {
                ||| (forall|k: int| pos <= k < pos + 10 ==> k < data.len() && #[trigger] data[k] >= 128)
                ||| (varint_term_at(data, pos, 9) && data[pos + 9] > 1)
            },
            Err(_) => false,
        },
    ensures
        match r {
            Ok((n, end)) => varint_prefix(data.skip(pos), 0) == Ok::<int, DecodeError>(end - pos)
                && n == varint_int(data.skip(pos).take(end - pos)),
            Err(e) => varint_prefix(data.skip(pos), 0) == Err::<int, DecodeError>(e),
        },
{
    let s = data.skip(pos);
    assert forall|k: int| 0 <= k < s.len() implies s[k] == data[pos + k] by {}
    match r {
        Ok((n, end)) => {
            let l = end - pos;
            lemma_varint_prefix_scan_ok(s, 0, l);
            assert(s.take(l) =~= data.subrange(pos, end));
        },
        Err(DecodeError::Truncated) => {
            lemma_varint_prefix_scan_trunc(s, 0);
        },
        Err(DecodeError::VarintOverflow) => {
            if forall|k: int| pos <= k < pos + 10 ==> k < data.len() && #[trigger] data[k]
                >= 128 {
                assert(pos + 9 < data.len());
                assert forall|k: int| 0 <= k < 10 implies #[trigger] s[k] >= 128 by {
                    assert(data[pos + k] >= 128);
                }
                lemma_varint_prefix_scan_over10(s, 0);
            } else {
                assert(varint_term_at(data, pos, 9) && data[pos + 9] > 1);
                assert forall|k: int| 0 <= k < 9 implies #[trigger] s[k] >= 128 by {
                    assert(data[pos + k] >= 128);
                }
                lemma_varint_prefix_scan_over9(s, 0);
            }
        },
        Err(_) => {},
    }
}

/// Scanning a short all-continuation run ends in `Truncated`.
proof fn lemma_varint_prefix_scan_trunc(s: Seq<u8>, j: int)
    requires
        0 <= j <= s.len(),
        s.len() < 10,
        forall|k: int| j <= k < s.len() ==> #[trigger] s[k] >= 128,
    ensures
        varint_prefix(s, j) == Err::<int, DecodeError>(DecodeError::Truncated),
    decreases 10 - j,
{
    if j < s.len() {
        lemma_varint_prefix_scan_trunc(s, j + 1);
    }
}

/// Scanning ten continuation bytes ends in `VarintOverflow`.
proof fn lemma_varint_prefix_scan_over10(s: Seq<u8>, j: int)
    requires
        0 <= j <= 10,
        s.len() >= 10,
        forall|k: int| j <= k < 10 ==> #[trigger] s[k] >= 128,
    ensures
        varint_prefix(s, j) == Err::<int, DecodeError>(DecodeError::VarintOverflow),
    decreases 10 - j,
{
    if j < 10 {
        lemma_varint_prefix_scan_over10(s, j + 1);
    }
}

/// A tenth byte with payload bits beyond the 64-bit range ends in
/// `VarintOverflow`.
proof fn lemma_varint_prefix_scan_over9(s: Seq<u8>, j: int)
    requires
        0 <= j <= 9,
        s.len() > 9,
        forall|k: int| j <= k < 9 ==> #[trigger] s[k] >= 128,
        s[9] < 128,
        s[9] > 1,
    ensures
        varint_prefix(s, j) == Err::<int, DecodeError>(DecodeError::VarintOverflow),
    decreases 9 - j,
{
    if j < 9 {
        lemma_varint_prefix_scan_over9(s, j + 1);
    }
}

/// Scanning reaches the first terminator.
proof fn lemma_varint_prefix_scan_ok(s: Seq<u8>, j: int, l: int)
    requires
        0 <= j < l <= 10,
        l <= s.len(),
        s[l - 1] < 128,
        forall|k: int| 0 <= k < l - 1 ==> #[trigger] s[k] >= 128,
        l == 10 ==> s[9] <= 1,
    ensures
        varint_prefix(s, j) == Ok::<int, DecodeError>(l),
    decreases 10 - j,
{
    if j < l - 1 {
        lemma_varint_prefix_scan_ok(s, j + 1, l);
    }
}

/// The functional mirror of tag decoding at the start of `s`: the field
/// number, the wire type and the bytes consumed, or the exact error.
pub open spec fn tag_prefix(s: Seq<u8>) -> Result<((u32, WireType), int), DecodeError> {
    match varint_prefix(s, 0) {
        Ok(l) => {
            let v = varint_int(s.take(l));
            let fieldno = v / 8;
            if v % 8 != 0 && v % 8 != 1 && v % 8 != 2 && v % 8 != 5 {
                Err(DecodeError::UnexpectedWireType)
            } else if fieldno == 0 || fieldno > MAX_TAG {
                Err(DecodeError::UnexpectedWireType)
            } else {
                let wt = if v % 8 == 0 {
                    WireType::Varint
                } else if v % 8 == 1 {
                    WireType::Fixed64
                } else if v % 8 == 2 {
                    WireType::LengthDelimited
                } else {
                    WireType::Fixed32
                };
                Ok(((fieldno as u32, wt), l))
            }
        },
        Err(e) => Err(e),
    }
}

/// `decode_tag` at `pos` agrees exactly with `tag_prefix` applied to the
/// bytes from `pos` on.
pub proof fn lemma_tag_prefix_bridge(
    data: Seq<u8>,
    pos: int,
    r: Result<((u32, WireType), int), DecodeError>,
)
    requires
        0 <= pos <= data.len(),
        match r {
            Ok(((tag, wt), end)) => {
                &&& pos < end <= data.len()
                &&& end - pos <= 10
                &&& varint_term_at(data, pos, end - pos - 1)
                &&& (end - pos == 10 ==> data[pos + 9] <= 1)
                &&& 1 <= tag <= MAX_TAG
                &&& tag_value(tag, wt) == varint_int(data.subrange(pos, end))
            },
            Err(DecodeError::UnexpectedWireType) => exists|end: int|
                {
                    &&& pos < end <= data.len()
                    &&& end - pos <= 10
                    &&& #[trigger] varint_term_at(data, pos, end - pos - 1)
                    &&& (end - pos == 10 ==> data[pos + 9] <= 1)
                    &&& {
                        let v = varint_int(data.subrange(pos, end));
                        ||| (v % 8 != 0 && v % 8 != 1 && v % 8 != 2 && v % 8 != 5)
                        ||| v / 8 == 0
                        ||| v / 8 > MAX_TAG
                    }
                },
            Err(e) => decode_varint_err_spec(data, pos, e),
        },
    ensures
        match r {
            Ok(((tag, wt), end)) => tag_prefix(data.skip(pos)) == Ok::<_, DecodeError>(
                ((tag, wt), end - pos),
            ),
            Err(e) => tag_prefix(data.skip(pos)) == Err::<((u32, WireType), int), _>(e),
        },
{
    let s = data.skip(pos);
    assert(s.skip(0) =~= s);
    match r {
        Ok(((tag, wt), end)) => {
            let n = varint_int(data.subrange(pos, end));
            lemma_varint_int_bound(data.subrange(pos, end));
            lemma_varint_prefix_bridge(data, pos, Ok::<(u64, int), DecodeError>((n as u64, end)));
            assert(s.take(end - pos) =~= data.subrange(pos, end));
            // tag_value(tag, wt) splits back into its factors.
            assert(n == (tag as int) * 8 + wt.code());
            assert(n / 8 == tag && n % 8 == wt.code()) by (nonlinear_arith)
                requires
                    n == (tag as int) * 8 + wt.code() && 0 <= wt.code() < 8,
            ;
        },
        Err(DecodeError::UnexpectedWireType) => {
            let end = choose|end: int|
                {
                    &&& pos < end <= data.len()
                    &&& end - pos <= 10
                    &&& #[trigger] varint_term_at(data, pos, end - pos - 1)
                    &&& (end - pos == 10 ==> data[pos + 9] <= 1)
                    &&& {
                        let v = varint_int(data.subrange(pos, end));
                        ||| (v % 8 != 0 && v % 8 != 1 && v % 8 != 2 && v % 8 != 5)
                        ||| v / 8 == 0
                        ||| v / 8 > MAX_TAG
                    }
                };
            let n = varint_int(data.subrange(pos, end));
            lemma_varint_int_bound(data.subrange(pos, end));
            lemma_varint_prefix_bridge(data, pos, Ok::<(u64, int), DecodeError>((n as u64, end)));
            assert(s.take(end - pos) =~= data.subrange(pos, end));
        },
        Err(e) => {
            lemma_varint_prefix_bridge(data, pos, Err::<(u64, int), DecodeError>(e));
        },
    }
}

/// A canonical varint at the start of a stream decodes to its value and
/// consumes exactly its own bytes, whatever follows.
pub proof fn lemma_varint_prefix_canonical(n: u64, rest: Seq<u8>)
    ensures
        varint_prefix(varint_bytes(n) + rest, 0) == Ok::<int, DecodeError>(
            varint_bytes(n).len() as int,
        ),
        varint_int((varint_bytes(n) + rest).take(varint_bytes(n).len() as int)) == n,
{
    lemma_varint_bytes_wf(n);
    let b = varint_bytes(n);
    let s = b + rest;
    let l = b.len() as int;
    assert forall|k: int| 0 <= k < l - 1 implies #[trigger] s[k] >= 128 by {
        assert(s[k] == b[k]);
    }
    assert(s[l - 1] == b[l - 1]);
    lemma_varint_prefix_scan_ok(s, 0, l);
    assert(s.take(l) =~= b);
}

/// A canonical tag at the start of a stream decodes to its field number and
/// wire type and consumes exactly its own bytes, whatever follows.
pub proof fn lemma_tag_prefix_canonical(tag: u32, wt: WireType, rest: Seq<u8>)
    requires
        1 <= tag <= MAX_TAG,
    ensures
        tag_prefix(tag_bytes(tag, wt) + rest) == Ok::<((u32, WireType), int), DecodeError>(
            ((tag, wt), tag_bytes(tag, wt).len() as int),
        ),
{
    let v = tag_value(tag, wt);
    lemma_varint_prefix_canonical(v, rest);
    assert(v as int == (tag as int) * 8 + wt.code());
    assert(v as int / 8 == tag && v as int % 8 == wt.code()) by (nonlinear_arith)
        requires
            v as int == (tag as int) * 8 + wt.code() && 0 <= wt.code() < 8,
    ;
}

// ---------------------------------------------------------------------------
// Length-delimited framing.
// ---------------------------------------------------------------------------

/// A length-delimited frame: the payload length as a varint, then the
/// payload.
pub open spec fn len_delim_bytes(payload: Seq<u8>) -> Seq<u8> {
    varint_bytes(payload.len() as u64) + payload
}

/// Appends a length-delimited frame around `payload`.
pub fn encode_len_delimited(payload: &[u8], buf: &mut Vec<u8>)
    ensures
        final(buf)@ == old(buf)@ + len_delim_bytes(payload@),
{
    encode_varint(payload.len() as u64, buf);
    buf.extend_from_slice(payload);
    proof {
        assert(buf@ =~= old(buf)@ + len_delim_bytes(payload@));
    }
}

/// Reads the length prefix of a frame at `pos` and bounds-checks it,
/// returning the payload window `(start, end)`.
///
/// Fails with `Truncated` when the prefix itself is cut short or announces
/// more bytes than remain.
pub fn decode_len_prefix(data: &[u8], pos: usize) -> (r: Result<(usize, usize), DecodeError>)
    requires
        pos <= data@.len(),
    ensures
        match r {
            Ok((start, end)) => {
                &&& pos < start <= end <= data@.len()
                &&& start - pos <= 10
                &&& varint_term_at(data@, pos as int, start - pos - 1)
                &&& (start - pos == 10 ==> data@[pos + 9] <= 1)
                &&& end - start == varint_int(data@.subrange(pos as int, start as int))
            },
            Err(DecodeError::Truncated) => {
                ||| (data@.len() - pos < 10 && forall|k: int|
                    pos <= k < data@.len() ==> #[trigger] data@[k] >= 128)
                ||| exists|start: int|
                    {
                        &&& pos < start <= data@.len()
                        &&& start - pos <= 10
                        &&& #[trigger] varint_term_at(data@, pos as int, start - pos - 1)
                        &&& (start - pos == 10 ==> data@[pos + 9] <= 1)
                        &&& varint_int(data@.subrange(pos as int, start)) > data@.len() - start
                    }
            },
            Err(e) => decode_varint_err_spec(data@, pos as int, e) && !(e
                == DecodeError::Truncated),
        },
{
    let (len, start) = match decode_varint(data, pos) {
        Ok(x) => x,
        Err(e) => {
            return Err(e);
        },
    };
    if len > (data.len() - start) as u64 {
        proof {
            assert(varint_term_at(data@, pos as int, start - pos - 1));
        }
        return Err(DecodeError::Truncated);
    }
    Ok((start, start + len as usize))
}

/// Copies the bytes of the window `[start, end)` out of `data`.
pub fn read_bytes(data: &[u8], start: usize, end: usize) -> (r: Vec<u8>)
    requires
        start <= end <= data@.len(),
    ensures
        r@ == data@.subrange(start as int, end as int),
{
    vstd::slice::slice_to_vec(vstd::slice::slice_subrange(data, start, end))
}

} // verus!
