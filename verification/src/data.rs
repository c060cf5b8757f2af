//! Crockford base32 encoding and decoding of byte strings, the
//! printable form GNUnet uses for key material and hash codes.
//!
//! The bits of the byte string, most significant first, are taken
//! five at a time; each five-bit group becomes one character of the
//! 32-letter alphabet.  Decoding accepts the usual aliases (lower
//! case, `O` for `0`, `I`/`L` for `1`, `U` for `V`) and demands that
//! the bits past the end of the declared byte length are zero.

use vstd::prelude::*;

use vstd::string::{StrSliceExecFns, StringExecFns};

use crate::util::str_chars;

verus! {

/// Two to the power `k`, for the small exponents the bit positions
/// use.
pub open spec fn spec_p2(k: int) -> int {
    if k <= 0 {
        1
    } else if k == 1 {
        2
    } else if k == 2 {
        4
    } else if k == 3 {
        8
    } else if k == 4 {
        16
    } else if k == 5 {
        32
    } else if k == 6 {
        64
    } else if k == 7 {
        128
    } else {
        256
    }
}

/// The 32 digits of the Crockford base32 alphabet, in value order.
pub open spec fn spec_encode_char(v: u8) -> char {
    seq![
        '0', '1', '2', '3', '4', '5', '6', '7', '8', '9', 'A', 'B', 'C', 'D', 'E', 'F', 'G',
        'H', 'J', 'K', 'M', 'N', 'P', 'Q', 'R', 'S', 'T', 'V', 'W', 'X', 'Y', 'Z',
    ][v as int]
}

/// Bit `j` of the byte string, counting from the most significant bit
/// of the first byte; zero past the end.
pub open spec fn spec_byte_bit(buf: Seq<u8>, j: int) -> int {
    if 0 <= j < 8 * buf.len() {
        (buf[j / 8] as int / spec_p2(7 - (j % 8))) % 2
    } else {
        0
    }
}

/// The value of five-bit group `i` of the byte string.
pub open spec fn spec_group_val(buf: Seq<u8>, i: int) -> int {
    16 * spec_byte_bit(buf, 5 * i) + 8 * spec_byte_bit(buf, 5 * i + 1) + 4 * spec_byte_bit(
        buf,
        5 * i + 2,
    ) + 2 * spec_byte_bit(buf, 5 * i + 3) + spec_byte_bit(buf, 5 * i + 4)
}

/// How many characters the encoding of `n` bytes has: one per
/// five-bit group, counting only groups that hold a data bit.
pub open spec fn spec_enc_len(n: int) -> int {
    (n * 8 + 4) / 5
}

/// The Crockford base32 encoding of a byte string.
pub open spec fn spec_crockford(buf: Seq<u8>) -> Seq<char> {
    Seq::new(
        spec_enc_len(buf.len() as int) as nat,
        |i: int| spec_encode_char(spec_group_val(buf, i) as u8),
    )
}

/// Bit `j` of the stream of five-bit groups `vs`, counting from the
/// most significant bit of the first group; zero past the end.
pub open spec fn spec_group_bit(vs: Seq<u8>, j: int) -> int {
    if 0 <= j < 5 * vs.len() {
        (vs[j / 5] as int / spec_p2(4 - (j % 5))) % 2
    } else {
        0
    }
}

/// The value of the `count` bits of the group stream starting at bit
/// `start`, read most significant first.
pub open spec fn spec_group_bits_val(vs: Seq<u8>, start: int, count: int) -> int
    decreases count,
{
    if count <= 0 {
        0
    } else {
        spec_group_bits_val(vs, start, count - 1) * 2 + spec_group_bit(vs, start + count - 1)
    }
}

/// Byte `k` decoded from the group stream: its eight bits.
pub open spec fn spec_byte_from_groups(vs: Seq<u8>, k: int) -> int {
    spec_group_bits_val(vs, 8 * k, 8)
}

/// The numeric value a character decodes to, if any; aliases and both
/// cases are accepted.
pub open spec fn spec_digit_of_char(c: char) -> Option<u8> {
    if c == '0' || c == 'O' || c == 'o' {
        Some(0u8)
    } else if c == '1' || c == 'I' || c == 'i' || c == 'L' || c == 'l' {
        Some(1u8)
    } else if c == '2' {
        Some(2u8)
    } else if c == '3' {
        Some(3u8)
    } else if c == '4' {
        Some(4u8)
    } else if c == '5' {
        Some(5u8)
    } else if c == '6' {
        Some(6u8)
    } else if c == '7' {
        Some(7u8)
    } else if c == '8' {
        Some(8u8)
    } else if c == '9' {
        Some(9u8)
    } else if c == 'a' || c == 'A' {
        Some(10u8)
    } else if c == 'b' || c == 'B' {
        Some(11u8)
    } else if c == 'c' || c == 'C' {
        Some(12u8)
    } else if c == 'd' || c == 'D' {
        Some(13u8)
    } else if c == 'e' || c == 'E' {
        Some(14u8)
    } else if c == 'f' || c == 'F' {
        Some(15u8)
    } else if c == 'g' || c == 'G' {
        Some(16u8)
    } else if c == 'h' || c == 'H' {
        Some(17u8)
    } else if c == 'j' || c == 'J' {
        Some(18u8)
    } else if c == 'k' || c == 'K' {
        Some(19u8)
    } else if c == 'm' || c == 'M' {
        Some(20u8)
    } else if c == 'n' || c == 'N' {
        Some(21u8)
    } else if c == 'p' || c == 'P' {
        Some(22u8)
    } else if c == 'q' || c == 'Q' {
        Some(23u8)
    } else if c == 'r' || c == 'R' {
        Some(24u8)
    } else if c == 's' || c == 'S' {
        Some(25u8)
    } else if c == 't' || c == 'T' {
        Some(26u8)
    } else if c == 'u' || c == 'U' || c == 'v' || c == 'V' {
        Some(27u8)
    } else if c == 'w' || c == 'W' {
        Some(28u8)
    } else if c == 'x' || c == 'X' {
        Some(29u8)
    } else if c == 'y' || c == 'Y' {
        Some(30u8)
    } else if c == 'z' || c == 'Z' {
        Some(31u8)
    } else {
        None
    }
}

/// Every character of `cs` is a Crockford digit.
pub open spec fn spec_all_crockford(cs: Seq<char>) -> bool {
    forall|i: int| 0 <= i < cs.len() ==> spec_digit_of_char(#[trigger] cs[i]) is Some
}

/// The group values of a digit string whose characters all decode.
pub open spec fn spec_digit_vals(cs: Seq<char>) -> Seq<u8> {
    Seq::new(cs.len(), |i: int| spec_digit_of_char(cs[i]).unwrap())
}

/// Whether every bit past the last declared byte is zero.
pub open spec fn spec_trailing_zero(vs: Seq<u8>, dec_len: int) -> bool {
    forall|j: int| 8 * dec_len <= j < 5 * vs.len() ==> #[trigger] spec_group_bit(vs, j) == 0
}

/// Error returned when Crockford base32 text cannot be decoded.
#[derive(Debug, PartialEq, Eq)]
pub enum CrockfordDecodeError {
    /// The character count does not encode exactly the wanted number
    /// of bytes.
    SizeMismatch { encoded_size: usize, target_size: usize },
    /// A character outside the alphabet and its aliases.
    InvalidChar { ch: char },
    /// A one bit in the slack past the declared byte length.
    TrailingBits,
}

/// What each decode error says of the input: the size check failed,
/// the first bad character was this one, or a slack bit was set.
pub open spec fn spec_crockford_err(cs: Seq<char>, dec_len: int, e: CrockfordDecodeError) -> bool {
    match e {
        CrockfordDecodeError::SizeMismatch { encoded_size, target_size } => {
            &&& (cs.len() * 5) / 8 != dec_len
            &&& encoded_size == cs.len()
            &&& target_size == dec_len
        },
        CrockfordDecodeError::InvalidChar { ch } => {
            &&& (cs.len() * 5) / 8 == dec_len
            &&& spec_first_invalid(cs, 0) < cs.len()
            &&& ch == cs[spec_first_invalid(cs, 0)]
        },
        CrockfordDecodeError::TrailingBits => {
            &&& (cs.len() * 5) / 8 == dec_len
            &&& spec_all_crockford(cs)
            &&& !spec_trailing_zero(spec_digit_vals(cs), dec_len)
        },
    }
}

/// The position of the first character that is no Crockford digit, or
/// the length.
pub open spec fn spec_first_invalid(cs: Seq<char>, i: int) -> int
    decreases cs.len() - i,
{
    if i < 0 || i >= cs.len() {
        cs.len() as int
    } else if spec_digit_of_char(cs[i]) is None {
        i
    } else {
        spec_first_invalid(cs, i + 1)
    }
}

/// The digit character for a five-bit value, as a one-character
/// string slice for building the encoded text.
fn encode_char_str(v: u8) -> (r: &'static str)
    requires
        v < 32,
    ensures
        r@ == seq![spec_encode_char(v)],
{
    let r: &'static str = match v {
        0 => "0",
        1 => "1",
        2 => "2",
        3 => "3",
        4 => "4",
        5 => "5",
        6 => "6",
        7 => "7",
        8 => "8",
        9 => "9",
        10 => "A",
        11 => "B",
        12 => "C",
        13 => "D",
        14 => "E",
        15 => "F",
        16 => "G",
        17 => "H",
        18 => "J",
        19 => "K",
        20 => "M",
        21 => "N",
        22 => "P",
        23 => "Q",
        24 => "R",
        25 => "S",
        26 => "T",
        27 => "V",
        28 => "W",
        29 => "X",
        30 => "Y",
        _ => "Z",
    };
    proof {
        reveal_strlit("0");
        reveal_strlit("1");
        reveal_strlit("2");
        reveal_strlit("3");
        reveal_strlit("4");
        reveal_strlit("5");
        reveal_strlit("6");
        reveal_strlit("7");
        reveal_strlit("8");
        reveal_strlit("9");
        reveal_strlit("A");
        reveal_strlit("B");
        reveal_strlit("C");
        reveal_strlit("D");
        reveal_strlit("E");
        reveal_strlit("F");
        reveal_strlit("G");
        reveal_strlit("H");
        reveal_strlit("J");
        reveal_strlit("K");
        reveal_strlit("M");
        reveal_strlit("N");
        reveal_strlit("P");
        reveal_strlit("Q");
        reveal_strlit("R");
        reveal_strlit("S");
        reveal_strlit("T");
        reveal_strlit("V");
        reveal_strlit("W");
        reveal_strlit("X");
        reveal_strlit("Y");
        reveal_strlit("Z");
        assert(r@ =~= seq![spec_encode_char(v)]);
    }
    r
}

/// Bit `j` of the byte string, most significant bit of the first byte
/// first.
fn byte_bit(buf: &Vec<u8>, j: u128) -> (b: u8)
    ensures
        b as int == spec_byte_bit(buf@, j as int),
        b < 2,
{
    let idx = j / 8;
    if idx < buf.len() as u128 {
        let byte = buf[idx as usize];
        let k = (7 - (j % 8)) as u32;
        let p: u8 = if k == 0 {
            1
        } else if k == 1 {
            2
        } else if k == 2 {
            4
        } else if k == 3 {
            8
        } else if k == 4 {
            16
        } else if k == 5 {
            32
        } else if k == 6 {
            64
        } else {
            128
        };
        proof {
            assert(p as int == spec_p2(7 - (j as int % 8)));
            assert(j as int / 8 == idx as int);
            assert((j as int) < 8 * buf@.len());
        }
        (byte / p) % 2
    } else {
        proof {
            assert(!((j as int) < 8 * buf@.len()));
        }
        0
    }
}

/// The value of five-bit group `i` of the byte string.
fn group_val(buf: &Vec<u8>, i: u128) -> (g: u8)
    requires
        5 * i <= u128::MAX - 4,
    ensures
        g as int == spec_group_val(buf@, i as int),
        g < 32,
{
    let b0 = byte_bit(buf, 5 * i);
    let b1 = byte_bit(buf, 5 * i + 1);
    let b2 = byte_bit(buf, 5 * i + 2);
    let b3 = byte_bit(buf, 5 * i + 3);
    let b4 = byte_bit(buf, 5 * i + 4);
    16 * b0 + 8 * b1 + 4 * b2 + 2 * b3 + b4
}

/// Encodes a byte string as Crockford base32 text.
pub fn crockford_encode(buf: &Vec<u8>) -> (r: String)
    requires
        8 * buf@.len() + 4 <= usize::MAX,
    ensures
        r@ == spec_crockford(buf@),
{
    let n = buf.len();
    let enc_len = (n * 8 + 4) / 5;
    let mut r = String::new();
    let mut i: usize = 0;
    while i < enc_len
        invariant
            i <= enc_len,
            n == buf@.len(),
            8 * n + 4 <= usize::MAX,
            enc_len == spec_enc_len(n as int),
            r@ == spec_crockford(buf@).subrange(0, i as int),
        decreases enc_len - i,
    {
        let g = group_val(buf, i as u128);
        let c = encode_char_str(g);
        r.append(c);
        i = i + 1;
        assert(r@ =~= spec_crockford(buf@).subrange(0, i as int));
    }
    assert(r@ =~= spec_crockford(buf@));
    r
}

/// The numeric value a character decodes to, if any.
fn digit_of_char(c: char) -> (r: Option<u8>)
    ensures
        r == spec_digit_of_char(c),
        r matches Some(v) ==> v < 32,
{
    match c {
        '0' | 'O' | 'o' => Some(0),
        '1' | 'I' | 'i' | 'L' | 'l' => Some(1),
        '2' => Some(2),
        '3' => Some(3),
        '4' => Some(4),
        '5' => Some(5),
        '6' => Some(6),
        '7' => Some(7),
        '8' => Some(8),
        '9' => Some(9),
        'a' | 'A' => Some(10),
        'b' | 'B' => Some(11),
        'c' | 'C' => Some(12),
        'd' | 'D' => Some(13),
        'e' | 'E' => Some(14),
        'f' | 'F' => Some(15),
        'g' | 'G' => Some(16),
        'h' | 'H' => Some(17),
        'j' | 'J' => Some(18),
        'k' | 'K' => Some(19),
        'm' | 'M' => Some(20),
        'n' | 'N' => Some(21),
        'p' | 'P' => Some(22),
        'q' | 'Q' => Some(23),
        'r' | 'R' => Some(24),
        's' | 'S' => Some(25),
        't' | 'T' => Some(26),
        'u' | 'U' | 'v' | 'V' => Some(27),
        'w' | 'W' => Some(28),
        'x' | 'X' => Some(29),
        'y' | 'Y' => Some(30),
        'z' | 'Z' => Some(31),
        _ => None,
    }
}

/// Bit `j` of the group stream, most significant bit of the first
/// group first.
fn group_bit(vs: &Vec<u8>, j: u128) -> (b: u8)
    ensures
        b as int == spec_group_bit(vs@, j as int),
        b < 2,
{
    let idx = j / 5;
    if idx < vs.len() as u128 {
        let g = vs[idx as usize];
        let k = (4 - (j % 5)) as u32;
        let p: u8 = if k == 0 {
            1
        } else if k == 1 {
            2
        } else if k == 2 {
            4
        } else if k == 3 {
            8
        } else {
            16
        };
        proof {
            assert(p as int == spec_p2(4 - (j as int % 5)));
            assert(j as int / 5 == idx as int);
            assert((j as int) < 5 * vs@.len());
        }
        (g / p) % 2
    } else {
        proof {
            assert(!((j as int) < 5 * vs@.len()));
        }
        0
    }
}

/// A partial bit value stays below two to the number of bits read.
proof fn lemma_group_bits_val_bound(vs: Seq<u8>, start: int, count: int)
    requires
        0 <= count <= 8,
    ensures
        0 <= spec_group_bits_val(vs, start, count) < spec_p2(count),
    decreases count,
{
    if count > 0 {
        lemma_group_bits_val_bound(vs, start, count - 1);
    }
}

/// Decodes Crockford base32 text into exactly `dec_len` bytes.
///
/// The character count must declare exactly `dec_len` bytes, every
/// character must belong to the alphabet or its aliases, and the few
/// bits past the last byte must all be zero.
pub fn crockford_decode(enc: &str, dec_len: usize) -> (r: Result<Vec<u8>, CrockfordDecodeError>)
    ensures
        match r {
            Ok(v) => {
                &&& (enc@.len() * 5) / 8 == dec_len
                &&& spec_all_crockford(enc@)
                &&& v@.len() == dec_len
                &&& forall|k: int|
                    0 <= k < dec_len ==> (#[trigger] v@[k]) as int == spec_byte_from_groups(
                        spec_digit_vals(enc@),
                        k,
                    )
                &&& spec_trailing_zero(spec_digit_vals(enc@), dec_len as int)
            },
            Err(e) => spec_crockford_err(enc@, dec_len as int, e),
        },
{
    let cs = str_chars(enc);
    let cl = cs.len();
    if ((cl as u128) * 5) / 8 != dec_len as u128 {
        proof {
            assert((enc@.len() * 5) / 8 != dec_len);
        }
        return Err(
            CrockfordDecodeError::SizeMismatch { encoded_size: cl, target_size: dec_len },
        );
    }
    proof {
        assert((enc@.len() * 5) / 8 == dec_len);
    }
    let mut vs: Vec<u8> = Vec::new();
    let mut i: usize = 0;
    while i < cl
        invariant
            i <= cl,
            cl == cs@.len(),
            cs@ == enc@,
            (enc@.len() * 5) / 8 == dec_len,
            vs@.len() == i,
            spec_first_invalid(enc@, 0) == spec_first_invalid(enc@, i as int),
            forall|j: int|
                0 <= j < i ==> spec_digit_of_char(#[trigger] enc@[j]) is Some,
            forall|j: int|
                0 <= j < i ==> (#[trigger] vs@[j]) == spec_digit_of_char(enc@[j]).unwrap(),
        decreases cl - i,
    {
        match digit_of_char(cs[i]) {
            Some(d) => {
                vs.push(d);
            },
            None => {
                return Err(CrockfordDecodeError::InvalidChar { ch: cs[i] });
            },
        }
        i = i + 1;
    }
    proof {
        assert(vs@ =~= spec_digit_vals(enc@));
    }
    let mut out: Vec<u8> = Vec::new();
    let mut k: usize = 0;
    while k < dec_len
        invariant
            k <= dec_len,
            vs@ == spec_digit_vals(enc@),
            out@.len() == k,
            forall|j: int|
                0 <= j < k ==> (#[trigger] out@[j]) as int == spec_byte_from_groups(vs@, j),
        decreases dec_len - k,
    {
        let mut b: u8 = 0;
        let mut t: usize = 0;
        while t < 8
            invariant
                t <= 8,
                k < dec_len,
                vs@ == spec_digit_vals(enc@),
                b as int == spec_group_bits_val(vs@, 8 * (k as int), t as int),
                (b as int) < spec_p2(t as int),
            decreases 8 - t,
        {
            let bit = group_bit(&vs, (k as u128) * 8 + (t as u128));
            proof {
                lemma_group_bits_val_bound(vs@, 8 * (k as int), t as int);
            }
            b = b * 2 + bit;
            t = t + 1;
        }
        out.push(b);
        k = k + 1;
    }
    let mut j: u128 = (dec_len as u128) * 8;
    let ghost jstart = j;
    while j < (cl as u128) * 5
        invariant
            vs@ == spec_digit_vals(enc@),
            cl == enc@.len(),
            vs@.len() == cl,
            (enc@.len() * 5) / 8 == dec_len,
            spec_all_crockford(enc@),
            (dec_len as u128) * 8 <= j,
            j <= (cl as u128) * 5 || j == (dec_len as u128) * 8,
            forall|x: int| 8 * (dec_len as int) <= x < j as int ==> #[trigger] spec_group_bit(vs@, x) == 0,
        decreases (cl as u128) * 5 - j,
    {
        let bit = group_bit(&vs, j);
        if bit != 0 {
            proof {
                assert(spec_group_bit(vs@, j as int) != 0);
                assert(!spec_trailing_zero(vs@, dec_len as int));
            }
            return Err(CrockfordDecodeError::TrailingBits);
        }
        j = j + 1;
    }
    proof {
        assert(spec_trailing_zero(vs@, dec_len as int));
    }
    Ok(out)
}

} // verus!
