//! The binary form of a three-dimensional box in the database: a big-endian
//! header (the dimension count, with the top bit set for a single point),
//! then the big-endian coordinates, eight bytes each. The coordinates are
//! IEEE-754 doubles; here they are carried as their bit patterns.
use crate::ids::{concat, decimal, decimal_string};
use vstd::prelude::*;

verus! {

/// The six coordinates of a box, each as the bit pattern of a double:
/// one corner (`x1`, `y1`, `z1`) and the opposite one (`x2`, `y2`, `z2`).
#[derive(Debug, Clone, Copy, PartialEq, Eq, Structural)]
pub struct CubeBits {
    pub x1: u64,
    pub y1: u64,
    pub z1: u64,
    pub x2: u64,
    pub y2: u64,
    pub z2: u64,
}

/// Why bytes are not a three-dimensional box.
#[derive(Debug, Clone, Copy, PartialEq, Eq, Structural)]
pub enum CubeDecodeError {
    /// Fewer than the four bytes of the header.
    MissingHeader,
    /// The header counts other than three dimensions.
    Dimensions { dimensions: u32 },
    /// The length does not fit the header: 28 bytes for a point, else 52.
    PayloadLength { length: usize },
}

/// `256` to the power `n`.
pub open spec fn pow256(n: nat) -> nat
    decreases n,
{
    if n == 0 {
        1
    } else {
        256 * pow256((n - 1) as nat)
    }
}

/// The number that `bytes` write, most significant byte first.
pub open spec fn be_value(bytes: Seq<u8>) -> nat
    decreases bytes.len(),
{
    if bytes.len() == 0 {
        0
    } else {
        be_value(bytes.drop_last()) * 256 + (bytes.last() as nat)
    }
}

/// The number written by the `len` bytes of `bytes` from `start` on.
pub open spec fn be_field(bytes: Seq<u8>, start: int, len: int) -> nat {
    be_value(bytes.subrange(start, start + len))
}

/// The `n` bytes that write `value` (modulo `256^n`), most significant first.
pub open spec fn be_bytes(value: nat, n: nat) -> Seq<u8>
    decreases n,
{
    if n == 0 {
        Seq::empty()
    } else {
        be_bytes(value / 256, (n - 1) as nat).push((value % 256) as u8)
    }
}

/// The top bit of the header: the value is a single point.
pub open spec fn point_flag() -> nat {
    0x8000_0000
}

/// What bytes decode to: a box, or why they are none. A point (header with
/// the top bit set) has its one corner as both corners.
pub open spec fn cube_decoding(bytes: Seq<u8>) -> Result<CubeBits, CubeDecodeError> {
    if bytes.len() < 4 {
        Err(CubeDecodeError::MissingHeader)
    } else {
        let header = be_field(bytes, 0, 4);
        let dimensions = header % point_flag();
        let point = header >= point_flag();
        if dimensions != 3 {
            Err(CubeDecodeError::Dimensions { dimensions: dimensions as u32 })
        } else if bytes.len() != (if point { 28int } else { 52int }) {
            Err(CubeDecodeError::PayloadLength { length: bytes.len() as usize })
        } else {
            let x1 = be_field(bytes, 4, 8) as u64;
            let y1 = be_field(bytes, 12, 8) as u64;
            let z1 = be_field(bytes, 20, 8) as u64;
            if point {
                Ok(CubeBits { x1, y1, z1, x2: x1, y2: y1, z2: z1 })
            } else {
                Ok(CubeBits {
                    x1,
                    y1,
                    z1,
                    x2: be_field(bytes, 28, 8) as u64,
                    y2: be_field(bytes, 36, 8) as u64,
                    z2: be_field(bytes, 44, 8) as u64,
                })
            }
        }
    }
}

/// The bytes a box encodes to: the header `3` in four bytes, then the six
/// coordinates in eight bytes each.
pub open spec fn cube_encoding(cube: CubeBits) -> Seq<u8> {
    be_bytes(3, 4) + be_bytes(cube.x1 as nat, 8) + be_bytes(cube.y1 as nat, 8) + be_bytes(cube.z1 as nat, 8)
        + be_bytes(cube.x2 as nat, 8) + be_bytes(cube.y2 as nat, 8) + be_bytes(cube.z2 as nat, 8)
}

/// The text of a decoding error.
pub open spec fn cube_error_text(error: CubeDecodeError) -> Seq<char> {
    match error {
        CubeDecodeError::MissingHeader => "cube value is missing its header"@,
        CubeDecodeError::Dimensions { dimensions } => "expected a 3D cube, got "@ + decimal(dimensions as nat) + " dimensions"@,
        CubeDecodeError::PayloadLength { length } => "invalid 3D cube payload length: "@ + decimal(length as nat),
    }
}

impl CubeDecodeError {
    /// The error's text.
    pub fn message(&self) -> (text: String)
        ensures
            text@ == cube_error_text(*self),
    {
        match self {
            CubeDecodeError::MissingHeader => String::from_str("cube value is missing its header"),
            CubeDecodeError::Dimensions { dimensions } => {
                let count = decimal_string(*dimensions as usize);
                let head = concat("expected a 3D cube, got ", count.as_str());
                concat(head.as_str(), " dimensions")
            },
            CubeDecodeError::PayloadLength { length } => {
                let count = decimal_string(*length);
                concat("invalid 3D cube payload length: ", count.as_str())
            },
        }
    }
}

pub proof fn lemma_pow256_positive(n: nat)
    ensures
        pow256(n) >= 1,
    decreases n,
{
    if n > 0 {
        lemma_pow256_positive((n - 1) as nat);
    }
}

/// The number `n` bytes write is below `256^n`.
pub proof fn lemma_be_value_bound(bytes: Seq<u8>)
    ensures
        be_value(bytes) < pow256(bytes.len()),
    decreases bytes.len(),
{
    if bytes.len() > 0 {
        let rest = bytes.drop_last();
        lemma_be_value_bound(rest);
        let a = be_value(rest);
        let p = pow256(rest.len());
        let b = bytes.last();
        assert(a * 256 + b < p * 256) by (nonlinear_arith)
            requires
                a < p,
                b < 256,
        ;
    }
}

/// Writing a number below `256^n` in `n` bytes and reading them back gives it.
pub proof fn lemma_be_roundtrip(value: nat, n: nat)
    requires
        value < pow256(n),
    ensures
        be_bytes(value, n).len() == n,
        be_value(be_bytes(value, n)) == value,
    decreases n,
{
    if n > 0 {
        let high = value / 256;
        let p = pow256((n - 1) as nat);
        assert(high < p) by (nonlinear_arith)
            requires
                value < 256 * p,
                high == value / 256,
        ;
        lemma_be_roundtrip(high, (n - 1) as nat);
        let rest = be_bytes(high, (n - 1) as nat);
        assert(be_bytes(value, n).drop_last() =~= rest);
        assert(high * 256 + value % 256 == value) by (nonlinear_arith)
            requires
                high == value / 256,
        ;
    }
}

/// The number that `bytes[start..start + len]` write, read one byte at a time.
fn read_be(bytes: &[u8], start: usize, len: usize) -> (value: u64)
    requires
        start + len <= bytes@.len(),
        len <= 8,
    ensures
        value == be_field(bytes@, start as int, len as int),
{
    let mut value: u64 = 0;
    let mut i: usize = 0;
    let total = bytes.len();
    while i < len
        invariant
            i <= len <= 8,
            total == bytes@.len(),
            start + len <= bytes@.len(),
            value == be_value(bytes@.subrange(start as int, start + i)),
        decreases len - i,
    {
        let ghost prefix = bytes@.subrange(start as int, start + i);
        let ghost next = bytes@.subrange(start as int, start + i + 1);
        proof {
            assert(next.drop_last() =~= prefix);
            lemma_be_value_bound(prefix);
            assert(pow256(7) == 0x100_0000_0000_0000) by {
                reveal_with_fuel(pow256, 8);
            }
            if i < 7 {
                lemma_pow_mono(i as nat, 7);
            }
        }
        assert(value * 256 + 255 <= u64::MAX) by (nonlinear_arith)
            requires
                value < 0x100_0000_0000_0000,
        ;
        value = value * 256 + bytes[start + i] as u64;
        i = i + 1;
    }
    value
}

proof fn lemma_pow_mono(a: nat, b: nat)
    requires
        a <= b,
    ensures
        pow256(a) <= pow256(b),
    decreases b,
{
    if a < b {
        lemma_pow_mono(a, (b - 1) as nat);
        lemma_pow256_positive((b - 1) as nat);
    }
}

/// Decodes the binary form of a three-dimensional box. Fails when the bytes
/// lack a header, count other than three dimensions, or have the wrong length.
pub fn decode_cube(bytes: &[u8]) -> (result: Result<CubeBits, CubeDecodeError>)
    ensures
        result == cube_decoding(bytes@),
        bytes@.len() == 52 && header_at(bytes@, 0) == 3 ==> result == Ok::<CubeBits, CubeDecodeError>(CubeBits {
            x1: word_at(bytes@, 4) as u64,
            y1: word_at(bytes@, 12) as u64,
            z1: word_at(bytes@, 20) as u64,
            x2: word_at(bytes@, 28) as u64,
            y2: word_at(bytes@, 36) as u64,
            z2: word_at(bytes@, 44) as u64,
        }),
{
    proof {
        if bytes@.len() == 52 && header_at(bytes@, 0) == 3 {
            law_cube_decoding_layout(bytes@);
        }
    }
    if bytes.len() < 4 {
        return Err(CubeDecodeError::MissingHeader);
    }
    let header = read_be(bytes, 0, 4);
    proof {
        lemma_be_value_bound(bytes@.subrange(0, 4));
        assert(pow256(4) == 0x1_0000_0000) by {
            reveal_with_fuel(pow256, 5);
        }
    }
    let dimensions = header % 0x8000_0000;
    let point = header >= 0x8000_0000;
    if dimensions != 3 {
        return Err(CubeDecodeError::Dimensions { dimensions: dimensions as u32 });
    }
    let expected: usize = if point { 28 } else { 52 };
    if bytes.len() != expected {
        return Err(CubeDecodeError::PayloadLength { length: bytes.len() });
    }
    let x1 = read_be(bytes, 4, 8);
    let y1 = read_be(bytes, 12, 8);
    let z1 = read_be(bytes, 20, 8);
    if point {
        return Ok(CubeBits { x1, y1, z1, x2: x1, y2: y1, z2: z1 });
    }
    Ok(CubeBits {
        x1,
        y1,
        z1,
        x2: read_be(bytes, 28, 8),
        y2: read_be(bytes, 36, 8),
        z2: read_be(bytes, 44, 8),
    })
}

/// Appends the `len` bytes that write `value`, most significant first.
fn push_be(out: &mut Vec<u8>, value: u64, len: usize)
    requires
        len <= 8,
    ensures
        final(out)@ == old(out)@ + be_bytes(value as nat, len as nat),
    decreases len,
{
    if len > 0 {
        let ghost start = old(out)@;
        push_be(out, value / 256, len - 1);
        out.push((value % 256) as u8);
        proof {
            assert((value / 256) as nat == (value as nat) / 256);
            let high = be_bytes((value as nat) / 256, (len - 1) as nat);
            assert(start + high.push((value % 256) as u8) =~= (start + high).push((value % 256) as u8));
        }
    } else {
        assert(old(out)@ + be_bytes(value as nat, 0) =~= old(out)@);
    }
}

/// Encodes a box: the header `3`, then its six coordinates.
pub fn encode_cube(cube: &CubeBits) -> (bytes: Vec<u8>)
    ensures
        bytes@ == cube_encoding(*cube),
        bytes@.len() == 52,
        bytes@[0] == 0 && bytes@[1] == 0 && bytes@[2] == 0 && bytes@[3] == 3,
        word_at(bytes@, 4) == cube.x1 && word_at(bytes@, 12) == cube.y1 && word_at(bytes@, 20) == cube.z1,
        word_at(bytes@, 28) == cube.x2 && word_at(bytes@, 36) == cube.y2 && word_at(bytes@, 44) == cube.z2,
{
    proof {
        law_cube_encoding_layout(*cube);
    }
    let mut bytes: Vec<u8> = Vec::new();
    push_be(&mut bytes, 3, 4);
    push_be(&mut bytes, cube.x1, 8);
    push_be(&mut bytes, cube.y1, 8);
    push_be(&mut bytes, cube.z1, 8);
    push_be(&mut bytes, cube.x2, 8);
    push_be(&mut bytes, cube.y2, 8);
    push_be(&mut bytes, cube.z2, 8);
    assert(bytes@ =~= cube_encoding(*cube));
    bytes
}

/// Decoding what a box encodes to gives the box back.
pub proof fn law_cube_roundtrip(cube: CubeBits)
    ensures
        cube_decoding(cube_encoding(cube)) == Ok::<CubeBits, CubeDecodeError>(cube),
{
    let header = be_bytes(3, 4);
    assert(pow256(4) == 0x1_0000_0000) by {
        reveal_with_fuel(pow256, 5);
    }
    assert(pow256(8) == 0x1_0000_0000_0000_0000) by {
        reveal_with_fuel(pow256, 9);
    }
    lemma_be_roundtrip(3, 4);
    lemma_be_roundtrip(cube.x1 as nat, 8);
    lemma_be_roundtrip(cube.y1 as nat, 8);
    lemma_be_roundtrip(cube.z1 as nat, 8);
    lemma_be_roundtrip(cube.x2 as nat, 8);
    lemma_be_roundtrip(cube.y2 as nat, 8);
    lemma_be_roundtrip(cube.z2 as nat, 8);
    let bytes = cube_encoding(cube);
    assert(bytes.len() == 52);
    assert(bytes.subrange(0, 4) =~= header);
    assert(bytes.subrange(4, 12) =~= be_bytes(cube.x1 as nat, 8));
    assert(bytes.subrange(12, 20) =~= be_bytes(cube.y1 as nat, 8));
    assert(bytes.subrange(20, 28) =~= be_bytes(cube.z1 as nat, 8));
    assert(bytes.subrange(28, 36) =~= be_bytes(cube.x2 as nat, 8));
    assert(bytes.subrange(36, 44) =~= be_bytes(cube.y2 as nat, 8));
    assert(bytes.subrange(44, 52) =~= be_bytes(cube.z2 as nat, 8));
}

pub proof fn lemma_be_bytes_len(value: nat, n: nat)
    ensures
        be_bytes(value, n).len() == n,
    decreases n,
{
    if n > 0 {
        lemma_be_bytes_len(value / 256, (n - 1) as nat);
    }
}

/// The eight bytes of `bytes` from `start` on, read as a big-endian number.
pub open spec fn word_at(bytes: Seq<u8>, start: int) -> int {
    bytes[start] * 0x100_0000_0000_0000 + bytes[start + 1] * 0x1_0000_0000_0000 + bytes[start + 2] * 0x100_0000_0000
        + bytes[start + 3] * 0x1_0000_0000 + bytes[start + 4] * 0x100_0000 + bytes[start + 5] * 0x1_0000
        + bytes[start + 6] * 0x100 + bytes[start + 7]
}

/// The four bytes of `bytes` from `start` on, read as a big-endian number.
pub open spec fn header_at(bytes: Seq<u8>, start: int) -> int {
    bytes[start] * 0x100_0000 + bytes[start + 1] * 0x1_0000 + bytes[start + 2] * 0x100 + bytes[start + 3]
}

pub proof fn lemma_be_value_word(s: Seq<u8>)
    requires
        s.len() == 8,
    ensures
        be_value(s) == word_at(s, 0),
{
    let s7 = s.drop_last();
    let s6 = s7.drop_last();
    let s5 = s6.drop_last();
    let s4 = s5.drop_last();
    let s3 = s4.drop_last();
    let s2 = s3.drop_last();
    let s1 = s2.drop_last();
    let s0 = s1.drop_last();
    assert(be_value(s0) == 0);
    assert(be_value(s1) == s[0] as int);
    assert(be_value(s2) == be_value(s1) * 256 + s[1]);
    assert(be_value(s3) == be_value(s2) * 256 + s[2]);
    assert(be_value(s4) == be_value(s3) * 256 + s[3]);
    assert(be_value(s5) == be_value(s4) * 256 + s[4]);
    assert(be_value(s6) == be_value(s5) * 256 + s[5]);
    assert(be_value(s7) == be_value(s6) * 256 + s[6]);
    assert(be_value(s) == be_value(s7) * 256 + s[7]);
}

pub proof fn lemma_be_value_header(s: Seq<u8>)
    requires
        s.len() == 4,
    ensures
        be_value(s) == header_at(s, 0),
{
    let s3 = s.drop_last();
    let s2 = s3.drop_last();
    let s1 = s2.drop_last();
    let s0 = s1.drop_last();
    assert(be_value(s0) == 0);
    assert(be_value(s1) == s[0] as int);
    assert(be_value(s2) == be_value(s1) * 256 + s[1]);
    assert(be_value(s3) == be_value(s2) * 256 + s[2]);
    assert(be_value(s) == be_value(s3) * 256 + s[3]);
}

/// The eight bytes from `start` read the same inside a longer sequence.
pub proof fn lemma_word_in(bytes: Seq<u8>, start: int)
    requires
        0 <= start,
        start + 8 <= bytes.len(),
    ensures
        be_field(bytes, start, 8) == word_at(bytes, start),
{
    let s = bytes.subrange(start, start + 8);
    lemma_be_value_word(s);
    assert(word_at(s, 0) == word_at(bytes, start));
}

/// A box encodes to 52 bytes: the header 0, 0, 0, 3, then `x1`, `y1`,
/// `z1`, `x2`, `y2`, `z2`, each as eight big-endian bytes, in that order.
pub proof fn law_cube_encoding_layout(cube: CubeBits)
    ensures
        ({
            let bytes = cube_encoding(cube);
            &&& bytes.len() == 52
            &&& bytes[0] == 0 && bytes[1] == 0 && bytes[2] == 0 && bytes[3] == 3
            &&& word_at(bytes, 4) == cube.x1
            &&& word_at(bytes, 12) == cube.y1
            &&& word_at(bytes, 20) == cube.z1
            &&& word_at(bytes, 28) == cube.x2
            &&& word_at(bytes, 36) == cube.y2
            &&& word_at(bytes, 44) == cube.z2
        }),
{
    law_cube_roundtrip(cube);
    let bytes = cube_encoding(cube);
    lemma_be_bytes_len(3, 4);
    lemma_be_bytes_len(cube.x1 as nat, 8);
    lemma_be_bytes_len(cube.y1 as nat, 8);
    lemma_be_bytes_len(cube.z1 as nat, 8);
    lemma_be_bytes_len(cube.x2 as nat, 8);
    lemma_be_bytes_len(cube.y2 as nat, 8);
    lemma_be_bytes_len(cube.z2 as nat, 8);
    assert(bytes.len() == 52);
    assert(pow256(8) == 0x1_0000_0000_0000_0000) by {
        reveal_with_fuel(pow256, 9);
    }
    lemma_be_value_bound(bytes.subrange(4, 12));
    lemma_be_value_bound(bytes.subrange(12, 20));
    lemma_be_value_bound(bytes.subrange(20, 28));
    lemma_be_value_bound(bytes.subrange(28, 36));
    lemma_be_value_bound(bytes.subrange(36, 44));
    lemma_be_value_bound(bytes.subrange(44, 52));
    assert(be_bytes(3, 4) =~= seq![0u8, 0u8, 0u8, 3u8]) by {
        reveal_with_fuel(be_bytes, 5);
    }
    assert(bytes.subrange(0, 4) =~= be_bytes(3, 4));
    assert(bytes[0] == bytes.subrange(0, 4)[0]);
    assert(bytes[1] == bytes.subrange(0, 4)[1]);
    assert(bytes[2] == bytes.subrange(0, 4)[2]);
    assert(bytes[3] == bytes.subrange(0, 4)[3]);
    lemma_word_in(bytes, 4);
    lemma_word_in(bytes, 12);
    lemma_word_in(bytes, 20);
    lemma_word_in(bytes, 28);
    lemma_word_in(bytes, 36);
    lemma_word_in(bytes, 44);
}

/// Decoding reads a box's coordinates from fixed places: after a header of
/// 3 dimensions, `x1`, `y1`, `z1` from bytes 4, 12 and 20, and `x2`, `y2`,
/// `z2` from bytes 28, 36 and 44, each eight big-endian bytes; with the
/// point flag (top bit) set and 28 bytes, the one corner is both corners.
pub proof fn law_cube_decoding_layout(bytes: Seq<u8>)
    requires
        bytes.len() >= 4,
        header_at(bytes, 0) % 0x8000_0000 == 3,
        bytes.len() == if header_at(bytes, 0) >= 0x8000_0000 { 28int } else { 52int },
    ensures
        header_at(bytes, 0) < 0x8000_0000 ==> cube_decoding(bytes) == Ok::<CubeBits, CubeDecodeError>(CubeBits {
            x1: word_at(bytes, 4) as u64,
            y1: word_at(bytes, 12) as u64,
            z1: word_at(bytes, 20) as u64,
            x2: word_at(bytes, 28) as u64,
            y2: word_at(bytes, 36) as u64,
            z2: word_at(bytes, 44) as u64,
        }),
        header_at(bytes, 0) >= 0x8000_0000 ==> cube_decoding(bytes) == Ok::<CubeBits, CubeDecodeError>(CubeBits {
            x1: word_at(bytes, 4) as u64,
            y1: word_at(bytes, 12) as u64,
            z1: word_at(bytes, 20) as u64,
            x2: word_at(bytes, 4) as u64,
            y2: word_at(bytes, 12) as u64,
            z2: word_at(bytes, 20) as u64,
        }),
{
    let h = bytes.subrange(0, 4);
    lemma_be_value_header(h);
    assert(header_at(h, 0) == header_at(bytes, 0));
    lemma_word_in(bytes, 4);
    lemma_word_in(bytes, 12);
    lemma_word_in(bytes, 20);
    if bytes.len() == 52 {
        lemma_word_in(bytes, 28);
        lemma_word_in(bytes, 36);
        lemma_word_in(bytes, 44);
    }
}

} // verus!
