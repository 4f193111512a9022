//! The variable-length object header at the start of each packed object:
//! a first byte holding a continuation bit, a 3-bit type and the low 4 size
//! bits, then further bytes each holding a continuation bit and 7 more size
//! bits, OR-ed in at offsets 4, 11, 18, and so on.

use vstd::arithmetic::power2::{lemma2_to64, lemma_pow2_strictly_increases, pow2};
use vstd::bits::lemma_u32_shl_is_mul;
use vstd::prelude::*;

verus! {

/// The continuation bit: more header bytes follow while it is set.
pub open spec fn cont_bit(b: u8) -> bool {
    b & 0x80 != 0
}

/// The 3-bit object type carried by the first header byte.
pub open spec fn type_bits(b: u8) -> u8 {
    (b >> 4) & 7
}

/// The 4 size bits carried by the first header byte.
pub open spec fn low_size_bits(b: u8) -> u8 {
    b & 0xF
}

/// The 7 size bits carried by a continuation byte.
pub open spec fn group_bits(b: u8) -> u8 {
    b & 0x7F
}

/// True when some byte of the window clears the continuation bit, so a full
/// header lies within it.
pub open spec fn has_header_end(data: Seq<u8>) -> bool {
    exists|i: int| 0 <= i < data.len() && !cont_bit(data[i])
}

/// One past the index of the first byte at or after `i` that clears the
/// continuation bit; degenerates to `i` past the end of the window.
pub open spec fn header_end_from(data: Seq<u8>, i: int) -> int
    decreases data.len() - i,
{
    if i < 0 || i >= data.len() {
        i
    } else if !cont_bit(data[i]) {
        i + 1
    } else {
        header_end_from(data, i + 1)
    }
}

/// The number of bytes the header occupies: everything up to and including
/// the first byte whose continuation bit is clear.
pub open spec fn header_len_spec(data: Seq<u8>) -> int {
    header_end_from(data, 0)
}

/// The size bits contributed by the continuation bytes from index `i` on,
/// the group at `i` weighted by `pow2(shift)`.
pub open spec fn size_from(data: Seq<u8>, i: int, shift: nat) -> nat
    decreases data.len() - i,
{
    if i < 0 || i >= data.len() {
        0
    } else {
        (group_bits(data[i]) as nat) * pow2(shift) + if cont_bit(data[i]) {
            size_from(data, i + 1, (shift + 7) as nat)
        } else {
            0
        }
    }
}

/// The object size written by the header: the first byte's low 4 bits, then
/// each continuation group at bit offset 4, 11, 18, ...
pub open spec fn size_spec(data: Seq<u8>) -> nat
    recommends
        data.len() >= 1,
{
    (low_size_bits(data[0]) as nat) + if cont_bit(data[0]) {
        size_from(data, 1, 4)
    } else {
        0
    }
}

/// A decoded object header: type, reconstructed size, bytes consumed.
#[derive(Clone, Debug)]
pub struct PackEntry {
    pub type_id: u8,
    pub size: u32,
    pub header_len: usize,
}

/// One header byte, split into its fields. The first byte of a header
/// carries the type; later bytes carry 7 size bits each.
#[derive(Clone, Debug)]
pub struct PackHunk {
    pub cont: bool,
    pub size: u32,
    pub type_id: Option<u8>,
}

impl PackHunk {
    /// Splits the leading header byte: continuation bit, type, low size bits.
    pub fn decode_with_type(data: &[u8]) -> (r: PackHunk)
        requires
            data@.len() >= 1,
        ensures
            r.cont == cont_bit(data@[0]),
            r.type_id == Some(type_bits(data@[0])),
            r.size == low_size_bits(data@[0]) as u32,
    {
        let b = data[0];
        PackHunk { cont: b & 0x80 != 0, size: (b & 0xF) as u32, type_id: Some((b >> 4) & 7) }
    }

    /// Splits a continuation byte: continuation bit and 7 size bits.
    pub fn decode_without_type(data: &[u8]) -> (r: PackHunk)
        requires
            data@.len() >= 1,
        ensures
            r.cont == cont_bit(data@[0]),
            r.type_id is None,
            r.size == group_bits(data@[0]) as u32,
    {
        let b = data[0];
        PackHunk { cont: b & 0x80 != 0, size: (b & 0x7F) as u32, type_id: None }
    }
}

/// Parses the object header at the front of `data`. The caller guarantees
/// that the window holds the whole header and that the written size fits a
/// 32-bit number.
pub fn parse_entry_header(data: &[u8]) -> (r: PackEntry)
    requires
        data@.len() >= 1,
        has_header_end(data@),
        size_spec(data@) <= u32::MAX,
    ensures
        r.type_id == type_bits(data@[0]),
        r.size as nat == size_spec(data@),
        r.header_len == header_len_spec(data@),
{
    let ghost g = data@;
    let first = PackHunk::decode_with_type(data);
    let type_id = match first.type_id {
        Some(t) => t,
        None => 0,
    };
    let mut size: u32 = first.size;
    let mut cont: bool = first.cont;
    let mut idx: usize = 1;
    // The true bit offset of the next group, and its executable shadow,
    // frozen once it can no longer matter (a nonzero group there would
    // overflow the 32-bit size).
    let ghost mut shift: nat = 4;
    let mut shift_e: u32 = 4;
    while cont
        invariant
            1 <= idx <= g.len(),
            g == data@,
            has_header_end(g),
            size_spec(g) <= u32::MAX,
            shift == 4 + 7 * (idx - 1),
            shift <= 32 ==> shift_e == shift,
            shift > 32 ==> shift_e == 32,
            cont ==> forall|j: int| 0 <= j < idx ==> cont_bit(g[j]),
            header_len_spec(g) == if cont {
                header_end_from(g, idx as int)
            } else {
                idx as int
            },
            size_spec(g) == size as nat + if cont {
                size_from(g, idx as int, shift)
            } else {
                0
            },
        decreases g.len() - idx,
    {
        proof {
            // The window holds a header end, and every byte so far continued,
            // so the ending byte lies at or beyond idx: idx is in bounds.
            let w = choose|i: int| 0 <= i < g.len() && !cont_bit(g[i]);
            assert(w >= idx);
        }
        let ghost idx0 = idx as int;
        let ghost shift0 = shift;
        let hunk = PackHunk::decode_without_type(&data[idx..data.len()]);
        let group = hunk.size;
        proof {
            assert(size_from(g, idx as int, shift) == (group_bits(g[idx as int]) as nat) * pow2(
                shift,
            ) + if cont_bit(g[idx as int]) {
                size_from(g, (idx + 1) as int, (shift + 7) as nat)
            } else {
                0
            });
        }
        if group > 0 {
            proof {
                // A nonzero group at offset `shift` contributes at least
                // pow2(shift) to a size capped at u32::MAX, so shift < 32.
                assert((group_bits(g[idx as int]) as nat) * pow2(shift) >= 1 * pow2(shift))
                    by (nonlinear_arith)
                    requires
                        group_bits(g[idx as int]) >= 1,
                ;
                if shift >= 32 {
                    if shift > 32 {
                        lemma_pow2_strictly_increases(32, shift);
                    }
                    lemma2_to64();
                    assert(false);
                }
                lemma_u32_shl_is_mul(group, shift_e);
            }
            size = size + (group << shift_e);
        } else {
            assert(group_bits(g[idx0]) == 0);
            assert((group_bits(g[idx0]) as nat) * pow2(shift0) == 0);
        }
        cont = hunk.cont;
        idx = idx + 1;
        proof {
            shift = (shift + 7) as nat;
        }
        if shift_e < 32 {
            shift_e = shift_e + 7;
            if shift_e > 32 {
                shift_e = 32;
            }
        }
    }
    PackEntry { type_id, size, header_len: idx }
}

/// The headers found in one pack stream.
#[derive(Clone, Debug)]
pub struct PackFile {
    pub entries: Vec<PackEntry>,
}

impl PackFile {
    pub fn new(entries: Vec<PackEntry>) -> (r: PackFile)
        ensures
            r.entries@ == entries@,
    {
        PackFile { entries }
    }
}

} // verus!
