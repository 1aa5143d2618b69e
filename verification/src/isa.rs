//! Bit-level helpers shared by the virtual machine, the assembler and the
//! disassembler: sign extension of narrow instruction fields to 16 bits.

use vstd::prelude::*;

verus! {

/// Sign extension of the low `bits` bits of `val` to a full 16-bit word:
/// if the field's top bit is set, every bit above the field is set too.
pub open spec fn spec_sext(val: u16, bits: u8) -> u16
    recommends
        1 <= bits < 16,
{
    if (val >> ((bits - 1) as u16)) & 1 != 0 {
        val | (0xFFFFu16 << bits as u16)
    } else {
        val
    }
}

/// The signed value a `bits`-wide two's-complement field denotes.
pub open spec fn field_signed(val: u16, bits: u8) -> int
    recommends
        1 <= bits < 16,
        val < (1u16 << bits as u16),
{
    if val < (1u16 << ((bits - 1) as u16)) {
        val as int
    } else {
        val - (1u16 << bits as u16)
    }
}

/// Sign-extend a value from `bits` width to 16 bits.
pub fn sign_extend(val: u16, bits: u8) -> (r: u16)
    requires
        1 <= bits < 16,
    ensures
        r == spec_sext(val, bits),
{
    if val >> ((bits - 1) as u16) & 1 != 0 {
        val | (0xFFFFu16 << bits as u16)
    } else {
        val
    }
}

/// Sign extension reads back the signed value of an in-range field: the
/// extended word equals that value reduced modulo 2^16.
pub proof fn lemma_sext_signed(val: u16, bits: u8)
    requires
        1 <= bits < 16,
        val < (1u16 << bits as u16),
    ensures
        spec_sext(val, bits) == if field_signed(val, bits) >= 0 {
            field_signed(val, bits)
        } else {
            field_signed(val, bits) + 0x10000
        },
{
    assert(spec_sext(val, bits) == if field_signed(val, bits) >= 0 {
        field_signed(val, bits)
    } else {
        field_signed(val, bits) + 0x10000
    }) by (bit_vector)
        requires
            1 <= bits < 16,
            val < (1u16 << bits as u16),
    ;
}

/// A signed offset that fits a `bits`-wide two's-complement field survives
/// encoding: truncating it to the field and reading the field back as a
/// signed value yields the original offset.
pub proof fn lemma_offset_roundtrip(off: i16, bits: u8)
    requires
        1 <= bits < 16,
        -((1u32 << ((bits - 1) as u32)) as int) <= off as int,
        (off as int) < (1u32 << ((bits - 1) as u32)) as int,
    ensures
        field_signed((off as u16) & (((1u16 << bits as u16) - 1) as u16), bits) == off as int,
        spec_sext((off as u16) & (((1u16 << bits as u16) - 1) as u16), bits) == off as u16,
{
    assert({
        let enc = (off as u16) & (((1u16 << bits as u16) - 1) as u16);
        &&& field_signed(enc, bits) == off as int
        &&& spec_sext(enc, bits) == off as u16
    }) by (bit_vector)
        requires
            1 <= bits < 16,
            -((1u32 << ((bits - 1) as u32)) as int) <= off as int,
            (off as int) < (1u32 << ((bits - 1) as u32)) as int,
    ;
}

/// Masking with `&` never exceeds the mask, available ambiently: it bounds
/// every instruction bit field.
pub broadcast proof fn lemma_field_bounds(x: u16, m: u16)
    ensures
        #[trigger] (x & m) <= m,
{
    assert((x & m) <= m) by (bit_vector);
}

} // verus!
