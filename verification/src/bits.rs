//! Bit masks of register fields and the arithmetic of field updates.

use vstd::arithmetic::power2::*;
use vstd::bits::*;
use vstd::prelude::*;

verus! {

/// The value whose set bits are exactly the `width` bits starting at bit
/// `offset`: `(2^width - 1) * 2^offset`.
pub open spec fn mask_of(offset: nat, width: nat) -> nat {
    ((pow2(width) - 1) * pow2(offset)) as nat
}

/// The mask of a field that lies within 64 bits fits in a `u64`.
pub proof fn lemma_mask_fits(offset: nat, width: nat)
    requires
        offset + width <= 64,
    ensures
        mask_of(offset, width) <= u64::MAX,
        (pow2(width) - 1) * pow2(offset) >= 0,
        width < 64 ==> pow2(width) <= u64::MAX,
{
    lemma_pow2_pos(width);
    lemma_pow2_pos(offset);
    lemma_pow2_adds(width, offset);
    lemma2_to64();
    if offset + width < 64 {
        lemma_pow2_strictly_increases(offset + width, 64);
    }
    if width < 64 {
        lemma_pow2_strictly_increases(width, 64);
    }
    assert((pow2(width) - 1) * pow2(offset) == pow2(width) * pow2(offset) - pow2(offset))
        by (nonlinear_arith);
    assert((pow2(width) - 1) * pow2(offset) >= 0) by (nonlinear_arith)
        requires
            pow2(width) >= 1,
            pow2(offset) >= 1,
    ;
}

/// Computes the mask of the field of `width` bits at bit `offset`. A field as
/// wide as 64 bits is handled without shifting one past the top bit.
pub fn field_mask(offset: u32, width: u32) -> (mask: u64)
    requires
        offset + width <= 64,
    ensures
        mask == mask_of(offset as nat, width as nat),
        0 < width < 64 ==> mask == (((1u64 << width) - 1) as u64) << offset,
        width == 64 ==> mask == u64::MAX,
        width == 0 ==> mask == 0,
{
    proof {
        lemma_mask_fits(offset as nat, width as nat);
        lemma2_to64();
    }
    if width == 64 {
        proof {
            assert(pow2(0) == 1);
            assert(mask_of(0, 64) == u64::MAX) by (nonlinear_arith)
                requires
                    pow2(64) == 0x10000000000000000,
                    pow2(0) == 1,
                    mask_of(0, 64) == ((pow2(64) - 1) * pow2(0)) as nat,
            ;
        }
        u64::MAX
    } else if width == 0 {
        proof {
            assert(mask_of(offset as nat, 0) == 0) by (nonlinear_arith)
                requires
                    pow2(0) == 1,
                    mask_of(offset as nat, 0) == ((pow2(0) - 1) * pow2(offset as nat)) as nat,
            ;
        }
        0
    } else {
        let w: u64 = width as u64;
        let o: u64 = offset as u64;
        proof {
            assert(1u64 * pow2(w as nat) <= u64::MAX) by (nonlinear_arith)
                requires
                    pow2(w as nat) <= u64::MAX,
            ;
            lemma_u64_shl_is_mul(1u64, w);
            lemma_pow2_pos(w as nat);
        }
        let high: u64 = 1u64 << w;
        assert(high == pow2(w as nat));
        let low: u64 = high - 1;
        proof {
            lemma_u64_shl_is_mul(low, o);
        }
        low << o
    }
}

/// The value of the field at `offset` under `mask`, taken out of a value
/// of the register.
pub open spec fn extracted(word: u64, offset: u32, mask: u64) -> u64 {
    (word & mask) >> (offset as u64)
}

/// The value of the register with the field at `offset` under `mask` set
/// to `raw`, and all other bits as in `word`.
pub open spec fn inserted(word: u64, offset: u32, mask: u64, raw: u64) -> u64 {
    (word & !mask) | ((raw << (offset as u64)) & mask)
}

/// The mask written with shifts: the low `width` bits, moved up by
/// `offset`.
pub open spec fn shifted_mask(offset: u64, width: u64) -> u64 {
    if width >= 64 {
        0xffff_ffff_ffff_ffff
    } else {
        (((1u64 << width) - 1) as u64) << offset
    }
}

/// The arithmetic and the bitwise form of a mask are the same number.
pub proof fn lemma_mask_shape(offset: u32, width: u32)
    requires
        1 <= width,
        offset + width <= 64,
    ensures
        mask_of(offset as nat, width as nat) == shifted_mask(offset as u64, width as u64),
        width < 64 ==> (1u64 << (width as u64)) == pow2(width as nat),
{
    lemma_mask_fits(offset as nat, width as nat);
    lemma2_to64();
    if width == 64 {
        assert(mask_of(0, 64) == u64::MAX) by (nonlinear_arith)
            requires
                pow2(64) == 0x10000000000000000,
                pow2(0) == 1,
                mask_of(0, 64) == ((pow2(64) - 1) * pow2(0)) as nat,
        ;
    } else {
        let w: u64 = width as u64;
        let o: u64 = offset as u64;
        assert(1u64 * pow2(w as nat) <= u64::MAX) by (nonlinear_arith)
            requires
                pow2(w as nat) <= u64::MAX,
        ;
        lemma_u64_shl_is_mul(1u64, w);
        lemma_pow2_pos(w as nat);
        let low: u64 = ((1u64 << w) - 1) as u64;
        lemma_u64_shl_is_mul(low, o);
    }
}

proof fn lemma_field_bits(word: u64, raw: u64, o: u64, w: u64, m: u64)
    by (bit_vector)
    requires
        1 <= w,
        w <= 64,
        o <= 64 - w,
        m == (if w >= 64 {
            0xffff_ffff_ffff_ffffu64
        } else {
            (((1u64 << w) - 1) as u64) << o
        }),
        w >= 64 || raw < (1u64 << w),
    ensures
        ((((word & !m) | ((raw << o) & m)) & m) >> o) == raw,
        ((word & !m) | ((raw << o) & m)) & !m == word & !m,
        w >= 64 || ((word & m) >> o) < (1u64 << w),
{
}

proof fn lemma_disjoint_masks(o1: u64, w1: u64, o2: u64, w2: u64)
    by (bit_vector)
    requires
        1 <= w1,
        w1 <= 64,
        o1 <= 64 - w1,
        1 <= w2,
        w2 <= 64,
        o2 <= 64 - w2,
        o1 + w1 <= o2 || o2 + w2 <= o1,
    ensures
        (if w1 >= 64 {
            0xffff_ffff_ffff_ffffu64
        } else {
            (((1u64 << w1) - 1) as u64) << o1
        }) & (if w2 >= 64 {
            0xffff_ffff_ffff_ffffu64
        } else {
            (((1u64 << w2) - 1) as u64) << o2
        }) == 0,
{
}

proof fn lemma_other_bits(word: u64, x: u64, m1: u64, m2: u64)
    by (bit_vector)
    requires
        m1 & m2 == 0,
    ensures
        ((word & !m1) | (x & m1)) & m2 == word & m2,
{
}

/// Reading a field back after writing it gives what was written; writing
/// it changes no bit outside its mask; and what is read fits the field.
pub proof fn lemma_insert_extract(word: u64, offset: u32, width: u32, raw: u64)
    requires
        1 <= width,
        offset + width <= 64,
        raw < pow2(width as nat),
    ensures
        ({
            let mask = mask_of(offset as nat, width as nat) as u64;
            &&& extracted(inserted(word, offset, mask, raw), offset, mask) == raw
            &&& inserted(word, offset, mask, raw) & !mask == word & !mask
            &&& extracted(word, offset, mask) < pow2(width as nat)
        }),
{
    lemma_mask_shape(offset, width);
    lemma_mask_fits(offset as nat, width as nat);
    lemma2_to64();
    let mask = mask_of(offset as nat, width as nat) as u64;
    lemma_field_bits(word, raw, offset as u64, width as u64, mask);
}

/// Writing a field leaves every field that shares no bit with it as it
/// was.
pub proof fn lemma_insert_keeps_others(
    word: u64,
    offset: u32,
    width: u32,
    raw: u64,
    other_offset: u32,
    other_width: u32,
)
    requires
        1 <= width,
        offset + width <= 64,
        1 <= other_width,
        other_offset + other_width <= 64,
        offset + width <= other_offset || other_offset + other_width <= offset,
    ensures
        ({
            let mask = mask_of(offset as nat, width as nat) as u64;
            let other = mask_of(other_offset as nat, other_width as nat) as u64;
            extracted(inserted(word, offset, mask, raw), other_offset, other) == extracted(
                word,
                other_offset,
                other,
            )
        }),
{
    lemma_mask_shape(offset, width);
    lemma_mask_shape(other_offset, other_width);
    let mask = mask_of(offset as nat, width as nat) as u64;
    let other = mask_of(other_offset as nat, other_width as nat) as u64;
    lemma_disjoint_masks(offset as u64, width as u64, other_offset as u64, other_width as u64);
    lemma_other_bits(word, raw << (offset as u64), mask, other);
}

/// Takes the value of a field out of a value of its register.
pub fn extract_bits(word: u64, offset: u32, mask: u64) -> (raw: u64)
    requires
        offset < 64,
    ensures
        raw == extracted(word, offset, mask),
{
    (word & mask) >> (offset as u64)
}

/// Puts the value of a field into a value of its register.
pub fn insert_bits(word: u64, offset: u32, mask: u64, raw: u64) -> (out: u64)
    requires
        offset < 64,
    ensures
        out == inserted(word, offset, mask, raw),
{
    (word & !mask) | ((raw << (offset as u64)) & mask)
}

} // verus!
