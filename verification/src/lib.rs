//! GPU memory sub-allocation: a family of host-side allocators that sit
//! between an application and a device's raw memory interface. The device's
//! own allocator has a small quota, so the library issues few large device
//! allocations and hands out many small, correctly aligned sub-ranges.
//!
//! The device surface itself (allocate, free, map, unmap) is modelled by the
//! [`device::Device`] value type: it hands out fresh handles and keeps the
//! set of live allocations, while the embedding performs the real calls.

use vstd::prelude::*;

pub mod bitmask;
pub mod bitset;
pub mod chunk;
pub mod dedicated;
pub mod device;
pub mod entry;
pub mod general;
pub mod heap;
pub mod heaps;
pub mod linear;
pub mod mapping;
pub mod memory;
pub mod memory_type;
pub mod stats;
pub mod usage;

verus! {

/// Type for any memory size, in bytes.
pub type Size = u64;

/// Upper bound on request sizes, alignments and configured sizes. Machine
/// limit: it keeps every size computation of the allocators within `u64`.
pub const MAX_REQUEST_SIZE: Size = 0x100_0000_0000_0000;

/// Upper bound on the block sizes the general allocator tracks. Sizes at
/// most [`MAX_REQUEST_SIZE`] round up to at most this, and a chunk of 64
/// such blocks still fits in `u64`.
pub const MAX_BLOCK_SIZE: Size = 0x200_0000_0000_0000;

/// A half-open range of bytes within one memory allocation.
#[derive(Clone, Copy, Debug, PartialEq, Eq, Structural)]
pub struct ByteRange {
    /// First byte of the range.
    pub start: Size,
    /// One past the last byte of the range.
    pub end: Size,
}

impl ByteRange {
    /// Length of the range in bytes.
    pub open spec fn spec_len(self) -> int {
        self.end - self.start
    }

    /// A range is well formed when its start does not pass its end.
    pub open spec fn wf(self) -> bool {
        self.start <= self.end
    }

    /// Length of the range in bytes.
    pub fn len(&self) -> (r: Size)
        requires
            self.wf(),
        ensures
            r == self.spec_len(),
    {
        self.end - self.start
    }
}

/// True when a memory type is host-visible but not coherent, so that all
/// sizes and mapping ranges must be widened to the non-coherent atom.
pub open spec fn spec_non_coherent_visible(properties: crate::memory::Properties) -> bool {
    properties.host_visible && !properties.coherent
}

/// True when a memory type is host-visible but not coherent.
#[verifier::when_used_as_spec(spec_non_coherent_visible)]
pub fn is_non_coherent_visible(properties: crate::memory::Properties) -> (r: bool)
    ensures
        r == spec_non_coherent_visible(properties),
{
    properties.host_visible && !properties.coherent
}

/// True when `x` is a power of two. The bit form (`x` has no bit in common
/// with `x - 1`) is the one the bit-vector solver works with directly.
pub open spec fn is_power_of_two(x: Size) -> bool {
    x > 0 && x & ((x - 1) as u64) == 0
}

/// A power of two in the bit sense is two to some exponent below 64.
pub proof fn lemma_pow2_exists(a: u64)
    requires
        is_power_of_two(a),
    ensures
        exists|n: nat| n < 64 && a == vstd::arithmetic::power2::pow2(n),
    decreases a,
{
    vstd::arithmetic::power2::lemma2_to64();
    vstd::arithmetic::power2::lemma2_to64_rest();
    if a == 1 {
        assert(a == vstd::arithmetic::power2::pow2(0));
    } else {
        assert(a > 1 && a & ((a - 1) as u64) == 0 ==> a % 2 == 0 && a / 2 > 0 && (a / 2) & (((a / 2)
            - 1) as u64) == 0) by (bit_vector);
        lemma_pow2_exists(a / 2);
        let n = choose|n: nat| n < 64 && a / 2 == vstd::arithmetic::power2::pow2(n);
        if n >= 63 {
            vstd::arithmetic::power2::lemma_pow2_strictly_increases(63, n + 1);
            assert(false);
        }
        vstd::arithmetic::power2::lemma_pow2_adds(n, 1);
        assert(a == vstd::arithmetic::power2::pow2(n + 1));
    }
}

/// `value` rounded up to the next multiple of `align`, as a mathematical
/// value.
pub open spec fn round_up_spec(value: Size, align: Size) -> int
    recommends
        align >= 1,
{
    ((value + align - 1) as int / align as int) * align as int
}

/// The rounded value is the one multiple of `align` in the window
/// `[value, value + align)`.
pub proof fn lemma_round_up_characterisation(r: Size, value: Size, align: Size)
    requires
        align >= 1,
        r % align == 0,
        value <= r < value + align,
    ensures
        r == round_up_spec(value, align),
{
    broadcast use vstd::arithmetic::mul::lemma_mul_is_commutative;

    let a = align as int;
    let v = value as int;
    let q = (v + a - 1) / a;
    vstd::arithmetic::div_mod::lemma_fundamental_div_mod(v + a - 1, a);
    vstd::arithmetic::div_mod::lemma_mod_division_less_than_divisor(v + a - 1, a);
    vstd::arithmetic::div_mod::lemma_mod_multiples_basic(q, a);
    // `q * a` is a multiple of `align` in the same window as `r`.
    assert(v <= q * a < v + a);
    let lo = if r <= q * a {
        r as int
    } else {
        q * a
    };
    let hi = if r <= q * a {
        q * a
    } else {
        r as int
    };
    assert(hi - lo < a);
    assert(hi % a == 0 && lo % a == 0);
    vstd::arithmetic::div_mod::lemma_sub_mod_noop(hi, lo, a);
    vstd::arithmetic::div_mod::lemma_small_mod(0nat, a as nat);
    assert((hi - lo) % a == 0);
    vstd::arithmetic::div_mod::lemma_small_mod((hi - lo) as nat, a as nat);
    assert(hi - lo == 0);
}

/// Rounding up cannot pass a multiple of the alignment that is already at
/// or above the value.
pub proof fn lemma_round_up_below_multiple(value: Size, align: Size, bound: Size)
    requires
        align >= 1,
        1 <= value <= bound,
        bound as int % align as int == 0,
    ensures
        round_up_spec(value, align) <= bound,
{
    broadcast use vstd::arithmetic::mul::lemma_mul_is_commutative;

    let a = align as int;
    let r = round_up_spec(value, align);
    let q = (value + align - 1) as int / a;
    vstd::arithmetic::div_mod::lemma_fundamental_div_mod(value + align - 1, a);
    vstd::arithmetic::div_mod::lemma_mod_division_less_than_divisor(value + align - 1, a);
    vstd::arithmetic::div_mod::lemma_mod_multiples_basic(q, a);
    if r > bound {
        vstd::arithmetic::div_mod::lemma_sub_mod_noop(r, bound as int, a);
        vstd::arithmetic::div_mod::lemma_small_mod(0nat, a as nat);
        // two distinct multiples of `a` differ by at least `a`
        if r - bound < a {
            vstd::arithmetic::div_mod::lemma_small_mod((r - bound) as nat, a as nat);
            assert(false);
        }
        assert(r - a >= bound >= value);
        assert(r < value + a);
        assert(false);
    }
}

/// Divisibility is transitive: a multiple of a multiple of `a` is a
/// multiple of `a`.
pub proof fn lemma_divides_transitive(a: int, b: int, c: int)
    requires
        a >= 1,
        b >= 1,
        b % a == 0,
        c % b == 0,
    ensures
        c % a == 0,
{
    broadcast use vstd::arithmetic::mul::lemma_mul_is_commutative;

    vstd::arithmetic::div_mod::lemma_fundamental_div_mod(c, b);
    vstd::arithmetic::div_mod::lemma_fundamental_div_mod(b, a);
    assert(b * (c / b) == a * ((b / a) * (c / b))) by (nonlinear_arith)
        requires
            b == a * (b / a),
    ;
    vstd::arithmetic::div_mod::lemma_mod_multiples_basic((b / a) * (c / b), a);
}

/// A smaller power of two divides a larger one.
pub proof fn lemma_pow2_divides(small: u64, big: u64)
    requires
        is_power_of_two(small),
        is_power_of_two(big),
        small <= big,
    ensures
        big % small == 0,
{
    broadcast use vstd::arithmetic::mul::lemma_mul_is_commutative;

    lemma_pow2_exists(small);
    lemma_pow2_exists(big);
    let n = choose|n: nat| n < 64 && small == vstd::arithmetic::power2::pow2(n);
    let m = choose|m: nat| m < 64 && big == vstd::arithmetic::power2::pow2(m);
    if n > m {
        vstd::arithmetic::power2::lemma_pow2_strictly_increases(m, n);
        assert(false);
    }
    vstd::arithmetic::power2::lemma_pow2_adds(n, (m - n) as nat);
    vstd::arithmetic::div_mod::lemma_mod_multiples_basic(
        vstd::arithmetic::power2::pow2((m - n) as nat) as int,
        small as int,
    );
}

/// For a power-of-two `align`, being a multiple of `align` is the same as
/// having none of the low bits `align - 1`.
pub proof fn lemma_mask_mod_equiv(x: u64, align: u64)
    requires
        is_power_of_two(align),
    ensures
        x % align == 0 <==> x & ((align - 1) as u64) == 0,
{
    lemma_pow2_exists(align);
    let n = choose|n: nat|
        n < 64 && align == vstd::arithmetic::power2::pow2(n);
    vstd::bits::lemma_u64_low_bits_mask_is_mod(x, n);
    assert(vstd::bits::low_bits_mask(n) as u64 == (align - 1) as u64);
}

/// `size` rounded up to the next multiple of `align`. The result is the one
/// multiple of `align` in `[size, size + align)`.
pub fn align_size(size: Size, align: Size) -> (r: Size)
    requires
        size >= 1,
        align >= 1,
        size + align - 1 <= Size::MAX,
    ensures
        r % align == 0,
        size <= r < size + align,
        r == round_up_spec(size, align),
{
    let q = (size - 1) / align;
    proof {
        broadcast use vstd::arithmetic::mul::lemma_mul_is_commutative;

        vstd::arithmetic::div_mod::lemma_fundamental_div_mod(size - 1, align as int);
        vstd::arithmetic::div_mod::lemma_mod_division_less_than_divisor(size - 1, align as int);
        assert(q as int * (align as int) >= q as int) by (nonlinear_arith)
            requires
                align >= 1,
                q >= 0,
        ;
        assert(q <= size - 1);
    }
    let m = q + 1;
    proof {
        broadcast use vstd::arithmetic::mul::lemma_mul_is_commutative;

        assert(m as int * (align as int) == q as int * (align as int) + align) by (nonlinear_arith)
            requires
                m == q as int + 1,
        ;
        vstd::arithmetic::div_mod::lemma_mod_multiples_basic(m as int, align as int);
        assert(m as int * (align as int) <= size + align - 1);
    }
    let r = m * align;
    proof {
        lemma_round_up_characterisation(r, size, align);
    }
    r
}

/// Widen `range` outward so that both ends are multiples of `align`.
/// Used to expand a requested mapping range to whole non-coherent atoms.
pub fn align_range(range: &ByteRange, align: Size) -> (r: ByteRange)
    requires
        range.wf(),
        range.end >= 1,
        align >= 1,
        range.end + align - 1 <= Size::MAX,
    ensures
        r.start % align == 0,
        r.end % align == 0,
        r.start <= range.start < r.start + align,
        r.end - align < range.end <= r.end,
        r.wf(),
{
    proof {
        broadcast use vstd::arithmetic::mul::lemma_mul_is_commutative;

        vstd::arithmetic::div_mod::lemma_fundamental_div_mod(range.start as int, align as int);
        vstd::arithmetic::div_mod::lemma_mod_division_less_than_divisor(
            range.start as int,
            align as int,
        );
        vstd::arithmetic::div_mod::lemma_mod_multiples_basic(
            range.start as int / align as int,
            align as int,
        );
        let q0 = range.start as int / align as int;
        assert(q0 * (align as int) >= 0) by (nonlinear_arith)
            requires
                align >= 1,
                q0 >= 0,
        ;
        vstd::arithmetic::div_mod::lemma_div_pos_is_pos(range.start as int, align as int);
    }
    let start = range.start - range.start % align;
    let end = align_size(range.end, align);
    ByteRange { start, end }
}

/// `value` rounded up to the next multiple of a power-of-two `align`,
/// by the carry trick `((value - 1) | (align - 1)) + 1`.
pub fn align_offset(value: Size, align: Size) -> (r: Size)
    requires
        is_power_of_two(align),
        value + align - 1 <= Size::MAX,
    ensures
        r % align == 0,
        value <= r < value + align,
        r == round_up_spec(value, align),
{
    if value == 0 {
        proof {
            vstd::arithmetic::div_mod::lemma_basic_div(align - 1, align as int);
            assert(((align - 1) as int / align as int) * (align as int) == 0) by (nonlinear_arith)
                requires
                    (align - 1) as int / (align as int) == 0,
            ;
        }
        0
    } else {
        proof {
            let v = value;
            let a = align;
            assert(a > 0 && v > 0 ==> {
                &&& v - 1 <= ((v - 1) as u64 | (a - 1) as u64)
                &&& ((v - 1) as u64 | (a - 1) as u64) <= (v - 1) + (a - 1)
            }) by (bit_vector);
        }
        let r = 1 + ((value - 1) | (align - 1));
        proof {
            let v = value;
            let a = align;
            assert(a > 0 && a & ((a - 1) as u64) == 0 && v > 0 && r as int == ((v - 1) as u64 | (a
                - 1) as u64) as int + 1 ==> r & ((a - 1) as u64) == 0) by (bit_vector);
            lemma_mask_mod_equiv(r, align);
            lemma_round_up_characterisation(r, value, align);
        }
        r
    }
}

/// A requested view into a block: an offset and an optional length (absent
/// means "to the end of the block").
#[derive(Clone, Copy, Debug, PartialEq, Eq, Structural)]
pub struct Segment {
    /// Offset in bytes from the start of the block.
    pub offset: Size,
    /// Length in bytes, or the rest of the block.
    pub size: Option<Size>,
}

/// Resolve a segment of a block to an absolute byte range within `whole`,
/// or report that it falls outside the block.
pub fn segment_to_sub_range(segment: Segment, whole: &ByteRange) -> (r: Result<
    ByteRange,
    crate::device::MapError,
>)
    requires
        whole.wf(),
        whole.end + 1 <= Size::MAX,
    ensures
        match r {
            Ok(sub) => {
                &&& sub.wf()
                &&& sub.start == whole.start + segment.offset
                &&& whole.start <= sub.start
                &&& sub.end <= whole.end
                &&& (segment.size matches Some(s) ==> sub.spec_len() == s)
                &&& (segment.size is None ==> sub.end == whole.end && sub.start < whole.end)
            },
            Err(e) => {
                &&& e == crate::device::MapError::OutOfBounds
                &&& match segment.size {
                    Some(s) => whole.start + segment.offset + s > whole.end,
                    None => whole.start + segment.offset >= whole.end,
                }
            },
        },
{
    if segment.offset > whole.end - whole.start {
        return Err(crate::device::MapError::OutOfBounds);
    }
    let start = whole.start + segment.offset;
    match segment.size {
        Some(s) => {
            if s <= whole.end - start {
                Ok(ByteRange { start, end: start + s })
            } else {
                Err(crate::device::MapError::OutOfBounds)
            }
        },
        None => {
            if start < whole.end {
                Ok(ByteRange { start, end: whole.end })
            } else {
                Err(crate::device::MapError::OutOfBounds)
            }
        },
    }
}

/// One allocation request, as harnesses and tests describe it.
#[derive(Clone, Copy, Debug, PartialEq, Eq, Structural)]
pub struct Allocation {
    /// The size of the requested block.
    pub size: u64,
    /// Required alignment for the request.
    pub alignment: u64,
}

/// Saturating addition at the machine limit, as the counters use it.
pub open spec fn sat_add(x: Size, y: Size) -> int {
    if x + y <= Size::MAX {
        x + y
    } else {
        Size::MAX as int
    }
}

/// Saturating subtraction at zero, as the counters use it.
pub open spec fn sat_sub(x: Size, y: Size) -> int {
    if x >= y {
        x - y
    } else {
        0
    }
}

/// True when `sub` lies entirely within `range`.
pub fn is_sub_range(sub: &ByteRange, range: &ByteRange) -> (r: bool)
    ensures
        r == (sub.start >= range.start && sub.end <= range.end),
{
    sub.start >= range.start && sub.end <= range.end
}

} // verus!
