//! A 64-bit hierarchical bitset with an 8-bit group summary. The general
//! allocator uses it to find non-exhausted chunks without scanning all 64
//! bits: a cleared group bit skips eight indices at once.

use vstd::prelude::*;

use crate::bitmask::has_bit;

verus! {

/// Bits per summary group.
pub const GROUP_SIZE: u32 = 8;

/// Summary consistency for one group: group bit `g` is set exactly when some
/// of the eight mask bits `8 g .. 8 g + 8` is set.
pub open spec fn group_ok(mask: u64, groups: u8, g: u32) -> bool {
    ((groups >> (g as u8)) & 1 == 1) <==> (mask & (0xffu64 << ((8 * g) as u64)) != 0)
}

/// Summary consistency for all eight groups.
pub open spec fn groups_ok(mask: u64, groups: u8) -> bool {
    forall|g: u32| g < 8 ==> #[trigger] group_ok(mask, groups, g)
}

/// A bitset over indices `0 .. 64`, with one summary bit per group of eight.
#[derive(Debug)]
pub struct BitSet {
    mask: u64,
    groups: u8,
}

impl BitSet {
    /// The 64-bit membership mask.
    pub closed spec fn spec_mask(self) -> u64 {
        self.mask
    }

    /// The 8-bit group summary.
    pub closed spec fn spec_groups(self) -> u8 {
        self.groups
    }

    /// True when `index` is in the set.
    pub open spec fn spec_contains(self, index: u32) -> bool {
        has_bit(self.spec_mask(), index)
    }

    /// Each group bit summarises its eight mask bits.
    pub open spec fn wf(self) -> bool {
        groups_ok(self.spec_mask(), self.spec_groups())
    }

    /// The empty set.
    pub fn new() -> (r: BitSet)
        ensures
            r.wf(),
            r.spec_mask() == 0,
    {
        proof {
            assert forall|g: u32| g < 8 implies #[trigger] group_ok(0, 0, g) by {
                assert(g < 8 ==> (((0u8 >> (g as u8)) & 1 == 1) <==> (0u64 & (0xffu64 << ((8
                    * g) as u64)) != 0))) by (bit_vector);
            }
        }
        BitSet { mask: 0, groups: 0 }
    }

    /// Add `index` to the set.
    pub fn add(&mut self, index: u32)
        requires
            old(self).wf(),
            index < 64,
        ensures
            final(self).wf(),
            final(self).spec_mask() == old(self).spec_mask() | (1u64 << (index as u64)),
            forall|i: u32|
                #[trigger] final(self).spec_contains(i) == (old(self).spec_contains(i) || i
                    == index),
    {
        let ghost m0 = self.mask;
        let ghost g0 = self.groups;
        self.mask = self.mask | (1u64 << (index as u64));
        self.groups = self.groups | (1u8 << ((index / GROUP_SIZE) as u8));
        proof {
            let m1 = self.mask;
            let g1 = self.groups;
            assert forall|g: u32| g < 8 implies #[trigger] group_ok(m1, g1, g) by {
                assert(group_ok(m0, g0, g));
                assert((g < 8 && index < 64 && m1 == m0 | (1u64 << (index as u64)) && g1 == g0 | (
                1u8 << ((index / 8) as u8)) && (((g0 >> (g as u8)) & 1 == 1) <==> (m0 & (0xffu64
                    << ((8 * g) as u64)) != 0))) ==> ((((g1 >> (g as u8)) & 1 == 1) <==> (m1 & (
                0xffu64 << ((8 * g) as u64)) != 0)))) by (bit_vector);
            }
            assert forall|i: u32| #[trigger] has_bit(m1, i) == (has_bit(m0, i) || i == index) by {
                assert((index < 64 && m1 == m0 | (1u64 << (index as u64))) ==> (i < 64 ==> (((m1
                    >> (i as u64)) & 1 == 1) <==> (((m0 >> (i as u64)) & 1 == 1) || i == index))))
                    by (bit_vector);
            }
        }
    }

    /// Remove `index` from the set, clearing the group bit when its eight
    /// mask bits all end up clear.
    pub fn remove(&mut self, index: u32)
        requires
            old(self).wf(),
            index < 64,
        ensures
            final(self).wf(),
            final(self).spec_mask() == old(self).spec_mask() & !(1u64 << (index as u64)),
            forall|i: u32|
                #[trigger] final(self).spec_contains(i) == (old(self).spec_contains(i) && i
                    != index),
    {
        let ghost m0 = self.mask;
        let ghost g0 = self.groups;
        self.mask = self.mask & !(1u64 << (index as u64));
        let group_index = index / GROUP_SIZE;
        proof {
            vstd::arithmetic::div_mod::lemma_div_is_ordered(index as int, 63, 8);
        }
        let group_mask = 0xffu64 << ((group_index * GROUP_SIZE) as u64);
        if self.mask & group_mask == 0 {
            self.groups = self.groups & !(1u8 << (group_index as u8));
        }
        proof {
            let m1 = self.mask;
            let g1 = self.groups;
            let cleared = m1 & (0xffu64 << ((8 * (index / 8)) as u64)) == 0;
            assert forall|g: u32| g < 8 implies #[trigger] group_ok(m1, g1, g) by {
                assert(group_ok(m0, g0, g));
                if cleared {
                    assert((g < 8 && index < 64 && m1 == m0 & !(1u64 << (index as u64)) && m1 & (
                    0xffu64 << ((8 * (index / 8)) as u64)) == 0 && g1 == g0 & !(1u8 << ((index
                        / 8) as u8)) && (((g0 >> (g as u8)) & 1 == 1) <==> (m0 & (0xffu64 << ((8
                        * g) as u64)) != 0))) ==> ((((g1 >> (g as u8)) & 1 == 1) <==> (m1 & (
                    0xffu64 << ((8 * g) as u64)) != 0)))) by (bit_vector);
                } else {
                    assert((g < 8 && index < 64 && m1 == m0 & !(1u64 << (index as u64)) && !(m1 & (
                    0xffu64 << ((8 * (index / 8)) as u64)) == 0) && g1 == g0 && (((g0 >> (
                    g as u8)) & 1 == 1) <==> (m0 & (0xffu64 << ((8 * g) as u64)) != 0))) ==> ((((g1
                        >> (g as u8)) & 1 == 1) <==> (m1 & (0xffu64 << ((8 * g) as u64)) != 0))))
                        by (bit_vector);
                }
            }
            assert forall|i: u32| #[trigger] has_bit(m1, i) == (has_bit(m0, i) && i != index) by {
                assert((index < 64 && m1 == m0 & !(1u64 << (index as u64))) ==> (i < 64 ==> (((m1
                    >> (i as u64)) & 1 == 1) <==> (((m0 >> (i as u64)) & 1 == 1) && i != index))))
                    by (bit_vector);
            }
        }
    }

    /// The raw group summary byte.
    pub fn groups(&self) -> (r: u8)
        ensures
            r == self.spec_groups(),
    {
        self.groups
    }

    /// An iterator over the set indices, in ascending order.
    pub fn iter(&self) -> (r: BitIterator)
        requires
            self.wf(),
        ensures
            r.wf(),
            r.spec_mask() == self.spec_mask(),
            r.spec_index() == 0,
    {
        BitIterator { mask: self.mask, groups: self.groups, index: 0 }
    }
}

/// Walks the set bits of a [`BitSet`] snapshot in ascending index order,
/// skipping eight indices at a time over empty groups.
pub struct BitIterator {
    mask: u64,
    groups: u8,
    index: u32,
}

impl BitIterator {
    /// The mask being walked.
    pub closed spec fn spec_mask(self) -> u64 {
        self.mask
    }

    /// The group summary of the mask being walked.
    pub closed spec fn spec_groups(self) -> u8 {
        self.groups
    }

    /// The cursor: all indices below it have been yielded or skipped.
    pub closed spec fn spec_index(self) -> u32 {
        self.index
    }

    /// The snapshot's group summary is consistent with its mask, and the
    /// cursor has not run past the 64 indices.
    pub open spec fn wf(self) -> bool {
        &&& groups_ok(self.spec_mask(), self.spec_groups())
        &&& self.spec_index() <= 64
    }

    /// Yield the smallest set bit at or past the cursor, or `None` when no
    /// set bit remains.
    pub fn next(&mut self) -> (r: Option<u32>)
        requires
            old(self).wf(),
        ensures
            final(self).wf(),
            final(self).spec_mask() == old(self).spec_mask(),
            final(self).spec_groups() == old(self).spec_groups(),
            match r {
                Some(b) => {
                    &&& old(self).spec_index() <= b < 64
                    &&& has_bit(old(self).spec_mask(), b)
                    &&& forall|j: u32|
                        old(self).spec_index() <= j < b ==> !has_bit(old(self).spec_mask(), j)
                    &&& final(self).spec_index() == b + 1
                },
                None => {
                    &&& forall|j: u32|
                        old(self).spec_index() <= j < 64 ==> !has_bit(old(self).spec_mask(), j)
                    &&& final(self).spec_index() == 64
                },
            },
    {
        let ghost m = self.mask;
        while self.index < 64 && (self.mask >> (self.index as u64)) & 1 == 0
            invariant
                old(self).wf(),
                self.mask == old(self).spec_mask(),
                self.groups == old(self).spec_groups(),
                m == old(self).spec_mask(),
                old(self).spec_index() <= self.index <= 64,
                forall|j: u32| old(self).spec_index() <= j < self.index ==> !has_bit(m, j),
            decreases 64 - self.index,
        {
            if self.index % GROUP_SIZE == 0 && (self.groups & (1u8 << ((self.index
                / GROUP_SIZE) as u8))) == 0 {
                proof {
                    let gs = self.groups;
                    let i0 = self.index;
                    vstd::arithmetic::div_mod::lemma_div_is_ordered(i0 as int, 63, 8);
                    assert(group_ok(m, gs, i0 / 8));
                    assert forall|j: u32| i0 <= j < i0 + 8 implies !has_bit(m, j) by {
                        assert((i0 < 64 && i0 % 8 == 0 && (gs & (1u8 << ((i0 / 8) as u8))) == 0 && (
                        ((gs >> ((i0 / 8) as u8)) & 1 == 1) <==> (m & (0xffu64 << ((8 * (i0
                            / 8)) as u64)) != 0)) && i0 <= j < i0 + 8) ==> !(j < 64 && (m >> (
                        j as u64)) & 1 == 1)) by (bit_vector);
                    }
                    assert(i0 < 64 && i0 % 8 == 0 ==> i0 + 8 <= 64) by (bit_vector);
                }
                self.index = self.index + GROUP_SIZE;
            } else {
                self.index = self.index + 1;
            }
        }
        if self.index >= 64 {
            None
        } else {
            let b = self.index;
            self.index = self.index + 1;
            proof {
                assert((m >> (b as u64)) & 1 == 0 || (m >> (b as u64)) & 1 == 1) by (bit_vector);
            }
            Some(b)
        }
    }
}

} // verus!
