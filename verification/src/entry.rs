//! Bookkeeping containers of the general allocator: the slab of chunks of
//! one block size, the per-size entry, the table mapping block sizes to
//! entries, and the ordered set of sizes that have chunks.

use vstd::prelude::*;

use crate::bitset::BitSet;
use crate::chunk::Chunk;
use crate::Size;

verus! {

/// A slab of chunks: a vector of slots, each empty or holding a chunk.
/// Freed slots are reused by index, so chunk indices stay stable.
#[derive(Debug)]
pub struct ChunkSlab {
    slots: Vec<Option<Chunk>>,
}

impl ChunkSlab {
    /// The slots, in index order.
    pub closed spec fn view_seq(self) -> Seq<Option<Chunk>> {
        self.slots@
    }

    /// True when slot `i` holds a chunk.
    pub open spec fn occupied(self, i: int) -> bool {
        0 <= i < self.view_seq().len() && self.view_seq()[i] is Some
    }

    /// The chunk in slot `i`.
    pub open spec fn chunk_at(self, i: int) -> Chunk {
        self.view_seq()[i]->Some_0
    }

    /// An empty slab.
    pub fn new() -> (r: ChunkSlab)
        ensures
            r.view_seq() =~= Seq::<Option<Chunk>>::empty(),
    {
        ChunkSlab { slots: Vec::new() }
    }

    /// Number of slots (occupied or not).
    pub fn slot_count(&self) -> (r: usize)
        ensures
            r == self.view_seq().len(),
    {
        self.slots.len()
    }

    /// The lowest vacant index: the key the next insert will use.
    pub fn vacant_key(&self) -> (r: usize)
        ensures
            r <= self.view_seq().len(),
            forall|j: int| 0 <= j < r ==> self.occupied(j),
            r < self.view_seq().len() ==> !self.occupied(r as int),
    {
        let mut i: usize = 0;
        while i < self.slots.len() && self.slots[i].is_some()
            invariant
                i <= self.slots@.len(),
                forall|j: int| 0 <= j < i ==> self.occupied(j),
            decreases self.slots@.len() - i,
        {
            i = i + 1;
        }
        i
    }

    /// True when no slot holds a chunk.
    pub fn is_empty(&self) -> (r: bool)
        ensures
            r == (forall|j: int| !self.occupied(j)),
    {
        let mut i: usize = 0;
        while i < self.slots.len() && self.slots[i].is_none()
            invariant
                i <= self.slots@.len(),
                forall|j: int| 0 <= j < i ==> !self.occupied(j),
            decreases self.slots@.len() - i,
        {
            i = i + 1;
        }
        if i >= self.slots.len() {
            proof {
                assert forall|j: int| !self.occupied(j) by {
                    if 0 <= j < i {
                        assert(!self.occupied(j));
                    }
                }
            }
            true
        } else {
            proof {
                assert(self.occupied(i as int));
            }
            false
        }
    }

    /// Put `chunk` into the lowest vacant slot and return its index.
    pub fn insert(&mut self, chunk: Chunk) -> (i: usize)
        ensures
            i <= old(self).view_seq().len(),
            !old(self).occupied(i as int),
            final(self).occupied(i as int),
            final(self).chunk_at(i as int) == chunk,
            final(self).view_seq() =~= (if i < old(self).view_seq().len() {
                old(self).view_seq().update(i as int, Some(chunk))
            } else {
                old(self).view_seq().push(Some(chunk))
            }),
            forall|j: int| 0 <= j < i ==> old(self).occupied(j),
            forall|j: int|
                j != i ==> #[trigger] final(self).occupied(j) == old(self).occupied(j),
            forall|j: int|
                j != i && old(self).occupied(j) ==> #[trigger] final(self).chunk_at(j) == old(
                    self,
                ).chunk_at(j),
    {
        let key = self.vacant_key();
        if key < self.slots.len() {
            self.slots.remove(key);
            self.slots.insert(key, Some(chunk));
        } else {
            self.slots.push(Some(chunk));
        }
        key
    }

    /// Whether slot `i` holds a chunk.
    pub fn is_occupied(&self, i: usize) -> (r: bool)
        ensures
            r == self.occupied(i as int),
    {
        i < self.slots.len() && self.slots[i].is_some()
    }

    /// Borrow the chunk in slot `i`.
    pub fn borrow(&self, i: usize) -> (r: &Chunk)
        requires
            self.occupied(i as int),
        ensures
            r == self.chunk_at(i as int),
    {
        match &self.slots[i] {
            Some(chunk) => chunk,
            None => vstd::pervasive::unreached(),
        }
    }

    /// Take the chunk out of slot `i`, leaving it vacant.
    pub fn take(&mut self, i: usize) -> (r: Chunk)
        requires
            old(self).occupied(i as int),
        ensures
            r == old(self).chunk_at(i as int),
            final(self).view_seq() =~= old(self).view_seq().update(i as int, None),
            !final(self).occupied(i as int),
            forall|j: int|
                j != i ==> #[trigger] final(self).occupied(j) == old(self).occupied(j),
            forall|j: int|
                j != i && old(self).occupied(j) ==> #[trigger] final(self).chunk_at(j) == old(
                    self,
                ).chunk_at(j),
    {
        let slot = self.slots.remove(i);
        self.slots.insert(i, None);
        match slot {
            Some(chunk) => chunk,
            None => vstd::pervasive::unreached(),
        }
    }

    /// Put `chunk` back into the vacant slot `i`.
    pub fn put(&mut self, i: usize, chunk: Chunk)
        requires
            i < old(self).view_seq().len(),
            !old(self).occupied(i as int),
        ensures
            final(self).view_seq() =~= old(self).view_seq().update(i as int, Some(chunk)),
            final(self).occupied(i as int),
            final(self).chunk_at(i as int) == chunk,
            forall|j: int|
                j != i ==> #[trigger] final(self).occupied(j) == old(self).occupied(j),
            forall|j: int|
                j != i && old(self).occupied(j) ==> #[trigger] final(self).chunk_at(j) == old(
                    self,
                ).chunk_at(j),
    {
        self.slots.remove(i);
        self.slots.insert(i, Some(chunk));
    }
}

/// The bucket for one block size: its chunks, a bitset of the chunks worth
/// scanning, and a lifetime counter of blocks allocated at this size.
#[derive(Debug)]
pub struct SizeEntry {
    /// Total count of blocks ever allocated with this entry's size.
    pub total_blocks: Size,
    /// Bits per chunk index that is worth scanning for free blocks.
    pub ready_chunks: BitSet,
    /// The chunks of this size.
    pub chunks: ChunkSlab,
}

impl SizeEntry {
    /// The ready bitset is consistent, every ready index is an occupied
    /// slot, every chunk is a well-formed chunk of `block_size`-byte
    /// blocks, and indices stay within the 64-bit ready bitset. A ready bit
    /// may stay set on a chunk that a scan exhausted: the scan only skips
    /// it, so the summary is an over-approximation of the chunks worth
    /// scanning, never an under-approximation.
    pub open spec fn wf(self, block_size: Size) -> bool {
        &&& self.ready_chunks.wf()
        &&& self.chunks.view_seq().len() <= 64
        &&& forall|i: u32|
            self.ready_chunks.spec_contains(i) ==> #[trigger] self.chunks.occupied(i as int)
        &&& forall|i: int|
            self.chunks.occupied(i) ==> (#[trigger] self.chunks.chunk_at(i)).wf(block_size)
    }

    /// An empty entry.
    pub fn new() -> (r: SizeEntry)
        ensures
            r.total_blocks == 0,
            r.ready_chunks.wf(),
            r.ready_chunks.spec_mask() == 0,
            r.chunks.view_seq() =~= Seq::<Option<Chunk>>::empty(),
    {
        SizeEntry { total_blocks: 0, ready_chunks: BitSet::new(), chunks: ChunkSlab::new() }
    }
}

/// The table from block size to its entry. Sizes are never removed for the
/// allocator's lifetime, except transiently while an entry is worked on.
#[derive(Debug)]
pub struct SizeTable {
    items: Vec<(Size, SizeEntry)>,
}

impl SizeTable {
    /// The key/entry pairs, in insertion order.
    pub closed spec fn view_seq(self) -> Seq<(Size, SizeEntry)> {
        self.items@
    }

    /// True when the table has an entry for `key`.
    pub open spec fn contains_key(self, key: Size) -> bool {
        exists|i: int|
            0 <= i < self.view_seq().len() && (#[trigger] self.view_seq()[i]).0 == key
    }

    /// The index of `key`'s pair.
    pub open spec fn index_of(self, key: Size) -> int {
        choose|i: int| 0 <= i < self.view_seq().len() && (#[trigger] self.view_seq()[i]).0 == key
    }

    /// The entry stored for `key`.
    pub open spec fn entry_at(self, key: Size) -> SizeEntry {
        self.view_seq()[self.index_of(key)].1
    }

    /// No key occurs twice.
    pub open spec fn wf(self) -> bool {
        forall|i: int, j: int|
            0 <= i < j < self.view_seq().len() ==> (#[trigger] self.view_seq()[i]).0 != (
            #[trigger] self.view_seq()[j]).0
    }

    /// An empty table.
    pub fn new() -> (r: SizeTable)
        ensures
            r.wf(),
            r.view_seq() =~= Seq::<(Size, SizeEntry)>::empty(),
            forall|k: Size| !r.contains_key(k),
    {
        SizeTable { items: Vec::new() }
    }

    /// Whether the table has an entry for `key`.
    pub fn contains(&self, key: Size) -> (r: bool)
        ensures
            r == self.contains_key(key),
    {
        let mut i: usize = 0;
        while i < self.items.len() && self.items[i].0 != key
            invariant
                i <= self.items@.len(),
                forall|j: int| 0 <= j < i ==> (#[trigger] self.items@[j]).0 != key,
            decreases self.items@.len() - i,
        {
            i = i + 1;
        }
        if i < self.items.len() {
            proof {
                assert(self.view_seq()[i as int].0 == key);
            }
            true
        } else {
            proof {
                if self.contains_key(key) {
                    let j = choose|j: int|
                        0 <= j < self.view_seq().len() && (#[trigger] self.view_seq()[j]).0 == key;
                    assert(false);
                }
            }
            false
        }
    }

    /// Take `key`'s entry out of the table, if it is there.
    pub fn take(&mut self, key: Size) -> (r: Option<SizeEntry>)
        requires
            old(self).wf(),
        ensures
            final(self).wf(),
            !final(self).contains_key(key),
            match r {
                Some(_) => old(self).contains_key(key),
                None => !old(self).contains_key(key),
            },
            r matches Some(e) ==> e == old(self).entry_at(key),
            r is None ==> final(self).view_seq() == old(self).view_seq(),
            forall|k: Size|
                k != key ==> #[trigger] final(self).contains_key(k) == old(self).contains_key(k),
            forall|k: Size|
                k != key && old(self).contains_key(k) ==> #[trigger] final(self).entry_at(k)
                    == old(self).entry_at(k),
            final(self).view_seq().len() <= old(self).view_seq().len(),
    {
        let ghost pre = self.items@;
        let mut i: usize = 0;
        while i < self.items.len() && self.items[i].0 != key
            invariant
                i <= self.items@.len(),
                forall|j: int| 0 <= j < i ==> (#[trigger] self.items@[j]).0 != key,
                self == old(self),
            decreases self.items@.len() - i,
        {
            i = i + 1;
        }
        if i >= self.items.len() {
            proof {
                if old(self).contains_key(key) {
                    let j = old(self).index_of(key);
                    assert(false);
                }
            }
            return None;
        }
        let ghost idx = i as int;
        proof {
            assert(pre[idx].0 == key);
        }
        let (_, entry) = self.items.remove(i);
        proof {
            let post = self.items@;
            assert(old(self).contains_key(key));
            assert(old(self).view_seq()[old(self).index_of(key)].0 == key);
            assert(old(self).index_of(key) == idx);
            assert forall|k: Size| k != key implies #[trigger] self.contains_key(k) == old(
                self,
            ).contains_key(k) by {
                if old(self).contains_key(k) {
                    let j = old(self).index_of(k);
                    assert(pre[j].0 == k);
                    if j < idx {
                        assert(post[j].0 == k);
                    } else {
                        assert(post[j - 1].0 == k);
                    }
                }
                if self.contains_key(k) {
                    let j = self.index_of(k);
                    assert(post[j].0 == k);
                    if j < idx {
                        assert(pre[j].0 == k);
                    } else {
                        assert(pre[j + 1].0 == k);
                    }
                }
            }
            assert forall|k: Size| k != key && old(self).contains_key(k) implies #[trigger] self
                .entry_at(k) == old(self).entry_at(k) by {
                let j = old(self).index_of(k);
                assert(pre[j].0 == k);
                let j2 = if j < idx {
                    j
                } else {
                    j - 1
                };
                assert(post[j2].0 == k && post[j2].1 == pre[j].1);
                assert(self.contains_key(k));
                let j3 = self.index_of(k);
                assert(post[j3].0 == k);
                // keys are unique, so the found index is the stored one
                if j3 != j2 {
                    let back = if j3 < idx {
                        j3
                    } else {
                        j3 + 1
                    };
                    assert(pre[back].0 == k);
                    assert(false);
                }
            }
            assert(!self.contains_key(key)) by {
                if self.contains_key(key) {
                    let j = self.index_of(key);
                    assert(post[j].0 == key);
                    if j < idx {
                        assert(pre[j].0 == key);
                    } else {
                        assert(pre[j + 1].0 == key);
                    }
                    assert(false);
                }
            }
        }
        Some(entry)
    }

    /// Store an entry for a key the table does not have.
    pub fn put(&mut self, key: Size, entry: SizeEntry)
        requires
            old(self).wf(),
            !old(self).contains_key(key),
        ensures
            final(self).wf(),
            final(self).contains_key(key),
            final(self).entry_at(key) == entry,
            forall|k: Size|
                k != key ==> #[trigger] final(self).contains_key(k) == old(self).contains_key(k),
            forall|k: Size|
                k != key && old(self).contains_key(k) ==> #[trigger] final(self).entry_at(k)
                    == old(self).entry_at(k),
            final(self).view_seq().len() == old(self).view_seq().len() + 1,
    {
        let ghost pre = self.items@;
        self.items.push((key, entry));
        proof {
            let post = self.items@;
            let n = pre.len() as int;
            assert(pre == old(self).view_seq());
            assert(post == self.view_seq());
            assert(post[n].0 == key);
            assert forall|i: int, j: int|
                0 <= i < j < post.len() implies (#[trigger] post[i]).0 != (#[trigger] post[j]).0 by {
                if j < n {
                    assert(pre[i].0 != pre[j].0);
                } else {
                    if post[i].0 == key {
                        assert(pre[i].0 == key);
                        assert(false);
                    }
                }
            }
            assert(self.index_of(key) == n) by {
                let j = self.index_of(key);
                assert(post[j].0 == key);
                if j != n {
                    assert(pre[j].0 == key);
                    assert(false);
                }
            }
            assert forall|k: Size| k != key && old(self).contains_key(k) implies #[trigger] self
                .entry_at(k) == old(self).entry_at(k) by {
                let j = old(self).index_of(k);
                assert(pre[j].0 == k);
                assert(post[j].0 == k);
                assert(self.contains_key(k));
                let j2 = self.index_of(k);
                assert(post[j2].0 == k);
                if j2 != j {
                    if j2 < n {
                        assert(pre[j2].0 == k);
                        assert(false);
                    } else {
                        assert(false);
                    }
                }
            }
            assert forall|k: Size| k != key implies #[trigger] self.contains_key(k) == old(
                self,
            ).contains_key(k) by {
                if old(self).contains_key(k) {
                    let j = old(self).index_of(k);
                    assert(post[j].0 == k);
                }
                if self.contains_key(k) {
                    let j = self.index_of(k);
                    assert(post[j].0 == k);
                    assert(pre[j].0 == k);
                }
            }
        }
    }

    /// How many entries the table holds.
    pub fn len(&self) -> (r: usize)
        ensures
            r == self.view_seq().len(),
    {
        self.items.len()
    }

    /// The `i`-th key, in insertion order.
    pub fn key_at(&self, i: usize) -> (r: Size)
        requires
            i < self.view_seq().len(),
        ensures
            r == self.view_seq()[i as int].0,
            self.contains_key(r),
    {
        self.items[i].0
    }

    /// Borrow the `i`-th entry, in insertion order.
    pub fn entry_ref_at(&self, i: usize) -> (r: &SizeEntry)
        requires
            self.wf(),
            i < self.view_seq().len(),
        ensures
            r == self.entry_at(self.view_seq()[i as int].0),
    {
        proof {
            let k = self.view_seq()[i as int].0;
            let j = self.index_of(k);
            assert(self.view_seq()[j].0 == k);
            if j != i {
                assert(false);
            }
        }
        &self.items[i].1
    }
}

/// The ordered set of block sizes that have at some point had a chunk
/// allocated at that size. Drives the cross-size chunk reuse search.
#[derive(Debug)]
pub struct ChunkSizes {
    items: Vec<Size>,
}

impl ChunkSizes {
    /// The sizes, in ascending order.
    pub closed spec fn view_seq(self) -> Seq<Size> {
        self.items@
    }

    /// True when `v` is in the set.
    pub open spec fn contains(self, v: Size) -> bool {
        exists|i: int| 0 <= i < self.view_seq().len() && self.view_seq()[i] == v
    }

    /// The sizes are strictly ascending.
    pub open spec fn wf(self) -> bool {
        forall|i: int, j: int|
            #![trigger self.view_seq()[i], self.view_seq()[j]]
            0 <= i < j < self.view_seq().len() ==> self.view_seq()[i] < self.view_seq()[j]
    }

    /// An empty set.
    pub fn new() -> (r: ChunkSizes)
        ensures
            r.wf(),
            forall|v: Size| !r.contains(v),
    {
        ChunkSizes { items: Vec::new() }
    }

    /// Add `v` to the set; adding a member changes nothing.
    pub fn insert(&mut self, v: Size)
        requires
            old(self).wf(),
        ensures
            final(self).wf(),
            forall|x: Size| #[trigger] final(self).contains(x) == (old(self).contains(x) || x == v),
    {
        let ghost pre = self.items@;
        proof {
            assert(pre == old(self).view_seq());
        }
        let mut i: usize = 0;
        while i < self.items.len() && self.items[i] < v
            invariant
                i <= self.items@.len(),
                forall|j: int| 0 <= j < i ==> self.items@[j] < v,
                self == old(self),
            decreases self.items@.len() - i,
        {
            i = i + 1;
        }
        if i < self.items.len() && self.items[i] == v {
            proof {
                assert(self.view_seq()[i as int] == v);
                assert forall|x: Size| #[trigger] self.contains(x) == (old(self).contains(x) || x
                    == v) by {}
            }
            return ;
        }
        self.items.insert(i, v);
        proof {
            let post = self.items@;
            let idx = i as int;
            assert(pre == old(self).view_seq());
            assert(post == self.view_seq());
            assert(idx < pre.len() ==> pre[idx] > v);
            assert(post[idx] == v);
            assert forall|a: int, b: int| 0 <= a < b < post.len() implies post[a] < post[b] by {
                if a < idx && b > idx {
                    assert(pre[a] == post[a] && pre[b - 1] == post[b]);
                    if idx < pre.len() {
                        assert(pre[idx] == post[idx + 1]);
                    }
                } else if a == idx {
                    assert(post[b] == pre[b - 1]);
                    assert(pre[b - 1] >= v);
                    assert(pre[b - 1] != v);
                } else if b == idx {
                    assert(post[a] == pre[a]);
                } else if b < idx {
                    assert(post[a] == pre[a] && post[b] == pre[b]);
                } else {
                    assert(post[a] == pre[a - 1] && post[b] == pre[b - 1]);
                }
            }
            assert forall|x: Size| #[trigger] self.contains(x) == (old(self).contains(x) || x
                == v) by {
                if old(self).contains(x) {
                    let j = choose|j: int| 0 <= j < pre.len() && pre[j] == x;
                    if j < idx {
                        assert(post[j] == x);
                    } else {
                        assert(post[j + 1] == x);
                    }
                }
                if self.contains(x) && x != v {
                    let j = choose|j: int| 0 <= j < post.len() && post[j] == x;
                    if j < idx {
                        assert(pre[j] == x);
                    } else if j > idx {
                        assert(pre[j - 1] == x);
                    }
                }
            }
        }
    }

    /// The largest member in `[lo, hi]` divisible by `divisor`, if any.
    pub fn find_rev_multiple(&self, lo: Size, hi: Size, divisor: Size) -> (r: Option<Size>)
        requires
            self.wf(),
            divisor >= 1,
        ensures
            match r {
                Some(x) => {
                    &&& self.contains(x)
                    &&& lo <= x <= hi
                    &&& x as int % divisor as int == 0
                    &&& forall|y: Size|
                        self.contains(y) && lo <= y <= hi && y as int % divisor as int == 0 ==> y
                            <= x
                },
                None => forall|y: Size|
                    !(self.contains(y) && lo <= y <= hi && y as int % divisor as int == 0),
            },
    {
        let mut i: usize = self.items.len();
        while i > 0
            invariant
                self.wf(),
                i <= self.items@.len(),
                divisor >= 1,
                forall|j: int|
                    i <= j < self.items@.len() ==> !(lo <= self.items@[j] <= hi && (
                    #[trigger] self.items@[j]) as int % divisor as int == 0),
            decreases i,
        {
            i = i - 1;
            let x = self.items[i];
            if lo <= x && x <= hi && x % divisor == 0 {
                proof {
                    assert(self.items@ == self.view_seq());
                    assert(self.view_seq()[i as int] == x);
                    assert forall|y: Size|
                        self.contains(y) && lo <= y <= hi && y as int % divisor as int
                            == 0 implies y <= x by {
                        let j = choose|j: int|
                            0 <= j < self.view_seq().len() && self.view_seq()[j] == y;
                        if j > i {
                            assert(!(lo <= self.items@[j] <= hi && self.items@[j] as int
                                % divisor as int == 0));
                        } else if j < i {
                            assert(self.wf());
                            assert(j < (i as int) && (i as int) < self.view_seq().len());
                            assert(self.view_seq()[j] < self.view_seq()[i as int]);
                        }
                    }
                }
                return Some(x);
            }
        }
        proof {
            assert forall|y: Size|
                !(self.contains(y) && lo <= y <= hi && y as int % divisor as int == 0) by {
                if self.contains(y) && lo <= y <= hi && y as int % divisor as int == 0 {
                    let j = choose|j: int|
                        0 <= j < self.view_seq().len() && self.view_seq()[j] == y;
                    assert(!(lo <= self.items@[j] <= hi && self.items@[j] as int % divisor as int
                        == 0));
                }
            }
        }
        None
    }

    /// The smallest member in `[lo, hi)` divisible by `divisor`, if any.
    pub fn find_fwd_multiple(&self, lo: Size, hi: Size, divisor: Size) -> (r: Option<Size>)
        requires
            self.wf(),
            divisor >= 1,
        ensures
            match r {
                Some(x) => {
                    &&& self.contains(x)
                    &&& lo <= x < hi
                    &&& x as int % divisor as int == 0
                    &&& forall|y: Size|
                        self.contains(y) && lo <= y < hi && y as int % divisor as int == 0 ==> y
                            >= x
                },
                None => forall|y: Size|
                    !(self.contains(y) && lo <= y < hi && y as int % divisor as int == 0),
            },
    {
        let mut i: usize = 0;
        while i < self.items.len()
            invariant
                self.wf(),
                i <= self.items@.len(),
                divisor >= 1,
                forall|j: int|
                    0 <= j < i ==> !(lo <= self.items@[j] < hi && (#[trigger] self.items@[j]) as int
                        % divisor as int == 0),
            decreases self.items@.len() - i,
        {
            let x = self.items[i];
            if lo <= x && x < hi && x % divisor == 0 {
                proof {
                    assert(self.items@ == self.view_seq());
                    assert(self.view_seq()[i as int] == x);
                    assert forall|y: Size|
                        self.contains(y) && lo <= y < hi && y as int % divisor as int == 0 implies y
                        >= x by {
                        let j = choose|j: int|
                            0 <= j < self.view_seq().len() && self.view_seq()[j] == y;
                        if j < i {
                            assert(!(lo <= self.items@[j] < hi && self.items@[j] as int
                                % divisor as int == 0));
                        } else if j > i {
                            assert(self.wf());
                            assert((i as int) < j && j < self.view_seq().len());
                            assert(self.view_seq()[i as int] < self.view_seq()[j]);
                        }
                    }
                }
                return Some(x);
            }
            i = i + 1;
        }
        proof {
            assert forall|y: Size|
                !(self.contains(y) && lo <= y < hi && y as int % divisor as int == 0) by {
                if self.contains(y) && lo <= y < hi && y as int % divisor as int == 0 {
                    let j = choose|j: int|
                        0 <= j < self.view_seq().len() && self.view_seq()[j] == y;
                    assert(!(lo <= self.items@[j] < hi && self.items@[j] as int % divisor as int
                        == 0));
                }
            }
        }
        None
    }
}

} // verus!
