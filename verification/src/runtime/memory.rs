//! Context-aware memory: a bump-allocating arena.
//!
//! A scope that enters gets an arena; objects are placed in it one after
//! another, and the whole arena is released at once when the scope exits.
//! The arena keeps the books of its chunks: how large each is and how much
//! of it is handed out. An allocation is a place in a chunk: the chunk's
//! index and the offset of the first byte. Each chunk holds its bytes,
//! which are written and read through allocations.
use vstd::prelude::*;

verus! {

/// Size of a chunk when no larger one is needed (64 KB).
pub const DEFAULT_CHUNK_SIZE: usize = 65536;

/// The alignment of every chunk's first byte.
pub const CHUNK_ALIGN: usize = 16;

/// One contiguous block of the arena.
#[derive(Debug, Clone, Copy, PartialEq, Eq, Structural)]
pub struct Chunk {
    /// Bytes in the block.
    capacity: usize,
    /// Bytes handed out, from the start of the block.
    used: usize,
}

/// Where an allocation was placed.
#[derive(Debug, Clone, Copy, PartialEq, Eq, Structural)]
pub struct Allocation {
    /// Index of the chunk that holds it.
    pub chunk: usize,
    /// Offset of its first byte within the chunk.
    pub offset: usize,
}

/// A memory arena that provides bump allocation.
/// All memory is released at once when the arena is dropped.
#[derive(Debug)]
pub struct Arena {
    chunks: Vec<Chunk>,
    current: usize,
    buffers: Vec<Vec<u8>>,
}

/// A chunk as a pair of numbers: capacity and bytes used.
pub type ChunkM = (nat, nat);

/// The model of an arena: its chunks, in order of creation, and the index of
/// the chunk that allocation tries first.
pub struct ArenaM {
    pub chunks: Seq<ChunkM>,
    pub current: nat,
}

/// The largest size a chunk can have: a block of it, rounded up to the chunk
/// alignment, must not exceed `isize::MAX` bytes.
pub open spec fn max_chunk_size() -> int {
    isize::MAX - (CHUNK_ALIGN - 1)
}

/// The smallest multiple of `a` that is at least `x`.
pub open spec fn align_up(x: int, a: int) -> int {
    if x % a == 0 {
        x
    } else {
        x + (a - x % a)
    }
}

/// A chunk uses no more than it holds and is no larger than a block can be.
pub open spec fn chunk_ok(c: ChunkM) -> bool {
    c.1 <= c.0 <= max_chunk_size()
}

/// Sum of the capacities of the chunks.
pub open spec fn capacity_sum(cs: Seq<ChunkM>) -> nat
    decreases cs.len(),
{
    if cs.len() == 0 {
        0
    } else {
        capacity_sum(cs.drop_last()) + cs.last().0
    }
}

/// Sum of the bytes used in the chunks.
pub open spec fn used_sum(cs: Seq<ChunkM>) -> nat
    decreases cs.len(),
{
    if cs.len() == 0 {
        0
    } else {
        used_sum(cs.drop_last()) + cs.last().1
    }
}

/// Whether `size` bytes aligned to `align` fit after what chunk `c` has used.
pub open spec fn fits(c: ChunkM, size: nat, align: nat) -> bool {
    align_up(c.1 as int, align as int) + size <= c.0
}

/// What allocating `size` bytes aligned to `align` does: place them in the
/// current chunk where they fit, else in a new chunk of at least the default
/// size, which becomes the current one.
pub open spec fn alloc_spec(m: ArenaM, size: nat, align: nat) -> (ArenaM, (nat, nat)) {
    let c = m.chunks[m.current as int];
    if fits(c, size, align) {
        let off = align_up(c.1 as int, align as int) as nat;
        (
            ArenaM { chunks: m.chunks.update(m.current as int, (c.0, off + size)), current: m.current },
            (m.current, off),
        )
    } else {
        let cap = if size > DEFAULT_CHUNK_SIZE {
            size
        } else {
            DEFAULT_CHUNK_SIZE as nat
        };
        (ArenaM { chunks: m.chunks.push((cap, size)), current: m.chunks.len() }, (m.chunks.len(), 0))
    }
}

/// The bytes `b` with `data` written over them from `off` on.
pub open spec fn overwrite(b: Seq<u8>, off: int, data: Seq<u8>) -> Seq<u8> {
    Seq::new(b.len(), |j: int| if off <= j < off + data.len() { data[j - off] } else { b[j] })
}

/// `n` zero bytes.
fn zeroed(n: usize) -> (r: Vec<u8>)
    ensures
        r@ == Seq::new(n as nat, |j: int| 0u8),
{
    let mut r: Vec<u8> = Vec::new();
    let mut i: usize = 0;
    while i < n
        invariant
            i <= n,
            r@ == Seq::new(i as nat, |j: int| 0u8),
        decreases n - i,
    {
        r.push(0u8);
        i = i + 1;
        assert(r@ =~= Seq::new(i as nat, |j: int| 0u8));
    }
    r
}

/// Every chunk used to zero, the first chunk current again.
pub open spec fn reset_spec(m: ArenaM) -> ArenaM {
    ArenaM { chunks: Seq::new(m.chunks.len(), |i: int| (m.chunks[i].0, 0nat)), current: 0 }
}

impl Chunk {
    pub closed spec fn view(&self) -> ChunkM {
        (self.capacity as nat, self.used as nat)
    }

    /// A fresh, empty chunk of `size` bytes.
    fn new(size: usize) -> (c: Chunk)
        requires
            size <= max_chunk_size(),
        ensures
            c.view() == (size as nat, 0nat),
    {
        Chunk { capacity: size, used: 0 }
    }

    /// Place `size` bytes aligned to `align` after what is used, if they fit.
    fn try_alloc(&mut self, size: usize, align: usize) -> (r: Option<usize>)
        requires
            align > 0,
            old(self).view().1 <= old(self).view().0,
            old(self).view().0 <= max_chunk_size(),
        ensures
            fits(old(self).view(), size as nat, align as nat) ==> r == Some(
                align_up(old(self).view().1 as int, align as int) as usize,
            ) && final(self).view() == (old(self).view().0, (align_up(
                old(self).view().1 as int,
                align as int,
            ) + size) as nat),
            !fits(old(self).view(), size as nat, align as nat) ==> r is None && final(self).view()
                == old(self).view(),
    {
        let rem = self.used % align;
        let pad = if rem == 0 {
            0
        } else {
            align - rem
        };
        let aligned = match self.used.checked_add(pad) {
            Some(a) => a,
            None => return None,
        };
        let new_used = match aligned.checked_add(size) {
            Some(n) => n,
            None => return None,
        };
        if new_used <= self.capacity {
            self.used = new_used;
            Some(aligned)
        } else {
            None
        }
    }
}

impl Arena {
    pub closed spec fn view(&self) -> ArenaM {
        ArenaM { chunks: Seq::new(self.chunks@.len(), |i: int| self.chunks@[i].view()), current: self.current as nat }
    }

    /// The bytes each chunk holds.
    pub closed spec fn contents(&self) -> Seq<Seq<u8>> {
        Seq::new(self.buffers@.len(), |i: int| self.buffers@[i]@)
    }

    /// The arena's books are in order: there is a chunk, the current one
    /// exists, and no chunk has used more than it holds or is larger than a
    /// block can be.
    pub open spec fn wf(&self) -> bool {
        let m = self@;
        &&& m.chunks.len() > 0
        &&& m.current < m.chunks.len()
        &&& forall|i: int| 0 <= i < m.chunks.len() ==> chunk_ok(#[trigger] m.chunks[i])
        &&& self.contents().len() == m.chunks.len()
        &&& forall|i: int| 0 <= i < m.chunks.len() ==> (#[trigger] self.contents()[i]).len() == m.chunks[i].0
    }

    /// Create a new arena with one chunk of the default size.
    pub fn new() -> (a: Self)
        ensures
            a.wf(),
            a@.chunks == seq![(DEFAULT_CHUNK_SIZE as nat, 0nat)],
            a@.current == 0,
    {
        let a = Arena { chunks: vec![Chunk::new(DEFAULT_CHUNK_SIZE)], current: 0, buffers: vec![zeroed(DEFAULT_CHUNK_SIZE)] };
        assert(a@.chunks =~= seq![(DEFAULT_CHUNK_SIZE as nat, 0nat)]);
        assert(a.contents()[0].len() == DEFAULT_CHUNK_SIZE);
        a
    }

    /// Create an arena whose first chunk holds `size` bytes.
    pub fn with_capacity(size: usize) -> (a: Self)
        requires
            size <= max_chunk_size(),
        ensures
            a.wf(),
            a@.chunks == seq![(size as nat, 0nat)],
            a@.current == 0,
    {
        let a = Arena { chunks: vec![Chunk::new(size)], current: 0, buffers: vec![zeroed(size)] };
        assert(a@.chunks =~= seq![(size as nat, 0nat)]);
        assert(a.contents()[0].len() == size);
        a
    }

    /// Allocate `size` bytes aligned to `align` within this arena.
    pub fn allocate(&mut self, size: usize, align: usize) -> (r: Allocation)
        requires
            old(self).wf(),
            align > 0,
            size <= max_chunk_size(),
        ensures
            final(self).wf(),
            (final(self)@, (r.chunk as nat, r.offset as nat)) == alloc_spec(old(self)@, size as nat, align as nat),
            forall|i: int| 0 <= i < old(self).contents().len() ==> #[trigger] final(self).contents()[i] == old(self).contents()[i],
    {
        let ghost m = self@;
        let ghost c0 = self.contents();
        let cur = self.current;
        let mut chunk = self.chunks[cur];
        assert(chunk.view() == m.chunks[cur as int]);
        assert(chunk_ok(m.chunks[cur as int]));
        if let Some(off) = chunk.try_alloc(size, align) {
            self.chunks.set(cur, chunk);
            proof {
                let (m2, _) = alloc_spec(m, size as nat, align as nat);
                assert(self@.chunks =~= m2.chunks);
                assert(self.contents() =~= c0);
            }
            return Allocation { chunk: cur, offset: off };
        }
        // Need a new chunk
        let chunk_size = if size > DEFAULT_CHUNK_SIZE {
            size
        } else {
            DEFAULT_CHUNK_SIZE
        };
        let mut fresh = Chunk::new(chunk_size);
        assert(0int % (align as int) == 0) by {
            vstd::arithmetic::div_mod::lemma_small_mod(0nat, align as nat);
        }
        assert(align_up(0, align as int) == 0);
        assert(fits(fresh.view(), size as nat, align as nat));
        let off = fresh.try_alloc(size, align);
        assert(off == Some(0usize));
        self.chunks.push(fresh);
        self.buffers.push(zeroed(chunk_size));
        self.current = self.chunks.len() - 1;
        proof {
            let (m2, _) = alloc_spec(m, size as nat, align as nat);
            assert(self@.chunks =~= m2.chunks);
            assert forall|i: int| 0 <= i < c0.len() implies #[trigger] self.contents()[i] == c0[i] by {
                assert(self.buffers@[i] == old(self).buffers@[i]);
            }
        }
        Allocation { chunk: self.current, offset: 0 }
    }

    /// Reset the arena for reuse without releasing its chunks.
    pub fn reset(&mut self)
        requires
            old(self).wf(),
        ensures
            final(self).wf(),
            final(self)@ == reset_spec(old(self)@),
            final(self).contents() == old(self).contents(),
    {
        let ghost m = self@;
        let ghost c0 = self.contents();
        let mut i: usize = 0;
        while i < self.chunks.len()
            invariant
                self.contents() == c0,
                i <= self.chunks@.len(),
                self.chunks@.len() == m.chunks.len(),
                forall|j: int| 0 <= j < i ==> #[trigger] self.chunks@[j].view() == (m.chunks[j].0, 0nat),
                forall|j: int| i <= j < self.chunks@.len() ==> #[trigger] self.chunks@[j].view() == m.chunks[j],
            decreases self.chunks@.len() - i,
        {
            let c = self.chunks[i];
            assert(self.chunks@[i as int].view() == m.chunks[i as int]);
            let z = Chunk { capacity: c.capacity, used: 0 };
            assert(z.view() == (m.chunks[i as int].0, 0nat));
            self.chunks.set(i, z);
            i = i + 1;
        }
        proof {
            assert forall|j: int| 0 <= j < m.chunks.len() implies chunk_ok(#[trigger] reset_spec(m).chunks[j]) by {
                assert(chunk_ok(m.chunks[j]));
            }
        }
        self.current = 0;
        assert(self@.chunks =~= reset_spec(m).chunks);
    }

    /// Write `data` into the arena at `a`.
    pub fn write(&mut self, a: Allocation, data: &[u8])
        requires
            old(self).wf(),
            a.chunk < old(self)@.chunks.len(),
            a.offset + data@.len() <= old(self)@.chunks[a.chunk as int].0,
        ensures
            final(self).wf(),
            final(self)@ == old(self)@,
            final(self).contents() == old(self).contents().update(
                a.chunk as int,
                overwrite(old(self).contents()[a.chunk as int], a.offset as int, data@),
            ),
    {
        let ghost c0 = self.contents();
        let c = a.chunk;
        let cap = self.buffers[c].len();
        assert(c0[c as int] == self.buffers@[c as int]@);
        let ghost want = overwrite(c0[c as int], a.offset as int, data@);
        let mut nb: Vec<u8> = Vec::new();
        let mut j: usize = 0;
        while j < cap
            invariant
                j <= cap,
                cap == self.buffers@[c as int]@.len(),
                c < self.buffers@.len(),
                c0[c as int] == self.buffers@[c as int]@,
                a.offset + data@.len() <= cap,
                want == overwrite(c0[c as int], a.offset as int, data@),
                nb@ == want.take(j as int),
            decreases cap - j,
        {
            let b = if a.offset <= j && j < a.offset + data.len() {
                data[j - a.offset]
            } else {
                self.buffers[c][j]
            };
            nb.push(b);
            j = j + 1;
            assert(nb@ =~= want.take(j as int));
        }
        assert(nb@ =~= want);
        self.buffers.set(c, nb);
        assert(self.contents() =~= c0.update(c as int, want));
    }

    /// The `len` bytes at `a`.
    pub fn read(&self, a: Allocation, len: usize) -> (r: Vec<u8>)
        requires
            self.wf(),
            a.chunk < self@.chunks.len(),
            a.offset + len <= self@.chunks[a.chunk as int].0,
        ensures
            r@ == self.contents()[a.chunk as int].subrange(a.offset as int, a.offset + len),
    {
        let c = a.chunk;
        assert(self.contents()[c as int] == self.buffers@[c as int]@);
        let cap = self.buffers[c].len();
        let mut r: Vec<u8> = Vec::new();
        let mut j: usize = 0;
        while j < len
            invariant
                j <= len,
                cap == self.buffers@[c as int]@.len(),
                c < self.buffers@.len(),
                a.offset + len <= self.buffers@[c as int]@.len(),
                r@ == self.buffers@[c as int]@.subrange(a.offset as int, a.offset + j),
            decreases len - j,
        {
            r.push(self.buffers[c][a.offset + j]);
            j = j + 1;
            assert(r@ =~= self.buffers@[c as int]@.subrange(a.offset as int, a.offset + j));
        }
        r
    }

    /// Allocate room for `data`, aligned to `align`, and write it there.
    pub fn alloc_value(&mut self, data: &[u8], align: usize) -> (r: Allocation)
        requires
            old(self).wf(),
            align > 0,
            data@.len() <= max_chunk_size(),
        ensures
            final(self).wf(),
            (final(self)@, (r.chunk as nat, r.offset as nat)) == alloc_spec(old(self)@, data@.len(), align as nat),
            final(self).contents()[r.chunk as int].subrange(r.offset as int, r.offset + data@.len()) == data@,
            forall|i: int|
                0 <= i < old(self).contents().len() && i != r.chunk ==> #[trigger] final(self).contents()[i]
                    == old(self).contents()[i],
    {
        let ghost c0 = self.contents();
        let r = self.allocate(data.len(), align);
        proof {
            lemma_alloc_in_bounds(old(self)@, data@.len(), align as nat);
        }
        let ghost c1 = self.contents();
        self.write(r, data);
        proof {
            lemma_read_back(c1[r.chunk as int], r.offset as int, data@);
        }
        r
    }

    /// Total bytes held across all chunks.
    pub fn total_capacity(&self) -> (r: usize)
        requires
            capacity_sum(self@.chunks) <= usize::MAX,
        ensures
            r == capacity_sum(self@.chunks),
    {
        let ghost cs = self@.chunks;
        let mut total: usize = 0;
        let mut i: usize = 0;
        while i < self.chunks.len()
            invariant
                i <= self.chunks@.len(),
                cs == self@.chunks,
                cs.len() == self.chunks@.len(),
                capacity_sum(cs) <= usize::MAX,
                total == capacity_sum(cs.take(i as int)),
            decreases self.chunks@.len() - i,
        {
            proof {
                assert(cs.take(i as int + 1).drop_last() =~= cs.take(i as int));
                lemma_capacity_sum_prefix(cs, i as int + 1);
                assert(cs[i as int] == self.chunks@[i as int].view());
            }
            total = total + self.chunks[i].capacity;
            i = i + 1;
        }
        assert(cs.take(i as int) =~= cs);
        total
    }

    /// Total bytes in use.
    pub fn bytes_used(&self) -> (r: usize)
        requires
            self.wf(),
            capacity_sum(self@.chunks) <= usize::MAX,
        ensures
            r == used_sum(self@.chunks),
    {
        let ghost cs = self@.chunks;
        let mut total: usize = 0;
        let mut i: usize = 0;
        proof {
            assert forall|j: int| 0 <= j < cs.len() implies #[trigger] cs[j].1 <= cs[j].0 by {
                assert(chunk_ok(cs[j]));
            }
            lemma_used_below_capacity(cs, cs.len() as int);
            assert(cs.take(cs.len() as int) =~= cs);
        }
        while i < self.chunks.len()
            invariant
                self.wf(),
                i <= self.chunks@.len(),
                cs == self@.chunks,
                cs.len() == self.chunks@.len(),
                used_sum(cs) <= capacity_sum(cs) <= usize::MAX,
                total == used_sum(cs.take(i as int)),
            decreases self.chunks@.len() - i,
        {
            proof {
                assert(cs.take(i as int + 1).drop_last() =~= cs.take(i as int));
                lemma_used_prefix(cs, i as int + 1);
                assert(cs[i as int] == self.chunks@[i as int].view());
            }
            total = total + self.chunks[i].used;
            i = i + 1;
        }
        assert(cs.take(i as int) =~= cs);
        total
    }
}

impl Default for Arena {
    /// An arena with one chunk of the default size.
    fn default() -> (a: Self)
        ensures
            a.wf(),
            a@.chunks == seq![(DEFAULT_CHUNK_SIZE as nat, 0nat)],
            a@.current == 0,
    {
        Self::new()
    }
}

/// What a read gives back of a write: reading the bytes just written
/// gives the data written.
pub proof fn lemma_read_back(b: Seq<u8>, off: int, data: Seq<u8>)
    requires
        0 <= off,
        off + data.len() <= b.len(),
    ensures
        overwrite(b, off, data).subrange(off, off + data.len()) == data,
{
    assert(overwrite(b, off, data).subrange(off, off + data.len()) =~= data);
}

/// A write leaves the bytes outside the written range as they were: a read
/// of a range that does not meet it gives what it gave before.
pub proof fn lemma_write_keeps_others(b: Seq<u8>, off: int, data: Seq<u8>, o2: int, len2: int)
    requires
        0 <= off,
        off + data.len() <= b.len(),
        0 <= o2,
        0 <= len2,
        o2 + len2 <= b.len(),
        o2 + len2 <= off || off + data.len() <= o2,
    ensures
        overwrite(b, off, data).subrange(o2, o2 + len2) == b.subrange(o2, o2 + len2),
{
    assert(overwrite(b, off, data).subrange(o2, o2 + len2) =~= b.subrange(o2, o2 + len2));
}

/// A prefix of the chunks holds no more than all of them.
proof fn lemma_capacity_sum_prefix(cs: Seq<ChunkM>, n: int)
    requires
        0 <= n <= cs.len(),
    ensures
        capacity_sum(cs.take(n)) <= capacity_sum(cs),
    decreases cs.len() - n,
{
    if n < cs.len() {
        lemma_capacity_sum_prefix(cs, n + 1);
        assert(cs.take(n + 1).drop_last() =~= cs.take(n));
    } else {
        assert(cs.take(n) =~= cs);
    }
}

/// A prefix of the chunks uses no more than all of them.
proof fn lemma_used_prefix(cs: Seq<ChunkM>, n: int)
    requires
        0 <= n <= cs.len(),
    ensures
        used_sum(cs.take(n)) <= used_sum(cs),
    decreases cs.len() - n,
{
    if n < cs.len() {
        lemma_used_prefix(cs, n + 1);
        assert(cs.take(n + 1).drop_last() =~= cs.take(n));
    } else {
        assert(cs.take(n) =~= cs);
    }
}

/// Chunks that use no more than they hold use no more in sum.
proof fn lemma_used_below_capacity(cs: Seq<ChunkM>, n: int)
    requires
        0 <= n <= cs.len(),
        forall|i: int| 0 <= i < cs.len() ==> #[trigger] cs[i].1 <= cs[i].0,
    ensures
        used_sum(cs.take(n)) <= capacity_sum(cs.take(n)),
    decreases n,
{
    if n > 0 {
        lemma_used_below_capacity(cs, n - 1);
        assert(cs.take(n).drop_last() =~= cs.take(n - 1));
        assert(cs.take(n).last() == cs[n - 1]);
    }
    if n == cs.len() {
        assert(cs.take(n) =~= cs);
    }
}

/// An allocation lies within its chunk, starts at a multiple of the
/// requested alignment, and starts no earlier than what the chunk had
/// already handed out.
pub proof fn lemma_alloc_in_bounds(m: ArenaM, size: nat, align: nat)
    requires
        m.current < m.chunks.len(),
        align > 0,
    ensures
        ({
            let (m2, (c, off)) = alloc_spec(m, size, align);
            &&& c < m2.chunks.len()
            &&& off % align == 0
            &&& off + size <= m2.chunks[c as int].0
            &&& m2.chunks[c as int].1 == off + size
            &&& c < m.chunks.len() ==> off >= m.chunks[c as int].1 && m2.chunks[c as int].0
                == m.chunks[c as int].0
        }),
{
    let c = m.chunks[m.current as int];
    let u = c.1 as int;
    let a = align as int;
    vstd::arithmetic::div_mod::lemma_mod_bound(u, a);
    assert(0int % a == 0) by {
        vstd::arithmetic::div_mod::lemma_small_mod(0nat, align);
    }
    if u % a != 0 {
        assert((u + (a - u % a)) % a == 0) by {
            vstd::arithmetic::div_mod::lemma_fundamental_div_mod(u, a);
            assert(u + (a - u % a) == a * (u / a + 1)) by (nonlinear_arith)
                requires
                    u == a * (u / a) + u % a,
            ;
            vstd::arithmetic::div_mod::lemma_mod_multiples_basic(u / a + 1, a);
            vstd::arithmetic::mul::lemma_mul_is_commutative(a, u / a + 1);
        }
    }
    assert(align_up(u, a) % a == 0);
    assert(align_up(u, a) >= u);
}

/// Two allocations in a row never overlap: where the second lands in the
/// chunk of the first, it starts at or after the first one's end.
pub proof fn lemma_alloc_disjoint(m: ArenaM, size1: nat, align1: nat, size2: nat, align2: nat)
    requires
        m.current < m.chunks.len(),
        align1 > 0,
        align2 > 0,
    ensures
        ({
            let (m1, (c1, off1)) = alloc_spec(m, size1, align1);
            let (m2, (c2, off2)) = alloc_spec(m1, size2, align2);
            c1 == c2 ==> off1 + size1 <= off2
        }),
{
    let (m1, (c1, off1)) = alloc_spec(m, size1, align1);
    lemma_alloc_in_bounds(m, size1, align1);
    lemma_alloc_in_bounds(m1, size2, align2);
}

/// After a reset no byte is in use, and every chunk is kept.
pub proof fn lemma_reset_frees_all(m: ArenaM)
    ensures
        used_sum(reset_spec(m).chunks) == 0,
        capacity_sum(reset_spec(m).chunks) == capacity_sum(m.chunks),
    decreases m.chunks.len(),
{
    if m.chunks.len() > 0 {
        let m0 = ArenaM { chunks: m.chunks.drop_last(), current: 0 };
        lemma_reset_frees_all(m0);
        assert(reset_spec(m).chunks.drop_last() =~= reset_spec(m0).chunks);
    }
}

/// Changing one chunk changes the sums by the difference.
proof fn lemma_sums_update(cs: Seq<ChunkM>, k: int, x: ChunkM)
    requires
        0 <= k < cs.len(),
    ensures
        used_sum(cs.update(k, x)) == used_sum(cs) - cs[k].1 + x.1,
        capacity_sum(cs.update(k, x)) == capacity_sum(cs) - cs[k].0 + x.0,
    decreases cs.len(),
{
    let u = cs.update(k, x);
    if k == cs.len() - 1 {
        assert(u.drop_last() =~= cs.drop_last());
    } else {
        assert(u.drop_last() =~= cs.drop_last().update(k, x));
        lemma_sums_update(cs.drop_last(), k, x);
    }
}

/// One allocation of `size` bytes: the bytes in use grow by at least
/// `size` and stay within the capacity, and the capacity either stays (the
/// bytes fit in the current chunk) or grows by one new chunk of
/// `max(size, DEFAULT_CHUNK_SIZE)` bytes.
pub proof fn lemma_alloc_accounting(m: ArenaM, size: nat, align: nat)
    requires
        m.current < m.chunks.len(),
        align > 0,
        forall|i: int| 0 <= i < m.chunks.len() ==> #[trigger] m.chunks[i].1 <= m.chunks[i].0,
    ensures
        ({
            let (m2, _) = alloc_spec(m, size, align);
            &&& used_sum(m2.chunks) >= used_sum(m.chunks) + size
            &&& used_sum(m2.chunks) <= capacity_sum(m2.chunks)
            &&& capacity_sum(m2.chunks) == capacity_sum(m.chunks) || capacity_sum(m2.chunks)
                == capacity_sum(m.chunks) + if size > DEFAULT_CHUNK_SIZE {
                size
            } else {
                DEFAULT_CHUNK_SIZE as nat
            }
        }),
{
    let (m2, (c, off)) = alloc_spec(m, size, align);
    lemma_alloc_in_bounds(m, size, align);
    let k = m.current as int;
    if fits(m.chunks[k], size, align) {
        lemma_sums_update(m.chunks, k, m2.chunks[k]);
        assert(m2.chunks == m.chunks.update(k, m2.chunks[k]));
    } else {
        assert(m2.chunks.drop_last() =~= m.chunks);
    }
    assert forall|i: int| 0 <= i < m2.chunks.len() implies #[trigger] m2.chunks[i].1 <= m2.chunks[i].0 by {
        if i != c as int {
            assert(m2.chunks[i] == m.chunks[i]);
        }
    }
    lemma_used_below_capacity(m2.chunks, m2.chunks.len() as int);
    assert(m2.chunks.take(m2.chunks.len() as int) =~= m2.chunks);
}

/// Every allocation lies in the used part of its chunk: `(chunk, offset,
/// size)` ends no later than the bytes the chunk has handed out.
pub open spec fn in_use(m: ArenaM, a: (nat, nat, nat)) -> bool {
    a.0 < m.chunks.len() && a.1 + a.2 <= m.chunks[a.0 as int].1
}

/// No allocation handed out since the arena was created or last reset
/// overlaps a later one. Every earlier allocation lies in the used part of
/// its chunk (which holds for none after a reset, where nothing is in use);
/// a new allocation starts at or after the end of each earlier one in its
/// chunk, and afterwards all of them, the new one included, again lie in
/// the used part.
pub proof fn lemma_alloc_disjoint_all(m: ArenaM, earlier: Seq<(nat, nat, nat)>, size: nat, align: nat)
    requires
        m.current < m.chunks.len(),
        align > 0,
        forall|i: int| 0 <= i < earlier.len() ==> in_use(m, #[trigger] earlier[i]),
    ensures
        ({
            let (m2, (c, off)) = alloc_spec(m, size, align);
            &&& off % align == 0
            &&& off + size <= m2.chunks[c as int].0
            &&& forall|i: int|
                0 <= i < earlier.len() && (#[trigger] earlier[i]).0 == c ==> earlier[i].1 + earlier[i].2
                    <= off
            &&& forall|i: int|
                0 <= i < earlier.len() + 1 ==> in_use(m2, #[trigger] earlier.push((c, off, size))[i])
        }),
{
    let (m2, (c, off)) = alloc_spec(m, size, align);
    lemma_alloc_in_bounds(m, size, align);
    assert forall|i: int| 0 <= i < earlier.len() + 1 implies in_use(m2, #[trigger] earlier.push((c, off, size))[i]) by {
        if i < earlier.len() {
            assert(earlier.push((c, off, size))[i] == earlier[i]);
            assert(in_use(m, earlier[i]));
        }
    }
}

/// After a reset no allocation of any size but zero is in use.
pub proof fn lemma_reset_nothing_in_use(m: ArenaM, a: (nat, nat, nat))
    requires
        a.2 > 0,
    ensures
        !in_use(reset_spec(m), a),
{
}

} // verus!
