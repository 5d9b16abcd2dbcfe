use vstd::prelude::*;
use crate::bits::{
    bit_set, find_clear_bit, lemma_set_bit, lemma_zero_word, lowest_clear, with_bit, FULL_WORD,
    WORD_BITS,
};

verus! {

/// The least body size of a chunk, in bytes.
pub const MIN_CHUNK_BODY_SIZE: usize = 128;

/// The least alignment of a chunk, in bytes.
pub const MIN_CHUNK_ALIGN: usize = 8;

/// Where one registered property lives: a chunk of the subject's layout, a byte range inside
/// that chunk, and one initialization bit of the chunk's bitmap word.
#[derive(Clone, Copy, PartialEq, Eq, Structural, Debug)]
pub struct SlotDescriptor {
    pub chunk_id: usize,
    pub offset: usize,
    pub size: usize,
    pub align: usize,
    pub bit: u32,
    pub destructible: bool,
}

/// A slot whose value needs to be destructed when the store that holds it is torn down.
#[derive(Clone, Copy, PartialEq, Eq, Structural, Debug)]
pub struct DropSlot {
    pub offset: usize,
    pub bit: u32,
}

/// The layout of one chunk: its byte size and alignment, the initialization bits in use,
/// the bytes in use, and the destructible slots placed in it.
struct ChunkLayout {
    id: usize,
    size: usize,
    align: usize,
    in_use_bits: u64,
    in_use_size: usize,
    drop_slots: Vec<DropSlot>,
}

/// The mathematical model of a chunk layout.
pub struct ChunkModel {
    pub id: nat,
    pub size: nat,
    pub align: nat,
    pub bits: u64,
    pub used: nat,
    pub drops: Seq<DropSlot>,
}

impl View for ChunkLayout {
    type V = ChunkModel;

    closed spec fn view(&self) -> ChunkModel {
        ChunkModel {
            id: self.id as nat,
            size: self.size as nat,
            align: self.align as nat,
            bits: self.in_use_bits,
            used: self.in_use_size as nat,
            drops: self.drop_slots@,
        }
    }
}

/// `x` rounded up to a multiple of `a`.
pub open spec fn round_up(x: int, a: int) -> int {
    if x % a == 0 {
        x
    } else {
        x + (a - x % a)
    }
}

/// Whether a slot of `size` bytes aligned to `align` can still be placed in chunk `c`.
pub open spec fn fits(c: ChunkModel, size: nat, align: nat) -> bool {
    &&& align <= c.align
    &&& c.bits != FULL_WORD
    &&& round_up(c.used as int, align as int) + size <= c.size
}

/// The slot that placing `size` bytes aligned to `align` in chunk `c` gives.
pub open spec fn placed(c: ChunkModel, size: nat, align: nat, destructible: bool) -> SlotDescriptor {
    SlotDescriptor {
        chunk_id: c.id as usize,
        offset: round_up(c.used as int, align as int) as usize,
        size: size as usize,
        align: align as usize,
        bit: lowest_clear(c.bits),
        destructible,
    }
}

/// Chunk `c` after the slot `d` was placed in it.
pub open spec fn after_placing(c: ChunkModel, d: SlotDescriptor) -> ChunkModel {
    ChunkModel {
        bits: c.bits | (1u64 << (d.bit as u64)),
        used: (d.offset + d.size) as nat,
        drops: if d.destructible {
            c.drops.push(DropSlot { offset: d.offset, bit: d.bit })
        } else {
            c.drops
        },
        ..c
    }
}

/// The empty chunk that a slot of `size` bytes aligned to `align` opens when no chunk fits.
pub open spec fn fresh_chunk(id: nat, size: nat, align: nat) -> ChunkModel {
    ChunkModel {
        id,
        size: if size < MIN_CHUNK_BODY_SIZE { MIN_CHUNK_BODY_SIZE as nat } else { size },
        align: if align < MIN_CHUNK_ALIGN { MIN_CHUNK_ALIGN as nat } else { align },
        bits: 0,
        used: 0,
        drops: Seq::empty(),
    }
}

/// A well-formed chunk layout.
pub open spec fn chunk_wf(c: ChunkModel) -> bool {
    &&& c.align > 0
    &&& c.used <= c.size <= usize::MAX
    &&& forall|i: int|
        0 <= i < c.drops.len() ==> {
            &&& #[trigger] c.drops[i].bit < WORD_BITS
            &&& bit_set(c.bits, c.drops[i].bit)
            &&& c.drops[i].offset <= c.used
        }
    &&& forall|i: int, j: int|
        0 <= i < j < c.drops.len() ==> #[trigger] c.drops[i].bit != #[trigger] c.drops[j].bit
}

/// The mathematical model of a subject: its identity and the layouts of its chunks, the chunk
/// with id `i` at index `i`.
pub struct SubjectModel {
    pub id: u64,
    pub chunks: Seq<ChunkModel>,
}

/// The index of the first chunk in which the slot fits, or the number of chunks if none does.
pub open spec fn first_fit(chunks: Seq<ChunkModel>, size: nat, align: nat) -> nat
    decreases chunks.len(),
{
    if chunks.len() == 0 {
        0
    } else if fits(chunks[0], size, align) {
        0
    } else {
        1 + first_fit(chunks.drop_first(), size, align)
    }
}

/// The slot that registering `size` bytes aligned to `align` in subject `s` gives.
pub open spec fn registered_slot(s: SubjectModel, size: nat, align: nat, destructible: bool) -> SlotDescriptor {
    let i = first_fit(s.chunks, size, align);
    if i < s.chunks.len() {
        placed(s.chunks[i as int], size, align, destructible)
    } else {
        placed(fresh_chunk(s.chunks.len(), size, align), size, align, destructible)
    }
}

/// Subject `s` after registering `size` bytes aligned to `align`.
pub open spec fn after_register(s: SubjectModel, size: nat, align: nat, destructible: bool) -> SubjectModel {
    let i = first_fit(s.chunks, size, align);
    let d = registered_slot(s, size, align, destructible);
    if i < s.chunks.len() {
        SubjectModel { chunks: s.chunks.update(i as int, after_placing(s.chunks[i as int], d)), ..s }
    } else {
        SubjectModel {
            chunks: s.chunks.push(after_placing(fresh_chunk(s.chunks.len(), size, align), d)),
            ..s
        }
    }
}

/// Whether slot `d` was handed out by a subject with model `s`: its bit is in use and its bytes
/// lie inside the used part of its chunk.
pub open spec fn issued(s: SubjectModel, d: SlotDescriptor) -> bool {
    &&& d.chunk_id < s.chunks.len()
    &&& d.bit < WORD_BITS
    &&& bit_set(s.chunks[d.chunk_id as int].bits, d.bit)
    &&& d.offset + d.size <= s.chunks[d.chunk_id as int].used
}

/// Whether slots `a` and `b` share neither an initialization bit nor a byte.
pub open spec fn disjoint(a: SlotDescriptor, b: SlotDescriptor) -> bool {
    a.chunk_id != b.chunk_id || (a.bit != b.bit && (a.offset + a.size <= b.offset || b.offset
        + b.size <= a.offset))
}

/// Whether slot `(chunk id, bit)` of subject `s` holds a value that must be destructed.
pub open spec fn destructible(s: SubjectModel, k: (usize, u32)) -> bool {
    &&& k.0 < s.chunks.len()
    &&& exists|m: int|
        0 <= m < s.chunks[k.0 as int].drops.len() && (#[trigger] s.chunks[k.0 as int].drops[m]).bit
            == k.1
}

/// Identifies one category of objects and the growing set of properties that apply to them.
pub struct Subject {
    id: u64,
    chunks: Vec<ChunkLayout>,
}

impl View for Subject {
    type V = SubjectModel;

    closed spec fn view(&self) -> SubjectModel {
        SubjectModel { id: self.id, chunks: self.chunks@.map_values(|c: ChunkLayout| c@) }
    }
}

/// A well-formed subject model: chunk `i` has id `i` and every chunk is well formed.
pub open spec fn subject_wf(s: SubjectModel) -> bool {
    &&& s.chunks.len() <= usize::MAX
    &&& forall|i: int|
        0 <= i < s.chunks.len() ==> (#[trigger] s.chunks[i]).id == i && chunk_wf(s.chunks[i])
}

impl ChunkLayout {
    fn fresh(id: usize, size: usize, align: usize) -> (c: ChunkLayout)
        requires
            align > 0,
        ensures
            c@ == fresh_chunk(id as nat, size as nat, align as nat),
            chunk_wf(c@),
    {
        ChunkLayout {
            id,
            size: if size < MIN_CHUNK_BODY_SIZE {
                MIN_CHUNK_BODY_SIZE
            } else {
                size
            },
            align: if align < MIN_CHUNK_ALIGN {
                MIN_CHUNK_ALIGN
            } else {
                align
            },
            in_use_bits: 0,
            in_use_size: 0,
            drop_slots: Vec::new(),
        }
    }

    /// The offset at which a slot aligned to `align` would start, or `None` if the slot does
    /// not fit in this chunk.
    fn try_place(&self, size: usize, align: usize) -> (r: Option<usize>)
        requires
            align > 0,
            chunk_wf(self@),
        ensures
            r.is_some() == fits(self@, size as nat, align as nat),
            r matches Some(o) ==> o == round_up(self@.used as int, align as int),
    {
        if align > self.align || self.in_use_bits == FULL_WORD {
            return None;
        }
        let rem = self.in_use_size % align;
        let offset = if rem == 0 {
            self.in_use_size
        } else {
            match self.in_use_size.checked_add(align - rem) {
                Some(o) => o,
                None => return None,
            }
        };
        match offset.checked_add(size) {
            Some(end) => {
                if end <= self.size {
                    Some(offset)
                } else {
                    None
                }
            },
            None => None,
        }
    }

    /// Places a slot at `offset`, taking the lowest free initialization bit.
    fn place(&mut self, offset: usize, size: usize, align: usize, destructible: bool) -> (d:
        SlotDescriptor)
        requires
            align > 0,
            chunk_wf(old(self)@),
            fits(old(self)@, size as nat, align as nat),
            offset == round_up(old(self)@.used as int, align as int),
        ensures
            d == placed(old(self)@, size as nat, align as nat, destructible),
            final(self)@ == after_placing(old(self)@, d),
            chunk_wf(final(self)@),
            d.bit < WORD_BITS,
            bit_set(final(self)@.bits, d.bit),
    {
        let bit = find_clear_bit(self.in_use_bits);
        let ghost old_c = self@;
        self.in_use_bits = with_bit(self.in_use_bits, bit);
        self.in_use_size = offset + size;
        if destructible {
            self.drop_slots.push(DropSlot { offset, bit });
        }
        let d = SlotDescriptor { chunk_id: self.id, offset, size, align, bit, destructible };
        proof {
            let c = self@;
            assert(c.bits == old_c.bits | (1u64 << (bit as u64)));
            assert forall|i: int| 0 <= i < c.drops.len() implies {
                &&& #[trigger] c.drops[i].bit < WORD_BITS
                &&& bit_set(c.bits, c.drops[i].bit)
                &&& c.drops[i].offset <= c.used
            } by {
                if i < old_c.drops.len() {
                    assert(old_c.drops[i] == c.drops[i]);
                    assert(old_c.drops[i].bit < WORD_BITS);
                }
                lemma_set_bit(old_c.bits, bit, c.drops[i].bit);
            }
            assert forall|i: int, j: int|
                0 <= i < j < c.drops.len() implies #[trigger] c.drops[i].bit
                != #[trigger] c.drops[j].bit by {
                if j == old_c.drops.len() {
                    assert(bit_set(old_c.bits, c.drops[i].bit));
                }
            }
            assert(c == after_placing(old_c, d));
            lemma_set_bit(old_c.bits, bit, bit);
        }
        d
    }
}

impl Subject {
    /// Creates a subject with no properties, identified by `id`.
    ///
    /// Two subjects in use at the same time must have different ids: a property handle is
    /// checked against the store it is used with by this id alone.
    pub fn new(id: u64) -> (s: Subject)
        ensures
            s@.id == id,
            s@.chunks.len() == 0,
            subject_wf(s@),
    {
        Subject { id, chunks: Vec::new() }
    }

    /// The identity of this subject.
    pub fn id(&self) -> (r: u64)
        ensures
            r == self@.id,
    {
        self.id
    }

    /// The number of chunks in this subject's layout.
    pub fn chunk_count(&self) -> (r: usize)
        ensures
            r == self@.chunks.len(),
    {
        self.chunks.len()
    }

    /// The destructible slots of the chunk with id `chunk_id`.
    pub fn drop_slots(&self, chunk_id: usize) -> (r: &Vec<DropSlot>)
        requires
            chunk_id < self@.chunks.len(),
        ensures
            r@ == self@.chunks[chunk_id as int].drops,
    {
        &self.chunks[chunk_id].drop_slots
    }

    /// Reserves a slot of `size` bytes aligned to `align`: in the first chunk where it fits, at
    /// the chunk's used size rounded up to `align`, with the chunk's lowest free initialization
    /// bit; or in a new chunk when none fits. A destructible slot is also recorded in its
    /// chunk's list of slots to destruct.
    pub fn register(&mut self, size: usize, align: usize, destructible: bool) -> (d: SlotDescriptor)
        requires
            align > 0,
            subject_wf(old(self)@),
        ensures
            subject_wf(final(self)@),
            d == registered_slot(old(self)@, size as nat, align as nat, destructible),
            final(self)@ == after_register(old(self)@, size as nat, align as nat, destructible),
            issued(final(self)@, d),
    {
        let ghost s0 = self@;
        let mut i: usize = 0;
        proof {
            assert(s0.chunks.skip(0) =~= s0.chunks);
        }
        while i < self.chunks.len()
            invariant
                self@ == s0,
                old(self)@ == s0,
                subject_wf(s0),
                align > 0,
                i <= s0.chunks.len(),
                first_fit(s0.chunks, size as nat, align as nat) == i + first_fit(
                    s0.chunks.skip(i as int),
                    size as nat,
                    align as nat,
                ),
            decreases self.chunks.len() - i,
        {
            proof {
                assert(self.chunks@[i as int]@ == s0.chunks[i as int]);
                assert(chunk_wf(s0.chunks[i as int]));
                assert(s0.chunks.skip(i as int)[0] == s0.chunks[i as int]);
            }
            match self.chunks[i].try_place(size, align) {
                Some(offset) => {
                    proof {
                        assert(first_fit(s0.chunks.skip(i as int), size as nat, align as nat) == 0);
                    }
                    let d = self.chunks[i].place(offset, size, align, destructible);
                    proof {
                        assert(self@.chunks =~= s0.chunks.update(
                            i as int,
                            after_placing(s0.chunks[i as int], d),
                        ));
                        assert(first_fit(s0.chunks, size as nat, align as nat) == i);
                        assert(d == placed(s0.chunks[i as int], size as nat, align as nat, destructible));
                        assert(d == registered_slot(s0, size as nat, align as nat, destructible));
                    }
                    return d;
                },
                None => {
                    proof {
                        assert(s0.chunks.skip(i as int).drop_first() =~= s0.chunks.skip(i + 1));
                    }
                },
            }
            i += 1;
        }
        proof {
            assert(s0.chunks.skip(i as int).len() == 0);
        }
        let mut c = ChunkLayout::fresh(self.chunks.len(), size, align);
        proof {
            vstd::arithmetic::div_mod::lemma_mod_self_0(align as int);
            assert(0int % (align as int) == 0);
        }
        let d = c.place(0, size, align, destructible);
        self.chunks.push(c);
        proof {
            assert(self@.chunks =~= s0.chunks.push(c@));
            assert(self.chunks.len() == self.chunks@.len());
        }
        d
    }
}

/// Hands out subjects with distinct ids, so that a handle of one is never taken for a handle
/// of another.
pub struct SubjectSource {
    next_id: u64,
}

impl SubjectSource {
    /// The id the next subject will get; every subject handed out so far has a smaller one.
    pub closed spec fn next(&self) -> u64 {
        self.next_id
    }

    /// Creates a source that has handed out no subject yet.
    pub fn new() -> (s: SubjectSource)
        ensures
            s.next() == 0,
    {
        SubjectSource { next_id: 0 }
    }

    /// A new subject with no properties and an id that no subject of this source had before,
    /// or `None` once every id has been handed out.
    pub fn create(&mut self) -> (r: Option<Subject>)
        ensures
            r is Some <==> old(self).next() < u64::MAX,
            r is None ==> final(self).next() == old(self).next(),
            r matches Some(s) ==> {
                &&& s@.id == old(self).next()
                &&& s@.chunks.len() == 0
                &&& subject_wf(s@)
                &&& final(self).next() == old(self).next() + 1
            },
    {
        if self.next_id == u64::MAX {
            return None;
        }
        let s = Subject::new(self.next_id);
        self.next_id = self.next_id + 1;
        Some(s)
    }
}

} // verus!
