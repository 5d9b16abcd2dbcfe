use vstd::prelude::*;
use crate::bits::{bit_set, lemma_zero_word, test_bit, with_bit, WORD_BITS};
use crate::subject::{destructible, subject_wf, Subject, SubjectModel};

verus! {

/// Names one slot of a store: the id of the subject's chunk and the initialization bit of the
/// slot in that chunk.
pub type SlotKey = (usize, u32);

/// The mathematical model of a store: the subject it is bound to and the value of every slot
/// that has been initialized.
pub struct StoreModel<V> {
    pub subject: u64,
    pub values: Map<SlotKey, V>,
}

/// The values after a candidate for slot `k` is committed: the first committed value stays,
/// a later candidate is discarded.
pub open spec fn committed<V>(values: Map<SlotKey, V>, k: SlotKey, candidate: V) -> Map<SlotKey, V> {
    if values.contains_key(k) {
        values
    } else {
        values.insert(k, candidate)
    }
}

/// The slots whose values a teardown of store `d` of subject `s` destructs: those initialized
/// in `d` that `s` lists as destructible.
pub open spec fn destructed_set<V>(d: StoreModel<V>, s: SubjectModel) -> Set<SlotKey> {
    Set::new(|k: SlotKey| d.values.contains_key(k) && destructible(s, k))
}

/// Whether `keys` lists each slot of `destructed_set(d, s)` exactly once, and nothing else.
pub open spec fn torn_down<V>(d: StoreModel<V>, s: SubjectModel, keys: Seq<SlotKey>) -> bool {
    &&& keys.no_duplicates()
    &&& forall|k: SlotKey| #[trigger] keys.contains(k) <==> destructed_set(d, s).contains(k)
}

/// Why a store refused an access.
#[derive(Clone, Copy, PartialEq, Eq, Structural, Debug)]
pub enum AccessError {
    /// The handle or subject belongs to another subject than the store.
    SubjectMismatch,
}

/// The backing memory of one chunk in a store: its initialization word and one cell for each
/// bit of that word.
struct Chunk<V> {
    id: usize,
    init_word: u64,
    cells: Vec<Option<V>>,
}

spec fn chunk_ok<V>(c: Chunk<V>) -> bool {
    &&& c.cells@.len() == WORD_BITS
    &&& forall|b: u32| b < WORD_BITS ==> (bit_set(c.init_word, b) <==> c.cells@[b as int].is_some())
}

impl<V> Chunk<V> {
    fn empty(id: usize) -> (c: Chunk<V>)
        ensures
            c.id == id,
            chunk_ok(c),
            forall|b: int| 0 <= b < WORD_BITS ==> c.cells@[b].is_none(),
    {
        let mut cells: Vec<Option<V>> = Vec::new();
        let mut n: u32 = 0;
        while n < WORD_BITS
            invariant
                n <= WORD_BITS,
                cells@.len() == n,
                forall|b: int| 0 <= b < n ==> cells@[b].is_none(),
            decreases WORD_BITS - n,
        {
            cells.push(None);
            n += 1;
        }
        proof {
            assert forall|b: u32| b < WORD_BITS implies (bit_set(0u64, b) <==> cells@[b as int].is_some()) by {
                lemma_zero_word(b);
            }
        }
        Chunk { id, init_word: 0, cells }
    }

    fn is_set(&self, b: u32) -> (r: bool)
        requires
            chunk_ok(*self),
            b < WORD_BITS,
        ensures
            r == self.cells@[b as int].is_some(),
    {
        test_bit(self.init_word, b)
    }

    fn put(&mut self, b: u32, v: V)
        requires
            chunk_ok(*old(self)),
            b < WORD_BITS,
        ensures
            chunk_ok(*final(self)),
            final(self).id == old(self).id,
            final(self).cells@ == old(self).cells@.update(b as int, Some(v)),
    {
        self.init_word = with_bit(self.init_word, b);
        self.cells.set(b as usize, Some(v));
    }

    fn cell(&self, b: u32) -> (r: &V)
        requires
            chunk_ok(*self),
            b < WORD_BITS,
            self.cells@[b as int].is_some(),
        ensures
            *r == self.cells@[b as int].unwrap(),
    {
        self.cells[b as usize].as_ref().unwrap()
    }

    fn cell_mut(&mut self, b: u32) -> (r: &mut V)
        requires
            chunk_ok(*old(self)),
            b < WORD_BITS,
            old(self).cells@[b as int].is_some(),
        ensures
            *r == old(self).cells@[b as int].unwrap(),
            final(self).id == old(self).id,
            final(self).init_word == old(self).init_word,
            final(self).cells@ == old(self).cells@.update(b as int, Some(*final(r))),
    {
        self.cells[b as usize].as_mut().unwrap()
    }
}

/// The values of every property of one object: a list of chunks sorted by id, each created the
/// first time a slot of its subject chunk is written.
pub struct PropertyData<V> {
    subject_id: u64,
    chunks: Vec<Chunk<V>>,
}

impl<V> PropertyData<V> {
    /// Well-formedness: chunks sorted by strictly increasing id, each with one cell per bit and
    /// a cell holding a value exactly when its bit is set.
    pub closed spec fn wf(&self) -> bool {
        &&& forall|i: int, j: int|
            0 <= i < j < self.chunks@.len() ==> (#[trigger] self.chunks@[i]).id
                < (#[trigger] self.chunks@[j]).id
        &&& forall|i: int| 0 <= i < self.chunks@.len() ==> chunk_ok(#[trigger] self.chunks@[i])
    }

    closed spec fn has(&self, k: SlotKey) -> bool {
        &&& k.1 < WORD_BITS
        &&& exists|i: int|
            0 <= i < self.chunks@.len() && (#[trigger] self.chunks@[i]).id == k.0
                && self.chunks@[i].cells@[k.1 as int].is_some()
    }

    closed spec fn at(&self, k: SlotKey) -> V {
        let i = choose|i: int| 0 <= i < self.chunks@.len() && (#[trigger] self.chunks@[i]).id == k.0;
        self.chunks@[i].cells@[k.1 as int].unwrap()
    }

    proof fn lemma_chunk_view(&self, i: int, k: SlotKey)
        requires
            self.wf(),
            0 <= i < self.chunks@.len(),
            self.chunks@[i].id == k.0,
            k.1 < WORD_BITS,
        ensures
            self@.values.contains_key(k) == self.chunks@[i].cells@[k.1 as int].is_some(),
            self@.values.contains_key(k) ==> self@.values[k] == self.chunks@[i].cells@[k.1 as int].unwrap(),
    {
        assert forall|j: int| 0 <= j < self.chunks@.len() && (#[trigger] self.chunks@[j]).id == k.0 implies j == i by {
            if j < i {
                assert(self.chunks@[j].id < self.chunks@[i].id);
            } else if j > i {
                assert(self.chunks@[i].id < self.chunks@[j].id);
            }
        }
    }

    proof fn lemma_same_chunks_view(&self, other: &Self, i: int, b: u32, v: V)
        requires
            self.wf(),
            other.wf(),
            0 <= i < self.chunks@.len(),
            b < WORD_BITS,
            other.chunks@.len() == self.chunks@.len(),
            forall|j: int| 0 <= j < self.chunks@.len() ==> (#[trigger] other.chunks@[j]).id == self.chunks@[j].id,
            forall|j: int| 0 <= j < self.chunks@.len() && j != i ==> (#[trigger] other.chunks@[j]).cells@ == self.chunks@[j].cells@,
            other.chunks@[i].cells@ == self.chunks@[i].cells@.update(b as int, Some(v)),
        ensures
            other@.values == self@.values.insert((self.chunks@[i].id, b), v),
    {
        let k0 = (self.chunks@[i].id, b);
        assert forall|k: SlotKey| #[trigger] other@.values.contains_key(k) == self@.values.insert(k0, v).contains_key(k)
            && (other@.values.contains_key(k) ==> other@.values[k] == self@.values.insert(k0, v)[k]) by {
            if k.1 < WORD_BITS && exists|j: int| 0 <= j < self.chunks@.len() && (#[trigger] self.chunks@[j]).id == k.0 {
                let j = choose|j: int| 0 <= j < self.chunks@.len() && (#[trigger] self.chunks@[j]).id == k.0;
                self.lemma_chunk_view(j, k);
                other.lemma_chunk_view(j, k);
                if j == i {
                    self.lemma_chunk_view(i, k0);
                }
            } else if k.1 < WORD_BITS {
                assert(forall|j: int| 0 <= j < other.chunks@.len() ==> (#[trigger] other.chunks@[j]).id != k.0);
                if k == k0 {
                    assert(self.chunks@[i].id == k.0);
                }
            }
        }
        assert(other@.values =~= self@.values.insert(k0, v));
    }

    proof fn lemma_any_update_view(&self, i: int, b: u32)
        requires
            self.wf(),
            0 <= i < self.chunks@.len(),
            b < WORD_BITS,
        ensures
            forall|other: Self, v: V|
                #![trigger other@, self@.values.insert((self.chunks@[i].id, b), v)]
                other.wf() && other.subject_id == self.subject_id && other.chunks@.len()
                    == self.chunks@.len() && (forall|j: int|
                    0 <= j < self.chunks@.len() ==> (#[trigger] other.chunks@[j]).id
                        == self.chunks@[j].id) && (forall|j: int|
                    0 <= j < self.chunks@.len() && j != i ==> (#[trigger] other.chunks@[j]).cells@
                        == self.chunks@[j].cells@) && other.chunks@[i].cells@
                    == self.chunks@[i].cells@.update(b as int, Some(v)) ==> other@.values
                    == self@.values.insert((self.chunks@[i].id, b), v),
    {
        assert forall|other: Self, v: V|
            #![trigger other@, self@.values.insert((self.chunks@[i].id, b), v)]
            other.wf() && other.subject_id == self.subject_id && other.chunks@.len()
                == self.chunks@.len() && (forall|j: int|
                0 <= j < self.chunks@.len() ==> (#[trigger] other.chunks@[j]).id
                    == self.chunks@[j].id) && (forall|j: int|
                0 <= j < self.chunks@.len() && j != i ==> (#[trigger] other.chunks@[j]).cells@
                    == self.chunks@[j].cells@) && other.chunks@[i].cells@
                == self.chunks@[i].cells@.update(b as int, Some(v)) implies other@.values
                == self@.values.insert((self.chunks@[i].id, b), v) by {
            self.lemma_same_chunks_view(&other, i, b, v);
        }
    }

    proof fn lemma_inserted_chunk_view(&self, other: &Self, p: int)
        requires
            self.wf(),
            other.wf(),
            0 <= p <= self.chunks@.len(),
            other.chunks@.len() == self.chunks@.len() + 1,
            forall|j: int| 0 <= j < p ==> #[trigger] other.chunks@[j] == self.chunks@[j],
            forall|j: int| p < j < other.chunks@.len() ==> #[trigger] other.chunks@[j] == self.chunks@[j - 1],
            forall|b: int| 0 <= b < WORD_BITS ==> (#[trigger] other.chunks@[p].cells@[b]).is_none(),
        ensures
            other@.values == self@.values,
    {
        assert forall|k: SlotKey| #[trigger] other@.values.contains_key(k) == self@.values.contains_key(k)
            && (other@.values.contains_key(k) ==> other@.values[k] == self@.values[k]) by {
            if k.1 < WORD_BITS && exists|j: int| 0 <= j < other.chunks@.len() && (#[trigger] other.chunks@[j]).id == k.0 {
                let j = choose|j: int| 0 <= j < other.chunks@.len() && (#[trigger] other.chunks@[j]).id == k.0;
                other.lemma_chunk_view(j, k);
                if j < p {
                    self.lemma_chunk_view(j, k);
                } else if j > p {
                    self.lemma_chunk_view(j - 1, k);
                } else {
                    assert forall|m: int| 0 <= m < self.chunks@.len() implies (#[trigger] self.chunks@[m]).id != k.0 by {
                        if m < p {
                            assert(other.chunks@[m] == self.chunks@[m]);
                        } else {
                            assert(other.chunks@[m + 1] == self.chunks@[m]);
                        }
                    }
                }
            } else if k.1 < WORD_BITS {
                assert forall|m: int| 0 <= m < self.chunks@.len() implies (#[trigger] self.chunks@[m]).id != k.0 by {
                    if m < p {
                        assert(other.chunks@[m] == self.chunks@[m]);
                    } else {
                        assert(other.chunks@[m + 1] == self.chunks@[m]);
                    }
                }
            }
        }
        assert(other@.values =~= self@.values);
    }

    proof fn lemma_no_chunk(&self, k: SlotKey)
        requires
            forall|j: int| 0 <= j < self.chunks@.len() ==> (#[trigger] self.chunks@[j]).id != k.0,
        ensures
            !self@.values.contains_key(k),
    {
    }
}

impl<V> View for PropertyData<V> {
    type V = StoreModel<V>;

    closed spec fn view(&self) -> StoreModel<V> {
        StoreModel { subject: self.subject_id, values: Map::new(|k: SlotKey| self.has(k), |k: SlotKey| self.at(k)) }
    }
}

impl<V> PropertyData<V> {
    /// Creates a store bound to `subject`, with every property uninitialized.
    pub fn new(subject: &Subject) -> (d: PropertyData<V>)
        ensures
            d@.subject == subject@.id,
            d@.values == Map::<SlotKey, V>::empty(),
            d.wf(),
    {
        let d = PropertyData { subject_id: subject.id(), chunks: Vec::new() };
        proof {
            assert(d@.values =~= Map::<SlotKey, V>::empty());
        }
        d
    }

    /// The id of the subject this store is bound to.
    pub fn subject_id(&self) -> (r: u64)
        ensures
            r == self@.subject,
    {
        self.subject_id
    }

    /// Searches the sorted chunk list for the chunk with id `chunk_id`: its index if it is
    /// there, or else the index at which it would be inserted.
    fn find_chunk(&self, chunk_id: usize) -> (r: Result<usize, usize>)
        requires
            self.wf(),
        ensures
            r matches Ok(i) ==> i < self.chunks@.len() && self.chunks@[i as int].id == chunk_id,
            r matches Err(p) ==> {
                &&& p <= self.chunks@.len()
                &&& forall|j: int| 0 <= j < p ==> (#[trigger] self.chunks@[j]).id < chunk_id
                &&& forall|j: int| p <= j < self.chunks@.len() ==> (#[trigger] self.chunks@[j]).id > chunk_id
            },
    {
        let mut lo: usize = 0;
        let mut hi: usize = self.chunks.len();
        while lo < hi
            invariant
                self.wf(),
                lo <= hi <= self.chunks@.len(),
                forall|j: int| 0 <= j < lo ==> (#[trigger] self.chunks@[j]).id < chunk_id,
                forall|j: int| hi <= j < self.chunks@.len() ==> (#[trigger] self.chunks@[j]).id > chunk_id,
            decreases hi - lo,
        {
            let mid = lo + (hi - lo) / 2;
            let mid_id = self.chunks[mid].id;
            if chunk_id < mid_id {
                proof {
                    assert forall|j: int| mid <= j < self.chunks@.len() implies (#[trigger] self.chunks@[j]).id > chunk_id by {
                        if j > mid {
                            assert(self.chunks@[mid as int].id < self.chunks@[j].id);
                        }
                    }
                }
                hi = mid;
            } else if chunk_id > mid_id {
                proof {
                    assert forall|j: int| 0 <= j <= mid implies (#[trigger] self.chunks@[j]).id < chunk_id by {
                        if j < mid {
                            assert(self.chunks@[j].id < self.chunks@[mid as int].id);
                        }
                    }
                }
                lo = mid + 1;
            } else {
                return Ok(mid);
            }
        }
        Err(lo)
    }

    /// The value of slot `k`, if it has been initialized.
    pub fn lookup(&self, k: SlotKey) -> (r: Option<&V>)
        requires
            self.wf(),
        ensures
            r.is_some() == self@.values.contains_key(k),
            r matches Some(v) ==> *v == self@.values[k],
    {
        if k.1 >= WORD_BITS {
            return None;
        }
        match self.find_chunk(k.0) {
            Ok(i) => {
                proof {
                    self.lemma_chunk_view(i as int, k);
                }
                if self.chunks[i].is_set(k.1) {
                    Some(self.chunks[i].cell(k.1))
                } else {
                    None
                }
            },
            Err(_) => {
                proof {
                    self.lemma_no_chunk(k);
                }
                None
            },
        }
    }
}

impl<V> PropertyData<V> {
    /// The index of the chunk with id `chunk_id`, inserting an empty one where the sorted
    /// order puts it if the store has none yet.
    fn chunk_index(&mut self, chunk_id: usize) -> (i: usize)
        requires
            old(self).wf(),
        ensures
            final(self).wf(),
            i < final(self).chunks@.len(),
            final(self).chunks@[i as int].id == chunk_id,
            final(self)@ == old(self)@,
    {
        match self.find_chunk(chunk_id) {
            Ok(i) => i,
            Err(p) => {
                let ghost before = *self;
                self.chunks.insert(p, Chunk::empty(chunk_id));
                proof {
                    assert forall|i: int, j: int|
                        0 <= i < j < self.chunks@.len() implies (#[trigger] self.chunks@[i]).id
                            < (#[trigger] self.chunks@[j]).id by {
                        if j < p {
                        } else if j == p {
                        } else if i < p {
                            assert(self.chunks@[j] == before.chunks@[j - 1]);
                        } else if i == p {
                            assert(self.chunks@[j] == before.chunks@[j - 1]);
                        } else {
                            assert(self.chunks@[j] == before.chunks@[j - 1]);
                            assert(self.chunks@[i] == before.chunks@[i - 1]);
                        }
                    }
                    assert forall|i: int| 0 <= i < self.chunks@.len() implies chunk_ok(#[trigger] self.chunks@[i]) by {
                        if i > p {
                            assert(self.chunks@[i] == before.chunks@[i - 1]);
                        }
                    }
                    before.lemma_inserted_chunk_view(self, p as int);
                }
                p
            },
        }
    }

    /// Writes `v` into slot `k`, initializing it if it was not.
    pub fn write(&mut self, k: SlotKey, v: V)
        requires
            old(self).wf(),
            k.1 < WORD_BITS,
        ensures
            final(self).wf(),
            final(self)@.subject == old(self)@.subject,
            final(self)@.values == old(self)@.values.insert(k, v),
    {
        let i = self.chunk_index(k.0);
        let ghost before = *self;
        self.chunks[i].put(k.1, v);
        proof {
            assert forall|a: int, b: int|
                0 <= a < b < self.chunks@.len() implies (#[trigger] self.chunks@[a]).id
                    < (#[trigger] self.chunks@[b]).id by {
                assert(before.chunks@[a].id < before.chunks@[b].id);
            }
            before.lemma_same_chunks_view(self, i as int, k.1, v);
        }
    }

    /// Commits `candidate` as the value of slot `k` unless the slot was initialized meanwhile,
    /// in which case the candidate is discarded and the value in place is kept. Either way,
    /// returns the committed value.
    pub fn commit(&mut self, k: SlotKey, candidate: V) -> (r: &V)
        requires
            old(self).wf(),
            k.1 < WORD_BITS,
        ensures
            final(self).wf(),
            final(self)@.subject == old(self)@.subject,
            final(self)@.values == committed(old(self)@.values, k, candidate),
            *r == final(self)@.values[k],
    {
        let i = self.chunk_index(k.0);
        proof {
            self.lemma_chunk_view(i as int, k);
        }
        if !self.chunks[i].is_set(k.1) {
            let ghost before = *self;
            self.chunks[i].put(k.1, candidate);
            proof {
                assert forall|a: int, b: int|
                    0 <= a < b < self.chunks@.len() implies (#[trigger] self.chunks@[a]).id
                        < (#[trigger] self.chunks@[b]).id by {
                    assert(before.chunks@[a].id < before.chunks@[b].id);
                }
                before.lemma_same_chunks_view(self, i as int, k.1, candidate);
            }
        }
        proof {
            self.lemma_chunk_view(i as int, k);
        }
        self.chunks[i].cell(k.1)
    }

    /// Exclusive access to the value of slot `k`, which must be initialized.
    pub fn value_mut(&mut self, k: SlotKey) -> (r: &mut V)
        requires
            old(self).wf(),
            old(self)@.values.contains_key(k),
        ensures
            final(self).wf(),
            *r == old(self)@.values[k],
            final(self)@.subject == old(self)@.subject,
            final(self)@.values == old(self)@.values.insert(k, *final(r)),
    {
        let i = self.chunk_index(k.0);
        proof {
            self.lemma_chunk_view(i as int, k);
        }
        proof {
            self.lemma_any_update_view(i as int, k.1);
        }
        self.chunks[i].cell_mut(k.1)
    }
}

impl<V> PropertyData<V> {
    /// Tears the store down: destructs, chunk by chunk in id order and within a chunk in order of
    /// registration, the value of every initialized slot that `subject` lists as destructible,
    /// and returns the keys of those slots. The values of the other slots are released without
    /// a destructor of their own.
    pub fn teardown(self, subject: &Subject) -> (r: Result<Vec<SlotKey>, AccessError>)
        requires
            self.wf(),
            subject_wf(subject@),
        ensures
            r is Err <==> self@.subject != subject@.id,
            r matches Ok(keys) ==> torn_down(self@, subject@, keys@),
    {
        if self.subject_id != subject.id() {
            return Err(AccessError::SubjectMismatch);
        }
        let ghost orig = self;
        let mut chunks = self.chunks;
        let mut keys: Vec<SlotKey> = Vec::new();
        let mut ci: usize = 0;
        while ci < chunks.len()
            invariant
                orig.wf(),
                subject_wf(subject@),
                ci <= chunks@.len() == orig.chunks@.len(),
                forall|j: int| 0 <= j < chunks@.len() ==> (#[trigger] chunks@[j]).id == orig.chunks@[j].id
                    && chunks@[j].init_word == orig.chunks@[j].init_word
                    && chunks@[j].cells@.len() == WORD_BITS,
                keys@.no_duplicates(),
                forall|k: SlotKey|
                    #[trigger] keys@.contains(k) <==> (orig@.values.contains_key(k) && destructible(subject@, k)
                        && (ci < orig.chunks@.len() ==> k.0 < orig.chunks@[ci as int].id)),
            decreases chunks@.len() - ci,
        {
            let id = chunks[ci].id;
            let ghost keys0 = keys@;
            if id < subject.chunk_count() {
                let drops = subject.drop_slots(id);
                let mut di: usize = 0;
                while di < drops.len()
                    invariant
                        orig.wf(),
                        subject_wf(subject@),
                        ci < chunks@.len() == orig.chunks@.len(),
                        id == orig.chunks@[ci as int].id,
                        id < subject@.chunks.len(),
                        drops@ == subject@.chunks[id as int].drops,
                        di <= drops@.len(),
                        forall|j: int| 0 <= j < chunks@.len() ==> (#[trigger] chunks@[j]).id == orig.chunks@[j].id
                            && chunks@[j].init_word == orig.chunks@[j].init_word
                            && chunks@[j].cells@.len() == WORD_BITS,
                        keys@.no_duplicates(),
                        forall|k: SlotKey|
                            #[trigger] keys@.contains(k) <==> (orig@.values.contains_key(k) && destructible(subject@, k)
                                && (k.0 < id || (k.0 == id && exists|m: int| 0 <= m < di && (#[trigger] drops@[m]).bit == k.1))),
                    decreases drops@.len() - di,
                {
                    let b = drops[di].bit;
                    proof {
                        assert(subject@.chunks[id as int].id == id);
                        assert(b < WORD_BITS);
                    }
                    let ghost kb = keys@;
                    let set_now = test_bit(chunks[ci].init_word, b);
                    if set_now {
                        proof {
                            assert(!keys@.contains((id, b))) by {
                                if keys@.contains((id, b)) {
                                    let m = choose|m: int| 0 <= m < di && (#[trigger] drops@[m]).bit == b;
                                    assert(drops@[m].bit != drops@[di as int].bit);
                                }
                            }
                        }
                        keys.push((id, b));
                        chunks[ci].cells.set(b as usize, None);
                    }
                    proof {
                        assert(chunk_ok(orig.chunks@[ci as int]));
                        orig.lemma_chunk_view(ci as int, (id, b));
                        assert(orig@.values.contains_key((id, b)) == set_now);
                        assert forall|k: SlotKey| #[trigger] keys@.contains(k) <==> (kb.contains(k) || (set_now && k == (id, b))) by {
                            if set_now {
                                assert(keys@ == kb.push((id, b)));
                                if kb.contains(k) {
                                    let x = kb.index_of(k);
                                    assert(keys@[x] == k);
                                }
                                if k == (id, b) {
                                    assert(keys@[kb.len() as int] == k);
                                }
                            }
                        }
                        assert forall|k: SlotKey|
                            #[trigger] keys@.contains(k) <==> (orig@.values.contains_key(k) && destructible(subject@, k)
                                && (k.0 < id || (k.0 == id && exists|m: int| 0 <= m < di + 1 && (#[trigger] drops@[m]).bit == k.1))) by {
                            if k.0 == id && k.1 == b {
                                assert(drops@[di as int].bit == k.1);
                                assert(destructible(subject@, k));
                            }
                            if k.0 == id && exists|m: int| 0 <= m < di + 1 && (#[trigger] drops@[m]).bit == k.1 {
                                let m = choose|m: int| 0 <= m < di + 1 && (#[trigger] drops@[m]).bit == k.1;
                                if m < di {
                                } else {
                                    assert(k.1 == b);
                                }
                            }
                        }
                    }
                    di += 1;
                }
                proof {
                    assert forall|k: SlotKey|
                        #[trigger] keys@.contains(k) <==> (orig@.values.contains_key(k) && destructible(subject@, k)
                            && k.0 <= id) by {
                        if k.0 == id && destructible(subject@, k) {
                            let m = choose|m: int| 0 <= m < subject@.chunks[k.0 as int].drops.len()
                                && (#[trigger] subject@.chunks[k.0 as int].drops[m]).bit == k.1;
                            assert(drops@[m].bit == k.1);
                        }
                    }
                }
            } else {
                proof {
                    assert forall|k: SlotKey|
                        #[trigger] keys@.contains(k) <==> (orig@.values.contains_key(k) && destructible(subject@, k)
                            && k.0 <= id) by {
                    }
                }
            }
            proof {
                assert forall|k: SlotKey|
                    #[trigger] keys@.contains(k) <==> (orig@.values.contains_key(k) && destructible(subject@, k)
                        && (ci + 1 < orig.chunks@.len() ==> k.0 < orig.chunks@[ci + 1].id)) by {
                    if orig@.values.contains_key(k) {
                        let j = choose|j: int| 0 <= j < orig.chunks@.len() && (#[trigger] orig.chunks@[j]).id == k.0
                            && orig.chunks@[j].cells@[k.1 as int].is_some();
                        if j < ci {
                            assert(orig.chunks@[j].id < orig.chunks@[ci as int].id);
                        } else if j > ci + 1 {
                            assert(orig.chunks@[ci + 1].id < orig.chunks@[j].id);
                        } else if j > ci {
                        }
                        if j > ci {
                            assert(orig.chunks@[ci as int].id < orig.chunks@[j].id);
                        }
                        if j <= ci && ci + 1 < orig.chunks@.len() {
                            assert(orig.chunks@[ci as int].id < orig.chunks@[ci + 1].id);
                        }
                    }
                }
            }
            ci += 1;
        }
        Ok(keys)
    }
}

} // verus!
