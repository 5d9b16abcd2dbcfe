use vstd::prelude::*;
use vstd::pervasive::cloned;
use crate::bits::{lemma_lowest_clear, lemma_set_bit};
use crate::property::{initial_value, read_outcome, write_outcome, Initializer, Property};
use crate::store::{committed, destructed_set, torn_down, SlotKey, StoreModel};
use crate::subject::{
    after_register, disjoint, round_up, first_fit, fits, issued, registered_slot, subject_wf, SubjectModel,
};

verus! {

/// On a store that was just created, an initializing read of a property whose initializer is
/// the constant `c` returns a clone of `c` and commits it.
pub proof fn law_fresh_store_reads_constant<V: Default + Clone>(
    p: Property<V>,
    c: V,
    before: StoreModel<V>,
    after: StoreModel<V>,
    v: V,
)
    requires
        p.initializer() == Initializer::Const(c),
        before.values == Map::<SlotKey, V>::empty(),
        read_outcome(p.key(), before, after, v, |x: V| initial_value(p.initializer(), x)),
    ensures
        cloned(c, v),
        after.values == before.values.insert(p.key(), v),
{
}

/// A read of a slot right after `v` was written into it returns `v` and changes nothing,
/// whether or not the slot was initialized before the write.
pub proof fn law_read_after_write<V>(
    k: SlotKey,
    s0: StoreModel<V>,
    s1: StoreModel<V>,
    s2: StoreModel<V>,
    v: V,
    w: V,
    fresh: spec_fn(V) -> bool,
)
    requires
        write_outcome(k, s0, s1, v),
        read_outcome(k, s1, s2, w, fresh),
    ensures
        w == v,
        s2 == s1,
{
}

/// Once a read has initialized a slot, every later read of it returns the same value and
/// changes nothing, whatever initializer it carries: the initializer runs at most once.
pub proof fn law_initialized_once<V>(
    k: SlotKey,
    s0: StoreModel<V>,
    s1: StoreModel<V>,
    s2: StoreModel<V>,
    v1: V,
    v2: V,
    first: spec_fn(V) -> bool,
    later: spec_fn(V) -> bool,
)
    requires
        read_outcome(k, s0, s1, v1, first),
        read_outcome(k, s1, s2, v2, later),
    ensures
        s1.values.contains_key(k),
        v2 == v1,
        s2 == s1,
{
}

proof fn lemma_first_fit_fits(chunks: Seq<crate::subject::ChunkModel>, size: nat, align: nat)
    ensures
        first_fit(chunks, size, align) <= chunks.len(),
        first_fit(chunks, size, align) < chunks.len() ==> fits(
            chunks[first_fit(chunks, size, align) as int],
            size,
            align,
        ),
    decreases chunks.len(),
{
    if chunks.len() > 0 && !fits(chunks[0], size, align) {
        lemma_first_fit_fits(chunks.drop_first(), size, align);
        let i = first_fit(chunks.drop_first(), size, align);
        if i < chunks.drop_first().len() {
            assert(chunks.drop_first()[i as int] == chunks[i as int + 1]);
        }
    }
}

/// Registering a new slot keeps every slot issued before valid, in place, and apart from the
/// new one: no byte and no initialization bit is shared.
pub proof fn law_register_keeps_issued_slots(
    s: SubjectModel,
    size: usize,
    align: usize,
    destructible: bool,
    e: crate::subject::SlotDescriptor,
)
    requires
        subject_wf(s),
        align > 0,
        issued(s, e),
    ensures
        issued(after_register(s, size as nat, align as nat, destructible), e),
        disjoint(e, registered_slot(s, size as nat, align as nat, destructible)),
{
    let i = first_fit(s.chunks, size as nat, align as nat);
    let d = registered_slot(s, size as nat, align as nat, destructible);
    let t = after_register(s, size as nat, align as nat, destructible);
    lemma_first_fit_fits(s.chunks, size as nat, align as nat);
    if i < s.chunks.len() {
        let c = s.chunks[i as int];
        assert(c.id == i);
        if e.chunk_id == i {
            lemma_lowest_clear(c.bits);
            lemma_set_bit(c.bits, d.bit, e.bit);
            assert(t.chunks[i as int].bits == c.bits | (1u64 << (d.bit as u64)));
            vstd::arithmetic::div_mod::lemma_mod_pos_bound(c.used as int, align as int);
            assert(round_up(c.used as int, align as int) >= c.used);
            assert(d.bit != e.bit);
            assert(e.offset + e.size <= d.offset);
        }
    } else {
        assert(t.chunks[e.chunk_id as int] == s.chunks[e.chunk_id as int]);
    }
}

/// A read or a write of one slot leaves the value of every other slot as it was.
pub proof fn law_other_slots_kept<V>(
    k: SlotKey,
    j: SlotKey,
    before: StoreModel<V>,
    after: StoreModel<V>,
    v: V,
    fresh: spec_fn(V) -> bool,
)
    requires
        j != k,
        read_outcome(k, before, after, v, fresh) || write_outcome(k, before, after, v),
    ensures
        after.values.contains_key(j) == before.values.contains_key(j),
        before.values.contains_key(j) ==> after.values[j] == before.values[j],
{
}

/// A teardown runs exactly one destructor for each initialized destructible slot, and none for
/// a slot that was never initialized.
pub proof fn law_teardown_counts<V>(d: StoreModel<V>, s: SubjectModel, keys: Seq<SlotKey>)
    requires
        torn_down(d, s, keys),
    ensures
        destructed_set(d, s).finite(),
        keys.len() == destructed_set(d, s).len(),
        forall|k: SlotKey| !d.values.contains_key(k) ==> !keys.contains(k),
{
    assert(keys.to_set() =~= destructed_set(d, s));
    keys.unique_seq_to_set();
}

/// Two initializations of a slot that both found it empty commit one after the other: the
/// second candidate is discarded, and both observe the first committed value.
pub proof fn law_racing_commits_agree<V>(m: Map<SlotKey, V>, k: SlotKey, first: V, second: V)
    requires
        !m.contains_key(k),
    ensures
        committed(committed(m, k, first), k, second) == committed(m, k, first),
        committed(m, k, first)[k] == first,
        committed(committed(m, k, first), k, second)[k] == first,
{
}

} // verus!
