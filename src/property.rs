use vstd::prelude::*;
use vstd::pervasive::cloned;
use crate::bits::WORD_BITS;
use crate::object::Extend;
use crate::store::{committed, AccessError, PropertyData, SlotKey, StoreModel};
use crate::subject::{after_register, registered_slot, subject_wf, SlotDescriptor, Subject};

verus! {

/// How a property produces its value on an object where it was never set.
pub enum Initializer<V> {
    /// The type's default value.
    Default,
    /// A clone of a fixed value.
    Const(V),
}

/// Whether `v` is a value that initializer `init` may produce.
pub open spec fn initial_value<V: Default + Clone>(init: Initializer<V>, v: V) -> bool {
    match init {
        Initializer::Default => call_ensures(V::default, (), v),
        Initializer::Const(c) => cloned(c, v),
    }
}

/// The outcome of an initializing read of slot `k` that returned `v`: a slot that was
/// initialized keeps its value and is returned; one that was not is committed with a value
/// that `fresh` accepts. No other slot changes.
pub open spec fn read_outcome<V>(
    k: SlotKey,
    before: StoreModel<V>,
    after: StoreModel<V>,
    v: V,
    fresh: spec_fn(V) -> bool,
) -> bool {
    &&& after.subject == before.subject
    &&& if before.values.contains_key(k) {
        after.values == before.values && v == before.values[k]
    } else {
        fresh(v) && after.values == before.values.insert(k, v)
    }
}

/// The outcome of writing `v` into slot `k`.
pub open spec fn write_outcome<V>(k: SlotKey, before: StoreModel<V>, after: StoreModel<V>, v: V) -> bool {
    &&& after.subject == before.subject
    &&& after.values == before.values.insert(k, v)
}

/// Relies on std::mem::needs_drop: whether dropping a `V` may run code. Nothing is assumed of
/// the answer; it only decides whether a slot is listed for destruction.
#[verifier::external_body]
fn type_needs_drop<V>() -> bool {
    core::mem::needs_drop::<V>()
}

/// A typed handle to one slot of a subject, with the strategy that initializes it.
pub struct Property<V> {
    subject_id: u64,
    slot: SlotDescriptor,
    init: Initializer<V>,
}

impl<V> Property<V> {
    #[verifier::type_invariant]
    closed spec fn inv(&self) -> bool {
        self.slot.bit < WORD_BITS
    }

    /// The id of the subject this property was registered with.
    pub closed spec fn subject(&self) -> u64 {
        self.subject_id
    }

    /// The slot this property was given.
    pub closed spec fn slot(&self) -> SlotDescriptor {
        self.slot
    }

    /// The strategy that initializes this property.
    pub closed spec fn initializer(&self) -> Initializer<V> {
        self.init
    }

    /// The key of this property's slot in a store.
    pub open spec fn key(&self) -> SlotKey {
        (self.slot().chunk_id, self.slot().bit)
    }

    /// Registers a new property for the values of type `V` on `subject`, sized and aligned
    /// for `V`, and destructible when dropping a `V` runs code.
    pub fn new(subject: &mut Subject, init: Initializer<V>) -> (p: Property<V>)
        requires
            subject_wf(old(subject)@),
        ensures
            subject_wf(final(subject)@),
            p.subject() == old(subject)@.id,
            p.initializer() == init,
            p.slot() == registered_slot(
                old(subject)@,
                vstd::layout::size_of::<V>(),
                vstd::layout::align_of::<V>(),
                p.slot().destructible,
            ),
            final(subject)@ == after_register(
                old(subject)@,
                vstd::layout::size_of::<V>(),
                vstd::layout::align_of::<V>(),
                p.slot().destructible,
            ),
    {
        vstd::layout::layout_for_type_is_valid::<V>();
        let size = core::mem::size_of::<V>();
        let align = core::mem::align_of::<V>();
        let destructible = type_needs_drop::<V>();
        let slot = subject.register(size, align, destructible);
        Property { subject_id: subject.id(), slot, init }
    }

    /// The id of the subject this property was registered with.
    pub fn subject_id(&self) -> (r: u64)
        ensures
            r == self.subject(),
    {
        self.subject_id
    }

    /// The slot this property was given.
    pub fn slot_descriptor(&self) -> (r: SlotDescriptor)
        ensures
            r == self.slot(),
    {
        self.slot
    }

    /// The key of this property's slot, or the mismatch error when `data` is bound to another
    /// subject than this property.
    pub(crate) fn key_in(&self, data: &PropertyData<V>) -> (r: Result<SlotKey, AccessError>)
        ensures
            r is Err <==> data@.subject != self.subject(),
            r matches Ok(k) ==> k == self.key() && k.1 < WORD_BITS,
    {
        proof {
            use_type_invariant(self);
        }
        if data.subject_id() != self.subject_id {
            Err(AccessError::SubjectMismatch)
        } else {
            Ok((self.slot.chunk_id, self.slot.bit))
        }
    }

    /// The value of this property on `data` if it has been initialized, without initializing
    /// it.
    pub fn try_get<'a>(&self, data: &'a PropertyData<V>) -> (r: Result<Option<&'a V>, AccessError>)
        requires
            data.wf(),
        ensures
            r is Err <==> data@.subject != self.subject(),
            r matches Ok(o) ==> {
                &&& o.is_some() == data@.values.contains_key(self.key())
                &&& o matches Some(v) ==> *v == data@.values[self.key()]
            },
    {
        let k = self.key_in(data)?;
        Ok(data.lookup(k))
    }

    /// Commits `candidate` as this property's value on `obj` unless a value was committed
    /// first, in which case the candidate is discarded. Returns the value in place afterwards.
    pub fn commit<'a, T: Extend<V>>(
        &self,
        obj: &'a mut T,
        candidate: V,
    ) -> (r: Result<&'a V, AccessError>)
        requires
            old(obj).props().wf(),
        ensures
            final(obj).props().wf(),
            r is Err <==> old(obj).props()@.subject != self.subject(),
            r is Err ==> final(obj).props() == old(obj).props(),
            r is Ok ==> final(obj).props()@.subject == old(obj).props()@.subject && final(obj).props()@.values == committed(
                old(obj).props()@.values,
                self.key(),
                candidate,
            ),
            r matches Ok(v) ==> *v == final(obj).props()@.values[self.key()],
    {
        let data = obj.prop_data();
        let k = self.key_in(data)?;
        Ok(data.commit(k, candidate))
    }

    /// Sets the value of this property on `obj`.
    pub fn set<T: Extend<V>>(&self, obj: &mut T, value: V) -> (r: Result<(), AccessError>)
        requires
            old(obj).props().wf(),
        ensures
            final(obj).props().wf(),
            r is Err <==> old(obj).props()@.subject != self.subject(),
            r is Err ==> final(obj).props() == old(obj).props(),
            r is Ok ==> write_outcome(self.key(), old(obj).props()@, final(obj).props()@, value),
    {
        let data = obj.prop_data();
        let k = self.key_in(data)?;
        data.write(k, value);
        Ok(())
    }

    /// The value of this property on `obj`, produced by `init` and committed first if the
    /// property had never been initialized there. `init` is not called when it had.
    pub fn get_with_init<'a, T: Extend<V>, F: Fn() -> V>(
        &self,
        obj: &'a mut T,
        init: F,
    ) -> (r: Result<&'a V, AccessError>)
        requires
            old(obj).props().wf(),
            init.requires(()),
        ensures
            final(obj).props().wf(),
            r is Err <==> old(obj).props()@.subject != self.subject(),
            r is Err ==> final(obj).props() == old(obj).props(),
            r is Ok && old(obj).props()@.values.contains_key(self.key()) ==> final(obj).props() == old(obj).props(),
            r matches Ok(v) ==> read_outcome(
                self.key(),
                old(obj).props()@,
                final(obj).props()@,
                *v,
                |x: V| init.ensures((), x),
            ),
    {
        let data = obj.prop_data();
        let k = self.key_in(data)?;
        if data.lookup(k).is_none() {
            let candidate = init();
            return Ok(data.commit(k, candidate));
        }
        Ok(data.lookup(k).unwrap())
    }

    /// Exclusive access to the value of this property on `obj`, produced by `init` and
    /// committed first if the property had never been initialized there.
    pub fn get_mut_with_init<'a, T: Extend<V>, F: Fn() -> V>(
        &self,
        obj: &'a mut T,
        init: F,
    ) -> (r: Result<&'a mut V, AccessError>)
        requires
            old(obj).props().wf(),
            init.requires(()),
        ensures
            final(obj).props().wf(),
            r is Err <==> old(obj).props()@.subject != self.subject(),
            r is Err ==> final(obj).props() == old(obj).props(),
            r matches Ok(v) ==> old(obj).props()@.values.contains_key(self.key()) ==> *v == old(obj).props()@.values[self.key()],
            r matches Ok(v) ==> !old(obj).props()@.values.contains_key(self.key()) ==> init.ensures((), *v),
            r matches Ok(v) ==> final(obj).props()@.subject == old(obj).props()@.subject && final(obj).props()@.values
                == old(obj).props()@.values.insert(self.key(), *final(v)),
    {
        let data = obj.prop_data();
        let k = self.key_in(data)?;
        if data.lookup(k).is_none() {
            let candidate = init();
            data.commit(k, candidate);
        }
        Ok(data.value_mut(k))
    }
}

impl<V: Default + Clone> Property<V> {
    fn initial(&self) -> (v: V)
        ensures
            initial_value(self.initializer(), v),
    {
        match &self.init {
            Initializer::Default => V::default(),
            Initializer::Const(c) => c.clone(),
        }
    }

    /// The value of this property on `obj`, produced by its initializer and committed first if
    /// the property had never been initialized there.
    pub fn get<'a, T: Extend<V>>(&self, obj: &'a mut T) -> (r: Result<&'a V, AccessError>)
        requires
            old(obj).props().wf(),
        ensures
            final(obj).props().wf(),
            r is Err <==> old(obj).props()@.subject != self.subject(),
            r is Err ==> final(obj).props() == old(obj).props(),
            r is Ok && old(obj).props()@.values.contains_key(self.key()) ==> final(obj).props() == old(obj).props(),
            r matches Ok(v) ==> read_outcome(
                self.key(),
                old(obj).props()@,
                final(obj).props()@,
                *v,
                |x: V| initial_value(self.initializer(), x),
            ),
    {
        let data = obj.prop_data();
        let k = self.key_in(data)?;
        if data.lookup(k).is_none() {
            let candidate = self.initial();
            return Ok(data.commit(k, candidate));
        }
        Ok(data.lookup(k).unwrap())
    }

    /// Exclusive access to the value of this property on `obj`, produced by its initializer
    /// and committed first if the property had never been initialized there.
    pub fn get_mut<'a, T: Extend<V>>(&self, obj: &'a mut T) -> (r: Result<&'a mut V, AccessError>)
        requires
            old(obj).props().wf(),
        ensures
            final(obj).props().wf(),
            r is Err <==> old(obj).props()@.subject != self.subject(),
            r is Err ==> final(obj).props() == old(obj).props(),
            r matches Ok(v) ==> old(obj).props()@.values.contains_key(self.key()) ==> *v == old(obj).props()@.values[self.key()],
            r matches Ok(v) ==> !old(obj).props()@.values.contains_key(self.key()) ==> initial_value(self.initializer(), *v),
            r matches Ok(v) ==> final(obj).props()@.subject == old(obj).props()@.subject && final(obj).props()@.values
                == old(obj).props()@.values.insert(self.key(), *final(v)),
    {
        let data = obj.prop_data();
        let k = self.key_in(data)?;
        if data.lookup(k).is_none() {
            let candidate = self.initial();
            data.commit(k, candidate);
        }
        Ok(data.value_mut(k))
    }
}

} // verus!
