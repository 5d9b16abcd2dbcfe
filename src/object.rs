use vstd::prelude::*;
use crate::property::Property;
use crate::store::{AccessError, PropertyData, SlotKey};
use crate::subject::Subject;

verus! {

/// Types whose values carry a store of dynamic properties.
pub trait Extend<V> {
    /// The store embedded in this value.
    spec fn props(&self) -> PropertyData<V>;

    /// Exclusive access to the store embedded in this value.
    fn prop_data(&mut self) -> (r: &mut PropertyData<V>)
        ensures
            *r == old(self).props(),
            final(self).props() == *final(r),
    ;
}

impl<V> Extend<V> for PropertyData<V> {
    open spec fn props(&self) -> PropertyData<V> {
        *self
    }

    fn prop_data(&mut self) -> (r: &mut PropertyData<V>) {
        self
    }
}

/// An object made of dynamic properties alone.
pub struct Dynamic<V> {
    pub prop_data: PropertyData<V>,
}

impl<V> Dynamic<V> {
    /// Creates an object of `subject` with every property uninitialized.
    pub fn new(subject: &Subject) -> (d: Dynamic<V>)
        ensures
            d.prop_data.wf(),
            d.prop_data@.subject == subject@.id,
            d.prop_data@.values == Map::<SlotKey, V>::empty(),
    {
        Dynamic { prop_data: PropertyData::new(subject) }
    }
}

impl<V> Extend<V> for Dynamic<V> {
    open spec fn props(&self) -> PropertyData<V> {
        self.prop_data
    }

    fn prop_data(&mut self) -> (r: &mut PropertyData<V>) {
        &mut self.prop_data
    }
}

/// A value of type `T` augmented with dynamic properties.
pub struct Extended<T, V> {
    pub value: T,
    pub prop_data: PropertyData<V>,
}

impl<T, V> Extended<T, V> {
    /// Wraps `value` as an object of `subject` with every property uninitialized.
    pub fn new(value: T, subject: &Subject) -> (e: Extended<T, V>)
        ensures
            e.value == value,
            e.prop_data.wf(),
            e.prop_data@.subject == subject@.id,
            e.prop_data@.values == Map::<SlotKey, V>::empty(),
    {
        Extended { value, prop_data: PropertyData::new(subject) }
    }
}

impl<T, V> Extend<V> for Extended<T, V> {
    open spec fn props(&self) -> PropertyData<V> {
        self.prop_data
    }

    fn prop_data(&mut self) -> (r: &mut PropertyData<V>) {
        &mut self.prop_data
    }
}

impl<V> Property<V> {
    /// The value of this property on `obj`, computed from `obj` by `init` and committed if the
    /// property had never been initialized there. `init` runs with no part of the store held,
    /// so it may read and write other properties of `obj`; if it initializes this property
    /// itself, that value is kept and the computed one is discarded.
    pub fn get_computed<'a, T: Extend<V>, F: Fn(&mut T) -> V>(
        &self,
        obj: &'a mut T,
        init: F,
    ) -> (r: Result<&'a V, AccessError>)
        requires
            old(obj).props().wf(),
            forall|x: &mut T| x.props().wf() ==> init.requires((x,)),
            forall|x: &mut T, v: V| init.ensures((x,), v) ==> final(x).props().wf(),
        ensures
            final(obj).props().wf(),
            old(obj).props()@.subject != self.subject() ==> r is Err && final(obj).props() == old(obj).props(),
            old(obj).props()@.subject == self.subject() && old(obj).props()@.values.contains_key(self.key())
                ==> final(obj).props() == old(obj).props() && (r matches Ok(v) && *v == old(obj).props()@.values[self.key()]),
            r is Err <==> final(obj).props()@.subject != self.subject(),
            r matches Ok(v) ==> final(obj).props()@.values.contains_key(self.key())
                && *v == final(obj).props()@.values[self.key()],
    {
        let k = self.key_in(obj.prop_data())?;
        if obj.prop_data().lookup(k).is_some() {
            return Ok(obj.prop_data().lookup(k).unwrap());
        }
        let candidate = init(obj);
        let data = obj.prop_data();
        let k = self.key_in(data)?;
        Ok(data.commit(k, candidate))
    }
}

} // verus!
