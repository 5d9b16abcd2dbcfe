use dynprops::object::Dynamic;
use dynprops::property::{Initializer, Property};
use dynprops::store::AccessError;
use dynprops::subject::Subject;
use loom::sync::atomic::{AtomicUsize, Ordering};
use loom::sync::{Arc, Mutex};
use loom::thread;
use std::cell::Cell;

/// Reads `prop` from an object shared between threads: the lookup and the commit run under the
/// lock, the initializer with the lock released.
fn shared_get<V: Clone>(
    obj: &Mutex<Dynamic<V>>,
    prop: &Property<V>,
    init: impl Fn() -> V,
) -> Result<V, AccessError> {
    {
        let guard = obj.lock().unwrap();
        if let Some(v) = prop.try_get(&guard.prop_data)? {
            return Ok(v.clone());
        }
    }
    let candidate = init();
    let mut guard = obj.lock().unwrap();
    prop.commit(&mut *guard, candidate).map(|v| v.clone())
}

#[test]
fn test_concurrent_init() {
    loom::model(|| {
        let mut subject = Subject::new(1);
        let dynamic = Arc::new(Mutex::new(Dynamic::new(&subject)));
        let counter = Arc::new(AtomicUsize::new(0));
        let prop = Arc::new(Property::<usize>::new(&mut subject, Initializer::Default));
        let handle_0 = {
            let dynamic = dynamic.clone();
            let prop = prop.clone();
            let counter = counter.clone();
            thread::spawn(move || {
                shared_get(&dynamic, &prop, || counter.fetch_add(1, Ordering::SeqCst)).unwrap()
            })
        };
        let handle_1 = {
            let dynamic = dynamic.clone();
            let prop = prop.clone();
            let counter = counter.clone();
            thread::spawn(move || {
                shared_get(&dynamic, &prop, || counter.fetch_add(1, Ordering::SeqCst)).unwrap()
            })
        };
        let counter_0 = handle_0.join().unwrap();
        let counter_1 = handle_1.join().unwrap();
        assert_eq!(counter_0, counter_1);
    });
}

pub struct DropCounter {
    tracker: Arc<()>,
    is_alive: Cell<bool>,
}

impl DropCounter {
    pub fn new(tracker: Arc<()>) -> Self {
        let is_alive = Cell::new(true);
        DropCounter { tracker, is_alive }
    }

    pub fn touch(&self) {
        assert!(self.is_alive.get());
    }
}

impl Clone for DropCounter {
    fn clone(&self) -> Self {
        assert!(self.is_alive.get());
        DropCounter::new(self.tracker.clone())
    }
}

impl Drop for DropCounter {
    fn drop(&mut self) {
        assert!(self.is_alive.get());
        self.is_alive.set(false);
    }
}

impl Default for DropCounter {
    fn default() -> Self {
        DropCounter::new(Arc::new(()))
    }
}

#[test]
fn test_concurrent_drop() {
    loom::model(|| {
        let mut tracker = Arc::new(());
        let subject = Arc::new(Mutex::new(Subject::new(1)));
        let prop = Arc::new(Mutex::new(Property::new(
            &mut *subject.lock().unwrap(),
            Initializer::Const(DropCounter::new(tracker.clone())),
        )));
        let dynamic = Arc::new(Mutex::new(Dynamic::new(&*subject.lock().unwrap())));
        let handle_0 = {
            let subject = subject.clone();
            let tracker = tracker.clone();
            let prop = prop.clone();
            let dynamic = dynamic.clone();
            thread::spawn(move || {
                let prop_local = Property::new(
                    &mut *subject.lock().unwrap(),
                    Initializer::Const(DropCounter::new(tracker.clone())),
                );
                prop_local.get(&mut *dynamic.lock().unwrap()).unwrap().touch();
                let prop = prop.lock().unwrap();
                prop.get(&mut *dynamic.lock().unwrap()).unwrap().touch();
            })
        };
        let handle_1 = {
            let subject = subject.clone();
            let prop = prop.clone();
            let dynamic = dynamic.clone();
            thread::spawn(move || {
                let mut dynamic_local = Dynamic::new(&*subject.lock().unwrap());
                let prop = prop.lock().unwrap();
                prop.get(&mut *dynamic.lock().unwrap()).unwrap().touch();
                prop.get(&mut dynamic_local).unwrap().touch();
            })
        };
        handle_0.join().unwrap();
        handle_1.join().unwrap();
        drop(dynamic);
        drop(prop);
        assert!(Arc::get_mut(&mut tracker).is_some());
    });
}
