use dynprops::object::{Dynamic, Extended};
use dynprops::property::{Initializer, Property};
use dynprops::subject::Subject;
use std::cell::Cell;
use std::sync::Arc;

#[test]
fn test_dyn_add() {
    let mut subject = Subject::new(1);
    let mut dynamic = Dynamic::new(&subject);
    for i in 0..100 {
        let prop = Property::new(&mut subject, Initializer::Const(i));
        assert_eq!(*prop.get(&mut dynamic).unwrap(), i);
    }
}

#[test]
#[should_panic]
fn test_wrong_subject() {
    let mut subject_a = Subject::new(1);
    let mut subject_b = Subject::new(2);
    let _prop_a = Property::new(&mut subject_a, Initializer::Const(1));
    let prop_b = Property::new(&mut subject_b, Initializer::Const(2));
    let mut dynamic_a = Dynamic::new(&subject_a);
    let _ = prop_b.get(&mut dynamic_a).unwrap();
}

#[test]
fn tests_test_new_prop() {
    let mut subject = Subject::new(1);
    let mut dynamic = Dynamic::new(&subject);
    for i in 0..100 {
        let prop = Property::new(&mut subject, Initializer::Default);
        assert_eq!(*prop.get(&mut dynamic).unwrap(), 0);
        prop.set(&mut dynamic, i).unwrap();
        assert_eq!(*prop.get(&mut dynamic).unwrap(), i);
    }
}

#[test]
fn simple_test_new_prop() {
    let mut subject = Subject::new(1);
    let mut dynamic = Dynamic::new(&subject);
    for i in 0..100 {
        let prop = Property::new(&mut subject, Initializer::Const(i));
        assert_eq!(*prop.get(&mut dynamic).unwrap(), i);
    }
}

pub struct DropCounter {
    tracker: Arc<()>,
    is_alive: Cell<bool>,
}

impl DropCounter {
    pub fn new(tracker: Arc<()>) -> Self {
        let is_alive = Cell::new(true);
        DropCounter { tracker, is_alive }
    }

    pub fn touch(&self) {
        assert!(self.is_alive.get());
    }
}

impl Clone for DropCounter {
    fn clone(&self) -> Self {
        assert!(self.is_alive.get());
        DropCounter::new(self.tracker.clone())
    }
}

impl Drop for DropCounter {
    fn drop(&mut self) {
        assert!(self.is_alive.get());
        self.is_alive.set(false);
    }
}

#[test]
fn tests_test_drop() {
    let mut tracker = Arc::new(());
    {
        let mut subject = Subject::new(1);
        let prop_a = Property::new(&mut subject, Initializer::Default);
        let mut dynamic_a = Dynamic::new(&subject);
        let prop_b = Property::new(&mut subject, Initializer::Default);
        let init = || DropCounter::new(tracker.clone());
        prop_a.get_with_init(&mut dynamic_a, init).unwrap().touch();
        prop_b.get_with_init(&mut dynamic_a, init).unwrap().touch();
        let mut dynamic_b = Dynamic::new(&subject);
        prop_b.get_with_init(&mut dynamic_b, init).unwrap().touch();
        drop(dynamic_a);
        prop_a.get_with_init(&mut dynamic_b, init).unwrap().touch();
        drop(prop_b);
    }
    assert!(Arc::get_mut(&mut tracker).is_some());
}

#[test]
fn simple_test_drop() {
    let mut tracker = Arc::new(());
    {
        let mut subject = Subject::new(1);
        let prop_a = Property::new(&mut subject, Initializer::Const(DropCounter::new(tracker.clone())));
        let mut dynamic_a = Dynamic::new(&subject);
        let prop_b = Property::new(&mut subject, Initializer::Const(DropCounter::new(tracker.clone())));
        prop_a.get(&mut dynamic_a).unwrap().touch();
        prop_b.get(&mut dynamic_a).unwrap().touch();
        let mut dynamic_b = Dynamic::new(&subject);
        prop_b.get(&mut dynamic_b).unwrap().touch();
        drop(dynamic_a);
        prop_a.get(&mut dynamic_b).unwrap().touch();
        drop(prop_b);
    }
    assert!(Arc::get_mut(&mut tracker).is_some());
}

impl Default for DropCounter {
    fn default() -> Self {
        DropCounter::new(Arc::new(()))
    }
}

struct Context {
    param: i32,
}

fn double(context: &mut Extended<Context, i32>) -> i32 {
    context.value.param * 2
}

fn square(context: &mut Extended<Context, i32>) -> i32 {
    context.value.param * context.value.param
}

struct ContextProps {
    double: Property<i32>,
    square: Property<i32>,
    square_plus_double: Property<i32>,
}

impl ContextProps {
    fn new(subject: &mut Subject) -> Self {
        ContextProps {
            double: Property::new(subject, Initializer::Default),
            square: Property::new(subject, Initializer::Default),
            square_plus_double: Property::new(subject, Initializer::Default),
        }
    }

    fn double(&self, obj: &mut Extended<Context, i32>) -> i32 {
        *self.double.get_computed(obj, double).unwrap()
    }

    fn square(&self, obj: &mut Extended<Context, i32>) -> i32 {
        *self.square.get_computed(obj, square).unwrap()
    }

    fn square_plus_double(&self, obj: &mut Extended<Context, i32>) -> i32 {
        *self
            .square_plus_double
            .get_computed(obj, |context: &mut Extended<Context, i32>| {
                self.square(context) + self.double(context)
            })
            .unwrap()
    }
}

#[test]
fn test_test_lazy_static() {
    let mut subject = Subject::new(7);
    let props = ContextProps::new(&mut subject);
    let mut obj = Extended::new(Context { param: 3 }, &subject);
    assert_eq!(props.double(&mut obj), 6);
    assert_eq!(props.square(&mut obj), 9);
    assert_eq!(props.square_plus_double(&mut obj), 15);
}

#[test]
fn lazy_static_test_lazy_static() {
    let mut subject = Subject::new(8);
    let props = ContextProps::new(&mut subject);
    let mut obj = Extended::new(Context { param: 3 }, &subject);
    assert_eq!(props.double(&mut obj), 6);
    assert_eq!(props.square(&mut obj), 9);
    assert_eq!(props.square_plus_double(&mut obj), 15);
}

#[test]
fn test_static_init() {
    let mut subject = Subject::new(9);
    let props = ContextProps::new(&mut subject);
    let mut obj = Extended::new(Context { param: 3 }, &subject);
    assert_eq!(props.double(&mut obj), 6);
    assert_eq!(props.square(&mut obj), 9);
    assert_eq!(props.square_plus_double(&mut obj), 15);
}
