use dirk::component::builder::{Builder, InputStatus, SetInput, Unset, UnsetBuilder};
use dirk::component::instance_binds::{ClonedInstanceFactory, ScopedInstanceFactory};
use dirk::component::{Component, StaticComponent};
use dirk::provides::Provider;
use std::rc::Rc;

#[test]
fn cloned_instance_factory_hands_out_clones() {
    let factory = ClonedInstanceFactory::new(vec![1, 2, 3]);
    let a = factory.get();
    let mut b = factory.get();
    b.push(4);
    assert_eq!(a, vec![1, 2, 3]);
    assert_eq!(factory.get(), vec![1, 2, 3]);
}

#[test]
fn scoped_instance_factory_shares_one_cell() {
    let factory = ScopedInstanceFactory::new(41);
    let a = factory.get();
    let b = factory.get();
    assert!(Rc::ptr_eq(&a, &b));
    *a.borrow_mut() += 1;
    assert_eq!(*b.borrow(), 42);
}

struct Counter;

struct CounterBuilder;

impl UnsetBuilder for CounterBuilder {}

impl Builder<u32> for CounterBuilder {
    fn build(self) -> u32 {
        7
    }
}

impl Component<CounterBuilder> for Counter {
    fn builder() -> CounterBuilder {
        CounterBuilder
    }
}

impl StaticComponent<u32, CounterBuilder> for Counter {}

#[test]
fn static_component_creates_what_its_builder_builds() {
    assert_eq!(Counter::create(), 7);
}

fn status<S: InputStatus>(_s: &S) -> bool {
    true
}

#[test]
fn set_and_unset_are_input_states() {
    let set = SetInput(5u8);
    assert!(status(&Unset));
    assert!(status(&set));
    assert_eq!(set.0, 5);
}
