use std::cell::RefCell;

use auto_cc::allocation::{cc_with, Policy, DEFAULT_THRESHOLD};
use auto_cc::collector::CollectorLog;
use auto_cc::policy::Ratio;
use bacon_rajan_cc::{collect_cycles, number_of_roots_buffered, Cc, Trace, Tracer};

struct List(Vec<Cc<RefCell<List>>>);

impl Trace for List {
    fn trace(&self, tracer: &mut Tracer) {
        self.0.trace(tracer);
    }
}

fn cc<T: Trace>(value: T) -> Cc<T> {
    let mut log = CollectorLog::new();
    cc_with(&mut log, move |_| Cc::new(value))
}

fn link(a: &Cc<RefCell<List>>, b: &Cc<RefCell<List>>) {
    a.borrow_mut().0.push(b.clone());
    b.borrow_mut().0.push(a.clone());
}

fn create_cycle() {
    let a = cc(RefCell::new(List(Vec::new())));
    let b = cc(RefCell::new(List(Vec::new())));
    link(&a, &b);
}

fn create_cycle_through(policy: &mut Policy) {
    let a = policy.allocate_with(|_| Cc::new(RefCell::new(List(Vec::new()))));
    let b = policy.allocate_with(|_| Cc::new(RefCell::new(List(Vec::new()))));
    link(&a, &b);
}

fn three_quarters() -> Ratio {
    Ratio { num: 3, den: 4 }
}

#[test]
fn auto_collection() {
    assert_eq!(number_of_roots_buffered(), 0, "start");

    for _ in 0..DEFAULT_THRESHOLD / 2 {
        create_cycle();
    }

    assert_eq!(number_of_roots_buffered(), DEFAULT_THRESHOLD, "before collection");

    create_cycle();

    assert_eq!(number_of_roots_buffered(), 2, "after collection");

    collect_cycles();

    assert_eq!(number_of_roots_buffered(), 0, "finished");
}

#[test]
fn adaptive_policy_collects_before_allocating() {
    let mut policy = Policy::adaptive(128, three_quarters()).unwrap();
    assert_eq!(number_of_roots_buffered(), 0);
    for _ in 0..64 {
        create_cycle_through(&mut policy);
    }
    assert_eq!(number_of_roots_buffered(), 128);
    create_cycle_through(&mut policy);
    assert_eq!(number_of_roots_buffered(), 2);
    // the pass left nothing buffered, so it was effective
    assert_eq!(policy.threshold(), 128);
    collect_cycles();
    assert_eq!(number_of_roots_buffered(), 0);
}

#[test]
fn below_threshold_never_collects() {
    let mut policy = Policy::adaptive(128, three_quarters()).unwrap();
    for _ in 0..63 {
        create_cycle_through(&mut policy);
    }
    assert_eq!(number_of_roots_buffered(), 126);
    assert_eq!(policy.threshold(), 128);
    collect_cycles();
    assert_eq!(number_of_roots_buffered(), 0);
}

#[test]
fn small_fixed_policy_collects_each_time_it_fills() {
    let mut policy = Policy::fixed(4).unwrap();
    for _ in 0..2 {
        create_cycle_through(&mut policy);
    }
    assert_eq!(number_of_roots_buffered(), 4);
    create_cycle_through(&mut policy);
    assert_eq!(number_of_roots_buffered(), 2);
    create_cycle_through(&mut policy);
    assert_eq!(number_of_roots_buffered(), 4);
    create_cycle_through(&mut policy);
    assert_eq!(number_of_roots_buffered(), 2);
    assert_eq!(policy.threshold(), 4);
    collect_cycles();
}

#[test]
fn allocation_returns_the_value() {
    let mut policy = Policy::fixed(DEFAULT_THRESHOLD).unwrap();
    let x = policy.allocate_with(|_| Cc::new(42u8));
    assert_eq!(*x, 42);
    let y = cc(7u32);
    assert_eq!(*y, 7);
}
