//! Single-assignment promises and the channel-id allocator.

use amqp_core::error::Error;
use amqp_core::ids::ChannelIdAllocator;
use amqp_core::promise::{PromiseState, PromiseStore};

#[test]
fn a_promise_resolves_exactly_once() {
    let mut store = PromiseStore::new();
    let id = store.create();
    assert_eq!(*store.state_of(id), PromiseState::Pending);

    store.complete(id, PromiseState::Resolved);
    assert_eq!(*store.state_of(id), PromiseState::Resolved);

    // A later completion — even a failure — cannot overwrite the first.
    store.complete(id, PromiseState::Failed(Error::IoError));
    assert_eq!(*store.state_of(id), PromiseState::Resolved);
}

#[test]
fn completing_one_slot_leaves_others_alone() {
    let mut store = PromiseStore::new();
    let a = store.create();
    let b = store.create();
    store.complete(b, PromiseState::Failed(Error::IoError));
    assert_eq!(*store.state_of(a), PromiseState::Pending);
    assert_eq!(*store.state_of(b), PromiseState::Failed(Error::IoError));
}

#[test]
fn allocator_hands_out_contiguous_ids_from_one() {
    let mut alloc = ChannelIdAllocator::new(4);
    assert_eq!(alloc.allocate(), Ok(1));
    assert_eq!(alloc.allocate(), Ok(2));
    assert_eq!(alloc.allocate(), Ok(3));
    assert_eq!(alloc.allocate(), Ok(4));
    assert_eq!(alloc.allocate(), Err(Error::ChannelsLimitReached));
}

#[test]
fn released_ids_come_back_lowest_first() {
    let mut alloc = ChannelIdAllocator::new(10);
    assert_eq!(alloc.allocate(), Ok(1));
    assert_eq!(alloc.allocate(), Ok(2));
    assert_eq!(alloc.allocate(), Ok(3));
    alloc.release(3);
    alloc.release(1);
    // Lowest free id first, before any never-used id.
    assert_eq!(alloc.allocate(), Ok(1));
    assert_eq!(alloc.allocate(), Ok(3));
    assert_eq!(alloc.allocate(), Ok(4));
}

#[test]
fn releasing_twice_or_out_of_range_changes_nothing() {
    let mut alloc = ChannelIdAllocator::new(5);
    assert_eq!(alloc.allocate(), Ok(1));
    alloc.release(1);
    alloc.release(1);
    alloc.release(0);
    alloc.release(9);
    assert_eq!(alloc.allocate(), Ok(1));
    assert_eq!(alloc.allocate(), Ok(2));
}
