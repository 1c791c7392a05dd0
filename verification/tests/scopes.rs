use jlrs::error::JlrsError;
use jlrs::memory::scope::ScopeStack;
use jlrs::memory::stack::RootStack;
use jlrs::memory::tag::{DataTag, ScopeTag};
use jlrs::memory::target::Target;
use jlrs::wrappers::ptr::value::{LeakedValue, Value};

#[test]
fn nested_scopes_close_innermost_first() {
    let mut stack = ScopeStack::new(64);
    let outer = stack.open(4).unwrap();
    let inner = stack.nest(&outer, 2).unwrap();
    let outer = stack.close(outer).unwrap_err();
    assert_eq!(stack.depth(), 2);
    assert!(stack.is_open(outer.tag()));
    assert!(stack.is_open(inner.tag()));
    let inner_tag = inner.tag();
    assert!(stack.close(inner).is_ok());
    assert!(!stack.is_open(inner_tag));
    assert!(stack.close(outer).is_ok());
    assert_eq!(stack.depth(), 0);
    assert_eq!(stack.slot_count(), 0);
}

#[test]
fn tags_are_given_out_once_in_open_order() {
    let mut stack = ScopeStack::new(64);
    let first = stack.open(1).unwrap();
    let second = stack.open(1).unwrap();
    assert_eq!(first.tag(), ScopeTag(1));
    assert_eq!(second.tag(), ScopeTag(2));
    assert!(stack.close(second).is_ok());
    let third = stack.open(1).unwrap();
    assert_eq!(third.tag(), ScopeTag(3));
    assert!(!stack.is_open(ScopeTag(2)));
    assert!(stack.is_open(ScopeTag(1)));
    assert!(stack.is_open(ScopeTag(3)));
}

#[test]
fn a_scope_reserves_zeroed_slots() {
    let mut stack = ScopeStack::new(64);
    let scope = stack.open(4).unwrap();
    assert_eq!(stack.slot_count(), 5);
    assert_eq!(stack.base_of(scope.tag()), Some(0));
    for i in 0..5 {
        assert_eq!(stack.slot_at(i), Some(0));
    }
    assert_eq!(stack.slot_at(5), None);
}

#[test]
fn rooting_writes_the_next_free_slot() {
    let mut stack = ScopeStack::new(64);
    let scope = stack.open(2).unwrap();
    let a = stack.root(&scope, 0x1000).unwrap();
    let b = stack.root(&scope, 0x2000).unwrap();
    assert_eq!(a.address(), 0x1000);
    assert_eq!(a.scope(), scope.tag());
    assert_eq!(a.data(), DataTag::Owned);
    assert_eq!(b.address(), 0x2000);
    assert_eq!(stack.slot_at(0), Some(0));
    assert_eq!(stack.slot_at(1), Some(0x1000));
    assert_eq!(stack.slot_at(2), Some(0x2000));
    assert!(stack.is_protected(scope.tag(), 0x1000));
    assert!(stack.is_protected(scope.tag(), 0x2000));
    assert!(!stack.is_protected(scope.tag(), 0x3000));
    assert!(stack.is_live(a));
}

#[test]
fn a_root_stays_visible_while_its_scope_is_open() {
    let mut stack = ScopeStack::new(64);
    let outer = stack.open(1).unwrap();
    let a = stack.root(&outer, 0xa0).unwrap();
    let inner = stack.nest(&outer, 1).unwrap();
    stack.root(&inner, 0xb0).unwrap();
    assert!(stack.is_protected(outer.tag(), 0xa0));
    assert!(stack.close(inner).is_ok());
    assert!(stack.is_protected(outer.tag(), 0xa0));
    assert!(stack.is_live(a));
    let outer_tag = outer.tag();
    assert!(stack.close(outer).is_ok());
    assert!(!stack.is_protected(outer_tag, 0xa0));
    assert!(!stack.is_live(a));
}

#[test]
fn released_slots_come_back_zeroed() {
    let mut stack = ScopeStack::new(64);
    let outer = stack.open(0).unwrap();
    let inner = stack.open(2).unwrap();
    let base = stack.base_of(inner.tag()).unwrap();
    stack.root(&inner, 0x10).unwrap();
    stack.root(&inner, 0x20).unwrap();
    stack.root_in_ancestor(inner.tag(), 0x30, DataTag::Owned).unwrap();
    assert_eq!(stack.slot_at(base), Some(0x30));
    assert!(stack.close(inner).is_ok());
    let again = stack.open(2).unwrap();
    assert_eq!(stack.base_of(again.tag()), Some(base));
    assert_eq!(stack.slot_at(base), Some(0));
    assert_eq!(stack.slot_at(base + 1), Some(0));
    assert_eq!(stack.slot_at(base + 2), Some(0));
    assert!(stack.is_open(outer.tag()));
}

#[test]
fn root_stack_reserves_and_releases() {
    let mut roots = RootStack::new(8);
    assert_eq!(roots.reserve_slots(3), Ok(0));
    *roots.slot(1) = 0x77;
    assert_eq!(roots.get(1), 0x77);
    assert_eq!(roots.reserve_slots(2), Ok(3));
    assert_eq!(roots.len(), 5);
    assert_eq!(roots.reserve_slots(4), Err(JlrsError::CapacityExceeded));
    assert_eq!(roots.len(), 5);
    roots.release_slots(1);
    assert_eq!(roots.len(), 1);
    assert_eq!(roots.reserve_slots(2), Ok(1));
    assert_eq!(roots.get(1), 0);
    assert_eq!(roots.get(2), 0);
    roots.release_slots(7);
    assert_eq!(roots.len(), 3);
    assert_eq!(roots.capacity(), 8);
}

#[test]
fn the_innermost_scope_grows_when_full() {
    let mut stack = ScopeStack::new(4);
    let scope = stack.open(1).unwrap();
    stack.root(&scope, 0x10).unwrap();
    assert_eq!(stack.slot_count(), 2);
    stack.root(&scope, 0x20).unwrap();
    assert_eq!(stack.slot_count(), 3);
    assert_eq!(stack.slot_at(2), Some(0x20));
    stack.root(&scope, 0x30).unwrap();
    assert_eq!(stack.root(&scope, 0x40), Err(JlrsError::CapacityExceeded));
    assert_eq!(stack.slot_count(), 4);
}

#[test]
fn an_enclosing_scope_cannot_grow() {
    let mut stack = ScopeStack::new(16);
    let outer = stack.open(1).unwrap();
    let inner = stack.nest(&outer, 1).unwrap();
    stack.root(&outer, 0x10).unwrap();
    assert_eq!(stack.root(&outer, 0x20), Err(JlrsError::CapacityExceeded));
    assert!(stack.root(&inner, 0x30).is_ok());
    assert!(stack.root(&inner, 0x40).is_ok());
}

#[test]
fn opening_fails_when_the_root_stack_is_full() {
    let mut stack = ScopeStack::new(4);
    let scope = stack.open(3).unwrap();
    assert_eq!(stack.open(0).unwrap_err(), JlrsError::CapacityExceeded);
    assert_eq!(stack.nest(&scope, 0).unwrap_err(), JlrsError::CapacityExceeded);
    assert_eq!(stack.depth(), 1);
    assert_eq!(stack.slot_count(), 4);
}

#[test]
fn a_closed_scope_takes_no_roots() {
    let mut stack = ScopeStack::new(16);
    let mut other = ScopeStack::new(16);
    let stranger = other.open(1).unwrap();
    let _first = other.open(1).unwrap();
    assert_eq!(stack.root(&stranger, 0x10), Err(JlrsError::ScopeClosed));
    assert_eq!(stack.nest(&stranger, 1).unwrap_err(), JlrsError::ScopeClosed);
    assert_eq!(
        stack.root_in_ancestor(stranger.tag(), 0x10, DataTag::Owned),
        Err(JlrsError::ScopeClosed)
    );
    assert!(stack.close(stranger).is_err());
    assert_eq!(stack.depth(), 0);
}

#[test]
fn a_value_is_promoted_into_an_enclosing_scope() {
    let mut stack = ScopeStack::new(16);
    let outer = stack.open(1).unwrap();
    let inner = stack.nest(&outer, 1).unwrap();
    let promoted = outer.output().place(&mut stack, 0x50, DataTag::Owned).unwrap();
    assert_eq!(promoted.scope(), outer.tag());
    assert_eq!(stack.slot_at(0), Some(0x50));
    assert_eq!(
        outer.output().place(&mut stack, 0x60, DataTag::Owned),
        Err(JlrsError::CapacityExceeded)
    );
    assert!(stack.close(inner).is_ok());
    assert!(stack.is_live(promoted));
    assert!(stack.is_protected(outer.tag(), 0x50));
}

#[test]
fn targets_place_values() {
    let mut stack = ScopeStack::new(16);
    let scope = stack.open(1).unwrap();
    let rooted = scope.target().place(&mut stack, 0x10, DataTag::Borrowed(7)).unwrap();
    assert_eq!(rooted.data(), DataTag::Borrowed(7));
    assert_eq!(stack.slot_at(1), Some(0x10));
    let loose = scope.unrooted().place(&mut stack, 0x20, DataTag::Owned).unwrap();
    assert_eq!(loose.address(), 0x20);
    assert_eq!(loose.scope(), scope.tag());
    assert!(!stack.is_protected(scope.tag(), 0x20));
    assert_eq!(scope.target().scope(), scope.tag());
    assert_eq!(Target::Ancestor(ScopeTag(9)).scope(), ScopeTag(9));
}

#[test]
fn unrooted_handles_to_one_address_are_equal() {
    let mut stack = ScopeStack::new(16);
    let outer = stack.open(0).unwrap();
    let inner = stack.open(0).unwrap();
    let first = stack.unrooted(outer.tag(), 0x40, DataTag::Owned).unwrap();
    let second = stack.unrooted(outer.tag(), 0x40, DataTag::Owned).unwrap();
    assert!(first == second);
    assert_eq!(first.address(), second.address());
    assert_eq!(first.scope(), second.scope());
    assert_eq!(stack.slot_count(), 2);
    let elsewhere = stack.unrooted(outer.tag(), 0x48, DataTag::Owned).unwrap();
    assert!(first != elsewhere);
    let other_scope = Value::new_unrooted(&stack, inner.tag(), 0x40).unwrap();
    assert!(first == other_scope);
    assert_eq!(other_scope.scope(), inner.tag());
}

#[test]
fn no_handle_is_made_for_a_closed_scope() {
    let mut stack = ScopeStack::new(16);
    let scope = stack.open(1).unwrap();
    let tag = scope.tag();
    let target = scope.unrooted();
    assert!(stack.unrooted(tag, 0x40, DataTag::Owned).is_ok());
    assert!(stack.close(scope).is_ok());
    assert_eq!(stack.unrooted(tag, 0x40, DataTag::Owned), Err(JlrsError::ScopeClosed));
    assert_eq!(target.place(&mut stack, 0x40, DataTag::Owned), Err(JlrsError::ScopeClosed));
    assert_eq!(Value::new_unrooted(&stack, tag, 0x40), Err(JlrsError::ScopeClosed));
    assert_eq!(
        LeakedValue::wrap(0x40).as_value(&stack, tag),
        Err(JlrsError::ScopeClosed)
    );
    assert!(stack.unrooted(ScopeTag::permanent(), 0x40, DataTag::Owned).is_ok());
    assert!(stack.is_valid(ScopeTag::permanent()));
    assert!(!stack.is_valid(tag));
}

#[test]
fn values_are_made_rooted_and_relaxed() {
    let mut stack = ScopeStack::new(16);
    let scope = stack.open(2).unwrap();
    let value = Value::new(&mut stack, scope.target(), 0x10).unwrap();
    assert_eq!(value.data(), DataTag::Owned);
    assert!(stack.is_protected(scope.tag(), 0x10));
    let borrowed = Value::wrap(0x20, scope.tag(), DataTag::Borrowed(3));
    let rooted = borrowed.root(&mut stack, scope.target()).unwrap();
    assert_eq!(rooted.data(), DataTag::Borrowed(3));
    assert_eq!(stack.slot_at(2), Some(0x20));
    assert_eq!(rooted.cast(true).unwrap().address(), 0x20);
    assert_eq!(rooted.cast(true).unwrap().data(), DataTag::Borrowed(3));
    assert_eq!(rooted.cast(false), Err(JlrsError::WrongType));
    let owned = rooted.assume_owned();
    assert_eq!(owned.data(), DataTag::Owned);
    assert_eq!(owned.address(), 0x20);
    assert_eq!(owned.scope(), scope.tag());
}

#[test]
fn leaked_values_live_in_every_scope() {
    let mut stack = ScopeStack::new(16);
    let leaked = LeakedValue::wrap(0x99);
    let permanent = leaked.as_value(&stack, ScopeTag::permanent()).unwrap();
    assert!(stack.is_live(permanent));
    let scope = stack.open(0).unwrap();
    let value = leaked.as_value(&stack, scope.tag()).unwrap();
    assert_eq!(value.address(), 0x99);
    assert_eq!(value.scope(), scope.tag());
    assert_eq!(value.data(), DataTag::Owned);
    assert!(stack.is_live(value));
}

#[test]
fn data_tags_join() {
    assert_eq!(DataTag::Owned.merge(DataTag::Owned), DataTag::Owned);
    assert_eq!(DataTag::Owned.merge(DataTag::Borrowed(1)), DataTag::Borrowed(1));
    assert_eq!(DataTag::Borrowed(1).merge(DataTag::Owned), DataTag::Borrowed(1));
    assert_eq!(DataTag::Borrowed(1).merge(DataTag::Borrowed(1)), DataTag::Borrowed(1));
    assert_eq!(DataTag::Borrowed(1).merge(DataTag::Borrowed(2)), DataTag::Mixed);
    assert_eq!(DataTag::Mixed.merge(DataTag::Owned), DataTag::Mixed);
    assert_eq!(DataTag::Borrowed(1).merge(DataTag::Mixed), DataTag::Mixed);
}

#[test]
fn unwinding_closes_what_was_opened_inside() {
    let mut stack = ScopeStack::new(32);
    let outer = stack.open(1).unwrap();
    let kept = stack.root(&outer, 0x10).unwrap();
    let middle = stack.nest(&outer, 1).unwrap();
    let inner = stack.nest(&middle, 1).unwrap();
    let lost = stack.root(&inner, 0x20).unwrap();
    let base = stack.base_of(middle.tag()).unwrap();
    stack.unwind(middle);
    assert_eq!(stack.depth(), 1);
    assert_eq!(stack.slot_count(), base);
    assert!(stack.is_live(kept));
    assert!(!stack.is_live(lost));
    assert!(!stack.is_open(inner.tag()));
    stack.unwind(inner);
    assert_eq!(stack.depth(), 1);
    assert!(stack.close(outer).is_ok());
}
