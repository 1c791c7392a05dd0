use jlrs::call::EntryPoint;
use jlrs::data::layout::valid_layout::{TypeKind, ValidLayout};
use jlrs::error::JlrsError;
use jlrs::memory::scope::ScopeStack;
use jlrs::memory::tag::{DataTag, ScopeTag};
use jlrs::memory::target::Target;
use jlrs::wrappers::ptr::field::{Field, FieldType, Fields};
use jlrs::wrappers::ptr::value::Value;

fn value(address: usize) -> Value {
    Value::wrap(address, ScopeTag::permanent(), DataTag::Owned)
}

fn point() -> Fields {
    Fields {
        mutable: true,
        fields: vec![
            Field { name: 0x51, is_pointer: false },
            Field { name: 0x52, is_pointer: true },
            Field { name: 0x53, is_pointer: true },
        ],
    }
}

#[test]
fn a_field_is_named_by_its_index() {
    let owner = value(0x100);
    let fields = point();
    let access = owner.get_nth_field(&fields, 2).unwrap();
    assert_eq!(access.index(), 2);
    assert_eq!(access.owner().address(), 0x100);
    assert_eq!(owner.get_nth_field(&fields, 3).unwrap_err(), JlrsError::OutOfBounds(3, 3));
    assert_eq!(owner.get_nth_field_unrooted(&fields, 0).unwrap().index(), 0);
    assert_eq!(owner.get_nth_field_unrooted(&fields, 7).unwrap_err(), JlrsError::OutOfBounds(7, 3));
    assert_eq!(owner.unbox_nth_field(&fields, 1).unwrap().index(), 1);
    assert_eq!(owner.unbox_nth_field(&fields, 3).unwrap_err(), JlrsError::OutOfBounds(3, 3));
}

#[test]
fn a_field_is_found_by_its_name() {
    let owner = value(0x100);
    let fields = point();
    assert_eq!(fields.index(0x52), Some(1));
    assert_eq!(fields.index(0x99), None);
    assert_eq!(owner.get_field(&fields, 0x53).unwrap().index(), 2);
    assert_eq!(owner.get_field(&fields, 0x99).unwrap_err(), JlrsError::NoSuchField(0x99));
    assert_eq!(owner.get_field_unrooted(&fields, 0x51).unwrap().index(), 0);
    assert_eq!(owner.unbox_field(&fields, 0x52).unwrap().index(), 1);
    assert_eq!(owner.unbox_field(&fields, 0x50).unwrap_err(), JlrsError::NoSuchField(0x50));
    assert_eq!(owner.unbox_field_unchecked(&fields, 0x53), Ok(2));
    assert_eq!(owner.unbox_field_unchecked(&fields, 0x54), Err(JlrsError::NoSuchField(0x54)));
}

#[test]
fn the_first_of_two_fields_with_one_name_is_found() {
    let fields = Fields {
        mutable: false,
        fields: vec![
            Field { name: 0x51, is_pointer: false },
            Field { name: 0x51, is_pointer: true },
        ],
    };
    assert_eq!(fields.index(0x51), Some(0));
}

#[test]
fn only_pointer_fields_are_referred_to() {
    let owner = value(0x100);
    let fields = point();
    assert_eq!(owner.get_nth_field_ref(&fields, 1).unwrap().index(), 1);
    assert_eq!(owner.get_nth_field_ref(&fields, 0).unwrap_err(), JlrsError::NotAPointerField(0));
    assert_eq!(owner.get_nth_field_ref(&fields, 3).unwrap_err(), JlrsError::OutOfBounds(3, 3));
    assert_eq!(owner.get_field_ref(&fields, 0x53).unwrap().index(), 2);
    assert_eq!(owner.get_field_ref(&fields, 0x51).unwrap_err(), JlrsError::NotAPointerField(0));
    assert_eq!(owner.get_field_ref(&fields, 0x99).unwrap_err(), JlrsError::NoSuchField(0x99));
}

#[test]
fn a_fetched_field_is_placed_through_the_target() {
    let mut stack = ScopeStack::new(16);
    let scope = stack.open(2).unwrap();
    let owner = Value::wrap(0x100, scope.tag(), DataTag::Borrowed(2));
    let fields = point();
    let access = owner.get_nth_field(&fields, 1).unwrap();
    let field = access.complete(&mut stack, scope.target(), 0x200).unwrap();
    assert_eq!(field.address(), 0x200);
    assert_eq!(field.scope(), scope.tag());
    assert_eq!(field.data(), DataTag::Borrowed(2));
    assert!(stack.is_protected(scope.tag(), 0x200));
    assert_eq!(
        access.complete(&mut stack, scope.target(), 0),
        Err(JlrsError::UndefRef)
    );
    assert_eq!(stack.slot_at(2), Some(0));
    let loose = access.complete_ref(&stack, 0x300).unwrap().unwrap();
    assert_eq!(loose.address(), 0x300);
    assert_eq!(loose.scope(), scope.tag());
    assert_eq!(loose.data(), DataTag::Borrowed(2));
    assert_eq!(access.complete_ref(&stack, 0), Ok(None));
    assert!(stack.close(scope).is_ok());
    assert_eq!(access.complete_ref(&stack, 0x300), Err(JlrsError::ScopeClosed));
    assert_eq!(access.complete_ref(&stack, 0), Ok(None));
}

#[test]
fn fields_of_mutable_values_are_set() {
    let owner = value(0x100);
    let stored = value(0x200);
    let fields = point();
    let store = owner.set_nth_field(&fields, 1, stored).unwrap();
    assert_eq!(store.index(), 1);
    assert_eq!(store.owner().address(), 0x100);
    assert_eq!(store.value().address(), 0x200);
    assert_eq!(store.complete(true).unwrap().index(), 1);
    assert_eq!(store.complete(false).unwrap_err(), JlrsError::NotSubtype);
    assert_eq!(owner.set_nth_field(&fields, 3, stored).unwrap_err(), JlrsError::OutOfBounds(3, 3));
    assert_eq!(owner.set_field(&fields, 0x53, stored).unwrap().index(), 2);
    assert_eq!(owner.set_field(&fields, 0x99, stored).unwrap_err(), JlrsError::NoSuchField(0x99));
    let frozen = Fields { mutable: false, fields: point().fields };
    assert_eq!(owner.set_nth_field(&frozen, 1, stored).unwrap_err(), JlrsError::Immutable);
    assert_eq!(owner.set_nth_field(&frozen, 9, stored).unwrap_err(), JlrsError::Immutable);
    assert_eq!(owner.set_field(&frozen, 0x99, stored).unwrap_err(), JlrsError::Immutable);
}

#[test]
fn the_content_of_a_field_decides_the_layout() {
    let pointer = TypeKind::DataType { inline_alloc: false };
    let inline = TypeKind::DataType { inline_alloc: true };
    assert_eq!(FieldType::Plain(inline).content(), inline);
    assert_eq!(FieldType::UnionAll { stored: pointer }.content(), pointer);
    assert_eq!(FieldType::BitsUnion { active: Some(inline) }.content(), inline);
    assert_eq!(
        FieldType::BitsUnion { active: None }.content(),
        TypeKind::Union { bits_union: true }
    );
    let owner = value(0x100);
    let access = owner.get_nth_field(&point(), 1).unwrap();
    assert_eq!(access.deref_field::<Value>(FieldType::Plain(pointer)), Ok(1));
    assert_eq!(
        access.deref_field::<Value>(FieldType::Plain(inline)),
        Err(JlrsError::InvalidLayout)
    );
    assert_eq!(access.deref_field::<Value>(FieldType::UnionAll { stored: pointer }), Ok(1));
    assert_eq!(
        access.deref_field::<Value>(FieldType::BitsUnion { active: None }),
        Err(JlrsError::InvalidLayout)
    );
    assert_eq!(
        access.deref_field::<Value>(FieldType::Plain(TypeKind::Union { bits_union: false })),
        Ok(1)
    );
}

#[test]
fn a_command_with_a_zero_byte_is_refused() {
    let target = || Target::Unrooted(ScopeTag::permanent());
    let call = Value::eval_string(target(), "sqrt(2)").unwrap();
    assert_eq!(call.entry(), EntryPoint::EvalString);
    assert!(call.arguments().is_empty());
    assert_eq!(call.function(), 0);
    assert_eq!(Value::eval_string(target(), "1 +\0 2").unwrap_err(), JlrsError::InteriorNul(3));
    assert_eq!(Value::eval_string(target(), "\0\0").unwrap_err(), JlrsError::InteriorNul(0));
    assert!(Value::eval_string(target(), "").is_ok());
    assert_eq!(Value::eval_cstring(target()).entry(), EntryPoint::EvalString);
}

#[test]
fn an_evaluated_command_gives_a_value_or_an_exception() {
    let mut stack = ScopeStack::new(16);
    let scope = stack.open(2).unwrap();
    let call = Value::eval_string(scope.target(), "sqrt(2)").unwrap();
    let value = call.complete(&mut stack, 0x700, 0).unwrap().unwrap();
    assert_eq!(value.address(), 0x700);
    assert_eq!(value.data(), DataTag::Owned);
    let call = Value::eval_string(scope.target(), "sqrt(-2)").unwrap();
    let exception = call.complete(&mut stack, 0, 0x800).unwrap().unwrap_err();
    assert_eq!(exception.address(), 0x800);
    assert!(stack.is_protected(scope.tag(), 0x800));
}

#[test]
fn types_are_applied_in_order() {
    let mut stack = ScopeStack::new(16);
    let scope = stack.open(2).unwrap();
    let tuple = value(0x7a0);
    let a = value(0xa0);
    let b = value(0xb0);
    let call = tuple.apply_type(&stack, scope.target(), &[a, b]);
    assert_eq!(call.entry(), EntryPoint::ApplyType);
    assert_eq!(call.function(), 0x7a0);
    assert_eq!(call.arguments(), &[0xa0, 0xb0]);
    let applied = call.complete(&mut stack, 0x900, 0).unwrap().unwrap();
    assert_eq!(applied.address(), 0x900);
    assert!(stack.is_protected(scope.tag(), 0x900));
}

#[test]
fn a_named_tuple_needs_a_name_for_each_value() {
    let a = value(0xa0);
    let b = value(0xb0);
    let parts = Value::new_named_tuple(&[0x51, 0x52], &[a, b]).unwrap();
    assert_eq!(parts.names, vec![0x51, 0x52]);
    assert_eq!(parts.values, vec![0xa0, 0xb0]);
    assert_eq!(
        Value::new_named_tuple(&[0x51], &[a, b]).unwrap_err(),
        JlrsError::NamedTupleSizeMismatch(1, 2)
    );
    assert_eq!(
        Value::new_named_tuple(&[0x51, 0x52, 0x53], &[]).unwrap_err(),
        JlrsError::NamedTupleSizeMismatch(3, 0)
    );
    let empty = Value::new_named_tuple(&[], &[]).unwrap();
    assert!(empty.names.is_empty());
    assert!(empty.values.is_empty());
}

#[test]
fn a_handle_stands_for_data_behind_a_pointer() {
    assert!(<Value as ValidLayout>::valid_layout(TypeKind::DataType { inline_alloc: false }));
    assert!(!<Value as ValidLayout>::valid_layout(TypeKind::DataType { inline_alloc: true }));
    assert!(<Value as ValidLayout>::valid_layout(TypeKind::UnionAll));
    assert!(<Value as ValidLayout>::valid_layout(TypeKind::Union { bits_union: false }));
    assert!(!<Value as ValidLayout>::valid_layout(TypeKind::Union { bits_union: true }));
    assert!(!<Value as ValidLayout>::valid_layout(TypeKind::Other));
}
