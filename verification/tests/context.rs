use coroutine::context::Context;
use coroutine::error::Error;
use coroutine::value::{Slot, Value, ValueType};

#[test]
fn new_context_is_suspended_and_unlinked() {
    let c = Context::new();
    assert_eq!(c.handle, 0);
    assert_eq!(c.child, None);
    assert_eq!(c.parent, None);
    assert_eq!(c.para, None);
    assert_eq!(c.ret, None);
    assert_eq!(c._ref, 1);
    assert_eq!(c.local_data, 0);
    assert_eq!(c.err, None);
    assert_eq!(c.stack_guard, (0, 0));
}

#[test]
fn context_without_parent_counts_as_generator() {
    let c = Context::new();
    assert!(c.is_generator());
}

#[test]
fn context_that_is_its_own_parent_is_no_generator() {
    let mut c = Context::new();
    c.handle = 7;
    c.parent = Some(7);
    assert!(!c.is_generator());
    c.parent = Some(3);
    assert!(c.is_generator());
}

#[test]
fn get_para_takes_the_value_once() {
    let mut c = Context::new();
    c.para = Some(Slot::holding(Value::I32(42)));
    assert_eq!(c.get_para(ValueType::I32), Ok(Some(Value::I32(42))));
    assert_eq!(c.get_para(ValueType::I32), Ok(None));
    assert_eq!(c.para, Some(Slot::empty(ValueType::I32)));
}

#[test]
fn get_para_of_another_kind_is_a_type_error() {
    let mut c = Context::new();
    c.para = Some(Slot::holding(Value::Str(String::from("hello"))));
    assert_eq!(c.get_para(ValueType::I32), Err(Error::TypeErr));
    assert_eq!(c.para, Some(Slot::holding(Value::Str(String::from("hello")))));
    assert_eq!(c.get_para(ValueType::Str), Ok(Some(Value::Str(String::from("hello")))));
}

#[test]
fn get_para_checks_the_kind_of_an_empty_holder_too() {
    let mut c = Context::new();
    c.para = Some(Slot::empty(ValueType::Bytes));
    assert_eq!(c.get_para(ValueType::Bool), Err(Error::TypeErr));
    assert_eq!(c.get_para(ValueType::Bytes), Ok(None));
}

#[test]
fn coroutine_get_para_takes_without_a_check() {
    let mut c = Context::new();
    c.para = Some(Slot::holding(Value::U64(9)));
    assert_eq!(c.coroutine_get_para(), Some(Value::U64(9)));
    assert_eq!(c.coroutine_get_para(), None);
    assert_eq!(c.para, Some(Slot::empty(ValueType::U64)));
}

#[test]
fn coroutine_set_para_fills_the_holder() {
    let mut c = Context::new();
    c.para = Some(Slot::empty(ValueType::Usize));
    c.coroutine_set_para(Value::Usize(5));
    assert_eq!(c.para, Some(Slot::holding(Value::Usize(5))));
    c.coroutine_set_para(Value::Usize(6));
    assert_eq!(c.coroutine_get_para(), Some(Value::Usize(6)));
}

#[test]
fn set_ret_stores_a_value_of_the_declared_kind() {
    let mut c = Context::new();
    c.ret = Some(Slot::empty(ValueType::I64));
    assert_eq!(c.set_ret(Value::I64(-3)), Ok(()));
    assert_eq!(c.ret, Some(Slot::holding(Value::I64(-3))));
}

#[test]
fn set_ret_of_another_kind_is_a_type_error() {
    let mut c = Context::new();
    c.ret = Some(Slot::holding(Value::I64(1)));
    assert_eq!(c.set_ret(Value::Bool(true)), Err(Error::TypeErr));
    assert_eq!(c.ret, Some(Slot::holding(Value::I64(1))));
}

#[test]
fn coroutine_set_ret_overwrites_what_was_held() {
    let mut c = Context::new();
    c.ret = Some(Slot::holding(Value::Bytes(vec![1, 2])));
    c.coroutine_set_ret(Value::Bytes(vec![3]));
    assert_eq!(c.ret, Some(Slot::holding(Value::Bytes(vec![3]))));
}

#[test]
fn accessors_leave_the_other_fields_alone() {
    let mut c = Context::new();
    c.handle = 4;
    c.parent = Some(2);
    c.local_data = 0x1000;
    c.stack_guard = (16, 4096);
    c.para = Some(Slot::holding(Value::Unit));
    c.ret = Some(Slot::empty(ValueType::Unit));
    assert_eq!(c.get_para(ValueType::Unit), Ok(Some(Value::Unit)));
    assert_eq!(c.set_ret(Value::Unit), Ok(()));
    assert_eq!(c.handle, 4);
    assert_eq!(c.parent, Some(2));
    assert_eq!(c.child, None);
    assert_eq!(c._ref, 1);
    assert_eq!(c.local_data, 0x1000);
    assert_eq!(c.stack_guard, (16, 4096));
    assert_eq!(c.err, None);
}

#[test]
fn every_value_carries_its_tag() {
    assert_eq!(Value::Unit.type_of(), ValueType::Unit);
    assert_eq!(Value::Bool(false).type_of(), ValueType::Bool);
    assert_eq!(Value::I32(-1).type_of(), ValueType::I32);
    assert_eq!(Value::I64(-1).type_of(), ValueType::I64);
    assert_eq!(Value::U64(1).type_of(), ValueType::U64);
    assert_eq!(Value::Usize(1).type_of(), ValueType::Usize);
    assert_eq!(Value::Str(String::new()).type_of(), ValueType::Str);
    assert_eq!(Value::Bytes(Vec::new()).type_of(), ValueType::Bytes);
}

#[test]
fn holders_are_made_for_one_kind() {
    let e = Slot::empty(ValueType::Str);
    assert_eq!(e.ty, ValueType::Str);
    assert_eq!(e.value, None);
    let h = Slot::holding(Value::Bool(true));
    assert_eq!(h.ty, ValueType::Bool);
    assert_eq!(h.value, Some(Value::Bool(true)));
}
