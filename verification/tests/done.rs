use coroutine::context::Context;
use coroutine::done::{Completion, Done, Verdict};
use coroutine::error::Error;
use coroutine::runtime::ContextStack;
use coroutine::value::{Slot, Value, ValueType};

const DEFAULT_STACK_SIZE: usize = 0x1000;

fn finished_coroutine(env: &mut ContextStack, local_data: usize) -> usize {
    let mut c = Context::new();
    c.para = Some(Slot::empty(ValueType::Unit));
    c.ret = Some(Slot::empty(ValueType::I32));
    c.local_data = local_data;
    let h = env.spawn(c);
    env.resume(h).unwrap();
    env.finish().unwrap();
    h
}

#[test]
fn stack_used_up_to_capacity_is_an_overflow() {
    let mut env = ContextStack::current(None);
    let h = finished_coroutine(&mut env, 0xa000);
    let r = Done::drop_coroutine(&mut env, h, (64, 64), 64, DEFAULT_STACK_SIZE);
    assert_eq!(
        r,
        Ok(Completion { verdict: Verdict::Overflow, report: false, local_data: 0xa000, failure: None })
    );
    assert!(env.context(h).is_some());
    assert!(env.is_done(h));
}

#[test]
fn overflow_of_a_default_sized_stack_is_an_overflow_too() {
    let mut env = ContextStack::current(None);
    let h = finished_coroutine(&mut env, 0xa000);
    let r = Done::drop_coroutine(
        &mut env,
        h,
        (DEFAULT_STACK_SIZE, DEFAULT_STACK_SIZE),
        DEFAULT_STACK_SIZE + 1,
        DEFAULT_STACK_SIZE,
    );
    let completion = r.unwrap();
    assert_eq!(completion.verdict, Verdict::Overflow);
    assert!(!completion.report);
}

#[test]
fn default_sized_stack_goes_back_to_the_pool() {
    let mut env = ContextStack::current(None);
    let h = finished_coroutine(&mut env, 0xb000);
    let r = Done::drop_coroutine(
        &mut env,
        h,
        (DEFAULT_STACK_SIZE, 0x200),
        DEFAULT_STACK_SIZE,
        DEFAULT_STACK_SIZE,
    );
    assert_eq!(
        r,
        Ok(Completion { verdict: Verdict::Recycle, report: false, local_data: 0xb000, failure: None })
    );
    assert!(env.context(h).is_none());
    let mut next = Context::new();
    next.local_data = 0xc000;
    assert_eq!(env.spawn(next), h);
}

#[test]
fn custom_sized_stack_is_discarded() {
    let mut env = ContextStack::current(None);
    let h = finished_coroutine(&mut env, 0xb000);
    let r = Done::drop_coroutine(&mut env, h, (0x800, 0x7ff), 0x800, DEFAULT_STACK_SIZE);
    assert_eq!(
        r,
        Ok(Completion { verdict: Verdict::Discard, report: false, local_data: 0xb000, failure: None })
    );
    assert!(env.context(h).is_none());
}

#[test]
fn usage_is_reported_for_an_odd_configured_size() {
    let mut env = ContextStack::current(None);
    let a = finished_coroutine(&mut env, 1);
    let b = finished_coroutine(&mut env, 2);
    let odd = Done::drop_coroutine(&mut env, a, (0x1000, 0x10), 0x1001, DEFAULT_STACK_SIZE);
    let even = Done::drop_coroutine(&mut env, b, (0x1000, 0x10), 0x1000, DEFAULT_STACK_SIZE);
    assert_eq!(
        odd,
        Ok(Completion { verdict: Verdict::Recycle, report: true, local_data: 1, failure: None })
    );
    assert_eq!(
        even,
        Ok(Completion { verdict: Verdict::Recycle, report: false, local_data: 2, failure: None })
    );
}

#[test]
fn usage_beyond_capacity_is_no_overflow() {
    let mut env = ContextStack::current(None);
    let h = finished_coroutine(&mut env, 3);
    let r = Done::drop_coroutine(&mut env, h, (0x100, 0x101), 0x101, DEFAULT_STACK_SIZE);
    assert_eq!(
        r,
        Ok(Completion { verdict: Verdict::Discard, report: true, local_data: 3, failure: None })
    );
}

#[test]
fn a_coroutine_is_settled_once() {
    let mut env = ContextStack::current(None);
    let h = finished_coroutine(&mut env, 3);
    let usage = (DEFAULT_STACK_SIZE, 8);
    assert!(Done::drop_coroutine(&mut env, h, usage, 0, DEFAULT_STACK_SIZE).is_ok());
    assert_eq!(
        Done::drop_coroutine(&mut env, h, usage, 0, DEFAULT_STACK_SIZE),
        Err(Error::ContextErr)
    );
}

#[test]
fn a_coroutine_that_has_not_finished_is_not_settled() {
    let mut env = ContextStack::current(None);
    let mut c = Context::new();
    c.para = Some(Slot::empty(ValueType::Unit));
    c.ret = Some(Slot::empty(ValueType::I32));
    let h = env.spawn(c);
    let usage = (DEFAULT_STACK_SIZE, 8);
    assert_eq!(
        Done::drop_coroutine(&mut env, h, usage, 0, DEFAULT_STACK_SIZE),
        Err(Error::ContextErr)
    );
    env.resume(h).unwrap();
    assert_eq!(
        Done::drop_coroutine(&mut env, h, usage, 0, DEFAULT_STACK_SIZE),
        Err(Error::ContextErr)
    );
    env.yield_(Value::I32(1)).unwrap();
    assert_eq!(
        Done::drop_coroutine(&mut env, h, usage, 0, DEFAULT_STACK_SIZE),
        Err(Error::ContextErr)
    );
    assert_eq!(
        Done::drop_coroutine(&mut env, 0, usage, 0, DEFAULT_STACK_SIZE),
        Err(Error::ContextErr)
    );
    assert!(env.is_suspended(h));
}

#[test]
fn subscribe_settles_the_coroutine() {
    let mut env = ContextStack::current(None);
    let h = finished_coroutine(&mut env, 9);
    let mut done = Done;
    let r = done.subscribe(&mut env, h, (0x400, 0x3ff), 0x401, DEFAULT_STACK_SIZE);
    assert_eq!(
        r,
        Ok(Completion { verdict: Verdict::Discard, report: true, local_data: 9, failure: None })
    );
    assert!(env.context(h).is_none());
}

#[test]
fn a_plain_generator_is_not_for_the_handler() {
    let mut env = ContextStack::current(None);
    let h = finished_coroutine(&mut env, 0);
    assert!(env.is_done(h));
    assert_eq!(
        Done::drop_coroutine(&mut env, h, (0x800, 8), 0x800, DEFAULT_STACK_SIZE),
        Err(Error::ContextErr)
    );
    assert!(env.context(h).is_some());
    assert!(env.release(h).is_ok());
}

fn failed_coroutine(env: &mut ContextStack, local_data: usize, failure: Error) -> usize {
    let mut c = Context::new();
    c.para = Some(Slot::empty(ValueType::Unit));
    c.ret = Some(Slot::empty(ValueType::I32));
    c.local_data = local_data;
    let h = env.spawn(c);
    env.resume(h).unwrap();
    assert_eq!(env.fail(failure), None);
    env.finish().unwrap();
    h
}

#[test]
fn failure_of_a_body_comes_out_of_the_teardown() {
    let mut env = ContextStack::current(None);
    let h = failed_coroutine(&mut env, 0xa000, Error::Failure(Value::I32(7)));
    let r = Done::drop_coroutine(&mut env, h, (4096, 1024), 4096, DEFAULT_STACK_SIZE);
    assert_eq!(
        r,
        Ok(Completion {
            verdict: Verdict::Recycle,
            report: false,
            local_data: 0xa000,
            failure: Some(Error::Failure(Value::I32(7))),
        })
    );
    assert!(env.context(h).is_none());
    assert_eq!(env.collect(h), Err(Error::ContextErr));
}

#[test]
fn failure_comes_out_with_its_payload_whatever_the_verdict() {
    let mut env = ContextStack::current(None);
    let payload = Error::Failure(Value::Str(String::from("disk on fire")));
    let h = failed_coroutine(&mut env, 5, payload.clone());
    let mut done = Done;
    let r = done.subscribe(&mut env, h, (0x800, 0x10), 0x801, DEFAULT_STACK_SIZE).unwrap();
    assert_eq!(r.verdict, Verdict::Discard);
    assert!(r.report);
    assert_eq!(r.failure, Some(payload));
    let t = failed_coroutine(&mut env, 6, Error::TypeErr);
    let r = Done::drop_coroutine(&mut env, t, (0x800, 0x10), 0x800, DEFAULT_STACK_SIZE).unwrap();
    assert_eq!(r.failure, Some(Error::TypeErr));
}

#[test]
fn failure_that_was_collected_before_the_teardown_comes_out_once() {
    let mut env = ContextStack::current(None);
    let h = failed_coroutine(&mut env, 5, Error::Failure(Value::Bool(true)));
    assert_eq!(env.collect(h), Err(Error::Failure(Value::Bool(true))));
    let r = Done::drop_coroutine(&mut env, h, (0x800, 0x10), 0x800, DEFAULT_STACK_SIZE).unwrap();
    assert_eq!(r.failure, None);
}

#[test]
fn failure_stays_in_the_tree_behind_an_overflow() {
    let mut env = ContextStack::current(None);
    let h = failed_coroutine(&mut env, 5, Error::Failure(Value::U64(3)));
    let r = Done::drop_coroutine(&mut env, h, (64, 64), 64, DEFAULT_STACK_SIZE).unwrap();
    assert_eq!(r.verdict, Verdict::Overflow);
    assert_eq!(r.failure, None);
    assert_eq!(env.context(h).unwrap().err, Some(Error::Failure(Value::U64(3))));
    assert_eq!(env.collect(h), Err(Error::Failure(Value::U64(3))));
}
