//! The state record of one switchable stack.

use crate::error::Error;
use crate::value::{Slot, Value, ValueType};
use vstd::prelude::*;

verus! {

/// The state attached to one stack: a generator body or a coroutine.
///
/// Contexts live in the tree of their thread and name each other by handle.
/// A context holds the slots through which values are exchanged with whoever
/// resumes it, its links into the tree, and what it failed with, if it did.
#[derive(Debug, PartialEq, Eq)]
pub struct Context {
    /// This context's own handle: its index in the tree of its thread.
    pub handle: usize,
    /// The context most recently entered from this one, while that one is linked.
    pub child: Option<usize>,
    /// While linked, the context that resumed this one. While detached, the
    /// last context of the chain that hangs below this one: the context
    /// itself, where nothing hangs below it.
    pub parent: Option<usize>,
    /// The holder of the next value sent into this context. It is attached
    /// before the context is first entered and never missing afterwards.
    pub para: Option<Slot>,
    /// The holder of the value yielded out of this context. It is attached
    /// before the context is first entered and never missing afterwards.
    pub ret: Option<Slot>,
    /// Zero while this context is entered, non-zero while it is suspended.
    pub _ref: usize,
    /// The address of the coroutine's local storage; zero for a plain generator.
    pub local_data: usize,
    /// What the body failed with, until the resumer has seen it.
    pub err: Option<Error>,
    /// The low and high address of the stack, for bounds checks.
    pub stack_guard: (usize, usize),
}

impl Context {
    /// The record of a stack that was just allocated: suspended, linked to
    /// nothing, with no slot attached.
    pub open spec fn fresh() -> Context {
        Context {
            handle: 0,
            child: None,
            parent: None,
            para: None,
            ret: None,
            _ref: 1,
            local_data: 0,
            err: None,
            stack_guard: (0, 0),
        }
    }

    /// Whether the parent link points anywhere but at this context itself.
    pub open spec fn generator(self) -> bool {
        self.parent != Some(self.handle)
    }

    /// Whether this context carries local storage.
    pub open spec fn coroutine(self) -> bool {
        self.local_data != 0
    }

    /// This context with the inbound holder emptied.
    pub open spec fn para_taken(self) -> Context {
        Context { para: Some(self.para.unwrap().emptied()), ..self }
    }

    /// This context with `v` in the inbound holder.
    pub open spec fn para_put(self, v: Value) -> Context {
        Context { para: Some(self.para.unwrap().filled(v)), ..self }
    }

    /// This context with `v` in the outbound holder.
    pub open spec fn ret_put(self, v: Value) -> Context {
        Context { ret: Some(self.ret.unwrap().filled(v)), ..self }
    }

    /// Whether both holders, where attached, hold nothing of a foreign kind.
    pub open spec fn typed(self) -> bool {
        &&& self.para matches Some(s) ==> s.wf()
        &&& self.ret matches Some(s) ==> s.wf()
    }

    /// A new context: suspended, linked to nothing, with no slot attached.
    pub fn new() -> (c: Context)
        ensures
            c == Context::fresh(),
    {
        Context {
            handle: 0,
            child: None,
            parent: None,
            para: None,
            ret: None,
            _ref: 1,
            local_data: 0,
            err: None,
            stack_guard: (0, 0),
        }
    }

    /// Whether this is a generator's context: true unless the parent link
    /// points at the context itself.
    pub fn is_generator(&self) -> (b: bool)
        ensures
            b == self.generator(),
    {
        match self.parent {
            Some(p) => p != self.handle,
            None => true,
        }
    }

    /// Takes the value that was sent into this context, checking that the
    /// inbound holder was declared for the kind `expected`.
    ///
    /// On a holder of another kind nothing is taken and the access fails with
    /// [`Error::TypeErr`]. After a successful access the holder is empty.
    pub fn get_para(&mut self, expected: ValueType) -> (r: Result<Option<Value>, Error>)
        requires
            old(self).para is Some,
        ensures
            old(self).para.unwrap().ty == expected ==> r == Ok::<Option<Value>, Error>(
                old(self).para.unwrap().value,
            ) && *final(self) == old(self).para_taken(),
            old(self).para.unwrap().ty != expected ==> r == Err::<Option<Value>, Error>(
                Error::TypeErr,
            ) && *final(self) == *old(self),
            old(self).para.unwrap().wf() ==> (r matches Ok(Some(v)) ==> v.tag() == expected),
            old(self).typed() ==> final(self).typed(),
    {
        match &mut self.para {
            Some(slot) => {
                if slot.ty == expected {
                    Ok(slot.value.take())
                } else {
                    Err(Error::TypeErr)
                }
            },
            None => Ok(None),
        }
    }

    /// Takes the value that was sent into this context without looking at
    /// the holder's kind. After the access the holder is empty.
    pub fn coroutine_get_para(&mut self) -> (r: Option<Value>)
        requires
            old(self).para is Some,
        ensures
            r == old(self).para.unwrap().value,
            *final(self) == old(self).para_taken(),
            old(self).typed() ==> final(self).typed(),
    {
        match &mut self.para {
            Some(slot) => slot.value.take(),
            None => None,
        }
    }

    /// Puts `data` into the inbound holder without looking at the holder's
    /// kind: the caller has agreed on the kind beforehand.
    ///
    /// Nor does it look at the run state: it is the bare store. A context
    /// that stands in the tree of a thread is reached for writing only
    /// through `ContextStack::co_set_para`, which refuses every context
    /// that is not suspended.
    pub fn coroutine_set_para(&mut self, data: Value)
        requires
            old(self).para is Some,
            old(self).para.unwrap().ty == data.tag(),
        ensures
            *final(self) == old(self).para_put(data),
            old(self).typed() ==> final(self).typed(),
    {
        match &mut self.para {
            Some(slot) => {
                slot.value = Some(data);
            },
            None => {},
        }
    }

    /// Puts the value `v` that the body yields into the outbound holder,
    /// checking that the holder was declared for the kind of `v`.
    ///
    /// On a holder of another kind nothing is stored and the access fails
    /// with [`Error::TypeErr`].
    pub fn set_ret(&mut self, v: Value) -> (r: Result<(), Error>)
        requires
            old(self).ret is Some,
        ensures
            old(self).ret.unwrap().ty == v.tag() ==> r == Ok::<(), Error>(()) && *final(self)
                == old(self).ret_put(v),
            old(self).ret.unwrap().ty != v.tag() ==> r == Err::<(), Error>(Error::TypeErr)
                && *final(self) == *old(self),
            old(self).typed() ==> final(self).typed(),
    {
        match &mut self.ret {
            Some(slot) => {
                if slot.ty == v.type_of() {
                    slot.value = Some(v);
                    Ok(())
                } else {
                    Err(Error::TypeErr)
                }
            },
            None => Ok(()),
        }
    }

    /// Puts `v` into the outbound holder without looking at the holder's
    /// kind: the caller has agreed on the kind beforehand.
    pub fn coroutine_set_ret(&mut self, v: Value)
        requires
            old(self).ret is Some,
            old(self).ret.unwrap().ty == v.tag(),
        ensures
            *final(self) == old(self).ret_put(v),
            old(self).typed() ==> final(self).typed(),
    {
        match &mut self.ret {
            Some(slot) => {
                slot.value = Some(v);
            },
            None => {},
        }
    }
}

} // verus!
