//! The per-thread tree of contexts and the switches between them.
//!
//! A [`ContextStack`] owns the contexts of one thread. It decides every
//! switch: which context is left, which one is entered, and what crosses
//! between them through the transfer slots. The swap of the registers
//! itself is not done here: each operation that changes the running context
//! answers with the [`Switch`] to carry out.

use crate::context::Context;
use crate::error::Error;
use crate::tree::{Tree, ROOT};
use crate::value::{Slot, Value, ValueType};
use vstd::prelude::*;

verus! {

/// A switch to carry out: leave the stack of `from`, continue on that of `to`.
#[derive(Clone, Copy, Debug, PartialEq, Eq, Structural)]
pub struct Switch {
    /// The context that was running.
    pub from: usize,
    /// The context that is running now.
    pub to: usize,
}

/// The contexts of one thread.
pub struct ContextStack {
    nodes: Vec<Option<Context>>,
    chains: Ghost<Map<usize, Seq<usize>>>,
    places: Ghost<Map<usize, (usize, int)>>,
}

impl View for ContextStack {
    type V = Tree;

    closed spec fn view(&self) -> Tree {
        Tree { nodes: self.nodes@, chains: self.chains@, places: self.places@ }
    }
}

impl ContextStack {
    /// The context under `h`.
    fn node(&self, h: usize) -> (n: &Context)
        requires
            self@.live(h),
        ensures
            *n == self@.node(h),
    {
        self.nodes[h].as_ref().unwrap()
    }

    /// The context under `h`, to be written to.
    fn node_mut(&mut self, h: usize) -> (n: &mut Context)
        requires
            old(self)@.live(h),
        ensures
            *n == old(self)@.node(h),
            final(self)@ == old(self)@.with_node(h, *final(n)),
    {
        self.nodes[h].as_mut().unwrap()
    }

    /// The tree of a thread that has entered nothing: its root alone, whose
    /// parent link points at the root itself.
    fn init_root() -> (s: ContextStack)
        ensures
            s@ == Tree::init(),
            s@.wf(),
    {
        let mut root = Context::new();
        root.parent = Some(ROOT);
        let mut nodes: Vec<Option<Context>> = Vec::new();
        nodes.push(Some(root));
        let s = ContextStack {
            nodes,
            chains: Ghost(Tree::init().chains),
            places: Ghost(Tree::init().places),
        };
        proof {
            Tree::lemma_init_wf();
        }
        s
    }

    /// The context stack of the current thread.
    ///
    /// `existing` is what the thread holds: nothing on first use, in which
    /// case the root context is made; afterwards the stack it was given
    /// before, which comes back as it is.
    pub fn current(existing: Option<ContextStack>) -> (s: ContextStack)
        requires
            existing matches Some(e) ==> e@.wf(),
        ensures
            s@.wf(),
            existing matches Some(e) ==> s == e,
            existing is None ==> s@ == Tree::init(),
    {
        match existing {
            Some(e) => e,
            None => ContextStack::init_root(),
        }
    }

    /// The handle of the running context.
    fn top_handle(&self) -> (t: usize)
        requires
            self@.wf(),
        ensures
            t == self@.top(),
            self@.live(t),
            (t == ROOT) == (self@.chain().len() == 1),
    {
        proof {
            Tree::lemma_member(self@, ROOT, 0);
            Tree::lemma_member(self@, ROOT, self@.chain().len() - 1);
        }
        self.node(ROOT).parent.unwrap()
    }

    /// Whether `h` names a context that is suspended: detached, and waiting
    /// to be resumed.
    pub fn is_suspended(&self, h: usize) -> (b: bool)
        ensures
            b == self@.suspended(h),
    {
        if h == ROOT || h >= self.nodes.len() {
            return false;
        }
        match &self.nodes[h] {
            Some(n) => n._ref != 0,
            None => false,
        }
    }

    /// Whether `h` names a context that has finished: detached, with its
    /// body returned.
    pub fn is_done(&self, h: usize) -> (b: bool)
        ensures
            b == self@.done(h),
    {
        if h == ROOT || h >= self.nodes.len() {
            return false;
        }
        match &self.nodes[h] {
            Some(n) => n._ref == 0 && !n.is_generator(),
            None => false,
        }
    }

    /// Links the chain headed by `h` below the running context.
    fn link(&mut self, h: usize) -> (sw: Switch)
        requires
            old(self)@.wf(),
            h != ROOT,
            old(self)@.heads(h),
            old(self)@.node(h)._ref == 0,
        ensures
            final(self)@ == old(self)@.push(h),
            final(self)@.wf(),
            sw.from == old(self)@.top(),
            sw.to == final(self)@.top(),
    {
        let ghost t = self@;
        proof {
            Tree::lemma_member(t, ROOT, 0);
            Tree::lemma_member(t, ROOT, t.chain().len() - 1);
            Tree::lemma_member(t, h, 0);
            Tree::lemma_member(t, h, t.chains[h].len() - 1);
            Tree::lemma_push_wf(t, h);
        }
        let top = self.top_handle();
        let tail = self.node(h).parent.unwrap();
        self.node_mut(top).child = Some(h);
        self.node_mut(h).parent = Some(top);
        self.node_mut(ROOT).parent = Some(tail);
        self.chains = Ghost(t.push(h).chains);
        self.places = Ghost(t.push(h).places);
        Switch { from: top, to: tail }
    }

    /// Cuts the entered chain before the context `c`, which stands at
    /// position `i` of it.
    fn cut(&mut self, c: usize, Ghost(i): Ghost<int>) -> (sw: Switch)
        requires
            old(self)@.wf(),
            1 <= i < old(self)@.chain().len(),
            old(self)@.chain()[i] == c,
        ensures
            final(self)@ == old(self)@.pop(i),
            final(self)@.wf(),
            sw.from == old(self)@.top(),
            sw.to == final(self)@.top(),
    {
        let ghost t = self@;
        proof {
            Tree::lemma_member(t, ROOT, 0);
            Tree::lemma_member(t, ROOT, i);
            Tree::lemma_member(t, ROOT, i - 1);
            Tree::lemma_member(t, ROOT, t.chain().len() - 1);
            Tree::lemma_pop_wf(t, i);
        }
        let top = self.top_handle();
        let p = self.node(c).parent.unwrap();
        self.node_mut(c).parent = Some(top);
        self.node_mut(p).child = None;
        self.node_mut(ROOT).parent = Some(p);
        self.chains = Ghost(t.pop(i).chains);
        self.places = Ghost(t.pop(i).places);
        Switch { from: top, to: p }
    }

    /// Brings a newly made context into the tree and answers with its
    /// handle: the least one that is free.
    ///
    /// The context is stored suspended and linked to nothing but itself; the
    /// slots, the local storage and the guard that `ctx` carries are kept.
    pub fn spawn(&mut self, ctx: Context) -> (h: usize)
        requires
            old(self)@.wf(),
        ensures
            h == old(self)@.vacancy(),
            final(self)@ == old(self)@.spawned(ctx),
            final(self)@.wf(),
            final(self)@.suspended(h),
            final(self)@.chain() == old(self)@.chain(),
            !old(self)@.live(h),
    {
        let ghost t = self@;
        let n = self.nodes.len();
        let mut h: usize = 0;
        while h < n && self.nodes[h].is_some()
            invariant
                self@ == t,
                n == t.nodes.len(),
                h <= n,
                t.vacancy_from(h as int) == t.vacancy(),
            decreases n - h,
        {
            h = h + 1;
        }
        let mut c = ctx;
        c.handle = h;
        c.parent = Some(h);
        c.child = None;
        c._ref = 1;
        if h < n {
            self.nodes[h] = Some(c);
        } else {
            self.nodes.push(Some(c));
        }
        self.chains = Ghost(t.spawned(ctx).chains);
        self.places = Ghost(t.spawned(ctx).places);
        proof {
            Tree::lemma_spawned_wf(t, ctx);
        }
        h
    }

    /// Enters the suspended context `h`, leaving its inbound holder as it is.
    ///
    /// The chain that hangs below `h` is linked below the running context,
    /// and the last context of that chain is the one to continue. A handle
    /// that names no suspended context (none at all, the root, one that is
    /// entered already, or one that has finished), or one that lacks a
    /// holder, is refused, and nothing changes.
    pub fn resume(&mut self, h: usize) -> (r: Result<Switch, Error>)
        requires
            old(self)@.wf(),
        ensures
            final(self)@.wf(),
            old(self)@.resumable(h) ==> final(self)@ == old(self)@.resumed(h) && r == Ok::<
                Switch,
                Error,
            >((Switch { from: old(self)@.top(), to: final(self)@.top() })),
            old(self)@.resumable(h) ==> final(self)@.chain() == old(self)@.chain() + old(
                self,
            )@.chains[h],
            !old(self)@.resumable(h) ==> final(self)@ == old(self)@ && r == Err::<Switch, Error>(
                Error::ContextErr,
            ),
    {
        if !self.is_suspended(h) || self.node(h).para.is_none() || self.node(h).ret.is_none() {
            return Err(Error::ContextErr);
        }
        proof {
            let n = self@.node(h);
            Tree::lemma_resumed_wf(self@, h);
            Tree::lemma_suspended_heads(self@, h);
            Tree::lemma_with_node_wf(self@, h, Context { _ref: (n._ref - 1) as usize, ..n });
        }
        let n = self.node_mut(h);
        n._ref = n._ref - 1;
        Ok(self.link(h))
    }

    /// Attaches `para` as the inbound holder of the suspended context `h`
    /// and enters it, as [`ContextStack::resume`] does. A handle that names
    /// no suspended context, or one without an outbound holder, is refused,
    /// and nothing changes.
    pub fn send(&mut self, h: usize, para: Slot) -> (r: Result<Switch, Error>)
        requires
            old(self)@.wf(),
        ensures
            final(self)@.wf(),
            old(self)@.sendable(h) ==> final(self)@ == old(self)@.sent(h, para) && r == Ok::<
                Switch,
                Error,
            >((Switch { from: old(self)@.top(), to: final(self)@.top() })),
            old(self)@.sendable(h) ==> final(self)@.chain() == old(self)@.chain() + old(
                self,
            )@.chains[h],
            !old(self)@.sendable(h) ==> final(self)@ == old(self)@ && r == Err::<Switch, Error>(
                Error::ContextErr,
            ),
    {
        if !self.is_suspended(h) || self.node(h).ret.is_none() {
            return Err(Error::ContextErr);
        }
        proof {
            Tree::lemma_payload_wf(self@, h, Context { para: Some(para), ..self@.node(h) });
        }
        self.node_mut(h).para = Some(para);
        self.resume(h)
    }

    /// Takes the value that was sent into the running generator, checking
    /// that its inbound holder was declared for the kind `expected`.
    ///
    /// At the root the access is refused with [`Error::ContextErr`]; on a
    /// holder of another kind it fails with [`Error::TypeErr`]. Either way
    /// nothing changes.
    pub fn get_yield(&mut self, expected: ValueType) -> (r: Result<Option<Value>, Error>)
        requires
            old(self)@.wf(),
        ensures
            final(self)@.wf(),
            r == old(self)@.inbound(expected),
            final(self)@ == old(self)@.received(expected),
    {
        let top = self.top_handle();
        if top == ROOT {
            return Err(Error::ContextErr);
        }
        let ghost t = self@;
        proof {
            Tree::lemma_member(t, ROOT, t.chain().len() - 1);
            Tree::lemma_payload_wf(t, top, t.node(top).para_taken());
        }
        let r = self.node_mut(top).get_para(expected);
        proof {
            if r is Err {
                assert(self@.nodes =~= t.nodes);
            }
        }
        r
    }

    /// Suspends the running generator with `v` as the value it yields,
    /// checking that its outbound holder was declared for the kind of `v`.
    ///
    /// The context that entered the generator is the one to continue. At the
    /// root the yield is refused with [`Error::ContextErr`]; on a holder of
    /// another kind it fails with [`Error::TypeErr`]. Either way nothing
    /// changes.
    pub fn yield_(&mut self, v: Value) -> (r: Result<Switch, Error>)
        requires
            old(self)@.wf(),
        ensures
            final(self)@.wf(),
            old(self)@.yields(v) ==> final(self)@ == old(self)@.yielded(v) && r == Ok::<
                Switch,
                Error,
            >((Switch { from: old(self)@.top(), to: final(self)@.top() })),
            old(self)@.yields(v) ==> final(self)@.chain() == old(self)@.chain().drop_last()
                && final(self)@.suspended(old(self)@.top()),
            !old(self)@.yields(v) ==> final(self)@ == old(self)@ && r == Err::<Switch, Error>(
                if old(self)@.top() != ROOT {
                    Error::TypeErr
                } else {
                    Error::ContextErr
                },
            ),
    {
        let top = self.top_handle();
        if top == ROOT {
            return Err(Error::ContextErr);
        }
        let ghost t = self@;
        let ghost i = t.chain().len() - 1;
        proof {
            Tree::lemma_member(t, ROOT, i);
        }
        match self.node_mut(top).set_ret(v) {
            Err(e) => {
                proof {
                    assert(self@.nodes =~= t.nodes);
                }
                Err(e)
            },
            Ok(()) => {
                proof {
                    Tree::lemma_payload_wf(t, top, t.node(top).ret_put(v));
                    Tree::lemma_suspended_at_wf(t, i, v);
                }
                Ok(self.suspend(top, Ghost(t), Ghost(i), Ghost(v)))
            },
        }
    }

    /// Takes the value that was handed to the innermost enclosing coroutine,
    /// without looking at the kind of its inbound holder.
    ///
    /// Outside any coroutine there is nothing to take and nothing changes.
    pub fn co_get_yield(&mut self) -> (r: Option<Value>)
        requires
            old(self)@.wf(),
        ensures
            final(self)@.wf(),
            old(self)@.coroutine() matches Some(c) ==> final(self)@ == old(self)@.co_received()
                && r == old(self)@.node(c).para.unwrap().value,
            old(self)@.coroutine() is None ==> final(self)@ == old(self)@ && r is None,
    {
        let c = match self.coroutine_ctx() {
            Some(n) => n.handle,
            None => {
                return None;
            },
        };
        proof {
            Tree::lemma_nearest(self@, self@.chain().len() as int);
            Tree::lemma_member(self@, ROOT, self@.places[c].1);
            Tree::lemma_payload_wf(self@, c, self@.node(c).para_taken());
        }
        self.node_mut(c).coroutine_get_para()
    }

    /// Puts `data` into the inbound holder of the suspended context `h`,
    /// without looking at the holder's kind: that `data` is of the kind the
    /// holder was declared for is the caller's part.
    ///
    /// A handle that names no suspended context with an inbound holder is
    /// refused, and nothing changes.
    pub fn co_set_para(&mut self, h: usize, data: Value) -> (r: Result<(), Error>)
        requires
            old(self)@.wf(),
            old(self)@.accepts(h) ==> old(self)@.node(h).para.unwrap().ty == data.tag(),
        ensures
            final(self)@.wf(),
            old(self)@.accepts(h) ==> final(self)@ == old(self)@.supplied(h, data) && r == Ok::<
                (),
                Error,
            >(()),
            !old(self)@.accepts(h) ==> final(self)@ == old(self)@ && r == Err::<(), Error>(
                Error::ContextErr,
            ),
    {
        if !self.is_suspended(h) || self.node(h).para.is_none() {
            return Err(Error::ContextErr);
        }
        proof {
            Tree::lemma_payload_wf(self@, h, self@.node(h).para_put(data));
        }
        self.node_mut(h).coroutine_set_para(data);
        Ok(())
    }

    /// Suspends the innermost enclosing coroutine with `v` in its outbound
    /// holder, without looking at the holder's kind: that `v` is of the kind
    /// the holder was declared for is the caller's part.
    ///
    /// Whatever is entered below the coroutine stays linked to it and comes
    /// back when it is resumed. The context that entered the coroutine is
    /// the one to continue. Outside any coroutine the yield is refused, and
    /// nothing changes.
    pub fn co_yield_with(&mut self, v: Value) -> (r: Result<Switch, Error>)
        requires
            old(self)@.wf(),
            old(self)@.coroutine() matches Some(c) ==> old(self)@.node(c).ret.unwrap().ty
                == v.tag(),
        ensures
            final(self)@.wf(),
            old(self)@.coroutine() is Some ==> final(self)@ == old(self)@.co_yielded(v) && r
                == Ok::<Switch, Error>(
                (Switch { from: old(self)@.top(), to: final(self)@.top() }),
            ),
            old(self)@.coroutine() matches Some(c) ==> final(self)@.suspended(c)
                && final(self)@.chain() + final(self)@.chains[c] == old(self)@.chain(),
            old(self)@.coroutine() is None ==> final(self)@ == old(self)@ && r == Err::<
                Switch,
                Error,
            >(Error::ContextErr),
    {
        let c = match self.coroutine_ctx() {
            Some(n) => n.handle,
            None => {
                return Err(Error::ContextErr);
            },
        };
        let ghost t = self@;
        proof {
            Tree::lemma_nearest(t, t.chain().len() as int);
            Tree::lemma_member(t, ROOT, t.places[c].1);
            Tree::lemma_payload_wf(t, c, t.node(c).ret_put(v));
        }
        self.node_mut(c).coroutine_set_ret(v);
        proof {
            let i = t.places[c].1;
            Tree::lemma_suspended_at_wf(t, i, v);
        }
        Ok(self.suspend(c, Ghost(t), Ghost(t.places[c].1), Ghost(v)))
    }

    /// Marks the entered context `c`, which has just stored the value `v`
    /// that it yields, as suspended, and cuts the entered chain before it.
    fn suspend(
        &mut self,
        c: usize,
        Ghost(t): Ghost<Tree>,
        Ghost(i): Ghost<int>,
        Ghost(v): Ghost<Value>,
    ) -> (sw: Switch)
        requires
            t.wf(),
            1 <= i < t.chain().len(),
            t.chain()[i] == c,
            old(self)@ == t.with_node(c, t.node(c).ret_put(v)),
            old(self)@.wf(),
        ensures
            final(self)@ == t.suspended_at(i, v),
            final(self)@.wf(),
            sw.from == t.top(),
            sw.to == final(self)@.top(),
    {
        proof {
            Tree::lemma_pop_wf(self@, i);
            Tree::lemma_suspended_at_wf(t, i, v);
            Tree::lemma_suspend_order(t, i, v);
        }
        let sw = self.cut(c, Ghost(i));
        let n = self.node_mut(c);
        n._ref = n._ref + 1;
        sw
    }

    /// Records that the body of the running generator failed with `e`, for
    /// the resumer to find.
    ///
    /// A context holds at most one failure. At the root, or where the
    /// running context holds a failure already, nothing is recorded and `e`
    /// is handed back.
    pub fn fail(&mut self, e: Error) -> (r: Option<Error>)
        requires
            old(self)@.wf(),
        ensures
            final(self)@.wf(),
            old(self)@.captures() ==> final(self)@ == old(self)@.failed(e) && r is None,
            !old(self)@.captures() ==> final(self)@ == old(self)@ && r == Some(e),
    {
        let top = self.top_handle();
        if top == ROOT || self.node(top).err.is_some() {
            return Some(e);
        }
        proof {
            Tree::lemma_payload_wf(self@, top, Context { err: Some(e), ..self@.node(top) });
        }
        self.node_mut(top).err = Some(e);
        None
    }

    /// Leaves the running generator for good: its body has returned.
    ///
    /// The context stays stored, finished and detached, until it is
    /// released; the context that entered it is the one to continue. At the
    /// root there is nothing to leave.
    pub fn finish(&mut self) -> (r: Result<Switch, Error>)
        requires
            old(self)@.wf(),
        ensures
            final(self)@.wf(),
            old(self)@.top() != ROOT ==> final(self)@ == old(self)@.finished() && r == Ok::<
                Switch,
                Error,
            >((Switch { from: old(self)@.top(), to: final(self)@.top() })),
            old(self)@.top() != ROOT ==> final(self)@.chain() == old(self)@.chain().drop_last()
                && final(self)@.done(old(self)@.top()),
            old(self)@.top() == ROOT ==> final(self)@ == old(self)@ && r == Err::<Switch, Error>(
                Error::ContextErr,
            ),
    {
        let top = self.top_handle();
        if top == ROOT {
            return Err(Error::ContextErr);
        }
        proof {
            Tree::lemma_finished_wf(self@);
        }
        Ok(self.cut(top, Ghost(self@.chain().len() - 1)))
    }

    /// Hands the resumer of `h` what it finds once control is back: the
    /// failure that the body was left with, which is cleared, or else the
    /// value that it yielded, which is taken out of the outbound holder.
    ///
    /// A handle that names no detached context is refused, and nothing
    /// changes.
    pub fn collect(&mut self, h: usize) -> (r: Result<Option<Value>, Error>)
        requires
            old(self)@.wf(),
        ensures
            final(self)@.wf(),
            old(self)@.detached(h) ==> final(self)@ == old(self)@.collected(h) && r == old(
                self,
            )@.outcome(h),
            !old(self)@.detached(h) ==> final(self)@ == old(self)@ && r == Err::<
                Option<Value>,
                Error,
            >(Error::ContextErr),
    {
        if !self.is_suspended(h) && !self.is_done(h) {
            return Err(Error::ContextErr);
        }
        let ghost t = self@;
        proof {
            let n = t.node(h);
            Tree::lemma_payload_wf(t, h, Context { err: None, ..n });
            if n.ret is Some {
                Tree::lemma_payload_wf(t, h, Context { ret: Some(n.ret.unwrap().emptied()), ..n });
            }
        }
        let n = self.node_mut(h);
        let r = match n.err.take() {
            Some(e) => Err(e),
            None => match &mut n.ret {
                Some(s) => Ok(s.value.take()),
                None => Ok(None),
            },
        };
        proof {
            assert(self@.nodes =~= t.collected(h).nodes);
        }
        r
    }

    /// Takes the finished context `h` out of the tree and hands it over;
    /// its handle is free again.
    ///
    /// Only a context whose body has returned can be taken out: any other
    /// handle is refused, and nothing changes.
    pub fn release(&mut self, h: usize) -> (r: Result<Context, Error>)
        requires
            old(self)@.wf(),
        ensures
            final(self)@.wf(),
            old(self)@.done(h) ==> final(self)@ == old(self)@.released(h) && r == Ok::<
                Context,
                Error,
            >(old(self)@.node(h)),
            final(self)@.chain() == old(self)@.chain(),
            !old(self)@.done(h) ==> final(self)@ == old(self)@ && r == Err::<Context, Error>(
                Error::ContextErr,
            ),
    {
        if !self.is_done(h) {
            return Err(Error::ContextErr);
        }
        let ghost t = self@;
        proof {
            Tree::lemma_released_wf(t, h);
        }
        let taken = self.nodes[h].take();
        self.chains = Ghost(t.released(h).chains);
        self.places = Ghost(t.released(h).places);
        Ok(taken.unwrap())
    }

    /// The context that is running on this thread.
    pub fn top(&self) -> (c: &Context)
        requires
            self@.wf(),
        ensures
            *c == self@.node(self@.top()),
            c.handle == self@.top(),
            self@.live(self@.top()),
    {
        proof {
            Tree::lemma_member(self@, ROOT, self@.chain().len() - 1);
        }
        self.node(self.top_handle())
    }

    /// The context stored under `h`, if there is one.
    pub fn context(&self, h: usize) -> (r: Option<&Context>)
        ensures
            self@.live(h) ==> r is Some && *r.unwrap() == self@.node(h),
            !self@.live(h) ==> r is None,
    {
        if h < self.nodes.len() {
            self.nodes[h].as_ref()
        } else {
            None
        }
    }

    /// The innermost coroutine that encloses the running point: the first
    /// context with local storage on the way from the running context
    /// towards the root. The root itself is never one.
    pub fn coroutine_ctx(&self) -> (r: Option<&Context>)
        requires
            self@.wf(),
        ensures
            self@.coroutine() matches Some(c) ==> self@.live(c) && r is Some && *r.unwrap()
                == self@.node(c) && r.unwrap().handle == c,
            self@.coroutine() is None ==> r is None,
    {
        let mut cur = self.top_handle();
        let ghost mut k: int = self@.chain().len() - 1;
        while cur != ROOT
            invariant
                self@.wf(),
                self@.heads(ROOT),
                0 <= k < self@.chain().len(),
                cur == self@.chain()[k],
                self@.nearest(k + 1) == self@.coroutine(),
            decreases k,
        {
            proof {
                Tree::lemma_member(self@, ROOT, k);
                Tree::lemma_member(self@, ROOT, 0);
            }
            let n = self.node(cur);
            if n.local_data != 0 {
                return Some(n);
            }
            cur = n.parent.unwrap();
            proof {
                k = k - 1;
            }
        }
        proof {
            Tree::lemma_member(self@, ROOT, k);
            Tree::lemma_member(self@, ROOT, 0);
        }
        None
    }
}

/// Whether a generator or a coroutine is entered anywhere on the thread:
/// whether the root has a child.
pub fn is_generator(env: &ContextStack) -> (b: bool)
    requires
        env@.wf(),
    ensures
        b == (env@.node(ROOT).child is Some),
        b == (env@.chain().len() > 1),
        b == (env@.top() != ROOT),
{
    proof {
        Tree::lemma_member(env@, ROOT, 0);
        Tree::lemma_member(env@, ROOT, env@.chain().len() - 1);
    }
    match env.context(ROOT) {
        Some(root) => root.child.is_some(),
        None => false,
    }
}

/// The local storage of the innermost coroutine that encloses the running
/// point, or zero where there is none.
pub fn get_local_data(env: &ContextStack) -> (p: usize)
    requires
        env@.wf(),
    ensures
        p == env@.local_data(),
{
    match env.coroutine_ctx() {
        Some(c) => c.local_data,
        None => 0,
    }
}

} // verus!
