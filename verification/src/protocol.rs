//! What a resumer and a body see of each other across a switch.
//!
//! The theorems of this module are stated over the model of the tree, as
//! the contracts of [`crate::runtime::ContextStack`] are: each one relates
//! the trees that a sequence of its operations leads through.

use crate::context::Context;
use crate::error::Error;
use crate::tree::{Tree, ROOT};
use crate::value::{Slot, Value, ValueType};
use vstd::prelude::*;

verus! {

impl Tree {
    /// Whether `h` is a suspended generator with nothing entered below it,
    /// no failure pending, and an outbound holder for values of kind `ty`.
    pub open spec fn ready(self, h: usize, ty: ValueType) -> bool {
        &&& self.wf()
        &&& self.suspended(h)
        &&& self.chains[h] == seq![h]
        &&& self.node(h).err is None
        &&& self.node(h).ret matches Some(s) && s.ty == ty
    }

    /// This tree after one round with `h`: the holder `para` is sent into
    /// it, its body takes what was sent and yields `v`, and the resumer
    /// collects what was yielded.
    pub open spec fn round(self, h: usize, para: Slot, v: Value) -> Tree {
        self.sent(h, para).received(para.ty).yielded(v).collected(h)
    }

    /// This tree after the first `k` of the rounds with `h` in which
    /// `paras` are sent and `vs` are yielded, one after the other.
    pub open spec fn rounds(self, h: usize, paras: Seq<Slot>, vs: Seq<Value>, k: nat) -> Tree
        decreases k,
    {
        if k == 0 {
            self
        } else {
            self.rounds(h, paras, vs, (k - 1) as nat).round(h, paras[k - 1], vs[k - 1])
        }
    }

    /// What is sent into a suspended generator is what its body finds: once
    /// `h` is entered with the holder `para`, it is the running context, and
    /// asking for a value of the holder's kind gives what the holder held.
    pub proof fn send_reaches_body(t: Tree, h: usize, para: Slot)
        requires
            t.wf(),
            t.sendable(h),
            t.chains[h] == seq![h],
        ensures
            t.sent(h, para).wf(),
            t.sent(h, para).top() == h,
            t.sent(h, para).live(h),
            t.sent(h, para).chain() == t.chain().push(h),
            t.sent(h, para).inbound(para.ty) == Ok::<Option<Value>, Error>(para.value),
            t.sent(h, para).node(h).ret == t.node(h).ret,
            t.sent(h, para).node(h).err == t.node(h).err,
    {
        Tree::lemma_suspended_heads(t, h);
        Tree::lemma_sent_wf(t, h, para);
        Tree::lemma_member(t, ROOT, 0);
        Tree::lemma_member(t, ROOT, t.chain().len() - 1);
        Tree::lemma_member(t, h, 0);
    }

    /// A value of another kind than the body expects is refused: where a
    /// value of kind A was sent into `h` and its body asks for one of
    /// another kind B, the body gets a type error and the value stays in
    /// the holder.
    pub proof fn mismatch_is_refused(t: Tree, h: usize, v: Value, expected: ValueType)
        requires
            t.wf(),
            t.sendable(h),
            t.chains[h] == seq![h],
            v.tag() != expected,
        ensures
            t.sent(h, Slot::spec_holding(v)).inbound(expected) == Err::<Option<Value>, Error>(
                Error::TypeErr,
            ),
            t.sent(h, Slot::spec_holding(v)).received(expected) == t.sent(h, Slot::spec_holding(v)),
    {
        Tree::send_reaches_body(t, h, Slot::spec_holding(v));
    }

    /// What a generator yields is what its resumer collects: once the
    /// running generator has yielded `v`, it is suspended, the context that
    /// entered it is running, and collecting from it gives `v`.
    pub proof fn yield_reaches_resumer(t: Tree, v: Value)
        requires
            t.wf(),
            t.yields(v),
            t.node(t.top()).err is None,
        ensures
            t.yielded(v).wf(),
            t.yielded(v).suspended(t.top()),
            t.yielded(v).chain() == t.chain().drop_last(),
            t.yielded(v).chains[t.top()] == seq![t.top()],
            t.yielded(v).node(t.top()).ret == Some(t.node(t.top()).ret.unwrap().filled(v)),
            t.yielded(v).node(t.top()).err is None,
            t.yielded(v).outcome(t.top()) == Ok::<Option<Value>, Error>(Some(v)),
    {
        let i = t.chain().len() - 1;
        Tree::lemma_member(t, ROOT, 0);
        Tree::lemma_member(t, ROOT, i);
        Tree::lemma_suspended_at_wf(t, i, v);
        Tree::lemma_pop_wf(t, i);
    }

    /// What a coroutine yields is what its resumer collects, from however
    /// deep below the coroutine the yield is made: once the innermost
    /// enclosing coroutine has yielded `v`, it is suspended and collecting
    /// from it gives `v`.
    pub proof fn co_yield_reaches_resumer(t: Tree, v: Value)
        requires
            t.wf(),
            t.coroutine() matches Some(c) && t.node(c).err is None,
        ensures
            t.co_yielded(v).wf(),
            t.co_yielded(v).suspended(t.coroutine().unwrap()),
            t.co_yielded(v).outcome(t.coroutine().unwrap()) == Ok::<Option<Value>, Error>(Some(v)),
    {
        let c = t.coroutine().unwrap();
        Tree::lemma_nearest(t, t.chain().len() as int);
        let i = t.places[c].1;
        Tree::lemma_suspended_at_wf(t, i, v);
        Tree::lemma_pop_wf(t, i);
    }

    /// A round leaves the generator ready for the next one, and the entered
    /// chain as it was.
    pub proof fn round_keeps_ready(t: Tree, h: usize, para: Slot, v: Value)
        requires
            t.ready(h, v.tag()),
        ensures
            t.round(h, para, v).ready(h, v.tag()),
            t.round(h, para, v).chain() == t.chain(),
            t.sent(h, para).inbound(para.ty) == Ok::<Option<Value>, Error>(para.value),
            t.sent(h, para).received(para.ty).yielded(v).outcome(h) == Ok::<Option<Value>, Error>(
                Some(v),
            ),
    {
        Tree::send_reaches_body(t, h, para);
        let t1 = t.sent(h, para);
        let t2 = t1.received(para.ty);
        Tree::lemma_payload_wf(t1, h, t1.node(h).para_taken());
        Tree::yield_reaches_resumer(t2, v);
        let t3 = t2.yielded(v);
        let n = t3.node(h);
        Tree::lemma_payload_wf(t3, h, Context { ret: Some(n.ret.unwrap().emptied()), ..n });
        let t4 = t3.collected(h);
    }

    /// Over any number of rounds with one generator, each resume finds what
    /// the yield that answers it wrote, and each body finds what the resume
    /// that entered it sent: nothing is dropped and nothing changes places.
    pub proof fn rounds_deliver_in_order(
        t: Tree,
        h: usize,
        ty: ValueType,
        paras: Seq<Slot>,
        vs: Seq<Value>,
        k: nat,
    )
        requires
            t.ready(h, ty),
            paras.len() == vs.len(),
            k < vs.len(),
            forall|j: int| 0 <= j < vs.len() ==> (#[trigger] vs[j]).tag() == ty,
        ensures
            t.rounds(h, paras, vs, k).ready(h, ty),
            t.rounds(h, paras, vs, k).chain() == t.chain(),
            t.rounds(h, paras, vs, k).sent(h, paras[k as int]).inbound(paras[k as int].ty) == Ok::<
                Option<Value>,
                Error,
            >(paras[k as int].value),
            t.rounds(h, paras, vs, k).sent(h, paras[k as int]).received(
                paras[k as int].ty,
            ).yielded(vs[k as int]).outcome(h) == Ok::<Option<Value>, Error>(Some(vs[k as int])),
        decreases k,
    {
        if k > 0 {
            Tree::rounds_deliver_in_order(t, h, ty, paras, vs, (k - 1) as nat);
            Tree::round_keeps_ready(
                t.rounds(h, paras, vs, (k - 1) as nat),
                h,
                paras[k - 1],
                vs[k - 1],
            );
        }
        Tree::round_keeps_ready(t.rounds(h, paras, vs, k), h, paras[k as int], vs[k as int]);
    }

    /// Whether `h` is a suspended coroutine with nothing entered below it,
    /// no failure pending, an inbound holder for values of kind `para` and
    /// an outbound holder for values of kind `ret`.
    pub open spec fn co_ready(self, h: usize, para: ValueType, ret: ValueType) -> bool {
        &&& self.ready(h, ret)
        &&& self.node(h).coroutine()
        &&& self.node(h).para matches Some(s) && s.ty == para
    }

    /// This tree after one round with the coroutine `h`: `a` is put into
    /// its inbound holder, it is resumed, its body takes what was put in and
    /// yields `v`, and the resumer collects what was yielded.
    pub open spec fn co_round(self, h: usize, a: Value, v: Value) -> Tree {
        self.supplied(h, a).resumed(h).co_received().co_yielded(v).collected(h)
    }

    /// This tree after the first `k` of the rounds with the coroutine `h`
    /// in which `paras` are handed in and `vs` are yielded, one after the
    /// other.
    pub open spec fn co_rounds(self, h: usize, paras: Seq<Value>, vs: Seq<Value>, k: nat) -> Tree
        decreases k,
    {
        if k == 0 {
            self
        } else {
            self.co_rounds(h, paras, vs, (k - 1) as nat).co_round(h, paras[k - 1], vs[k - 1])
        }
    }

    /// A round with a coroutine hands each side what the other gave: the
    /// body finds the value that was put into the inbound holder, the
    /// resumer collects the value that the body yielded, and the coroutine
    /// is left ready for the next round, with the entered chain as it was.
    pub proof fn co_round_keeps_ready(t: Tree, h: usize, a: Value, v: Value)
        requires
            t.co_ready(h, a.tag(), v.tag()),
        ensures
            t.co_round(h, a, v).co_ready(h, a.tag(), v.tag()),
            t.co_round(h, a, v).chain() == t.chain(),
            t.supplied(h, a).resumed(h).coroutine() == Some(h),
            t.supplied(h, a).resumed(h).node(h).para.unwrap().value == Some(a),
            t.supplied(h, a).resumed(h).co_received().co_yielded(v).outcome(h) == Ok::<
                Option<Value>,
                Error,
            >(Some(v)),
    {
        Tree::lemma_suspended_heads(t, h);
        Tree::lemma_payload_wf(t, h, t.node(h).para_put(a));
        let t0 = t.supplied(h, a);
        Tree::lemma_suspended_heads(t0, h);
        Tree::lemma_resumed_wf(t0, h);
        let t1 = t0.resumed(h);
        Tree::lemma_member(t0, ROOT, 0);
        Tree::lemma_member(t0, ROOT, t0.chain().len() - 1);
        Tree::lemma_member(t0, h, 0);
        Tree::lemma_payload_wf(t1, h, t1.node(h).para_taken());
        let t2 = t1.co_received();
        Tree::lemma_member(t2, ROOT, t2.chain().len() - 1);
        let i = t2.chain().len() - 1;
        Tree::lemma_suspended_at_wf(t2, i, v);
        Tree::lemma_pop_wf(t2, i);
        let t3 = t2.co_yielded(v);
        assert(t2.chain().skip(i) =~= seq![h]);
        let n = t3.node(h);
        Tree::lemma_payload_wf(t3, h, Context { ret: Some(n.ret.unwrap().emptied()), ..n });
        let t4 = t3.collected(h);
    }

    /// Over any number of rounds with one coroutine, each resume finds what
    /// the yield that answers it wrote, and each body finds what was handed
    /// in before it was resumed: nothing is dropped and nothing changes
    /// places.
    pub proof fn co_rounds_deliver_in_order(
        t: Tree,
        h: usize,
        para: ValueType,
        ret: ValueType,
        paras: Seq<Value>,
        vs: Seq<Value>,
        k: nat,
    )
        requires
            t.co_ready(h, para, ret),
            paras.len() == vs.len(),
            k < vs.len(),
            forall|j: int| 0 <= j < paras.len() ==> (#[trigger] paras[j]).tag() == para,
            forall|j: int| 0 <= j < vs.len() ==> (#[trigger] vs[j]).tag() == ret,
        ensures
            t.co_rounds(h, paras, vs, k).co_ready(h, para, ret),
            t.co_rounds(h, paras, vs, k).chain() == t.chain(),
            t.co_rounds(h, paras, vs, k).supplied(h, paras[k as int]).resumed(h).node(
                h,
            ).para.unwrap().value == Some(paras[k as int]),
            t.co_rounds(h, paras, vs, k).supplied(h, paras[k as int]).resumed(
                h,
            ).co_received().co_yielded(vs[k as int]).outcome(h) == Ok::<Option<Value>, Error>(
                Some(vs[k as int]),
            ),
        decreases k,
    {
        if k > 0 {
            Tree::co_rounds_deliver_in_order(t, h, para, ret, paras, vs, (k - 1) as nat);
            Tree::co_round_keeps_ready(
                t.co_rounds(h, paras, vs, (k - 1) as nat),
                h,
                paras[k - 1],
                vs[k - 1],
            );
        }
        Tree::co_round_keeps_ready(t.co_rounds(h, paras, vs, k), h, paras[k as int], vs[k as int]);
    }

    /// No operation puts a value into a holder that was declared for
    /// another kind: where every holder of a well-formed tree holds nothing
    /// of a foreign kind, the same is true of the tree after a context was
    /// brought in, resumed, sent a holder, handed a value, or has taken its
    /// value, yielded, failed, finished, or was collected from or released.
    pub proof fn kinds_are_kept(
        t: Tree,
        h: usize,
        c: Context,
        para: Slot,
        v: Value,
        e: Error,
        expected: ValueType,
    )
        requires
            t.wf(),
            t.typed(),
        ensures
            c.typed() ==> t.spawned(c).typed(),
            t.resumable(h) ==> t.resumed(h).typed(),
            t.sendable(h) && para.wf() ==> t.sent(h, para).typed(),
            t.accepts(h) && t.node(h).para.unwrap().ty == v.tag() ==> t.supplied(h, v).typed(),
            t.received(expected).typed(),
            t.coroutine() is Some ==> t.co_received().typed(),
            t.yields(v) ==> t.yielded(v).typed(),
            t.coroutine() matches Some(co) && t.node(co).ret.unwrap().ty == v.tag()
                ==> t.co_yielded(v).typed(),
            t.captures() ==> t.failed(e).typed(),
            t.top() != ROOT ==> t.finished().typed(),
            t.detached(h) ==> t.collected(h).typed(),
            t.done(h) ==> t.released(h).typed(),
    {
        Tree::lemma_member(t, ROOT, 0);
        Tree::lemma_member(t, ROOT, t.chain().len() - 1);
        if c.typed() {
            Tree::lemma_vacancy_from(t, 0);
            Tree::lemma_kinds_kept(t, t.spawned(c), t.vacancy() as usize);
        }
        if t.suspended(h) {
            Tree::lemma_suspended_heads(t, h);
            Tree::lemma_member(t, h, t.chains[h].len() - 1);
            Tree::lemma_kinds_kept(t, t.resumed(h), h);
            if para.wf() {
                Tree::lemma_kinds_kept(t, t.sent(h, para), h);
            }
            if t.accepts(h) && t.node(h).para.unwrap().ty == v.tag() {
                Tree::lemma_kinds_kept(t, t.supplied(h, v), h);
            }
        }
        Tree::lemma_kinds_kept(t, t.received(expected), t.top());
        if t.top() != ROOT {
            Tree::lemma_member(t, ROOT, t.chain().len() - 2);
            Tree::lemma_kinds_kept(t, t.finished(), t.top());
            if t.yields(v) {
                Tree::lemma_kinds_kept(t, t.yielded(v), t.top());
            }
            if t.captures() {
                Tree::lemma_kinds_kept(t, t.failed(e), t.top());
            }
        }
        if t.coroutine() is Some {
            let co = t.coroutine().unwrap();
            Tree::lemma_nearest(t, t.chain().len() as int);
            Tree::lemma_member(t, ROOT, t.places[co].1);
            Tree::lemma_member(t, ROOT, t.places[co].1 - 1);
            Tree::lemma_kinds_kept(t, t.co_received(), co);
            if t.node(co).ret.unwrap().ty == v.tag() {
                Tree::lemma_kinds_kept(t, t.co_yielded(v), co);
            }
        }
        if t.detached(h) {
            Tree::lemma_kinds_kept(t, t.collected(h), h);
        }
        if t.done(h) {
            Tree::lemma_kinds_kept(t, t.released(h), h);
        }
    }

    /// A tree whose contexts, but for `h`, are contexts of a tree without
    /// foreign values and have their holders from there, holds no foreign
    /// value either, provided `h` holds none.
    proof fn lemma_kinds_kept(t: Tree, t2: Tree, h: usize)
        requires
            t.typed(),
            t2.live(h) ==> t2.node(h).typed(),
            forall|x: usize|
                #![trigger t2.live(x)]
                t2.live(x) && x != h ==> t.live(x) && t2.node(x).para == t.node(x).para
                    && t2.node(x).ret == t.node(x).ret,
        ensures
            t2.typed(),
    {
        assert forall|x: usize| #[trigger] t2.live(x) implies t2.node(x).typed() by {
            if x != h {
                assert(t.live(x));
            }
        }
    }

    /// A body never gets a value of another kind than it asked for: where
    /// no holder holds anything of a foreign kind, whatever a checked access
    /// hands out to the running context is of the kind expected.
    pub proof fn inbound_is_of_the_kind_expected(t: Tree, expected: ValueType)
        requires
            t.wf(),
            t.typed(),
        ensures
            t.inbound(expected) matches Ok(Some(v)) ==> v.tag() == expected,
    {
        Tree::lemma_member(t, ROOT, 0);
        Tree::lemma_member(t, ROOT, t.chain().len() - 1);
        assert(t.live(t.top()));
    }

    /// The coroutine that the lookup finds is the innermost one: it is
    /// entered, it is not the root, and every context entered below it is a
    /// plain generator. The lookup finds nothing exactly where no entered
    /// context but the root, which never is one, is a coroutine.
    pub proof fn coroutine_is_innermost(t: Tree)
        requires
            t.wf(),
        ensures
            t.coroutine() matches Some(c) ==> {
                &&& t.node(c).coroutine()
                &&& c != ROOT
                &&& exists|i: int|
                    1 <= i < t.chain().len() && #[trigger] t.chain()[i] == c && forall|j: int|
                        i < j < t.chain().len() ==> !t.node(#[trigger] t.chain()[j]).coroutine()
            },
            t.coroutine() is None <==> forall|j: int|
                0 <= j < t.chain().len() ==> !t.node(#[trigger] t.chain()[j]).coroutine(),
    {
        Tree::lemma_nearest(t, t.chain().len() as int);
        Tree::lemma_member(t, ROOT, 0);
        if t.coroutine() is Some {
            let c = t.coroutine().unwrap();
            let i = t.places[c].1;
        }
    }

    /// A failure of a body reaches the resumer with what the body failed
    /// with: once the running generator was left with the failure `e` and
    /// its body has come to its end, the generator is finished, and
    /// collecting from it gives `e` and no other error.
    pub proof fn failure_reaches_resumer(t: Tree, e: Error)
        requires
            t.wf(),
            t.captures(),
        ensures
            t.failed(e).finished().wf(),
            t.failed(e).finished().done(t.top()),
            t.failed(e).finished().outcome(t.top()) == Err::<Option<Value>, Error>(e),
            t.failed(e).finished().collected(t.top()).node(t.top()).err is None,
    {
        let h = t.top();
        Tree::lemma_member(t, ROOT, 0);
        Tree::lemma_member(t, ROOT, t.chain().len() - 1);
        Tree::lemma_payload_wf(t, h, Context { err: Some(e), ..t.node(h) });
        let t1 = t.failed(e);
        Tree::lemma_finished_wf(t1);
        Tree::lemma_pop_wf(t1, t1.chain().len() - 1);
    }

    /// No context that is entered can be entered again, and none can be
    /// handed a value: none of the entered contexts, the running one among
    /// them, counts as suspended, so that resuming it, sending into it and
    /// putting a value into its inbound holder are all refused and leave
    /// the tree as it is.
    pub proof fn entered_is_not_suspended(t: Tree, i: int)
        requires
            t.wf(),
            0 <= i < t.chain().len(),
        ensures
            t.chain()[i] == ROOT || t.node(t.chain()[i])._ref == 0,
            !t.suspended(t.chain()[i]),
            !t.resumable(t.chain()[i]),
            !t.sendable(t.chain()[i]),
            !t.accepts(t.chain()[i]),
    {
        Tree::lemma_member(t, ROOT, i);
    }

    /// A context that is entered has both its holders: once a context was
    /// resumed for the first time, neither of them is ever missing.
    pub proof fn entered_has_holders(t: Tree, i: int)
        requires
            t.wf(),
            1 <= i < t.chain().len(),
        ensures
            t.node(t.chain()[i]).para is Some,
            t.node(t.chain()[i]).ret is Some,
    {
        Tree::lemma_member(t, ROOT, 0);
        Tree::lemma_member(t, ROOT, i);
    }

    /// A context that was resumed is entered, so that resuming it once more
    /// is refused.
    pub proof fn resumed_is_entered(t: Tree, h: usize)
        requires
            t.wf(),
            t.resumable(h),
        ensures
            t.resumed(h).wf(),
            t.resumed(h).chain().contains(h),
            !t.resumed(h).suspended(h),
    {
        Tree::lemma_suspended_heads(t, h);
        Tree::lemma_resumed_wf(t, h);
        let t2 = t.resumed(h);
        Tree::lemma_member(t, h, 0);
        Tree::entered_is_not_suspended(t2, t.chain().len() as int);
    }

    /// The root has a child exactly while a context other than the root is
    /// entered: none on a thread that has entered nothing, one as soon as a
    /// context is resumed, and none again once the last entered generator
    /// has finished.
    pub proof fn root_has_child_while_entered(t: Tree)
        requires
            t.wf(),
        ensures
            (t.node(ROOT).child is Some) == (t.chain().len() > 1),
            (t.node(ROOT).child is Some) == (t.top() != ROOT),
            Tree::init().node(ROOT).child is None,
            forall|h: usize| t.resumable(h) ==> (#[trigger] t.resumed(h)).node(ROOT).child is Some,
            t.chain().len() == 2 ==> t.finished().node(ROOT).child is None,
    {
        Tree::lemma_member(t, ROOT, 0);
        Tree::lemma_member(t, ROOT, t.chain().len() - 1);
        assert forall|h: usize| t.resumable(h) implies (#[trigger] t.resumed(h)).node(
            ROOT,
        ).child is Some by {
            Tree::lemma_suspended_heads(t, h);
            Tree::lemma_resumed_wf(t, h);
            let t2 = t.resumed(h);
            Tree::lemma_member(t2, ROOT, 0);
        }
        if t.chain().len() == 2 {
            Tree::lemma_finished_wf(t);
            let t2 = t.finished();
            Tree::lemma_member(t2, ROOT, 0);
        }
    }
}

} // verus!
