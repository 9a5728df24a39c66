//! The mathematical model of one thread's context tree.
//!
//! The contexts of a thread stand in an arena and name each other by index.
//! At any moment they are partitioned into chains. The chain headed by the
//! root holds the contexts that are entered, from the root down to the one
//! that is running. Every other chain is detached: it is headed by a context
//! that is suspended or finished, followed by the contexts that were entered
//! below it when it was suspended.
//!
//! The links of the contexts say the same as the chains. The child of a
//! context is the next one of its chain. The parent of a context is the one
//! before it; the parent of a head is the last context of its chain, so
//! that the parent of the root is always the running context, and a context
//! with nothing below it is its own parent while it is detached.

use crate::context::Context;
use crate::error::Error;
use crate::value::{Slot, Value, ValueType};
use vstd::prelude::*;

verus! {

/// The handle of a thread's root context.
pub const ROOT: usize = 0;

/// One thread's contexts and how they are chained.
pub struct Tree {
    /// The arena: the context stored under each handle, if any.
    pub nodes: Seq<Option<Context>>,
    /// Every chain, by the handle of its head.
    pub chains: Map<usize, Seq<usize>>,
    /// For each stored context, the head of its chain and its position there.
    pub places: Map<usize, (usize, int)>,
}

impl Tree {
    /// Whether a context is stored under `h`.
    pub open spec fn live(self, h: usize) -> bool {
        h < self.nodes.len() && self.nodes[h as int] is Some
    }

    /// The context stored under `h`.
    pub open spec fn node(self, h: usize) -> Context {
        self.nodes[h as int].unwrap()
    }

    /// Whether `h` heads a chain.
    pub open spec fn heads(self, h: usize) -> bool {
        self.chains.dom().contains(h)
    }

    /// The entered contexts, from the root to the running one.
    pub open spec fn chain(self) -> Seq<usize> {
        self.chains[ROOT]
    }

    /// The running context.
    pub open spec fn top(self) -> usize {
        self.chain().last()
    }

    /// Whether `h` is detached and waits to be resumed.
    pub open spec fn suspended(self, h: usize) -> bool {
        self.live(h) && h != ROOT && self.node(h)._ref != 0
    }

    /// Whether `h` can be sent a holder and entered: it is suspended and
    /// has an outbound holder.
    pub open spec fn sendable(self, h: usize) -> bool {
        self.suspended(h) && self.node(h).ret is Some
    }

    /// Whether `h` can be entered as it is: it is suspended and has both
    /// its holders.
    pub open spec fn resumable(self, h: usize) -> bool {
        self.sendable(h) && self.node(h).para is Some
    }

    /// Whether `h` is detached and its body has returned.
    pub open spec fn done(self, h: usize) -> bool {
        self.live(h) && h != ROOT && self.node(h)._ref == 0 && !self.node(h).generator()
    }

    /// The links and the run state of the context at position `i` of the
    /// chain headed by `h` are what the chain says, and the context has both
    /// its holders if it was ever entered.
    pub open spec fn linked(self, h: usize, i: int) -> bool {
        let c = self.chains[h];
        let x = c[i];
        let n = self.node(x);
        &&& self.live(x)
        &&& self.places.dom().contains(x)
        &&& self.places[x] == (h, i)
        &&& n.handle == x
        &&& n.parent == Some(if i == 0 { c.last() } else { c[i - 1] })
        &&& n.child == (if i + 1 < c.len() { Some(c[i + 1]) } else { None })
        &&& n._ref <= 1
        &&& x == ROOT ==> n._ref == 1 && !n.coroutine()
        &&& x != ROOT && (h == ROOT || i > 0) ==> n._ref == 0
        &&& x != ROOT && (n._ref == 0 || i > 0) ==> n.para is Some && n.ret is Some
    }

    /// The place recorded for `x` is where `x` stands.
    pub open spec fn placed(self, x: usize) -> bool {
        let (h, i) = self.places[x];
        &&& self.places.dom().contains(x)
        &&& self.heads(h)
        &&& 0 <= i < self.chains[h].len()
        &&& self.chains[h][i] == x
    }

    /// The invariant of a thread's tree: the root heads a chain, every chain
    /// starts with its head, every stored context stands at exactly one
    /// place, and the links of the contexts follow the chains.
    pub open spec fn wf(self) -> bool {
        &&& self.heads(ROOT)
        &&& forall|h: usize| #[trigger]
            self.heads(h) ==> self.chains[h].len() > 0 && self.chains[h][0] == h
        &&& forall|h: usize, i: int|
            self.heads(h) && 0 <= i < self.chains[h].len() ==> #[trigger] self.linked(h, i)
        &&& forall|x: usize| #[trigger] self.live(x) ==> self.placed(x)
    }

    /// Whether no holder of any stored context holds a value of another
    /// kind than the holder was declared for.
    pub open spec fn typed(self) -> bool {
        forall|h: usize| #[trigger] self.live(h) ==> self.node(h).typed()
    }

    /// This tree with `c` stored under `h`.
    pub open spec fn with_node(self, h: usize, c: Context) -> Tree {
        Tree { nodes: self.nodes.update(h as int, Some(c)), ..self }
    }

    /// This tree after the chain headed by `h` was linked below the running
    /// context: the last context of that chain becomes the running one.
    pub open spec fn push(self, h: usize) -> Tree {
        let a = self.chains[ROOT];
        let b = self.chains[h];
        let top = a.last();
        let t1 = self.with_node(top, Context { child: Some(h), ..self.node(top) });
        let t2 = t1.with_node(h, Context { parent: Some(top), ..t1.node(h) });
        let t3 = t2.with_node(ROOT, Context { parent: Some(b.last()), ..t2.node(ROOT) });
        Tree {
            nodes: t3.nodes,
            chains: self.chains.remove(h).insert(ROOT, a + b),
            places: Map::new(
                |x: usize| self.places.dom().contains(x),
                |x: usize|
                    if self.places[x].0 == h {
                        (ROOT, self.places[x].1 + a.len())
                    } else {
                        self.places[x]
                    },
            ),
        }
    }

    /// This tree after the entered chain was cut before position `i`: the
    /// context at `i` heads a detached chain of its own, and the context
    /// before it becomes the running one.
    pub open spec fn pop(self, i: int) -> Tree {
        let a = self.chains[ROOT];
        let c = a[i];
        let p = a[i - 1];
        let t1 = self.with_node(c, Context { parent: Some(a.last()), ..self.node(c) });
        let t2 = t1.with_node(p, Context { child: None, ..t1.node(p) });
        let t3 = t2.with_node(ROOT, Context { parent: Some(p), ..t2.node(ROOT) });
        Tree {
            nodes: t3.nodes,
            chains: self.chains.insert(ROOT, a.take(i)).insert(c, a.skip(i)),
            places: Map::new(
                |x: usize| self.places.dom().contains(x),
                |x: usize|
                    if self.places[x].0 == ROOT && self.places[x].1 >= i {
                        (c, self.places[x].1 - i)
                    } else {
                        self.places[x]
                    },
            ),
        }
    }

    /// The tree of a thread that has entered nothing: the root alone, running.
    pub open spec fn init() -> Tree {
        Tree {
            nodes: seq![Some(Context { handle: ROOT, parent: Some(ROOT), ..Context::fresh() })],
            chains: map![ROOT => seq![ROOT]],
            places: map![ROOT => (ROOT, 0int)],
        }
    }

    /// The least index from `from` on under which nothing is stored, or the
    /// length of the arena where there is none.
    pub open spec fn vacancy_from(self, from: int) -> int
        decreases self.nodes.len() - from,
    {
        if from < 0 || from >= self.nodes.len() {
            self.nodes.len() as int
        } else if self.nodes[from] is None {
            from
        } else {
            self.vacancy_from(from + 1)
        }
    }

    /// The handle that the next context gets: the least one that is free.
    pub open spec fn vacancy(self) -> int {
        self.vacancy_from(0)
    }

    /// The record that is stored when `c` is brought in under `h`: suspended,
    /// linked to itself alone, with the slots, the local storage, the failure
    /// and the guard that `c` came with.
    pub open spec fn adopted(c: Context, h: usize) -> Context {
        Context { handle: h, parent: Some(h), child: None, _ref: 1, ..c }
    }

    /// This tree after `c` was brought in: it stands under the free handle,
    /// detached, in a chain of its own.
    pub open spec fn spawned(self, c: Context) -> Tree {
        let h = self.vacancy() as usize;
        let stored = Some(Tree::adopted(c, h));
        Tree {
            nodes: if h < self.nodes.len() {
                self.nodes.update(h as int, stored)
            } else {
                self.nodes.push(stored)
            },
            chains: self.chains.insert(h, seq![h]),
            places: self.places.insert(h, (h, 0int)),
        }
    }

    /// This tree after the suspended context `h` was entered: it is marked as
    /// entered and its chain is linked below the running context.
    pub open spec fn resumed(self, h: usize) -> Tree {
        let n = self.node(h);
        self.with_node(h, Context { _ref: (n._ref - 1) as usize, ..n }).push(h)
    }

    /// This tree after the holder `para` was attached to the suspended
    /// context `h` and `h` was entered.
    pub open spec fn sent(self, h: usize, para: Slot) -> Tree {
        self.with_node(h, Context { para: Some(para), ..self.node(h) }).resumed(h)
    }

    /// This tree after the entered context at position `i` was suspended
    /// with `v` in its outbound holder.
    pub open spec fn suspended_at(self, i: int, v: Value) -> Tree {
        let c = self.chain()[i];
        let t1 = self.pop(i);
        let n = t1.node(c);
        t1.with_node(c, Context { _ref: (n._ref + 1) as usize, ..n.ret_put(v) })
    }

    /// Whether the running context is a generator whose outbound holder was
    /// declared for the kind of `v`.
    pub open spec fn yields(self, v: Value) -> bool {
        self.top() != ROOT && self.node(self.top()).ret.unwrap().ty == v.tag()
    }

    /// This tree after the running context yielded `v`.
    pub open spec fn yielded(self, v: Value) -> Tree {
        self.suspended_at(self.chain().len() - 1, v)
    }

    /// The coroutine nearest to the running end among the first `n` entered
    /// contexts, the root left aside.
    pub open spec fn nearest(self, n: int) -> Option<usize>
        decreases n,
    {
        if n <= 1 {
            None
        } else if self.node(self.chain()[n - 1]).coroutine() {
            Some(self.chain()[n - 1])
        } else {
            self.nearest(n - 1)
        }
    }

    /// The innermost coroutine that encloses the running point, if any.
    pub open spec fn coroutine(self) -> Option<usize> {
        self.nearest(self.chain().len() as int)
    }

    /// The local storage of the innermost enclosing coroutine, or zero.
    pub open spec fn local_data(self) -> usize {
        match self.coroutine() {
            Some(c) => self.node(c).local_data,
            None => 0,
        }
    }

    /// This tree after the innermost enclosing coroutine yielded `v`,
    /// taking along whatever is entered below it.
    pub open spec fn co_yielded(self, v: Value) -> Tree {
        self.suspended_at(self.places[self.coroutine().unwrap()].1, v)
    }

    /// This tree after the body of the running context returned.
    pub open spec fn finished(self) -> Tree {
        self.pop(self.chain().len() - 1)
    }

    /// Whether `h` is detached: suspended, or finished.
    pub open spec fn detached(self, h: usize) -> bool {
        self.suspended(h) || self.done(h)
    }

    /// What the resumer of `h` finds once control is back: the failure that
    /// the body was left with, or else the value that it yielded.
    pub open spec fn outcome(self, h: usize) -> Result<Option<Value>, Error> {
        let n = self.node(h);
        match n.err {
            Some(e) => Err(e),
            None => Ok(
                match n.ret {
                    Some(s) => s.value,
                    None => None,
                },
            ),
        }
    }

    /// This tree after the resumer of `h` took what it found: the failure
    /// is cleared, or else the outbound holder is emptied.
    pub open spec fn collected(self, h: usize) -> Tree {
        let n = self.node(h);
        match n.err {
            Some(e) => self.with_node(h, Context { err: None, ..n }),
            None => match n.ret {
                Some(s) => self.with_node(h, Context { ret: Some(s.emptied()), ..n }),
                None => self,
            },
        }
    }

    /// What the running context gets when it asks for the value that was
    /// sent into it, expecting the kind `expected`: the value, if any, where
    /// its inbound holder was declared for that kind.
    pub open spec fn inbound(self, expected: ValueType) -> Result<Option<Value>, Error> {
        if self.top() == ROOT {
            Err(Error::ContextErr)
        } else if self.node(self.top()).para.unwrap().ty != expected {
            Err(Error::TypeErr)
        } else {
            Ok(self.node(self.top()).para.unwrap().value)
        }
    }

    /// This tree after the running context asked for the value that was
    /// sent into it: where it got an answer, the inbound holder is empty.
    pub open spec fn received(self, expected: ValueType) -> Tree {
        if self.inbound(expected) is Ok {
            self.with_node(self.top(), self.node(self.top()).para_taken())
        } else {
            self
        }
    }

    /// This tree after the innermost enclosing coroutine took what its
    /// inbound holder held.
    pub open spec fn co_received(self) -> Tree {
        let c = self.coroutine().unwrap();
        self.with_node(c, self.node(c).para_taken())
    }

    /// Whether `h` is a suspended context with an inbound holder.
    pub open spec fn accepts(self, h: usize) -> bool {
        self.suspended(h) && self.node(h).para is Some
    }

    /// This tree after `v` was put into the inbound holder of `h`.
    pub open spec fn supplied(self, h: usize, v: Value) -> Tree {
        self.with_node(h, self.node(h).para_put(v))
    }

    /// Whether a failure of the running context can be recorded: it is a
    /// generator and holds no failure yet.
    pub open spec fn captures(self) -> bool {
        self.top() != ROOT && self.node(self.top()).err is None
    }

    /// This tree after the running context was left with the failure `e`.
    pub open spec fn failed(self, e: Error) -> Tree {
        self.with_node(self.top(), Context { err: Some(e), ..self.node(self.top()) })
    }

    /// This tree after the finished context `h` was taken out.
    pub open spec fn released(self, h: usize) -> Tree {
        Tree {
            nodes: self.nodes.update(h as int, None),
            chains: self.chains.remove(h),
            places: self.places.remove(h),
        }
    }
}

impl Tree {
    /// In a well-formed tree the context at a position of a chain is linked as
    /// the chain says.
    pub proof fn lemma_member(t: Tree, h: usize, i: int)
        requires
            t.wf(),
            t.heads(h),
            0 <= i < t.chains[h].len(),
        ensures
            t.linked(h, i),
    {
    }

    /// In a well-formed tree a stored context stands in the chain and at the
    /// position that its place records.
    pub proof fn lemma_place(t: Tree, x: usize)
        requires
            t.wf(),
            t.live(x),
        ensures
            t.placed(x),
            t.linked(t.places[x].0, t.places[x].1),
    {
        Tree::lemma_member(t, t.places[x].0, t.places[x].1);
    }

    /// Linking the chain of a detached head below the running context keeps the
    /// tree well formed, provided the head is marked as entered.
    pub proof fn lemma_push_wf(t: Tree, h: usize)
        requires
            t.wf(),
            h != ROOT,
            t.heads(h),
            t.node(h)._ref == 0,
        ensures
            t.push(h).wf(),
            t.push(h).nodes.len() == t.nodes.len(),
            t.push(h).chain() == t.chain() + t.chains[h],
    {
        let a = t.chains[ROOT];
        let b = t.chains[h];
        let t2 = t.push(h);
        Tree::lemma_member(t, ROOT, 0);
        Tree::lemma_member(t, ROOT, a.len() - 1);
        Tree::lemma_member(t, h, 0);
        Tree::lemma_member(t, h, b.len() - 1);
        assert forall|k: usize| #[trigger] t2.heads(k) implies t2.chains[k].len() > 0
            && t2.chains[k][0] == k by {
            if k != ROOT {
                assert(t.heads(k));
            }
        }
        assert forall|k: usize, i: int| t2.heads(k) && 0 <= i < t2.chains[k].len() implies #[trigger]
            t2.linked(k, i) by {
            if k == ROOT {
                if i < a.len() {
                    Tree::lemma_member(t, ROOT, i);
                } else {
                    Tree::lemma_member(t, h, i - a.len());
                }
            } else {
                Tree::lemma_member(t, k, i);
            }
        }
        assert forall|x: usize| #[trigger] t2.live(x) implies t2.placed(x) by {
            Tree::lemma_place(t, x);
        }
    }

    /// Cutting the entered chain before one of its positions, other than the
    /// root's, keeps the tree well formed.
    pub proof fn lemma_pop_wf(t: Tree, i: int)
        requires
            t.wf(),
            1 <= i < t.chain().len(),
        ensures
            t.pop(i).wf(),
            t.pop(i).nodes.len() == t.nodes.len(),
            t.pop(i).chain() == t.chain().take(i),
            t.pop(i).chains[t.chain()[i]] == t.chain().skip(i),
            t.pop(i).heads(t.chain()[i]),
            t.pop(i).live(t.chain()[i]),
            t.pop(i).node(t.chain()[i]) == (Context {
                parent: Some(t.top()),
                ..t.node(t.chain()[i])
            }),
            t.node(t.chain()[i])._ref == 0,
            t.chain()[i] != ROOT,
    {
        let a = t.chains[ROOT];
        let c = a[i];
        let t2 = t.pop(i);
        Tree::lemma_member(t, ROOT, 0);
        Tree::lemma_member(t, ROOT, i);
        Tree::lemma_member(t, ROOT, i - 1);
        Tree::lemma_member(t, ROOT, a.len() - 1);
        assert(!t.heads(c)) by {
            if t.heads(c) {
                Tree::lemma_member(t, c, 0);
            }
        }
        assert forall|k: usize| #[trigger] t2.heads(k) implies t2.chains[k].len() > 0
            && t2.chains[k][0] == k by {
            if k != ROOT && k != c {
                assert(t.heads(k));
            }
        }
        assert forall|k: usize, j: int| t2.heads(k) && 0 <= j < t2.chains[k].len() implies #[trigger]
            t2.linked(k, j) by {
            if k == ROOT {
                Tree::lemma_member(t, ROOT, j);
            } else if k == c {
                Tree::lemma_member(t, ROOT, j + i);
            } else {
                Tree::lemma_member(t, k, j);
            }
        }
        assert forall|x: usize| #[trigger] t2.live(x) implies t2.placed(x) by {
            Tree::lemma_place(t, x);
        }
    }

    /// The tree of a thread that has entered nothing is well formed.
    pub proof fn lemma_init_wf()
        ensures
            Tree::init().wf(),
            Tree::init().chain() == seq![ROOT],
    {
        let t = Tree::init();
        assert forall|h: usize, i: int| t.heads(h) && 0 <= i < t.chains[h].len() implies #[trigger]
            t.linked(h, i) by {
        }
        assert forall|x: usize| #[trigger] t.live(x) implies t.placed(x) by {
        }
    }

    /// Storing another record under a handle keeps the tree well formed where
    /// the record keeps the handle and the links, and its run state is one that
    /// its place allows.
    pub proof fn lemma_with_node_wf(t: Tree, h: usize, c: Context)
        requires
            t.wf(),
            t.live(h),
            c.handle == t.node(h).handle,
            c.parent == t.node(h).parent,
            c.child == t.node(h).child,
            c._ref <= 1,
            h == ROOT ==> c._ref == 1 && !c.coroutine(),
            h != ROOT && (t.places[h].0 == ROOT || t.places[h].1 > 0) ==> c._ref == 0,
            h != ROOT && (c._ref == 0 || t.places[h].1 > 0) ==> c.para is Some && c.ret is Some,
        ensures
            t.with_node(h, c).wf(),
    {
        let t2 = t.with_node(h, c);
        Tree::lemma_place(t, h);
        assert forall|k: usize| #[trigger] t2.heads(k) implies t2.chains[k].len() > 0
            && t2.chains[k][0] == k by {
            assert(t.heads(k));
        }
        assert forall|k: usize, i: int| t2.heads(k) && 0 <= i < t2.chains[k].len() implies #[trigger]
            t2.linked(k, i) by {
            Tree::lemma_member(t, k, i);
        }
        assert forall|x: usize| #[trigger] t2.live(x) implies t2.placed(x) by {
            assert(t.live(x));
        }
    }

    /// Storing another record under a handle keeps the tree well formed
    /// where the record keeps the handle, the links and the run state.
    pub proof fn lemma_payload_wf(t: Tree, h: usize, c: Context)
        requires
            t.wf(),
            t.live(h),
            c.handle == t.node(h).handle,
            c.parent == t.node(h).parent,
            c.child == t.node(h).child,
            c._ref == t.node(h)._ref,
            c.local_data == t.node(h).local_data,
            t.node(h).para is Some ==> c.para is Some,
            t.node(h).ret is Some ==> c.ret is Some,
        ensures
            t.with_node(h, c).wf(),
            t.with_node(h, c).chain() == t.chain(),
    {
        Tree::lemma_place(t, h);
        Tree::lemma_with_node_wf(t, h, c);
    }

    /// Where the free handle lies: at or after `from`, at most at the end of
    /// the arena, with nothing stored under it and something under every handle
    /// between `from` and it.
    pub proof fn lemma_vacancy_from(t: Tree, from: int)
        requires
            0 <= from <= t.nodes.len(),
        ensures
            from <= t.vacancy_from(from) <= t.nodes.len(),
            t.vacancy_from(from) < t.nodes.len() ==> t.nodes[t.vacancy_from(from)] is None,
            forall|j: int| from <= j < t.vacancy_from(from) ==> (#[trigger] t.nodes[j]) is Some,
        decreases t.nodes.len() - from,
    {
        if from < t.nodes.len() && t.nodes[from] is Some {
            Tree::lemma_vacancy_from(t, from + 1);
        }
    }

    /// A context that was brought in stands detached in a well-formed tree,
    /// under a handle that was free and is not the root's.
    pub proof fn lemma_spawned_wf(t: Tree, c: Context)
        requires
            t.wf(),
            t.nodes.len() <= usize::MAX,
        ensures
            t.spawned(c).wf(),
            0 < t.vacancy() <= t.nodes.len(),
            !t.live(t.vacancy() as usize),
            t.spawned(c).suspended(t.vacancy() as usize),
            t.spawned(c).chain() == t.chain(),
    {
        Tree::lemma_vacancy_from(t, 0);
        let h = t.vacancy() as usize;
        let t2 = t.spawned(c);
        Tree::lemma_member(t, ROOT, 0);
        assert(!t.heads(h)) by {
            if t.heads(h) {
                Tree::lemma_member(t, h, 0);
            }
        }
        assert forall|k: usize| #[trigger] t2.heads(k) implies t2.chains[k].len() > 0
            && t2.chains[k][0] == k by {
            if k != h {
                assert(t.heads(k));
            }
        }
        assert forall|k: usize, i: int| t2.heads(k) && 0 <= i < t2.chains[k].len() implies #[trigger]
            t2.linked(k, i) by {
            if k != h {
                Tree::lemma_member(t, k, i);
            }
        }
        assert forall|x: usize| #[trigger] t2.live(x) implies t2.placed(x) by {
            if x != h {
                Tree::lemma_place(t, x);
            }
        }
    }

    /// A suspended context heads a chain of its own.
    pub proof fn lemma_suspended_heads(t: Tree, h: usize)
        requires
            t.wf(),
            t.suspended(h),
        ensures
            t.heads(h),
            t.places[h] == (h, 0int),
            t.node(h)._ref == 1,
    {
        Tree::lemma_place(t, h);
        Tree::lemma_member(t, t.places[h].0, 0);
    }

    /// A finished context stands alone in a chain of its own.
    pub proof fn lemma_done_alone(t: Tree, h: usize)
        requires
            t.wf(),
            t.done(h),
        ensures
            t.heads(h),
            t.places[h] == (h, 0int),
            t.chains[h] == seq![h],
    {
        Tree::lemma_place(t, h);
        let (k, i) = t.places[h];
        Tree::lemma_member(t, k, 0);
        if i > 0 {
            Tree::lemma_member(t, k, i - 1);
        }
        Tree::lemma_member(t, k, t.chains[k].len() - 1);
    }

    /// Entering a suspended context keeps the tree well formed and appends its
    /// chain to the entered one.
    pub proof fn lemma_resumed_wf(t: Tree, h: usize)
        requires
            t.wf(),
            t.resumable(h),
        ensures
            t.resumed(h).wf(),
            t.resumed(h).chain() == t.chain() + t.chains[h],
            t.resumed(h).nodes.len() == t.nodes.len(),
    {
        Tree::lemma_suspended_heads(t, h);
        let n = t.node(h);
        let c = Context { _ref: (n._ref - 1) as usize, ..n };
        Tree::lemma_with_node_wf(t, h, c);
        Tree::lemma_push_wf(t.with_node(h, c), h);
    }

    /// Attaching a holder to a suspended context and entering it keeps the tree
    /// well formed and appends its chain to the entered one.
    pub proof fn lemma_sent_wf(t: Tree, h: usize, para: Slot)
        requires
            t.wf(),
            t.sendable(h),
        ensures
            t.sent(h, para).wf(),
            t.sent(h, para).chain() == t.chain() + t.chains[h],
            t.sent(h, para).nodes.len() == t.nodes.len(),
    {
        Tree::lemma_suspended_heads(t, h);
        let c = Context { para: Some(para), ..t.node(h) };
        Tree::lemma_with_node_wf(t, h, c);
        Tree::lemma_resumed_wf(t.with_node(h, c), h);
    }

    /// Suspending an entered context, other than the root, keeps the tree well
    /// formed: the entered chain ends before it and it becomes suspended.
    pub proof fn lemma_suspended_at_wf(t: Tree, i: int, v: Value)
        requires
            t.wf(),
            1 <= i < t.chain().len(),
        ensures
            t.suspended_at(i, v).wf(),
            t.suspended_at(i, v).chain() == t.chain().take(i),
            t.suspended_at(i, v).chains[t.chain()[i]] == t.chain().skip(i),
            t.suspended_at(i, v).suspended(t.chain()[i]),
            t.suspended_at(i, v).nodes.len() == t.nodes.len(),
    {
        let c = t.chain()[i];
        Tree::lemma_pop_wf(t, i);
        let t1 = t.pop(i);
        Tree::lemma_member(t1, c, 0);
        let n = t1.node(c);
        Tree::lemma_with_node_wf(t1, c, Context { _ref: (n._ref + 1) as usize, ..n.ret_put(v) });
    }

    /// Whether the outbound value is stored before the chain is cut or
    /// after makes no difference to the tree that results.
    pub proof fn lemma_suspend_order(t: Tree, i: int, v: Value)
        requires
            t.wf(),
            1 <= i < t.chain().len(),
        ensures
            ({
                let c = t.chain()[i];
                let t2 = t.with_node(c, t.node(c).ret_put(v)).pop(i);
                t2.with_node(c, Context { _ref: (t2.node(c)._ref + 1) as usize, ..t2.node(c) })
            }) == t.suspended_at(i, v),
    {
        let c = t.chain()[i];
        let t2 = t.with_node(c, t.node(c).ret_put(v)).pop(i);
        let lhs = t2.with_node(c, Context { _ref: (t2.node(c)._ref + 1) as usize, ..t2.node(c) });
        Tree::lemma_member(t, ROOT, 0);
        Tree::lemma_member(t, ROOT, i);
        Tree::lemma_member(t, ROOT, i - 1);
        Tree::lemma_member(t, ROOT, t.chain().len() - 1);
        assert(lhs.nodes =~= t.suspended_at(i, v).nodes);
    }

    /// Once the body of the running context has returned, that context stands
    /// finished and alone, and the one that entered it is running.
    pub proof fn lemma_finished_wf(t: Tree)
        requires
            t.wf(),
            t.top() != ROOT,
        ensures
            t.finished().wf(),
            t.finished().chain() == t.chain().drop_last(),
            t.finished().done(t.top()),
            t.finished().nodes.len() == t.nodes.len(),
    {
        let i = t.chain().len() - 1;
        Tree::lemma_member(t, ROOT, 0);
        Tree::lemma_member(t, ROOT, i);
        Tree::lemma_pop_wf(t, i);
    }

    /// Taking a finished context out keeps the tree well formed and leaves the
    /// entered chain as it was.
    pub proof fn lemma_released_wf(t: Tree, h: usize)
        requires
            t.wf(),
            t.done(h),
        ensures
            t.released(h).wf(),
            t.released(h).chain() == t.chain(),
    {
        Tree::lemma_done_alone(t, h);
        let t2 = t.released(h);
        assert forall|k: usize| #[trigger] t2.heads(k) implies t2.chains[k].len() > 0
            && t2.chains[k][0] == k by {
            assert(t.heads(k));
        }
        assert forall|k: usize, i: int| t2.heads(k) && 0 <= i < t2.chains[k].len() implies #[trigger]
            t2.linked(k, i) by {
            Tree::lemma_member(t, k, i);
        }
        assert forall|x: usize| #[trigger] t2.live(x) implies t2.placed(x) by {
            Tree::lemma_place(t, x);
        }
    }

    /// What the walk from the running context towards the root finds: the
    /// entered coroutine after which no other coroutine is entered, or nothing
    /// where no coroutine is entered.
    pub proof fn lemma_nearest(t: Tree, n: int)
        requires
            t.wf(),
            0 <= n <= t.chain().len(),
        ensures
            match t.nearest(n) {
                Some(c) => {
                    &&& t.live(c)
                    &&& t.node(c).coroutine()
                    &&& t.places[c].0 == ROOT
                    &&& 1 <= t.places[c].1 < n
                    &&& t.chain()[t.places[c].1] == c
                    &&& forall|j: int| t.places[c].1 < j < n ==> !t.node(#[trigger] t.chain()[j]).coroutine()
                },
                None => forall|j: int| 1 <= j < n ==> !t.node(#[trigger] t.chain()[j]).coroutine(),
            },
        decreases n,
    {
        if n > 1 {
            Tree::lemma_member(t, ROOT, n - 1);
            if !t.node(t.chain()[n - 1]).coroutine() {
                Tree::lemma_nearest(t, n - 1);
            }
        }
    }
}

} // verus!
