//! The completion handler: what becomes of a coroutine once its body has returned.

use crate::context::Context;
use crate::error::Error;
use crate::runtime::ContextStack;
use crate::tree::{Tree, ROOT};
use vstd::prelude::*;

verus! {

/// What is to be done with the stack of a finished coroutine.
#[derive(Clone, Copy, Debug, PartialEq, Eq, Structural)]
pub enum Verdict {
    /// The stack was used up to its last byte, so its guard may be breached:
    /// the process cannot go on.
    Overflow,
    /// The stack has the default size: it goes back to the pool.
    Recycle,
    /// The stack has a size of its own: it is freed.
    Discard,
}

/// What the completion handler found and decided.
#[derive(Clone, Debug, PartialEq, Eq)]
pub struct Completion {
    /// What is to be done with the stack.
    pub verdict: Verdict,
    /// Whether the name, the capacity and the usage are to be reported.
    pub report: bool,
    /// The local storage that was attached to the coroutine.
    pub local_data: usize,
    /// What the body failed with, where the resumer has not seen it yet: it
    /// leaves the tree with the coroutine and is for the resumer to raise.
    pub failure: Option<Error>,
}

/// The handler of the event that a coroutine has finished.
pub struct Done;

impl Done {
    /// What is to be done with a stack of capacity `size` of which `used`
    /// bytes were used, where `default_size` is the size of the stacks that
    /// the pool keeps.
    pub open spec fn verdict(size: usize, used: usize, default_size: usize) -> Verdict {
        if used == size {
            Verdict::Overflow
        } else if size == default_size {
            Verdict::Recycle
        } else {
            Verdict::Discard
        }
    }

    /// Whether the usage is reported: the stack did not overflow, and the
    /// size `stack_size` that the coroutine was configured with is odd.
    pub open spec fn reports(size: usize, used: usize, stack_size: usize) -> bool {
        used != size && stack_size % 2 == 1
    }

    /// Whether `coroutine` is for the handler to settle: it has finished,
    /// and it is a coroutine, with local storage attached.
    pub open spec fn settles(tree: Tree, coroutine: usize) -> bool {
        tree.done(coroutine) && tree.node(coroutine).coroutine()
    }

    /// The tree once the handler is through with `coroutine`: it is taken
    /// out, unless its stack overflowed.
    pub open spec fn settled(tree: Tree, coroutine: usize, size: usize, used: usize) -> Tree {
        if Done::settles(tree, coroutine) && used != size {
            tree.released(coroutine)
        } else {
            tree
        }
    }

    /// The failure that the handler hands out: what the record of the
    /// coroutine holds when it is taken out of the tree. Where the stack
    /// has overflowed the record stays, and its failure with it.
    pub open spec fn failure(tree: Tree, coroutine: usize, size: usize, used: usize) -> Option<
        Error,
    > {
        if used == size {
            None
        } else {
            tree.node(coroutine).err
        }
    }

    /// What the handler answers for a coroutine that is for it to settle.
    pub open spec fn completion(
        tree: Tree,
        coroutine: usize,
        usage: (usize, usize),
        stack_size: usize,
        default_size: usize,
    ) -> Completion {
        Completion {
            verdict: Done::verdict(usage.0, usage.1, default_size),
            report: Done::reports(usage.0, usage.1, stack_size),
            local_data: tree.node(coroutine).local_data,
            failure: Done::failure(tree, coroutine, usage.0, usage.1),
        }
    }

    /// A failure of a body outlives the teardown: once the running
    /// coroutine was left with the failure `e`, its body has come to its
    /// end and the handler has settled it without an overflow, the
    /// coroutine is gone from the tree, and the handler has handed out `e`
    /// and no other error.
    pub proof fn failure_outlives_teardown(
        tree: Tree,
        e: Error,
        usage: (usize, usize),
        stack_size: usize,
        default_size: usize,
    )
        requires
            tree.wf(),
            tree.captures(),
            tree.node(tree.top()).coroutine(),
            usage.1 != usage.0,
        ensures
            Done::settles(tree.failed(e).finished(), tree.top()),
            Done::completion(
                tree.failed(e).finished(),
                tree.top(),
                usage,
                stack_size,
                default_size,
            ).failure == Some(e),
            Done::settled(tree.failed(e).finished(), tree.top(), usage.0, usage.1).wf(),
            !Done::settled(tree.failed(e).finished(), tree.top(), usage.0, usage.1).live(
                tree.top(),
            ),
    {
        let h = tree.top();
        Tree::failure_reaches_resumer(tree, e);
        Tree::lemma_member(tree, ROOT, 0);
        Tree::lemma_member(tree, ROOT, tree.chain().len() - 1);
        Tree::lemma_payload_wf(tree, h, Context { err: Some(e), ..tree.node(h) });
        Tree::lemma_pop_wf(tree.failed(e), tree.chain().len() - 1);
        Tree::lemma_released_wf(tree.failed(e).finished(), tree.top());
    }

    /// A failure that stays behind an overflow is not lost either: the
    /// record stays in the tree as it was, and the failure in it.
    pub proof fn failure_stays_behind_overflow(tree: Tree, coroutine: usize, size: usize)
        ensures
            Done::settled(tree, coroutine, size, size) == tree,
            Done::failure(tree, coroutine, size, size) is None,
    {
    }

    /// A coroutine that was settled without an overflow leaves its handle
    /// free: the handle names nothing any more, and the next context that
    /// is brought in gets that handle or a lower one.
    pub proof fn settled_handle_is_free(tree: Tree, coroutine: usize, size: usize, used: usize)
        requires
            tree.wf(),
            Done::settles(tree, coroutine),
            used != size,
        ensures
            Done::settled(tree, coroutine, size, used).wf(),
            !Done::settled(tree, coroutine, size, used).live(coroutine),
            Done::settled(tree, coroutine, size, used).vacancy() <= coroutine,
    {
        Tree::lemma_released_wf(tree, coroutine);
        Tree::lemma_vacancy_from(tree.released(coroutine), 0);
    }

    /// Settles the finished coroutine `coroutine`.
    ///
    /// `usage` is the capacity of its stack and how much of it was used at
    /// most, `stack_size` the size it was configured with, and `default_size`
    /// the configured default. A stack that was used up entirely has
    /// overflowed; then the coroutine stays where it is. Otherwise the
    /// coroutine is taken out of the tree, and its stack is recycled if it
    /// has the default size and discarded if not. What its body failed with
    /// is not dropped with the record: it comes out in the answer. A handle
    /// that names no finished coroutine is refused, and nothing changes.
    pub fn drop_coroutine(
        env: &mut ContextStack,
        coroutine: usize,
        usage: (usize, usize),
        stack_size: usize,
        default_size: usize,
    ) -> (r: Result<Completion, Error>)
        requires
            old(env)@.wf(),
        ensures
            final(env)@.wf(),
            final(env)@ == Done::settled(old(env)@, coroutine, usage.0, usage.1),
            Done::settles(old(env)@, coroutine) ==> r == Ok::<Completion, Error>(
                Done::completion(old(env)@, coroutine, usage, stack_size, default_size),
            ),
            !Done::settles(old(env)@, coroutine) ==> r == Err::<Completion, Error>(
                Error::ContextErr,
            ),
    {
        let (size, used) = usage;
        let local_data = match env.context(coroutine) {
            Some(c) => c.local_data,
            None => 0,
        };
        if !env.is_done(coroutine) || local_data == 0 {
            return Err(Error::ContextErr);
        }
        if used == size {
            return Ok(
                Completion { verdict: Verdict::Overflow, report: false, local_data, failure: None },
            );
        }
        let report = stack_size & 1 == 1;
        assert(stack_size & 1 == 1 <==> stack_size % 2 == 1) by (bit_vector);
        let verdict = if size == default_size {
            Verdict::Recycle
        } else {
            Verdict::Discard
        };
        match env.release(coroutine) {
            Ok(c) => Ok(Completion { verdict, report, local_data, failure: c.err }),
            Err(e) => Err(e),
        }
    }

    /// Receives the event that `coroutine` has finished, and settles it as
    /// [`Done::drop_coroutine`] does.
    pub fn subscribe(
        &mut self,
        env: &mut ContextStack,
        coroutine: usize,
        usage: (usize, usize),
        stack_size: usize,
        default_size: usize,
    ) -> (r: Result<Completion, Error>)
        requires
            old(env)@.wf(),
        ensures
            final(env)@.wf(),
            final(env)@ == Done::settled(old(env)@, coroutine, usage.0, usage.1),
            Done::settles(old(env)@, coroutine) ==> r == Ok::<Completion, Error>(
                Done::completion(old(env)@, coroutine, usage, stack_size, default_size),
            ),
            !Done::settles(old(env)@, coroutine) ==> r == Err::<Completion, Error>(
                Error::ContextErr,
            ),
    {
        Done::drop_coroutine(env, coroutine, usage, stack_size, default_size)
    }
}

} // verus!
