//! What the optimizer makes of a tree, as a mathematical function.

use vstd::prelude::*;

use crate::tree::{size, total_size, Tree};

verus! {

/// A pointer move or a value delta of zero is erased; any other tree stays.
pub open spec fn nonzero(t: Tree) -> Option<Tree> {
    if t == Tree::MovePointer(0) || t == Tree::AddValue(0) {
        None
    } else {
        Some(t)
    }
}

/// What becomes of the node held back when `next` arrives behind it.
///
/// `Some(pending)` says that `next` was taken in, and `pending` is held back
/// from then on (nothing, where two deltas cancelled). `None` says that the
/// two stay apart.
pub open spec fn absorbed(held: Tree, next: Tree) -> Option<Option<Tree>> {
    if next == Tree::AddValue(0) || next == Tree::MovePointer(0) {
        Some(Some(held))
    } else {
        match (held, next) {
            (Tree::SetValue(a), Tree::AddValue(b)) => Some(
                Some(Tree::SetValue(a.wrapping_add(b))),
            ),
            (Tree::SetValue(_), Tree::SetValue(v)) => Some(Some(Tree::SetValue(v))),
            (Tree::AddValue(a), Tree::AddValue(b)) => Some(
                nonzero(Tree::AddValue(a.wrapping_add(b))),
            ),
            (Tree::MovePointer(a), Tree::MovePointer(b)) => Some(
                nonzero(Tree::MovePointer(a.wrapping_add(b))),
            ),
            _ => None,
        }
    }
}

/// The nodes that an optional tree contributes to a sequence.
pub open spec fn emitted(t: Option<Tree>) -> Seq<Tree> {
    match t {
        Some(t) => seq![t],
        None => Seq::empty(),
    }
}

/// The size of the node held back, if there is one.
pub open spec fn weight(held: Option<Tree>) -> nat {
    match held {
        Some(t) => size(t),
        None => 0,
    }
}

/// The offset of the target where `body` is the four-node transfer loop:
/// decrement, move to the target, increment, move back.
pub open spec fn single_transfer(body: Seq<Tree>) -> Option<i32> {
    if body.len() == 4 && body[0] == Tree::AddValue(255) && body[1] is MovePointer && body[2]
        == Tree::AddValue(1) && body[3] is MovePointer && body[1]->MovePointer_0.wrapping_add(
        body[3]->MovePointer_0,
    ) == 0 {
        Some(body[1]->MovePointer_0)
    } else {
        None
    }
}

/// The offsets of the two targets where `body` is the six-node transfer
/// loop: decrement, move to the first target, increment, move to the second
/// target, increment, move back.
pub open spec fn double_transfer(body: Seq<Tree>) -> Option<(i32, i32)> {
    if body.len() == 6 && body[0] == Tree::AddValue(255) && body[1] is MovePointer && body[2]
        == Tree::AddValue(1) && body[3] is MovePointer && body[4] == Tree::AddValue(1)
        && body[5] is MovePointer && body[1]->MovePointer_0.wrapping_add(
        body[3]->MovePointer_0,
    ).wrapping_add(body[5]->MovePointer_0) == 0 {
        Some((body[1]->MovePointer_0, body[1]->MovePointer_0.wrapping_add(body[3]->MovePointer_0)))
    } else {
        None
    }
}

/// The loop around an optimized `body`, or the cheaper tree that stands for
/// it where the body is a known idiom.
pub open spec fn recognized(body: Tree) -> Tree {
    match body {
        Tree::AddValue(d) => if d == 1 || d == 255 {
            Tree::SetValue(0)
        } else {
            Tree::Jump(Box::new(body))
        },
        Tree::List(v) => if let Some(a) = single_transfer(v) {
            Tree::List(seq![Tree::AddTo(a), Tree::SetValue(0)])
        } else if let Some((a, b)) = double_transfer(v) {
            Tree::List(seq![Tree::AddTo(a), Tree::AddTo(b), Tree::SetValue(0)])
        } else {
            Tree::Jump(Box::new(body))
        },
        _ => Tree::Jump(Box::new(body)),
    }
}

/// What a list of `out` nodes shrinks to: nothing if it is empty, its only
/// node if there is one, else the list itself.
pub open spec fn wrapped(out: Seq<Tree>) -> Option<Tree> {
    if out.len() == 0 {
        None
    } else if out.len() == 1 {
        Some(out[0])
    } else {
        Some(Tree::List(out))
    }
}

/// The sequence with every node that is a list replaced by that list's
/// children.
pub open spec fn flattened(ts: Seq<Tree>) -> Seq<Tree>
    decreases ts.len(),
{
    if ts.len() == 0 {
        Seq::empty()
    } else {
        let head = match ts.first() {
            Tree::List(v) => v,
            t => seq![t],
        };
        head + flattened(ts.drop_first())
    }
}

/// The optimized form of `t`, or `None` where `t` contributes nothing.
pub open spec fn optimized(t: Tree) -> Option<Tree>
    decreases size(t), 0nat, 0nat,
{
    match t {
        Tree::List(ts) => wrapped(flattened(folded(None, ts))),
        Tree::Jump(b) => match optimized(*b) {
            Some(body) => Some(recognized(body)),
            None => None,
        },
        _ => nonzero(t),
    }
}

/// One pass over `rest` from left to right with one node held back: a node
/// that the held one absorbs changes it, any other node releases the held
/// one, optimized, and is held back in its place.
pub open spec fn folded(held: Option<Tree>, rest: Seq<Tree>) -> Seq<Tree>
    decreases weight(held) + total_size(rest), 1nat, rest.len(),
{
    if rest.len() == 0 {
        match held {
            Some(h) => emitted(optimized(h)),
            None => Seq::empty(),
        }
    } else {
        let next = rest.first();
        let tail = rest.drop_first();
        match held {
            None => folded(Some(next), tail),
            Some(h) => match absorbed(h, next) {
                Some(pending) => folded(pending, tail),
                None => emitted(optimized(h)) + folded(Some(next), tail),
            },
        }
    }
}

/// The optimized form of a sequence of siblings: folded, then flattened.
pub open spec fn optimized_seq(ts: Seq<Tree>) -> Seq<Tree> {
    flattened(folded(None, ts))
}

/// Two passes of the optimizer, the second over what the first left.
pub open spec fn optimized_twice(t: Tree) -> Option<Tree> {
    match optimized(t) {
        Some(once) => optimized(once),
        None => None,
    }
}

} // verus!
