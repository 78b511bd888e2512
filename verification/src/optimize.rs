//! The peephole optimizer.

use vstd::prelude::*;

use crate::rewrite::{
    double_transfer, flattened, folded, optimized, optimized_seq, optimized_twice,
    single_transfer, weight,
};
use crate::tree::{lemma_list_model, option_model, size, total_size, views, OptimizedCommand, Tree};

verus! {

/// The sum of two adjacent deltas of one kind, as a single node.
pub open spec fn paired(first: Tree, second: Tree) -> Option<Tree> {
    match (first, second) {
        (Tree::AddValue(a), Tree::AddValue(b)) => Some(Tree::AddValue(a.wrapping_add(b))),
        (Tree::MovePointer(a), Tree::MovePointer(b)) => Some(
            Tree::MovePointer(a.wrapping_add(b)),
        ),
        _ => None,
    }
}

/// The target of the four-node transfer loop that `body` is, if it is one.
fn single_target(body: &Vec<OptimizedCommand>) -> (target: Option<i32>)
    ensures
        target == single_transfer(views(body@)),
{
    if body.len() != 4 {
        return None;
    }
    match (&body[0], &body[1], &body[2], &body[3]) {
        (
            OptimizedCommand::AddValue(255),
            OptimizedCommand::MovePointer(a),
            OptimizedCommand::AddValue(1),
            OptimizedCommand::MovePointer(b),
        ) => {
            if a.wrapping_add(*b) == 0 {
                Some(*a)
            } else {
                None
            }
        },
        _ => None,
    }
}

/// The two targets of the six-node transfer loop that `body` is, if it is
/// one.
fn double_target(body: &Vec<OptimizedCommand>) -> (targets: Option<(i32, i32)>)
    ensures
        targets == double_transfer(views(body@)),
{
    if body.len() != 6 {
        return None;
    }
    match (&body[0], &body[1], &body[2], &body[3], &body[4], &body[5]) {
        (
            OptimizedCommand::AddValue(255),
            OptimizedCommand::MovePointer(a),
            OptimizedCommand::AddValue(1),
            OptimizedCommand::MovePointer(b),
            OptimizedCommand::AddValue(1),
            OptimizedCommand::MovePointer(s),
        ) => {
            if a.wrapping_add(*b).wrapping_add(*s) == 0 {
                Some((*a, a.wrapping_add(*b)))
            } else {
                None
            }
        },
        _ => None,
    }
}

impl OptimizedCommand {
    /// Rewrites the tree into a cheaper one that runs alike, or returns
    /// `None` where the tree contributes nothing to its parent.
    pub fn optimize(self) -> (result: Option<OptimizedCommand>)
        ensures
            option_model(result) == optimized(self@),
        decreases size(self@), 0nat, 0nat,
    {
        match self {
            OptimizedCommand::MovePointer(0) => None,
            OptimizedCommand::AddValue(0) => None,
            OptimizedCommand::List(v) => {
                proof {
                    lemma_list_model(v);
                }
                let mut commands = OptimizedCommand::optimize_vec(v);
                if commands.len() == 0 {
                    None
                } else if commands.len() == 1 {
                    commands.pop()
                } else {
                    proof {
                        lemma_list_model(commands);
                    }
                    Some(OptimizedCommand::List(commands))
                }
            },
            OptimizedCommand::Jump(c) => OptimizedCommand::optimize_jump(*c),
            other => Some(other),
        }
    }

    /// Runs the optimizer twice, the second pass over what the first left:
    /// a loop that the first pass turned into an assignment is folded into
    /// its neighbours by the second.
    pub fn optimize_twice(self) -> (result: Option<OptimizedCommand>)
        ensures
            option_model(result) == optimized_twice(self@),
    {
        match self.optimize() {
            Some(once) => once.optimize(),
            None => None,
        }
    }

    /// Optimizes a sequence of siblings: adjacent deltas, moves and
    /// assignments are folded, every other node is optimized on its own, and
    /// lists among the results are spliced in.
    pub fn optimize_vec(v: Vec<OptimizedCommand>) -> (out: Vec<OptimizedCommand>)
        ensures
            views(out@) == optimized_seq(views(v@)),
        decreases total_size(views(v@)), 2nat, 0nat,
    {
        let ghost src = v@;
        let ghost all = views(src);
        let mut out: Vec<OptimizedCommand> = Vec::new();
        let mut holding: Option<OptimizedCommand> = None;
        assert(src.skip(0) =~= src);
        for command in it: v
            invariant
                it.seq() == src,
                all == views(src),
                folded(None, all) == views(out@) + folded(
                    option_model(holding),
                    views(src.skip(it.index())),
                ),
                weight(option_model(holding)) + total_size(views(src.skip(it.index())))
                    <= total_size(all),
        {
            let ghost rest = views(src.skip(it.index()));
            assert(rest.drop_first() =~= views(src.skip(it.index() + 1)));
            holding = match (holding, command) {
                (None, command) => Some(command),
                (held, OptimizedCommand::AddValue(0)) => held,
                (held, OptimizedCommand::MovePointer(0)) => held,
                (Some(OptimizedCommand::SetValue(a)), OptimizedCommand::AddValue(b)) => {
                    Some(OptimizedCommand::SetValue(a.wrapping_add(b)))
                },
                (Some(OptimizedCommand::SetValue(_)), OptimizedCommand::SetValue(v)) => {
                    Some(OptimizedCommand::SetValue(v))
                },
                (Some(OptimizedCommand::AddValue(a)), OptimizedCommand::AddValue(b)) => {
                    OptimizedCommand::AddValue(a.wrapping_add(b)).optimize()
                },
                (Some(OptimizedCommand::MovePointer(a)), OptimizedCommand::MovePointer(b)) => {
                    OptimizedCommand::MovePointer(a.wrapping_add(b)).optimize()
                },
                (Some(old), command) => {
                    if let Some(optimized) = old.optimize() {
                        out.push(optimized);
                    }
                    Some(command)
                },
            };
        }
        if let Some(command) = holding {
            if let Some(command) = command.optimize() {
                out.push(command);
            }
        }
        assert(views(out@) =~= folded(None, all));
        let ghost pieces = out@;
        let mut compacted: Vec<OptimizedCommand> = Vec::new();
        assert(pieces.skip(0) =~= pieces);
        for command in it: out
            invariant
                it.seq() == pieces,
                flattened(views(pieces)) == views(compacted@) + flattened(
                    views(pieces.skip(it.index())),
                ),
        {
            let ghost rest = views(pieces.skip(it.index()));
            assert(rest.drop_first() =~= views(pieces.skip(it.index() + 1)));
            if let OptimizedCommand::List(mut v) = command {
                proof {
                    lemma_list_model(v);
                }
                compacted.append(&mut v);
            } else {
                compacted.push(command);
            }
        }
        compacted
    }

    /// Optimizes the loop around `inner`: the body first, then the loop as a
    /// whole where the optimized body is a known idiom.
    pub fn optimize_jump(inner: OptimizedCommand) -> (result: Option<OptimizedCommand>)
        ensures
            option_model(result) == optimized(Tree::Jump(Box::new(inner@))),
        decreases size(inner@), 1nat, 0nat,
    {
        if let Some(inner) = inner.optimize() {
            match inner {
                OptimizedCommand::AddValue(1) => Some(OptimizedCommand::SetValue(0)),
                OptimizedCommand::AddValue(255) => Some(OptimizedCommand::SetValue(0)),
                OptimizedCommand::List(v) => {
                    proof {
                        lemma_list_model(v);
                    }
                    if let Some(a) = single_target(&v) {
                        let rewritten = vec![
                            OptimizedCommand::AddTo(a),
                            OptimizedCommand::SetValue(0),
                        ];
                        proof {
                            lemma_list_model(rewritten);
                            assert(views(rewritten@) =~= seq![Tree::AddTo(a), Tree::SetValue(0)]);
                        }
                        Some(OptimizedCommand::List(rewritten))
                    } else if let Some((a, b)) = double_target(&v) {
                        let rewritten = vec![
                            OptimizedCommand::AddTo(a),
                            OptimizedCommand::AddTo(b),
                            OptimizedCommand::SetValue(0),
                        ];
                        proof {
                            lemma_list_model(rewritten);
                            assert(views(rewritten@) =~= seq![
                                Tree::AddTo(a),
                                Tree::AddTo(b),
                                Tree::SetValue(0),
                            ]);
                        }
                        Some(OptimizedCommand::List(rewritten))
                    } else {
                        Some(OptimizedCommand::Jump(Box::new(OptimizedCommand::List(v))))
                    }
                },
                other => Some(OptimizedCommand::Jump(Box::new(other))),
            }
        } else {
            None
        }
    }

    /// Folds two adjacent deltas of one kind into one node; `None` for any
    /// other pair.
    pub fn optimize_pair(self, other: Self) -> (result: Option<OptimizedCommand>)
        ensures
            option_model(result) == paired(self@, other@),
    {
        Some(
            match (self, other) {
                (OptimizedCommand::AddValue(a), OptimizedCommand::AddValue(b)) => {
                    OptimizedCommand::AddValue(a.wrapping_add(b))
                },
                (OptimizedCommand::MovePointer(a), OptimizedCommand::MovePointer(b)) => {
                    OptimizedCommand::MovePointer(a.wrapping_add(b))
                },
                _ => return None,
            },
        )
    }
}

} // verus!
