//! The optimizer keeps what a tree does: whenever the run of a tree comes to
//! an end, the run of its optimized form ends the same way in the same state.

use vstd::prelude::*;

use crate::builder::parsed;
use crate::command::commands_of;
use crate::machine::{lemma_put_same, lemma_put_twice, lemma_shift_twice, Machine};
use crate::rewrite::{
    absorbed, double_transfer, emitted, flattened, folded, optimized, optimized_twice,
    recognized, single_transfer, weight,
};
use crate::semantics::{
    ended, finished, lemma_run_limit, lemma_run_seq_append, lemma_run_seq_empty, lemma_run_seq_single,
    lemma_run_seq_step, run, run_loop, run_seq, Status,
};
use crate::tree::{size, total_size, Tree};

verus! {

/// A node and the node behind it that it absorbs run as what is held back
/// afterwards.
pub proof fn lemma_absorbed_runs_alike(held: Tree, next: Tree, state: Machine, limit: nat)
    requires
        absorbed(held, next) is Some,
    ensures
        run_seq(seq![held, next], state, limit) == run_seq(
            emitted(absorbed(held, next)->0),
            state,
            limit,
        ),
{
    let pair = seq![held, next];
    let pending = absorbed(held, next)->0;
    lemma_run_seq_step(pair, 0, state, limit);
    let first = run(held, state, limit);
    if first.status == Status::Finished {
        lemma_run_seq_step(pair, 1, first.state, limit);
        lemma_run_seq_empty(run(next, first.state, limit).state, limit);
    }
    if next == Tree::AddValue(0) || next == Tree::MovePointer(0) {
        lemma_run_seq_single(held, state, limit);
        if first.status == Status::Finished {
            lemma_put_same(first.state, 0);
            lemma_shift_twice(first.state, 0, 0);
        }
    } else {
        match (held, next) {
            (Tree::SetValue(a), Tree::AddValue(b)) => {
                lemma_put_twice(state, 0, a, a.wrapping_add(b));
                lemma_run_seq_single(pending->0, state, limit);
            },
            (Tree::SetValue(a), Tree::SetValue(v)) => {
                lemma_put_twice(state, 0, a, v);
                lemma_run_seq_single(pending->0, state, limit);
            },
            (Tree::AddValue(a), Tree::AddValue(b)) => {
                let c = state.current();
                lemma_put_twice(state, 0, c.wrapping_add(a), c.wrapping_add(a).wrapping_add(b));
                if a.wrapping_add(b) == 0 {
                    lemma_put_same(state, 0);
                    lemma_run_seq_empty(state, limit);
                } else {
                    lemma_run_seq_single(pending->0, state, limit);
                }
            },
            (Tree::MovePointer(a), Tree::MovePointer(b)) => {
                lemma_shift_twice(state, a, b);
                if a.wrapping_add(b) == 0 {
                    lemma_run_seq_empty(state, limit);
                } else {
                    lemma_run_seq_single(pending->0, state, limit);
                }
            },
            _ => {},
        }
    }
}

/// Splicing the children of lists into a sequence does not change how the
/// sequence runs.
pub proof fn lemma_flattened_runs_alike(ts: Seq<Tree>, state: Machine, limit: nat)
    ensures
        run_seq(flattened(ts), state, limit) == run_seq(ts, state, limit),
    decreases ts.len(),
{
    if ts.len() > 0 {
        let head = match ts.first() {
            Tree::List(v) => v,
            t => seq![t],
        };
        lemma_run_seq_append(head, flattened(ts.drop_first()), state, limit);
        if !(ts.first() is List) {
            lemma_run_seq_single(ts.first(), state, limit);
        }
        let first = run(ts.first(), state, limit);
        if first.status == Status::Finished {
            lemma_flattened_runs_alike(ts.drop_first(), first.state, limit);
        }
    }
}

/// A loop that only counts its cell up or down by one ends with the cell
/// at zero and nothing else changed.
pub proof fn lemma_counting_loop(delta: u8, state: Machine, limit: nat, rounds: nat)
    requires
        delta == 1 || delta == 255,
        ended(run_loop(Tree::AddValue(delta), state, limit, rounds)),
    ensures
        run_loop(Tree::AddValue(delta), state, limit, rounds) == finished(state.put(0)),
    decreases rounds,
{
    let body = Tree::AddValue(delta);
    if state.current() == 0 {
        lemma_put_same(state, 0);
    } else {
        let next = state.put(state.current().wrapping_add(delta));
        assert(run(body, state, limit) == finished(next));
        assert(run_loop(body, state, limit, rounds) == run_loop(
            body,
            next,
            limit,
            (rounds - 1) as nat,
        ));
        lemma_counting_loop(delta, next, limit, (rounds - 1) as nat);
        lemma_put_twice(state, 0, state.current().wrapping_add(delta), 0);
    }
}

/// The state after the four-node transfer loop ran to its end: the current
/// cell was added to the target and then cleared.
pub open spec fn transferred(state: Machine, target: i32) -> Machine {
    state.put_at(target, state.current().wrapping_add(state.at(target))).put(0)
}

/// The state after the six-node transfer loop ran to its end: the current
/// cell was added to the first target, then to the second, and then cleared.
pub open spec fn transferred_twice(state: Machine, first: i32, second: i32) -> Machine {
    let once = state.put_at(first, state.current().wrapping_add(state.at(first)));
    once.put_at(second, once.current().wrapping_add(once.at(second))).put(0)
}

/// One round of the four-node transfer loop.
pub proof fn lemma_single_transfer_round(body: Seq<Tree>, state: Machine, limit: nat)
    requires
        single_transfer(body) is Some,
    ensures
        run(Tree::List(body), state, limit) == finished(
            state.put(state.current().wrapping_add(255)).shift(body[1]->MovePointer_0).put(
                state.put(state.current().wrapping_add(255)).shift(
                    body[1]->MovePointer_0,
                ).current().wrapping_add(1),
            ).shift(body[3]->MovePointer_0),
        ),
{
    let s0 = state;
    let s1 = run(body[0], s0, limit).state;
    let s2 = run(body[1], s1, limit).state;
    let s3 = run(body[2], s2, limit).state;
    let s4 = run(body[3], s3, limit).state;
    lemma_run_seq_step(body, 0, s0, limit);
    lemma_run_seq_step(body, 1, s1, limit);
    lemma_run_seq_step(body, 2, s2, limit);
    lemma_run_seq_step(body, 3, s3, limit);
    lemma_run_seq_empty(s4, limit);
}

/// The four-node transfer loop, where it ends, leaves what the two-node
/// rewrite leaves.
pub proof fn lemma_single_transfer_loop(body: Seq<Tree>, state: Machine, limit: nat, rounds: nat)
    requires
        single_transfer(body) is Some,
        ended(run_loop(Tree::List(body), state, limit, rounds)),
    ensures
        run_loop(Tree::List(body), state, limit, rounds) == finished(
            transferred(state, single_transfer(body)->0),
        ),
    decreases rounds,
{
    let a = body[1]->MovePointer_0;
    if state.current() == 0 {
        assert(transferred(state, a).tape =~= state.tape);
    } else {
        lemma_single_transfer_round(body, state, limit);
        let next = run(Tree::List(body), state, limit).state;
        lemma_single_transfer_loop(body, next, limit, (rounds - 1) as nat);
        assert(transferred(next, a).tape =~= transferred(state, a).tape);
    }
}

/// One round of the six-node transfer loop.
pub proof fn lemma_double_transfer_round(body: Seq<Tree>, state: Machine, limit: nat)
    requires
        double_transfer(body) is Some,
    ensures
        run(Tree::List(body), state, limit).status == Status::Finished,
        run(Tree::List(body), state, limit).state == ({
            let s1 = state.put(state.current().wrapping_add(255));
            let s2 = s1.shift(body[1]->MovePointer_0);
            let s3 = s2.put(s2.current().wrapping_add(1));
            let s4 = s3.shift(body[3]->MovePointer_0);
            let s5 = s4.put(s4.current().wrapping_add(1));
            s5.shift(body[5]->MovePointer_0)
        }),
{
    let s0 = state;
    let s1 = run(body[0], s0, limit).state;
    let s2 = run(body[1], s1, limit).state;
    let s3 = run(body[2], s2, limit).state;
    let s4 = run(body[3], s3, limit).state;
    let s5 = run(body[4], s4, limit).state;
    let s6 = run(body[5], s5, limit).state;
    lemma_run_seq_step(body, 0, s0, limit);
    lemma_run_seq_step(body, 1, s1, limit);
    lemma_run_seq_step(body, 2, s2, limit);
    lemma_run_seq_step(body, 3, s3, limit);
    lemma_run_seq_step(body, 4, s4, limit);
    lemma_run_seq_step(body, 5, s5, limit);
    lemma_run_seq_empty(s6, limit);
}

/// Where exactly one of the two targets of the six-node transfer loop is
/// the current cell itself, a round leaves that cell as it was, and the loop
/// never ends once entered.
proof fn lemma_double_transfer_stuck(body: Seq<Tree>, state: Machine, limit: nat, rounds: nat)
    requires
        double_transfer(body) is Some,
        (double_transfer(body)->0).0 == 0 || (double_transfer(body)->0).1 == 0,
        (double_transfer(body)->0).0 != (double_transfer(body)->0).1,
        state.current() != 0,
    ensures
        !ended(run_loop(Tree::List(body), state, limit, rounds)),
    decreases rounds,
{
    if rounds > 0 {
        lemma_double_transfer_round(body, state, limit);
        let next = run(Tree::List(body), state, limit).state;
        lemma_double_transfer_stuck(body, next, limit, (rounds - 1) as nat);
    }
}

/// The six-node transfer loop, where it ends, leaves what the three-node
/// rewrite leaves.
pub proof fn lemma_double_transfer_loop(body: Seq<Tree>, state: Machine, limit: nat, rounds: nat)
    requires
        double_transfer(body) is Some,
        ended(run_loop(Tree::List(body), state, limit, rounds)),
    ensures
        run_loop(Tree::List(body), state, limit, rounds) == ({
            let targets = double_transfer(body)->0;
            finished(transferred_twice(state, targets.0, targets.1))
        }),
    decreases rounds,
{
    let targets = double_transfer(body)->0;
    let a = targets.0;
    let b = targets.1;
    if state.current() == 0 {
        assert(transferred_twice(state, a, b).tape =~= state.tape);
    } else if (a == 0 || b == 0) && a != b {
        lemma_double_transfer_stuck(body, state, limit, rounds);
    } else {
        lemma_double_transfer_round(body, state, limit);
        let next = run(Tree::List(body), state, limit).state;
        lemma_double_transfer_loop(body, next, limit, (rounds - 1) as nat);
        let s1 = state.put(state.current().wrapping_add(255));
        let s2 = s1.shift(body[1]->MovePointer_0);
        let s3 = s2.put(s2.current().wrapping_add(1));
        let s4 = s3.shift(body[3]->MovePointer_0);
        assert(s4.pointer == state.address(b));
        assert(transferred_twice(next, a, b).tape =~= transferred_twice(state, a, b).tape);
    }
}

/// A loop around an optimized body, where it ends, ends as the tree that
/// stands for it does.
pub proof fn lemma_recognized_runs_alike(body: Tree, state: Machine, limit: nat)
    requires
        ended(run(Tree::Jump(Box::new(body)), state, limit)),
    ensures
        run(recognized(body), state, limit) == run(Tree::Jump(Box::new(body)), state, limit),
{
    match body {
        Tree::AddValue(d) => {
            if d == 1 || d == 255 {
                lemma_counting_loop(d, state, limit, limit);
            }
        },
        Tree::List(v) => {
            if let Some(a) = single_transfer(v) {
                lemma_single_transfer_loop(v, state, limit, limit);
                let rewritten = seq![Tree::AddTo(a), Tree::SetValue(0)];
                let s1 = run(rewritten[0], state, limit).state;
                lemma_run_seq_step(rewritten, 0, state, limit);
                lemma_run_seq_step(rewritten, 1, s1, limit);
                lemma_run_seq_empty(run(rewritten[1], s1, limit).state, limit);
            } else if let Some((a, b)) = double_transfer(v) {
                lemma_double_transfer_loop(v, state, limit, limit);
                let rewritten = seq![Tree::AddTo(a), Tree::AddTo(b), Tree::SetValue(0)];
                let s1 = run(rewritten[0], state, limit).state;
                let s2 = run(rewritten[1], s1, limit).state;
                lemma_run_seq_step(rewritten, 0, state, limit);
                lemma_run_seq_step(rewritten, 1, s1, limit);
                lemma_run_seq_step(rewritten, 2, s2, limit);
                lemma_run_seq_empty(run(rewritten[2], s2, limit).state, limit);
            }
        },
        _ => {},
    }
}

/// The optimizer keeps what a tree does.
///
/// Whenever the run of `t` comes to an end within the round limit, by
/// finishing or by running out of input, the run of its optimized form from
/// the same state ends the same way and in the same state. A tree that the
/// optimizer erases finishes without changing anything.
pub proof fn lemma_optimized_runs_alike(t: Tree, state: Machine, limit: nat)
    requires
        ended(run(t, state, limit)),
    ensures
        match optimized(t) {
            Some(better) => run(better, state, limit) == run(t, state, limit),
            None => run(t, state, limit) == finished(state),
        },
    decreases size(t), 0nat, 0nat,
{
    match t {
        Tree::List(ts) => {
            lemma_folded_runs_alike(None, ts, state, limit);
            let out = flattened(folded(None, ts));
            lemma_flattened_runs_alike(folded(None, ts), state, limit);
            if out.len() == 1 {
                assert(out =~= seq![out[0]]);
                lemma_run_seq_single(out[0], state, limit);
            }
        },
        Tree::Jump(b) => {
            lemma_loop_runs_alike(*b, state, limit, limit);
            if let Some(body) = optimized(*b) {
                lemma_recognized_runs_alike(body, state, limit);
            }
        },
        Tree::MovePointer(d) => {
            lemma_shift_twice(state, 0, 0);
        },
        Tree::AddValue(d) => {
            lemma_put_same(state, 0);
        },
        _ => {},
    }
}

/// A loop runs as the loop around its optimized body does; where the body
/// is erased, the loop can only end without having changed anything.
pub proof fn lemma_loop_runs_alike(body: Tree, state: Machine, limit: nat, rounds: nat)
    requires
        ended(run_loop(body, state, limit, rounds)),
    ensures
        match optimized(body) {
            Some(better) => run_loop(better, state, limit, rounds) == run_loop(
                body,
                state,
                limit,
                rounds,
            ),
            None => run_loop(body, state, limit, rounds) == finished(state),
        },
    decreases size(body), 1nat, rounds,
{
    if state.current() != 0 && rounds > 0 {
        let round = run(body, state, limit);
        lemma_optimized_runs_alike(body, state, limit);
        if round.status == Status::Finished {
            lemma_loop_runs_alike(body, round.state, limit, (rounds - 1) as nat);
        }
    }
}

/// The pass that folds a sequence keeps what the sequence does: the nodes
/// it gives out run as the node held back followed by the rest.
pub proof fn lemma_folded_runs_alike(
    held: Option<Tree>,
    rest: Seq<Tree>,
    state: Machine,
    limit: nat,
)
    requires
        ended(run_seq(emitted(held) + rest, state, limit)),
    ensures
        run_seq(folded(held, rest), state, limit) == run_seq(emitted(held) + rest, state, limit),
    decreases weight(held) + total_size(rest), 1nat, rest.len(),
{
    let whole = emitted(held) + rest;
    if rest.len() == 0 {
        if let Some(h) = held {
            lemma_run_seq_single(h, state, limit);
            lemma_optimized_runs_alike(h, state, limit);
            if let Some(better) = optimized(h) {
                lemma_run_seq_single(better, state, limit);
            }
        }
    } else {
        let next = rest.first();
        let tail = rest.drop_first();
        match held {
            None => {
                assert(whole =~= emitted(Some(next)) + tail);
                lemma_folded_runs_alike(Some(next), tail, state, limit);
            },
            Some(h) => {
                match absorbed(h, next) {
                    Some(pending) => {
                        assert(whole =~= seq![h, next] + tail);
                        lemma_run_seq_append(seq![h, next], tail, state, limit);
                        lemma_absorbed_runs_alike(h, next, state, limit);
                        lemma_run_seq_append(emitted(pending), tail, state, limit);
                        lemma_folded_runs_alike(pending, tail, state, limit);
                    },
                    None => {
                        lemma_run_seq_append(seq![h], rest, state, limit);
                        lemma_run_seq_single(h, state, limit);
                        lemma_optimized_runs_alike(h, state, limit);
                        let first = run(h, state, limit);
                        lemma_run_seq_append(
                            emitted(optimized(h)),
                            folded(Some(next), tail),
                            state,
                            limit,
                        );
                        if let Some(better) = optimized(h) {
                            lemma_run_seq_single(better, state, limit);
                        }
                        if first.status == Status::Finished {
                            assert(rest =~= emitted(Some(next)) + tail);
                            lemma_folded_runs_alike(Some(next), tail, first.state, limit);
                        }
                    },
                }
            },
        }
    }
}

/// Running the twice-optimized tree gives what running the tree gives.
///
/// For every tree, every state to start from (so: every input and every
/// tape) and every round limit: if the run of `t` comes to an end, by
/// finishing or by running out of input, then the run of the twice-optimized
/// tree ends the same way and in the same state, that is with the same
/// output, the same tape, the same pointer and the same unread input. Where
/// two passes leave nothing of `t`, its run finishes and changes nothing.
pub proof fn lemma_optimized_twice_runs_alike(t: Tree, state: Machine, limit: nat)
    requires
        ended(run(t, state, limit)),
    ensures
        match optimized_twice(t) {
            Some(better) => run(better, state, limit) == run(t, state, limit),
            None => run(t, state, limit) == finished(state),
        },
{
    lemma_optimized_runs_alike(t, state, limit);
    if let Some(once) = optimized(t) {
        lemma_optimized_runs_alike(once, state, limit);
    }
}

/// A program and its twice-optimized form print alike.
///
/// For every source text that parses, every input and every round limit:
/// if the run of the program as parsed comes to an end, the run of the
/// twice-optimized program on the same input ends the same way, with the
/// same output.
pub proof fn lemma_programs_print_alike(source: Seq<char>, input: Seq<u8>, limit: nat)
    requires
        parsed(commands_of(source), false) is Some,
        ended(
            run(
                Tree::List(parsed(commands_of(source), false)->0.nodes),
                Machine::fresh(input, Seq::empty()),
                limit,
            ),
        ),
    ensures
        ({
            let program = Tree::List(parsed(commands_of(source), false)->0.nodes);
            let start = Machine::fresh(input, Seq::empty());
            match optimized_twice(program) {
                Some(better) => {
                    &&& run(better, start, limit).status == run(program, start, limit).status
                    &&& run(better, start, limit).state.output == run(
                        program,
                        start,
                        limit,
                    ).state.output
                },
                None => {
                    &&& run(program, start, limit).status == Status::Finished
                    &&& run(program, start, limit).state.output == Seq::<u8>::empty()
                },
            }
        }),
{
    lemma_optimized_twice_runs_alike(
        Tree::List(parsed(commands_of(source), false)->0.nodes),
        Machine::fresh(input, Seq::empty()),
        limit,
    );
}

/// Where the run of a tree and the run of its twice-optimized form both
/// come to an end, each within a round limit of its own, they end the same
/// way and in the same state.
pub proof fn lemma_optimized_twice_agrees(
    t: Tree,
    state: Machine,
    limit: nat,
    other_limit: nat,
)
    requires
        optimized_twice(t) is Some,
        ended(run(t, state, limit)),
        ended(run(optimized_twice(t)->0, state, other_limit)),
    ensures
        run(optimized_twice(t)->0, state, other_limit) == run(t, state, limit),
{
    let better = optimized_twice(t)->0;
    lemma_optimized_twice_runs_alike(t, state, limit);
    if limit <= other_limit {
        lemma_run_limit(better, state, limit, other_limit);
    } else {
        lemma_run_limit(better, state, other_limit, limit);
    }
}

} // verus!
