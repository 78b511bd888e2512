//! Runs that are cut off at the round limit: what the run of a tree had
//! printed by then, the run of its optimized form prints too.

use vstd::prelude::*;

use crate::machine::Machine;
use crate::rewrite::{
    absorbed, emitted, flattened, folded, optimized, optimized_twice, recognized,
    single_transfer, weight,
};
use crate::semantics::{
    ended, finished, lemma_run_seq_append, lemma_run_seq_empty, lemma_run_seq_single,
    lemma_run_seq_step, run, run_loop, run_seq, Outcome, Status,
};
use crate::soundness::{
    lemma_absorbed_runs_alike, lemma_double_transfer_round, lemma_flattened_runs_alike,
    lemma_optimized_runs_alike, lemma_single_transfer_round,
};
use crate::tree::{size, total_size, Tree};

verus! {

/// Whether `longer` begins with all of `shorter`.
pub open spec fn begins_with(longer: Seq<u8>, shorter: Seq<u8>) -> bool {
    shorter.len() <= longer.len() && longer.take(shorter.len() as int) == shorter
}

/// A sequence begins with itself, and beginning-with carries over.
pub proof fn lemma_begins_with(a: Seq<u8>, b: Seq<u8>, c: Seq<u8>)
    ensures
        begins_with(a, a),
        begins_with(a, b) && begins_with(b, c) ==> begins_with(a, c),
{
    assert(a.take(a.len() as int) =~= a);
    if begins_with(a, b) && begins_with(b, c) {
        assert(a.take(c.len() as int) =~= b.take(c.len() as int));
    }
}

/// A run takes nothing back: the output it ends with begins with the
/// output it started from.
pub proof fn lemma_output_grows(t: Tree, state: Machine, limit: nat)
    ensures
        begins_with(run(t, state, limit).state.output, state.output),
    decreases t, 0nat, 0nat,
{
    lemma_begins_with(state.output, state.output, state.output);
    match t {
        Tree::List(ts) => {
            lemma_output_grows_seq(ts, state, limit);
        },
        Tree::Jump(b) => {
            lemma_output_grows_loop(*b, state, limit, limit);
        },
        Tree::Print => {
            assert(state.output.push(state.current()).take(state.output.len() as int)
                =~= state.output);
        },
        _ => {},
    }
}

/// A sequence of trees takes nothing back from the output.
pub proof fn lemma_output_grows_seq(ts: Seq<Tree>, state: Machine, limit: nat)
    ensures
        begins_with(run_seq(ts, state, limit).state.output, state.output),
    decreases ts, 0nat, 0nat,
{
    lemma_begins_with(state.output, state.output, state.output);
    if ts.len() > 0 {
        let first = run(ts.first(), state, limit);
        lemma_output_grows(ts.first(), state, limit);
        if first.status == Status::Finished {
            lemma_output_grows_seq(ts.drop_first(), first.state, limit);
            lemma_begins_with(
                run_seq(ts, state, limit).state.output,
                first.state.output,
                state.output,
            );
        }
    }
}

/// A loop takes nothing back from the output.
pub proof fn lemma_output_grows_loop(body: Tree, state: Machine, limit: nat, rounds: nat)
    ensures
        begins_with(run_loop(body, state, limit, rounds).state.output, state.output),
    decreases body, 1nat, rounds,
{
    lemma_begins_with(state.output, state.output, state.output);
    if state.current() != 0 && rounds > 0 {
        let round = run(body, state, limit);
        lemma_output_grows(body, state, limit);
        if round.status == Status::Finished {
            lemma_output_grows_loop(body, round.state, limit, (rounds - 1) as nat);
            lemma_begins_with(
                run_loop(body, state, limit, rounds).state.output,
                round.state.output,
                state.output,
            );
        }
    }
}

/// Whether a round of `body` always finishes and prints nothing.
pub open spec fn silent(body: Tree, limit: nat) -> bool {
    forall|state: Machine|
        (#[trigger] run(body, state, limit)).status == Status::Finished && run(
            body,
            state,
            limit,
        ).state.output == state.output
}

/// A loop whose rounds print nothing prints nothing, however it ends.
pub proof fn lemma_silent_loop(body: Tree, state: Machine, limit: nat, rounds: nat)
    requires
        silent(body, limit),
    ensures
        run_loop(body, state, limit, rounds).state.output == state.output,
    decreases rounds,
{
    if state.current() != 0 && rounds > 0 {
        let round = run(body, state, limit);
        lemma_silent_loop(body, round.state, limit, (rounds - 1) as nat);
    }
}

/// The loops that the optimizer knows as idioms print nothing, and neither
/// do the trees that stand for them.
pub proof fn lemma_recognized_silent(body: Tree, state: Machine, limit: nat)
    requires
        recognized(body) != Tree::Jump(Box::new(body)),
    ensures
        run(Tree::Jump(Box::new(body)), state, limit).state.output == state.output,
        run(recognized(body), state, limit).state.output == state.output,
{
    match body {
        Tree::AddValue(d) => {
            lemma_silent_loop(body, state, limit, limit);
        },
        Tree::List(v) => {
            if single_transfer(v) is Some {
                assert forall|s: Machine|
                    (#[trigger] run(body, s, limit)).status == Status::Finished && run(
                        body,
                        s,
                        limit,
                    ).state.output == s.output by {
                    lemma_single_transfer_round(v, s, limit);
                }
            } else {
                assert forall|s: Machine|
                    (#[trigger] run(body, s, limit)).status == Status::Finished && run(
                        body,
                        s,
                        limit,
                    ).state.output == s.output by {
                    lemma_double_transfer_round(v, s, limit);
                }
            }
            lemma_silent_loop(body, state, limit, limit);
            let out = recognized(body)->List_0;
            let s1 = run(out[0], state, limit).state;
            let s2 = run(out[1], s1, limit).state;
            lemma_run_seq_step(out, 0, state, limit);
            lemma_run_seq_step(out, 1, s1, limit);
            if out.len() == 2 {
                lemma_run_seq_empty(s2, limit);
            } else {
                let s3 = run(out[2], s2, limit).state;
                lemma_run_seq_step(out, 2, s2, limit);
                lemma_run_seq_empty(s3, limit);
            }
        },
        _ => {},
    }
}

/// The run of what the optimizer makes of a tree: of the optimized tree,
/// or of nothing where the tree was erased.
pub open spec fn run_optimized(t: Tree, state: Machine, limit: nat) -> Outcome {
    run_seq(emitted(optimized(t)), state, limit)
}

/// The run of the loop around what the optimizer makes of `body`.
pub open spec fn run_loop_optimized(body: Tree, state: Machine, limit: nat, rounds: nat) -> Outcome {
    match optimized(body) {
        Some(better) => run_loop(better, state, limit, rounds),
        None => finished(state),
    }
}

/// What the run of a tree had printed when it was cut off at the round
/// limit stands at the front of what the run of its optimized form prints
/// under the same limit.
pub proof fn lemma_optimized_prints_more(t: Tree, state: Machine, limit: nat)
    requires
        !ended(run(t, state, limit)),
    ensures
        begins_with(
            run_optimized(t, state, limit).state.output,
            run(t, state, limit).state.output,
        ),
    decreases size(t), 0nat, 0nat,
{
    match t {
        Tree::List(ts) => {
            lemma_folded_prints_more(None, ts, state, limit);
            let out = flattened(folded(None, ts));
            lemma_flattened_runs_alike(folded(None, ts), state, limit);
            if out.len() == 0 {
                lemma_run_seq_empty(state, limit);
            } else if out.len() == 1 {
                assert(out =~= seq![out[0]]);
            } else {
                lemma_run_seq_single(Tree::List(out), state, limit);
            }
        },
        Tree::Jump(b) => {
            lemma_loop_prints_more(*b, state, limit, limit);
            match optimized(*b) {
                Some(body) => {
                    let better = recognized(body);
                    lemma_run_seq_single(better, state, limit);
                    if better != Tree::Jump(Box::new(body)) {
                        lemma_recognized_silent(body, state, limit);
                    }
                },
                None => {
                    lemma_run_seq_empty(state, limit);
                },
            }
        },
        _ => {},
    }
}

/// What a loop had printed when it was cut off stands at the front of what
/// the loop around its optimized body prints.
pub proof fn lemma_loop_prints_more(body: Tree, state: Machine, limit: nat, rounds: nat)
    requires
        !ended(run_loop(body, state, limit, rounds)),
    ensures
        begins_with(
            run_loop_optimized(body, state, limit, rounds).state.output,
            run_loop(body, state, limit, rounds).state.output,
        ),
    decreases size(body), 1nat, rounds,
{
    lemma_begins_with(state.output, state.output, state.output);
    if rounds > 0 {
        let round = run(body, state, limit);
        if ended(round) {
            lemma_optimized_runs_alike(body, state, limit);
            lemma_loop_prints_more(body, round.state, limit, (rounds - 1) as nat);
        } else {
            lemma_optimized_prints_more(body, state, limit);
            match optimized(body) {
                Some(better) => {
                    let other = run(better, state, limit);
                    lemma_run_seq_single(better, state, limit);
                    if other.status == Status::Finished {
                        lemma_output_grows_loop(
                            better,
                            other.state,
                            limit,
                            (rounds - 1) as nat,
                        );
                        lemma_begins_with(
                            run_loop(better, state, limit, rounds).state.output,
                            other.state.output,
                            round.state.output,
                        );
                    }
                },
                None => {
                    lemma_run_seq_empty(state, limit);
                },
            }
        }
    }
}

/// What a sequence had printed when it was cut off stands at the front of
/// what the folded sequence prints.
pub proof fn lemma_folded_prints_more(
    held: Option<Tree>,
    rest: Seq<Tree>,
    state: Machine,
    limit: nat,
)
    requires
        !ended(run_seq(emitted(held) + rest, state, limit)),
    ensures
        begins_with(
            run_seq(folded(held, rest), state, limit).state.output,
            run_seq(emitted(held) + rest, state, limit).state.output,
        ),
    decreases weight(held) + total_size(rest), 1nat, rest.len(),
{
    let whole = emitted(held) + rest;
    if rest.len() == 0 {
        if let Some(h) = held {
            lemma_run_seq_single(h, state, limit);
            lemma_optimized_prints_more(h, state, limit);
        }
    } else {
        let next = rest.first();
        let tail = rest.drop_first();
        match held {
            None => {
                assert(whole =~= emitted(Some(next)) + tail);
                lemma_folded_prints_more(Some(next), tail, state, limit);
            },
            Some(h) => {
                match absorbed(h, next) {
                    Some(pending) => {
                        assert(whole =~= seq![h, next] + tail);
                        lemma_run_seq_append(seq![h, next], tail, state, limit);
                        lemma_absorbed_runs_alike(h, next, state, limit);
                        lemma_run_seq_append(emitted(pending), tail, state, limit);
                        lemma_folded_prints_more(pending, tail, state, limit);
                    },
                    None => {
                        let front = emitted(optimized(h));
                        let back = folded(Some(next), tail);
                        let first = run(h, state, limit);
                        lemma_run_seq_append(seq![h], rest, state, limit);
                        lemma_run_seq_single(h, state, limit);
                        lemma_run_seq_append(front, back, state, limit);
                        let other = run_seq(front, state, limit);
                        if ended(first) {
                            lemma_optimized_runs_alike(h, state, limit);
                            if let Some(better) = optimized(h) {
                                lemma_run_seq_single(better, state, limit);
                            }
                            assert(rest =~= emitted(Some(next)) + tail);
                            lemma_folded_prints_more(Some(next), tail, first.state, limit);
                        } else {
                            lemma_optimized_prints_more(h, state, limit);
                            if other.status == Status::Finished {
                                lemma_output_grows_seq(back, other.state, limit);
                                lemma_begins_with(
                                    run_seq(back, other.state, limit).state.output,
                                    other.state.output,
                                    first.state.output,
                                );
                            }
                        }
                    },
                }
            },
        }
    }
}

/// The run of what two passes of the optimizer make of a tree.
pub open spec fn run_optimized_twice(t: Tree, state: Machine, limit: nat) -> Outcome {
    run_seq(emitted(optimized_twice(t)), state, limit)
}

/// Under any round limit, what the run of a tree prints stands at the front
/// of what the run of the twice-optimized tree prints; where the run of the
/// tree comes to an end, the two runs end alike.
pub proof fn lemma_optimized_twice_prints_more(t: Tree, state: Machine, limit: nat)
    ensures
        begins_with(
            run_optimized_twice(t, state, limit).state.output,
            run(t, state, limit).state.output,
        ),
        ended(run(t, state, limit)) ==> run_optimized_twice(t, state, limit) == run(
            t,
            state,
            limit,
        ),
{
    let plain = run(t, state, limit);
    let twice = run_optimized_twice(t, state, limit);
    lemma_begins_with(plain.state.output, plain.state.output, plain.state.output);
    lemma_run_seq_empty(state, limit);
    if ended(plain) {
        lemma_optimized_runs_alike(t, state, limit);
        if let Some(once) = optimized(t) {
            lemma_optimized_runs_alike(once, state, limit);
            if let Some(better) = optimized(once) {
                lemma_run_seq_single(better, state, limit);
            }
        }
    } else {
        lemma_optimized_prints_more(t, state, limit);
        if let Some(once) = optimized(t) {
            lemma_run_seq_single(once, state, limit);
            let middle = run(once, state, limit);
            if ended(middle) {
                lemma_optimized_runs_alike(once, state, limit);
                if let Some(better) = optimized(once) {
                    lemma_run_seq_single(better, state, limit);
                }
            } else {
                lemma_optimized_prints_more(once, state, limit);
                lemma_begins_with(
                    twice.state.output,
                    middle.state.output,
                    plain.state.output,
                );
            }
        }
    }
}

} // verus!
