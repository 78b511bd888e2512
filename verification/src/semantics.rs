//! What it means to run an instruction tree.

use vstd::prelude::*;

use crate::machine::Machine;
use crate::tree::Tree;

verus! {

/// How a run came to its end.
#[derive(Debug, Clone, Copy, PartialEq, Eq, Structural)]
pub enum Status {
    /// The tree ran to completion.
    Finished,
    /// A `Read` found no input left; the run stopped in front of it.
    InputExhausted,
    /// A loop was about to begin one more round than the limit allows; the
    /// run stopped in front of that round.
    LimitReached,
}

/// The result of a run: how it ended, and the state it ended in.
pub struct Outcome {
    pub status: Status,
    pub state: Machine,
}

/// A run that completed in `state`.
pub open spec fn finished(state: Machine) -> Outcome {
    Outcome { status: Status::Finished, state }
}

/// A run that stopped in `state` for want of input.
pub open spec fn starved(state: Machine) -> Outcome {
    Outcome { status: Status::InputExhausted, state }
}

/// A run that stopped in `state` at the round limit.
pub open spec fn cut_off(state: Machine) -> Outcome {
    Outcome { status: Status::LimitReached, state }
}

/// Whether a run came to an end of its own, rather than at the round limit.
pub open spec fn ended(outcome: Outcome) -> bool {
    outcome.status != Status::LimitReached
}

/// Runs `t` from `state`. Every activation of a loop may make at most
/// `limit` rounds.
pub open spec fn run(t: Tree, state: Machine, limit: nat) -> Outcome
    decreases t, 0nat, 0nat,
{
    match t {
        Tree::MovePointer(d) => finished(state.shift(d)),
        Tree::AddValue(d) => finished(state.put(state.current().wrapping_add(d))),
        Tree::SetValue(v) => finished(state.put(v)),
        Tree::Print => finished(state.emit(state.current())),
        Tree::Read => if state.input.len() == 0 {
            starved(state)
        } else {
            finished(state.advance().put(state.input[0]))
        },
        Tree::List(ts) => run_seq(ts, state, limit),
        Tree::Jump(b) => run_loop(*b, state, limit, limit),
        Tree::AddTo(d) => finished(state.put_at(d, state.current().wrapping_add(state.at(d)))),
    }
}

/// Runs the trees of `ts` one after another, stopping at the first that
/// does not finish.
pub open spec fn run_seq(ts: Seq<Tree>, state: Machine, limit: nat) -> Outcome
    decreases ts, 0nat, 0nat,
{
    if ts.len() == 0 {
        finished(state)
    } else {
        let first = run(ts.first(), state, limit);
        if first.status == Status::Finished {
            run_seq(ts.drop_first(), first.state, limit)
        } else {
            first
        }
    }
}

/// Runs `body` again and again while the current cell is not zero, for at
/// most `rounds` rounds.
pub open spec fn run_loop(body: Tree, state: Machine, limit: nat, rounds: nat) -> Outcome
    decreases body, 1nat, rounds,
{
    if state.current() == 0 {
        finished(state)
    } else if rounds == 0 {
        cut_off(state)
    } else {
        let round = run(body, state, limit);
        if round.status == Status::Finished {
            run_loop(body, round.state, limit, (rounds - 1) as nat)
        } else {
            round
        }
    }
}

/// A run that came to an end comes to the same end under any higher limit.
pub proof fn lemma_run_limit(t: Tree, state: Machine, limit: nat, higher: nat)
    requires
        limit <= higher,
        ended(run(t, state, limit)),
    ensures
        run(t, state, higher) == run(t, state, limit),
    decreases t, 0nat, 0nat,
{
    match t {
        Tree::List(ts) => {
            lemma_run_seq_limit(ts, state, limit, higher);
        },
        Tree::Jump(b) => {
            lemma_run_loop_limit(*b, state, limit, higher, limit, higher);
        },
        _ => {},
    }
}

/// A sequence whose run came to an end comes to the same end under any
/// higher limit.
pub proof fn lemma_run_seq_limit(ts: Seq<Tree>, state: Machine, limit: nat, higher: nat)
    requires
        limit <= higher,
        ended(run_seq(ts, state, limit)),
    ensures
        run_seq(ts, state, higher) == run_seq(ts, state, limit),
    decreases ts, 0nat, 0nat,
{
    if ts.len() > 0 {
        let first = run(ts.first(), state, limit);
        lemma_run_limit(ts.first(), state, limit, higher);
        if first.status == Status::Finished {
            lemma_run_seq_limit(ts.drop_first(), first.state, limit, higher);
        }
    }
}

/// A loop whose run came to an end comes to the same end under any higher
/// limit and with any greater number of rounds allowed.
pub proof fn lemma_run_loop_limit(
    body: Tree,
    state: Machine,
    limit: nat,
    higher: nat,
    rounds: nat,
    more: nat,
)
    requires
        limit <= higher,
        rounds <= more,
        ended(run_loop(body, state, limit, rounds)),
    ensures
        run_loop(body, state, higher, more) == run_loop(body, state, limit, rounds),
    decreases body, 1nat, rounds,
{
    if state.current() != 0 && rounds > 0 {
        let round = run(body, state, limit);
        lemma_run_limit(body, state, limit, higher);
        if round.status == Status::Finished {
            lemma_run_loop_limit(
                body,
                round.state,
                limit,
                higher,
                (rounds - 1) as nat,
                (more - 1) as nat,
            );
        }
    }
}

/// Adding a delta to a cell adds modulo 256: adding 255 takes one away, and
/// one added to 255 gives zero.
pub proof fn lemma_add_value_wraps(delta: u8, state: Machine, limit: nat)
    ensures
        run(Tree::AddValue(delta), state, limit).status == Status::Finished,
        run(Tree::AddValue(delta), state, limit).state == state.put(
            ((state.current() + delta) % 256) as u8,
        ),
        delta == 255 ==> run(Tree::AddValue(delta), state, limit).state.current() == (
        if state.current() == 0 {
            255
        } else {
            state.current() - 1
        }),
        delta == 1 && state.current() == 255 ==> run(
            Tree::AddValue(delta),
            state,
            limit,
        ).state.current() == 0,
{
}

/// Running nothing changes nothing.
pub proof fn lemma_run_seq_empty(state: Machine, limit: nat)
    ensures
        run_seq(Seq::empty(), state, limit) == finished(state),
{
}

/// A sequence of one tree runs as that tree does.
pub proof fn lemma_run_seq_single(t: Tree, state: Machine, limit: nat)
    ensures
        run_seq(seq![t], state, limit) == run(t, state, limit),
{
    let ts = seq![t];
    assert(run_seq(ts.drop_first(), run(t, state, limit).state, limit) == finished(
        run(t, state, limit).state,
    ));
}

/// What is left of a sequence from position `i` on runs as the tree at `i`
/// followed by what is left from `i + 1` on.
pub proof fn lemma_run_seq_step(ts: Seq<Tree>, i: int, state: Machine, limit: nat)
    requires
        0 <= i < ts.len(),
    ensures
        run_seq(ts.skip(i), state, limit) == ({
            let first = run(ts[i], state, limit);
            if first.status == Status::Finished {
                run_seq(ts.skip(i + 1), first.state, limit)
            } else {
                first
            }
        }),
{
    assert(ts.skip(i).drop_first() =~= ts.skip(i + 1));
}

/// Two sequences joined run as the first followed by the second.
pub proof fn lemma_run_seq_append(a: Seq<Tree>, b: Seq<Tree>, state: Machine, limit: nat)
    ensures
        run_seq(a + b, state, limit) == ({
            let first = run_seq(a, state, limit);
            if first.status == Status::Finished {
                run_seq(b, first.state, limit)
            } else {
                first
            }
        }),
    decreases a.len(),
{
    if a.len() > 0 {
        assert((a + b).drop_first() =~= a.drop_first() + b);
        let first = run(a.first(), state, limit);
        if first.status == Status::Finished {
            lemma_run_seq_append(a.drop_first(), b, first.state, limit);
        }
    }
}

} // verus!
