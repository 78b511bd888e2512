//! The tree-walking interpreter.

use vstd::prelude::*;

use crate::engine::Engine;
use crate::semantics::{run, run_loop, run_seq, Outcome, Status};
use crate::tree::OptimizedCommand;

verus! {

impl OptimizedCommand {
    /// Runs the tree on `engine`, letting every activation of a loop make at
    /// most `limit` rounds, and says how the run ended.
    #[verifier::loop_isolation(false)]
    pub fn execute(&self, engine: &mut Engine, limit: u64) -> (status: Status)
        ensures
            run(self@, old(engine)@, limit as nat) == (Outcome { status, state: final(engine)@ }),
        decreases self,
    {
        match self {
            OptimizedCommand::MovePointer(offset) => {
                engine.move_tape(*offset);
                Status::Finished
            },
            OptimizedCommand::AddValue(summand) => {
                let value: u8 = engine.get().wrapping_add(*summand);
                engine.set(value);
                Status::Finished
            },
            OptimizedCommand::SetValue(value) => {
                engine.set(*value);
                Status::Finished
            },
            OptimizedCommand::Print => {
                let value: u8 = engine.get();
                engine.write(value);
                Status::Finished
            },
            OptimizedCommand::Read => {
                if engine.has_input() {
                    let value: u8 = engine.read();
                    engine.set(value);
                    Status::Finished
                } else {
                    Status::InputExhausted
                }
            },
            OptimizedCommand::List(v) => {
                let ghost ts = self@->List_0;
                let mut i: usize = 0;
                assert(ts.skip(0) =~= ts);
                while i < v.len()
                    invariant
                        i <= v.len(),
                        ts.len() == v.len(),
                        forall|k: int| 0 <= k < v.len() ==> ts[k] == v@[k]@,
                        run(self@, old(engine)@, limit as nat) == run_seq(
                            ts.skip(i as int),
                            engine@,
                            limit as nat,
                        ),
                    decreases v.len() - i,
                {
                    assert(ts.skip(i as int).drop_first() =~= ts.skip(i + 1));
                    let status = v[i].execute(engine, limit);
                    match status {
                        Status::Finished => {},
                        _ => {
                            return status;
                        },
                    }
                    i = i + 1;
                }
                Status::Finished
            },
            OptimizedCommand::Jump(c) => {
                let mut rounds: u64 = limit;
                while engine.get() != 0
                    invariant
                        run(self@, old(engine)@, limit as nat) == run_loop(
                            c@,
                            engine@,
                            limit as nat,
                            rounds as nat,
                        ),
                    decreases rounds,
                {
                    if rounds == 0 {
                        return Status::LimitReached;
                    }
                    let status = c.execute(engine, limit);
                    match status {
                        Status::Finished => {},
                        _ => {
                            return status;
                        },
                    }
                    rounds = rounds - 1;
                }
                Status::Finished
            },
            OptimizedCommand::AddTo(d) => {
                let value: u8 = engine.get().wrapping_add(engine.get_rel(*d));
                engine.set_rel(value, *d);
                Status::Finished
            },
        }
    }
}

} // verus!
