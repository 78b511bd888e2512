//! The state of a running program, as a mathematical value.

use vstd::prelude::*;

verus! {

/// Everything a program can observe or change while it runs.
///
/// The tape is total: every address holds a byte, and a cell that was never
/// written holds zero. Addresses are 32-bit and wrap around at both ends.
pub struct Machine {
    /// The byte held at each address.
    pub tape: spec_fn(i32) -> u8,
    /// The address of the current cell.
    pub pointer: i32,
    /// The input bytes that have not been read yet.
    pub input: Seq<u8>,
    /// The output bytes written so far.
    pub output: Seq<u8>,
}

impl Machine {
    /// The state before anything ran: a tape of zeros, the pointer at
    /// address zero, and the two streams as given.
    pub open spec fn fresh(input: Seq<u8>, output: Seq<u8>) -> Machine {
        Machine { tape: |a: i32| 0u8, pointer: 0, input, output }
    }

    /// The address `offset` cells away from the current one.
    pub open spec fn address(self, offset: i32) -> i32 {
        self.pointer.wrapping_add(offset)
    }

    /// The value of the current cell.
    pub open spec fn current(self) -> u8 {
        (self.tape)(self.pointer)
    }

    /// The value of the cell `offset` cells away from the current one.
    pub open spec fn at(self, offset: i32) -> u8 {
        (self.tape)(self.address(offset))
    }

    /// The state after the pointer moved by `amount`.
    pub open spec fn shift(self, amount: i32) -> Machine {
        Machine { pointer: self.address(amount), ..self }
    }

    /// The state after `value` was stored in the current cell.
    pub open spec fn put(self, value: u8) -> Machine {
        self.put_at(0, value)
    }

    /// The state after `value` was stored `offset` cells away from the
    /// current one.
    pub open spec fn put_at(self, offset: i32, value: u8) -> Machine {
        Machine {
            tape: |a: i32|
                if a == self.address(offset) {
                    value
                } else {
                    (self.tape)(a)
                },
            ..self
        }
    }

    /// The state after `value` was appended to the output.
    pub open spec fn emit(self, value: u8) -> Machine {
        Machine { output: self.output.push(value), ..self }
    }

    /// The state after the first unread input byte was taken away.
    pub open spec fn advance(self) -> Machine {
        Machine { input: self.input.drop_first(), ..self }
    }
}

/// Storing in a cell what it holds changes nothing.
pub proof fn lemma_put_same(state: Machine, offset: i32)
    ensures
        state.put_at(offset, state.at(offset)) == state,
        state.put(state.current()) == state,
{
    assert(state.put_at(offset, state.at(offset)).tape =~= state.tape);
    assert(state.put(state.current()).tape =~= state.tape);
}

/// Of two stores to one cell only the second counts.
pub proof fn lemma_put_twice(state: Machine, offset: i32, first: u8, second: u8)
    ensures
        state.put_at(offset, first).put_at(offset, second) == state.put_at(offset, second),
        state.put(first).put(second) == state.put(second),
{
    assert(state.put_at(offset, first).put_at(offset, second).tape =~= state.put_at(
        offset,
        second,
    ).tape);
    assert(state.put(first).put(second).tape =~= state.put(second).tape);
}

/// Two moves in a row are one move by their wrapped sum, and a move by zero
/// is no move.
pub proof fn lemma_shift_twice(state: Machine, first: i32, second: i32)
    ensures
        state.shift(first).shift(second) == state.shift(first.wrapping_add(second)),
        state.shift(0) == state,
{
}

} // verus!
