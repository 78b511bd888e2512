//! The execution engine: a sparse tape, a pointer and two byte streams.

use std::collections::HashMap;
use vstd::prelude::*;

use crate::machine::Machine;

verus! {

broadcast use vstd::std_specs::hash::group_hash_axioms;

/// The state of one program run.
///
/// The tape is sparse: only cells that were written are stored, and every
/// other cell reads as zero. Input is taken from the front of `reader`;
/// output is appended to `writer`.
pub struct Engine {
    tape: HashMap<i32, u8>,
    pointer: i32,
    reader: Vec<u8>,
    consumed: usize,
    writer: Vec<u8>,
}

impl View for Engine {
    type V = Machine;

    closed spec fn view(&self) -> Machine {
        Machine {
            tape: |a: i32|
                if self.tape@.contains_key(a) {
                    self.tape@[a]
                } else {
                    0u8
                },
            pointer: self.pointer,
            input: if self.consumed <= self.reader@.len() {
                self.reader@.skip(self.consumed as int)
            } else {
                Seq::empty()
            },
            output: self.writer@,
        }
    }
}

impl Engine {
    /// An engine with an all-zero tape and the pointer at address zero,
    /// which will read the bytes of `reader` and append what it prints to
    /// `writer`.
    pub fn new(reader: Vec<u8>, writer: Vec<u8>) -> (engine: Engine)
        ensures
            engine@ == Machine::fresh(reader@, writer@),
    {
        let engine = Engine { tape: HashMap::new(), pointer: 0, reader, consumed: 0, writer };
        assert(engine@.tape =~= Machine::fresh(reader@, writer@).tape);
        assert(engine@.input =~= reader@);
        engine
    }

    /// Moves the pointer by `amount` cells, wrapping around at the ends of
    /// the address range.
    pub fn move_tape(&mut self, amount: i32)
        ensures
            final(self)@ == old(self)@.shift(amount),
    {
        self.pointer = self.pointer.wrapping_add(amount);
    }

    /// The value of the current cell.
    pub fn get(&self) -> (value: u8)
        ensures
            value == self@.current(),
    {
        match self.tape.get(&self.pointer) {
            Some(v) => *v,
            None => 0,
        }
    }

    /// The value of the cell `offset` cells away from the current one.
    pub fn get_rel(&self, offset: i32) -> (value: u8)
        ensures
            value == self@.at(offset),
    {
        let address: i32 = self.pointer.wrapping_add(offset);
        match self.tape.get(&address) {
            Some(v) => *v,
            None => 0,
        }
    }

    /// Stores `value` in the current cell.
    pub fn set(&mut self, value: u8)
        ensures
            final(self)@ == old(self)@.put(value),
    {
        self.tape.insert(self.pointer, value);
        assert(self@.tape =~= old(self)@.put(value).tape);
    }

    /// Stores `value` in the cell `offset` cells away from the current one.
    pub fn set_rel(&mut self, value: u8, offset: i32)
        ensures
            final(self)@ == old(self)@.put_at(offset, value),
    {
        let address: i32 = self.pointer.wrapping_add(offset);
        self.tape.insert(address, value);
        assert(self@.tape =~= old(self)@.put_at(offset, value).tape);
    }

    /// Appends `value` to the output.
    pub fn write(&mut self, value: u8)
        ensures
            final(self)@ == old(self)@.emit(value),
    {
        self.writer.push(value);
    }

    /// Whether any input is left to read.
    pub fn has_input(&self) -> (left: bool)
        ensures
            left == (self@.input.len() > 0),
    {
        self.consumed < self.reader.len()
    }

    /// Takes the next byte of input.
    pub fn read(&mut self) -> (value: u8)
        requires
            old(self)@.input.len() > 0,
        ensures
            value == old(self)@.input[0],
            final(self)@ == old(self)@.advance(),
    {
        assert(self.consumed < self.reader.len());
        let value: u8 = self.reader[self.consumed];
        self.consumed = self.consumed + 1;
        assert(self@.input =~= old(self)@.input.drop_first());
        value
    }

    /// The address of the current cell.
    pub fn pointer(&self) -> (address: i32)
        ensures
            address == self@.pointer,
    {
        self.pointer
    }

    /// The bytes written so far.
    pub fn output(&self) -> (bytes: &Vec<u8>)
        ensures
            bytes@ == self@.output,
    {
        &self.writer
    }
}

} // verus!
