use vstd::prelude::*;

use crate::console::Console;

verus! {

/// The byte that an input character stands for: its code truncated to 8 bits.
pub open spec fn byte_of(c: char) -> u8 {
    ((c as u32) % 256) as u8
}

/// The character with code `b`, which is how an output byte is emitted.
pub open spec fn char_of(b: u8) -> char {
    b as char
}

/// The character collaborator of the interpreter.
///
/// An implementation is modelled by the characters it still has to hand out
/// and the characters it has been given so far.
pub trait BrainfuckIo {
    /// Input not consumed yet, first character first.
    spec fn pending_input(&self) -> Seq<char>;

    /// Every character emitted so far, in order.
    spec fn emitted(&self) -> Seq<char>;

    /// Emits the character with code `c`.
    fn output_char(&mut self, c: u8)
        ensures
            final(self).emitted() == old(self).emitted().push(char_of(c)),
            final(self).pending_input() == old(self).pending_input(),
    ;

    /// Takes the next input character and hands out its byte, or `None`
    /// once the input is exhausted.
    fn next_input(&mut self) -> (r: Option<u8>)
        ensures
            final(self).emitted() == old(self).emitted(),
            old(self).pending_input().len() == 0 ==> r is None && final(self).pending_input()
                == old(self).pending_input(),
            old(self).pending_input().len() > 0 ==> r == Some(byte_of(old(self).pending_input()[0]))
                && final(self).pending_input() == old(self).pending_input().drop_first(),
    ;
}

/// Collects output in memory and serves input from a buffer, first in first
/// out: `inputs[0]` is read next.
#[derive(Debug, Default)]
pub struct InMemoryIO {
    pub output: Vec<char>,
    pub inputs: Vec<char>,
}

impl InMemoryIO {
    pub fn new_with_inputs(inputs: Vec<char>) -> (r: InMemoryIO)
        ensures
            r.output@ == Seq::<char>::empty(),
            r.inputs@ == inputs@,
    {
        InMemoryIO { output: Vec::new(), inputs }
    }
}

impl BrainfuckIo for InMemoryIO {
    open spec fn pending_input(&self) -> Seq<char> {
        self.inputs@
    }

    open spec fn emitted(&self) -> Seq<char> {
        self.output@
    }

    fn output_char(&mut self, c: u8) {
        self.output.push(c as char);
    }

    fn next_input(&mut self) -> (r: Option<u8>) {
        if self.inputs.len() == 0 {
            None
        } else {
            let c = self.inputs.remove(0);
            assert(self.inputs@ =~= old(self).inputs@.drop_first());
            Some(((c as u32) % 256) as u8)
        }
    }
}

/// Writes output straight to the process's standard output. It has no
/// input: every read finds the input exhausted.
pub struct StdIO {
    console: Console,
}

impl StdIO {
    pub fn new() -> (r: StdIO)
        ensures
            r.emitted() == Seq::<char>::empty(),
            r.pending_input() == Seq::<char>::empty(),
    {
        StdIO { console: Console::open() }
    }
}

impl BrainfuckIo for StdIO {
    open spec fn pending_input(&self) -> Seq<char> {
        Seq::empty()
    }

    closed spec fn emitted(&self) -> Seq<char> {
        self.console.written()
    }

    fn output_char(&mut self, c: u8) {
        self.console.write_char(c as char);
    }

    fn next_input(&mut self) -> (r: Option<u8>) {
        None
    }
}

} // verus!
