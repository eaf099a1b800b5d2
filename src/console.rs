use std::io::Write;
use vstd::prelude::*;

verus! {

#[verifier::external_type_specification]
#[verifier::external_body]
pub struct ExStdout(std::io::Stdout);

/// Relies on std::io::stdout: a handle to the standard output stream.
#[verifier::external_body]
fn stdout_handle() -> std::io::Stdout {
    std::io::stdout()
}

/// The process's standard output, with a record of every character handed
/// to it. Only `write_char` extends the record.
pub struct Console {
    out: std::io::Stdout,
    written: Ghost<Seq<char>>,
}

impl Console {
    /// The characters written so far, in order; each went out as its UTF-8
    /// encoding.
    pub closed spec fn written(&self) -> Seq<char> {
        self.written@
    }

    pub fn open() -> (r: Console)
        ensures
            r.written() == Seq::<char>::empty(),
    {
        Console { out: stdout_handle(), written: Ghost(Seq::empty()) }
    }

    /// Relies on std::io::Write::write_fmt through `write!`: the character's
    /// UTF-8 encoding is handed to the stream. A failed write is dropped,
    /// as the console has no way to report it.
    #[verifier::external_body]
    pub fn write_char(&mut self, c: char)
        ensures
            final(self).written() == old(self).written().push(c),
    {
        let _ = write!(self.out, "{}", c);
    }
}

} // verus!
