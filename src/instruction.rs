use vstd::prelude::*;

verus! {

/// One of the eight instructions of the language.
#[derive(Clone, Copy, Debug, PartialEq, Eq, Structural)]
pub enum BrainfuckInstruction {
    /// `+`: add one to the current cell, wrapping 255 to 0.
    IncrValue,
    /// `-`: subtract one from the current cell, wrapping 0 to 255.
    DecrValue,
    /// `>`: move the data pointer one cell to the right.
    IncrPointer,
    /// `<`: move the data pointer one cell to the left.
    DecrPointer,
    /// `.`: emit the current cell.
    OutputChar,
    /// `,`: read one byte into the current cell.
    InputChar,
    /// `[`: skip past the matching `]` when the current cell is zero.
    JzFront,
    /// `]`: go back to the matching `[` when the current cell is not zero.
    JnzBack,
}

/// The instruction a source character stands for, if any.
pub open spec fn instruction_of(c: char) -> Option<BrainfuckInstruction> {
    if c == '+' {
        Some(BrainfuckInstruction::IncrValue)
    } else if c == '-' {
        Some(BrainfuckInstruction::DecrValue)
    } else if c == '>' {
        Some(BrainfuckInstruction::IncrPointer)
    } else if c == '<' {
        Some(BrainfuckInstruction::DecrPointer)
    } else if c == '[' {
        Some(BrainfuckInstruction::JzFront)
    } else if c == ']' {
        Some(BrainfuckInstruction::JnzBack)
    } else if c == '.' {
        Some(BrainfuckInstruction::OutputChar)
    } else if c == ',' {
        Some(BrainfuckInstruction::InputChar)
    } else {
        None
    }
}

/// The program that a text denotes: its instruction characters in order,
/// every other character dropped.
pub open spec fn parse_spec(s: Seq<char>) -> Seq<BrainfuckInstruction>
    decreases s.len(),
{
    if s.len() == 0 {
        Seq::empty()
    } else {
        let prefix = parse_spec(s.drop_last());
        match instruction_of(s.last()) {
            Some(ins) => prefix.push(ins),
            None => prefix,
        }
    }
}

/// Turns program text into its instruction sequence; characters outside the
/// instruction alphabet are comments and are skipped.
pub fn parse(program: &str) -> (r: Vec<BrainfuckInstruction>)
    ensures
        r@ == parse_spec(program@),
{
    broadcast use vstd::string::axiom_spec_iter;

    let mut instructions: Vec<BrainfuckInstruction> = Vec::new();
    for c in it: program.chars()
        invariant
            it.seq() == program@,
            instructions@ == parse_spec(program@.take(it.index())),
    {
        let ghost i = it.index();
        assert(program@.take(i + 1).drop_last() == program@.take(i));
        match c {
            '+' => instructions.push(BrainfuckInstruction::IncrValue),
            '-' => instructions.push(BrainfuckInstruction::DecrValue),
            '>' => instructions.push(BrainfuckInstruction::IncrPointer),
            '<' => instructions.push(BrainfuckInstruction::DecrPointer),
            '[' => instructions.push(BrainfuckInstruction::JzFront),
            ']' => instructions.push(BrainfuckInstruction::JnzBack),
            '.' => instructions.push(BrainfuckInstruction::OutputChar),
            ',' => instructions.push(BrainfuckInstruction::InputChar),
            _ => {},
        }
    }
    assert(program@.take(program@.len() as int) == program@);
    instructions
}

/// Parsing a concatenation parses each part.
pub proof fn lemma_parse_concat(a: Seq<char>, b: Seq<char>)
    ensures
        parse_spec(a + b) == parse_spec(a) + parse_spec(b),
    decreases b.len(),
{
    if b.len() == 0 {
        assert(a + b == a);
        assert(parse_spec(a) + parse_spec(b) == parse_spec(a));
    } else {
        lemma_parse_concat(a, b.drop_last());
        assert((a + b).drop_last() == a + b.drop_last());
        assert((a + b).last() == b.last());
    }
}

/// `n` plus signs parse to `n` increments.
pub proof fn lemma_parse_pluses(n: nat)
    ensures
        parse_spec(Seq::new(n, |i: int| '+')) == Seq::new(
            n,
            |i: int| BrainfuckInstruction::IncrValue,
        ),
    decreases n,
{
    if n > 0 {
        lemma_parse_pluses((n - 1) as nat);
        assert(Seq::new(n, |i: int| '+').drop_last() == Seq::new((n - 1) as nat, |i: int| '+'));
        assert(Seq::new(n, |i: int| BrainfuckInstruction::IncrValue) == Seq::new(
            (n - 1) as nat,
            |i: int| BrainfuckInstruction::IncrValue,
        ).push(BrainfuckInstruction::IncrValue));
    }
}

} // verus!
