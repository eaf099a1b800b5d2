use std::collections::HashMap;
use vstd::prelude::*;

use crate::brackets::{
    balanced, is_bracket, is_jump_table, jump_table_of, lemma_balanced_after_prefix,
    lemma_jump_table_after_prefix,
    lemma_jump_table_unique, parse_brackets,
};
use crate::instruction::{
    instruction_of, lemma_parse_concat, lemma_parse_pluses, parse, parse_spec,
    BrainfuckInstruction,
};
use crate::io::{byte_of, char_of, BrainfuckIo};

verus! {

/// Number of cells on the tape.
pub const TAPE_LEN: usize = 30000;

/// Why a program text cannot be turned into an interpreter.
#[derive(Clone, Copy, Debug, PartialEq, Eq, Structural)]
pub enum ParseError {
    /// A `[` without its `]`, or a `]` without its `[`.
    UnbalancedBrackets,
}

/// Why a run stopped before the end of the program.
#[derive(Clone, Copy, Debug, PartialEq, Eq, Structural)]
pub enum RuntimeError {
    /// The data pointer would leave the tape.
    TapeOverrun,
    /// An input instruction found no input left.
    InputExhausted,
}

/// Why `run_program` failed.
#[derive(Clone, Copy, Debug, PartialEq, Eq, Structural)]
pub enum BrainfuckError {
    Parse(ParseError),
    Runtime(RuntimeError),
}

/// How a run that met no error ended.
#[derive(Clone, Copy, Debug, PartialEq, Eq, Structural)]
pub enum RunStatus {
    /// The instruction pointer went past the last instruction.
    Halted,
    /// The step budget was used up; running again resumes from here.
    OutOfSteps,
}

/// The whole state that an instruction can read or change.
pub struct Machine {
    pub tape: Seq<u8>,
    pub ptr: int,
    pub ip: int,
    /// Input not consumed yet.
    pub input: Seq<char>,
    /// Output emitted so far.
    pub output: Seq<char>,
}

pub open spec fn wrapping_incr(v: u8) -> u8 {
    ((v + 1) % 256) as u8
}

pub open spec fn wrapping_decr(v: u8) -> u8 {
    ((v + 255) % 256) as u8
}

/// What one instruction does: the next state, or the error that stops the
/// run (the state is then left as it was).
pub open spec fn step_spec(
    p: Seq<BrainfuckInstruction>,
    jumps: Map<usize, usize>,
    m: Machine,
) -> Result<Machine, RuntimeError> {
    let cur = m.tape[m.ptr];
    let next = m.ip + 1;
    match p[m.ip] {
        BrainfuckInstruction::IncrValue => Ok(
            Machine { tape: m.tape.update(m.ptr, wrapping_incr(cur)), ip: next, ..m },
        ),
        BrainfuckInstruction::DecrValue => Ok(
            Machine { tape: m.tape.update(m.ptr, wrapping_decr(cur)), ip: next, ..m },
        ),
        BrainfuckInstruction::IncrPointer => if m.ptr + 1 >= TAPE_LEN {
            Err(RuntimeError::TapeOverrun)
        } else {
            Ok(Machine { ptr: m.ptr + 1, ip: next, ..m })
        },
        BrainfuckInstruction::DecrPointer => if m.ptr == 0 {
            Err(RuntimeError::TapeOverrun)
        } else {
            Ok(Machine { ptr: m.ptr - 1, ip: next, ..m })
        },
        BrainfuckInstruction::OutputChar => Ok(
            Machine { output: m.output.push(char_of(cur)), ip: next, ..m },
        ),
        BrainfuckInstruction::InputChar => if m.input.len() == 0 {
            Err(RuntimeError::InputExhausted)
        } else {
            Ok(
                Machine {
                    tape: m.tape.update(m.ptr, byte_of(m.input[0])),
                    input: m.input.drop_first(),
                    ip: next,
                    ..m
                },
            )
        },
        BrainfuckInstruction::JzFront => Ok(
            Machine { ip: if cur == 0 { jumps[m.ip as usize] + 1 } else { next }, ..m },
        ),
        BrainfuckInstruction::JnzBack => Ok(
            Machine { ip: if cur != 0 { jumps[m.ip as usize] + 1 } else { next }, ..m },
        ),
    }
}

/// Runs at most `fuel` instructions: the state reached and how the run ended.
pub open spec fn run_spec(
    p: Seq<BrainfuckInstruction>,
    jumps: Map<usize, usize>,
    m: Machine,
    fuel: nat,
) -> (Machine, Result<RunStatus, RuntimeError>)
    decreases fuel,
{
    if m.ip >= p.len() {
        (m, Ok(RunStatus::Halted))
    } else if fuel == 0 {
        (m, Ok(RunStatus::OutOfSteps))
    } else {
        match step_spec(p, jumps, m) {
            Ok(m2) => run_spec(p, jumps, m2, (fuel - 1) as nat),
            Err(e) => (m, Err(e)),
        }
    }
}

/// The tape, the data pointer and the instruction pointer.
pub struct BrainfuckVM {
    memory: Vec<u8>,
    cell_id: usize,
    ip: usize,
}

impl BrainfuckVM {
    pub closed spec fn tape(&self) -> Seq<u8> {
        self.memory@
    }

    pub closed spec fn data_ptr(&self) -> int {
        self.cell_id as int
    }

    pub closed spec fn instr_ptr(&self) -> int {
        self.ip as int
    }

    pub open spec fn wf(&self) -> bool {
        &&& self.tape().len() == TAPE_LEN
        &&& 0 <= self.data_ptr() < TAPE_LEN
    }

    /// A fresh machine: every cell zero, both pointers at zero.
    pub fn new() -> (r: BrainfuckVM)
        ensures
            r.wf(),
            r.tape() == Seq::new(TAPE_LEN as nat, |i: int| 0u8),
            r.data_ptr() == 0,
            r.instr_ptr() == 0,
    {
        BrainfuckVM { memory: vec![0u8; TAPE_LEN], cell_id: 0, ip: 0 }
    }

    /// Index of the current cell.
    pub fn cell_id(&self) -> (r: usize)
        ensures
            r == self.data_ptr(),
    {
        self.cell_id
    }

    /// Index of the next instruction.
    pub fn ip(&self) -> (r: usize)
        ensures
            r == self.instr_ptr(),
    {
        self.ip
    }

    /// Value of cell `i`.
    pub fn cell(&self, i: usize) -> (r: u8)
        requires
            self.wf(),
            i < TAPE_LEN,
        ensures
            r == self.tape()[i as int],
    {
        self.memory[i]
    }
}

impl Default for BrainfuckVM {
    fn default() -> (r: Self)
        ensures
            r.wf(),
            r.tape() == Seq::new(TAPE_LEN as nat, |i: int| 0u8),
            r.data_ptr() == 0,
            r.instr_ptr() == 0,
    {
        Self::new()
    }
}

/// A parsed program with its jump table and the machine that runs it.
pub struct BrainfuckInterpreter {
    vm: BrainfuckVM,
    instructions: Vec<BrainfuckInstruction>,
    brackets_mapping: HashMap<usize, usize>,
}

impl BrainfuckInterpreter {
    pub closed spec fn program(&self) -> Seq<BrainfuckInstruction> {
        self.instructions@
    }

    pub closed spec fn jumps(&self) -> Map<usize, usize> {
        self.brackets_mapping@
    }

    pub closed spec fn vm_state(&self) -> BrainfuckVM {
        self.vm
    }

    pub open spec fn wf(&self) -> bool {
        &&& self.vm_state().wf()
        &&& 0 <= self.vm_state().instr_ptr() <= self.program().len()
        &&& is_jump_table(self.program(), self.jumps())
    }

    /// The semantic state, given what the collaborator holds.
    pub open spec fn machine(&self, input: Seq<char>, output: Seq<char>) -> Machine {
        Machine {
            tape: self.vm_state().tape(),
            ptr: self.vm_state().data_ptr(),
            ip: self.vm_state().instr_ptr(),
            input,
            output,
        }
    }

    /// Parses `program` and pairs its brackets. Fails, building nothing,
    /// when the brackets do not nest.
    pub fn new(program: &str) -> (r: Result<BrainfuckInterpreter, ParseError>)
        ensures
            r is Ok <==> balanced(parse_spec(program@)),
            r matches Err(e) ==> e == ParseError::UnbalancedBrackets,
            r matches Ok(i) ==> {
                &&& i.wf()
                &&& i.program() == parse_spec(program@)
                &&& i.vm_state().tape() == Seq::new(TAPE_LEN as nat, |k: int| 0u8)
                &&& i.vm_state().data_ptr() == 0
                &&& i.vm_state().instr_ptr() == 0
            },
    {
        let instructions = parse(program);
        match parse_brackets(&instructions) {
            Some(brackets_mapping) => Ok(
                BrainfuckInterpreter { vm: BrainfuckVM::new(), instructions, brackets_mapping },
            ),
            None => Err(ParseError::UnbalancedBrackets),
        }
    }

    /// Executes the instruction at the instruction pointer.
    fn step<IO: BrainfuckIo>(&mut self, io: &mut IO) -> (r: Result<(), RuntimeError>)
        requires
            old(self).wf(),
            old(self).vm_state().instr_ptr() < old(self).program().len(),
        ensures
            final(self).wf(),
            final(self).program() == old(self).program(),
            final(self).jumps() == old(self).jumps(),
            ({
                let before = old(self).machine(old(io).pending_input(), old(io).emitted());
                let after = final(self).machine(final(io).pending_input(), final(io).emitted());
                match step_spec(old(self).program(), old(self).jumps(), before) {
                    Ok(m) => r is Ok && after == m,
                    Err(e) => r == Err::<(), RuntimeError>(e) && after == before,
                }
            }),
    {
        let ghost p = self.instructions@;
        let ghost j = self.brackets_mapping@;
        let n = self.instructions.len();
        let cell = self.vm.cell_id;
        let ip = self.vm.ip;
        let cur = self.vm.memory[cell];
        match self.instructions[ip] {
            BrainfuckInstruction::IncrValue => {
                self.vm.memory.set(cell, if cur == 255 { 0 } else { cur + 1 });
            },
            BrainfuckInstruction::DecrValue => {
                self.vm.memory.set(cell, if cur == 0 { 255 } else { cur - 1 });
            },
            BrainfuckInstruction::IncrPointer => {
                if cell + 1 >= TAPE_LEN {
                    return Err(RuntimeError::TapeOverrun);
                }
                self.vm.cell_id = cell + 1;
            },
            BrainfuckInstruction::DecrPointer => {
                if cell == 0 {
                    return Err(RuntimeError::TapeOverrun);
                }
                self.vm.cell_id = cell - 1;
            },
            BrainfuckInstruction::OutputChar => {
                io.output_char(cur);
            },
            BrainfuckInstruction::InputChar => {
                match io.next_input() {
                    Some(value) => {
                        self.vm.memory.set(cell, value);
                    },
                    None => {
                        return Err(RuntimeError::InputExhausted);
                    },
                }
            },
            BrainfuckInstruction::JzFront => {
                assert(j.contains_key(ip));
                assert(j[ip] < p.len());
                if cur == 0 {
                    match self.brackets_mapping.get(&ip) {
                        Some(target) => {
                            self.vm.ip = *target;
                        },
                        None => {},
                    }
                }
            },
            BrainfuckInstruction::JnzBack => {
                assert(j.contains_key(ip));
                assert(j[ip] < ip);
                if cur != 0 {
                    match self.brackets_mapping.get(&ip) {
                        Some(target) => {
                            self.vm.ip = *target;
                        },
                        None => {},
                    }
                }
            },
        }
        self.vm.ip = self.vm.ip + 1;
        Ok(())
    }

    /// Runs the program for at most `max_steps` instructions.
    ///
    /// The run ends when the instruction pointer passes the last
    /// instruction, on the first error, or when the budget is spent; in
    /// every case the machine keeps its last state, so a run that ran out
    /// of steps can be continued by calling `run` again.
    pub fn run<IO: BrainfuckIo>(&mut self, io: &mut IO, max_steps: u64) -> (r: Result<
        RunStatus,
        RuntimeError,
    >)
        requires
            old(self).wf(),
        ensures
            final(self).wf(),
            final(self).program() == old(self).program(),
            final(self).jumps() == old(self).jumps(),
            ({
                let (m, res) = run_spec(
                    old(self).program(),
                    old(self).jumps(),
                    old(self).machine(old(io).pending_input(), old(io).emitted()),
                    max_steps as nat,
                );
                &&& r == res
                &&& final(self).machine(final(io).pending_input(), final(io).emitted()) == m
            }),
    {
        let ghost p = self.instructions@;
        let ghost j = self.brackets_mapping@;
        let ghost start = self.machine(io.pending_input(), io.emitted());
        let mut steps: u64 = 0;
        loop
            invariant
                self.wf(),
                self.program() == p,
                self.jumps() == j,
                p == old(self).program(),
                j == old(self).jumps(),
                start == old(self).machine(old(io).pending_input(), old(io).emitted()),
                steps <= max_steps,
                run_spec(p, j, start, max_steps as nat) == run_spec(
                    p,
                    j,
                    self.machine(io.pending_input(), io.emitted()),
                    (max_steps - steps) as nat,
                ),
            decreases max_steps - steps,
        {
            if self.vm.ip >= self.instructions.len() {
                return Ok(RunStatus::Halted);
            }
            if steps == max_steps {
                return Ok(RunStatus::OutOfSteps);
            }
            match self.step(io) {
                Ok(()) => {},
                Err(e) => {
                    return Err(e);
                },
            }
            steps = steps + 1;
        }
    }

    /// The machine, for inspection after a run.
    pub fn vm(&self) -> (r: &BrainfuckVM)
        ensures
            *r == self.vm_state(),
    {
        &self.vm
    }

    /// Number of instructions in the program.
    pub fn program_len(&self) -> (r: usize)
        ensures
            r == self.program().len(),
    {
        self.instructions.len()
    }
}

/// The state of a fresh machine whose collaborator holds `input` and has
/// emitted `output`.
pub open spec fn fresh_machine(input: Seq<char>, output: Seq<char>) -> Machine {
    Machine { tape: Seq::new(TAPE_LEN as nat, |i: int| 0u8), ptr: 0, ip: 0, input, output }
}

/// Parses `program`, builds its interpreter and runs it on a fresh machine
/// for at most `max_steps` instructions.
pub fn run_program<IO: BrainfuckIo>(program: &str, io: &mut IO, max_steps: u64) -> (r: Result<
    RunStatus,
    BrainfuckError,
>)
    ensures
        !balanced(parse_spec(program@)) ==> r == Err::<RunStatus, BrainfuckError>(
            BrainfuckError::Parse(ParseError::UnbalancedBrackets),
        ) && *final(io) == *old(io),
        balanced(parse_spec(program@)) ==> {
            let p = parse_spec(program@);
            let (m, res) = run_spec(
                p,
                jump_table_of(p),
                fresh_machine(old(io).pending_input(), old(io).emitted()),
                max_steps as nat,
            );
            &&& final(io).pending_input() == m.input
            &&& final(io).emitted() == m.output
            &&& match res {
                Ok(status) => r == Ok::<RunStatus, BrainfuckError>(status),
                Err(e) => r == Err::<RunStatus, BrainfuckError>(BrainfuckError::Runtime(e)),
            }
        },
{
    match BrainfuckInterpreter::new(program) {
        Ok(mut interpreter) => {
            proof {
                lemma_jump_table_unique(
                    interpreter.program(),
                    interpreter.jumps(),
                    jump_table_of(interpreter.program()),
                );
                assert(interpreter.machine(io.pending_input(), io.emitted()) == fresh_machine(
                    io.pending_input(),
                    io.emitted(),
                ));
            }
            match interpreter.run(io, max_steps) {
                Ok(status) => Ok(status),
                Err(e) => Err(BrainfuckError::Runtime(e)),
            }
        },
        Err(e) => Err(BrainfuckError::Parse(e)),
    }
}

/// A text with no instruction character denotes the empty program, which
/// is balanced; its run halts at once, reading and writing nothing.
pub proof fn lemma_comment_only_program(
    text: Seq<char>,
    jumps: Map<usize, usize>,
    input: Seq<char>,
    output: Seq<char>,
    fuel: nat,
)
    requires
        forall|i: int| 0 <= i < text.len() ==> instruction_of(#[trigger] text[i]) is None,
    ensures
        parse_spec(text) == Seq::<BrainfuckInstruction>::empty(),
        balanced(parse_spec(text)),
        run_spec(parse_spec(text), jumps, fresh_machine(input, output), fuel) == (
            fresh_machine(input, output),
            Ok::<RunStatus, RuntimeError>(RunStatus::Halted),
        ),
    decreases text.len(),
{
    if text.len() > 0 {
        lemma_comment_only_program(text.drop_last(), jumps, input, output, fuel);
        assert(instruction_of(text[text.len() - 1]) is None);
    }
}

/// The program made of `n` increments.
pub open spec fn increments(n: nat) -> Seq<BrainfuckInstruction> {
    Seq::new(n, |i: int| BrainfuckInstruction::IncrValue)
}

/// The state reached after `k` of the 256 increments.
spec fn after_increments(m: Machine, k: int) -> Machine {
    Machine { tape: m.tape.update(m.ptr, ((m.tape[m.ptr] + k) % 256) as u8), ip: k, ..m }
}

proof fn lemma_increments_from(
    q: Seq<BrainfuckInstruction>,
    jumps: Map<usize, usize>,
    m: Machine,
    k: int,
    fuel: nat,
)
    requires
        0 <= m.ptr < m.tape.len(),
        0 <= k <= 256,
    ensures
        run_spec(increments(256) + q, jumps, after_increments(m, k), (fuel + 256 - k) as nat)
            == run_spec(increments(256) + q, jumps, after_increments(m, 256), fuel),
    decreases 256 - k,
{
    if k < 256 {
        lemma_increments_from(q, jumps, m, k + 1, fuel);
        let a = m.tape[m.ptr] + k;
        let mk = after_increments(m, k);
        assert(mk.tape[m.ptr] == (a % 256) as u8);
        assert((a % 256 + 1) % 256 == (a + 1) % 256) by {
            vstd::arithmetic::div_mod::lemma_add_mod_noop(a, 1, 256);
            vstd::arithmetic::div_mod::lemma_mod_twice(a, 256);
        };
        assert((increments(256) + q)[k] == BrainfuckInstruction::IncrValue);
        assert(mk.tape.update(m.ptr, ((a + 1) % 256) as u8) =~= after_increments(m, k + 1).tape);
        assert(step_spec(increments(256) + q, jumps, mk) == Ok::<Machine, RuntimeError>(
            after_increments(m, k + 1),
        ));
    }
}

/// 256 increments bring a cell back to its value and change nothing else:
/// the machine, and so what it emits next, is as it was before them.
pub proof fn lemma_increment_wraparound(m: Machine, jumps: Map<usize, usize>)
    requires
        m.ip == 0,
        0 <= m.ptr < m.tape.len(),
    ensures
        run_spec(increments(256), jumps, m, 256) == (
            Machine { ip: 256, ..m },
            Ok::<RunStatus, RuntimeError>(RunStatus::Halted),
        ),
{
    lemma_increments_from(Seq::empty(), jumps, m, 0, 0);
    assert(increments(256) + Seq::<BrainfuckInstruction>::empty() == increments(256));
    assert(after_increments(m, 0) == m) by {
        assert(m.tape.update(m.ptr, m.tape[m.ptr]) =~= m.tape);
    };
    assert(after_increments(m, 256) == Machine { ip: 256, ..m }) by {
        assert(m.tape.update(m.ptr, m.tape[m.ptr]) =~= m.tape);
    };
}

/// Two interpreters built from one text hold the same program and the same
/// jump table.
pub proof fn lemma_construction_deterministic(
    text: Seq<char>,
    a: BrainfuckInterpreter,
    b: BrainfuckInterpreter,
)
    requires
        a.wf(),
        b.wf(),
        a.program() == parse_spec(text),
        b.program() == parse_spec(text),
    ensures
        a.program() == b.program(),
        a.jumps() == b.jumps(),
{
    lemma_jump_table_unique(parse_spec(text), a.jumps(), b.jumps());
}

/// `a` with its instruction pointer `n` instructions further on.
pub open spec fn shifted(a: Machine, n: int) -> Machine {
    Machine { ip: a.ip + n, ..a }
}

proof fn lemma_run_after_prefix(
    pre: Seq<BrainfuckInstruction>,
    q: Seq<BrainfuckInstruction>,
    jq: Map<usize, usize>,
    jp: Map<usize, usize>,
    a: Machine,
    fuel: nat,
)
    requires
        forall|k: int| 0 <= k < pre.len() ==> !is_bracket(#[trigger] pre[k]),
        pre.len() + q.len() <= usize::MAX,
        is_jump_table(q, jq),
        is_jump_table(pre + q, jp),
        a.ip >= 0,
    ensures
        ({
            let (r, res) = run_spec(q, jq, a, fuel);
            run_spec(pre + q, jp, shifted(a, pre.len() as int), fuel) == (
                shifted(r, pre.len() as int),
                res,
            )
        }),
    decreases fuel,
{
    let n = pre.len() as int;
    let p = pre + q;
    if a.ip < q.len() && fuel > 0 {
        assert(p[a.ip + n] == q[a.ip]);
        if is_bracket(q[a.ip]) {
            lemma_jump_table_after_prefix(pre, q, jq, jp, a.ip as usize);
            assert((a.ip + n) as usize == (a.ip as usize + n) as usize);
        }
        match step_spec(q, jq, a) {
            Ok(a2) => {
                assert(step_spec(p, jp, shifted(a, n)) == Ok::<Machine, RuntimeError>(
                    shifted(a2, n),
                ));
                lemma_run_after_prefix(pre, q, jq, jp, a2, (fuel - 1) as nat);
            },
            Err(e) => {
                assert(step_spec(p, jp, shifted(a, n)) == Err::<Machine, RuntimeError>(e));
            },
        }
    }
}

/// Putting 256 increments in front of a program leaves its run as it was:
/// the same outcome, tape, data pointer, input and output, with the
/// instruction pointer 256 instructions further on.
pub proof fn lemma_increments_prefix(
    q: Seq<BrainfuckInstruction>,
    jq: Map<usize, usize>,
    jp: Map<usize, usize>,
    m: Machine,
    fuel: nat,
)
    requires
        256 + q.len() <= usize::MAX,
        is_jump_table(q, jq),
        is_jump_table(increments(256) + q, jp),
        m.ip == 0,
        0 <= m.ptr < m.tape.len(),
    ensures
        ({
            let (r, res) = run_spec(q, jq, m, fuel);
            run_spec(increments(256) + q, jp, m, fuel + 256) == (shifted(r, 256), res)
        }),
{
    lemma_increments_from(q, jp, m, 0, fuel);
    assert(after_increments(m, 0) == m) by {
        assert(m.tape.update(m.ptr, m.tape[m.ptr]) =~= m.tape);
    };
    assert(after_increments(m, 256) == shifted(m, 256)) by {
        assert(m.tape.update(m.ptr, m.tape[m.ptr]) =~= m.tape);
    };
    assert forall|k: int| 0 <= k < increments(256).len() implies !is_bracket(
        #[trigger] increments(256)[k],
    ) by {};
    lemma_run_after_prefix(increments(256), q, jq, jp, m, fuel);
}

/// 256 plus signs in front of a text put 256 increments in front of its
/// program, and the brackets balance exactly when they balance in the text
/// alone; `lemma_increments_prefix` then says how the two programs run.
pub proof fn lemma_increments_prefix_text(text: Seq<char>)
    ensures
        parse_spec(Seq::new(256, |i: int| '+') + text) == increments(256) + parse_spec(text),
        balanced(parse_spec(Seq::new(256, |i: int| '+') + text)) == balanced(parse_spec(text)),
{
    lemma_parse_concat(Seq::new(256, |i: int| '+'), text);
    lemma_parse_pluses(256);
    assert forall|k: int| 0 <= k < increments(256).len() implies !is_bracket(
        #[trigger] increments(256)[k],
    ) by {};
    lemma_balanced_after_prefix(increments(256), parse_spec(text));
}

} // verus!
