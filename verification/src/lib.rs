//! A small stack machine over IEEE 754 binary64 numbers.
//!
//! The machine has an instruction pointer, an operand stack, a return stack, 256
//! memory cells and an address pointer. [`State::eval`] runs one instruction on these
//! registers; [`Program`] owns a sequence of instructions and runs the one under the
//! instruction pointer, step by step, until the pointer leaves the sequence or a step
//! fails.
//!
//! Numbers are held as their 64 bits. The machine does no floating-point arithmetic
//! of its own: before a step, [`Program::request`] says what the step needs from the
//! host, a number from the input or the result of an operation on two numbers, and
//! the host hands it to the step.
use vstd::prelude::*;

pub mod instruction;
pub mod number;
pub mod state;

pub use instruction::{Instructions, Operation, Request};
pub use state::{Machine, State};

verus! {

/// Why a step failed.
#[derive(Debug, Clone, Copy, PartialEq, Eq, Structural)]
pub enum Error {
    /// The operand stack held fewer numbers than the instruction takes.
    PopFromEmptyStack,
    /// `Ret` found the return stack empty.
    PopFromEmptyCallStack,
    /// The host supplied no number: the input source yielded none, or the result of
    /// an operation was withheld.
    InputFailed,
}

/// The instructions to run, the machine that runs them, and whether it has stopped.
#[derive(Debug, Clone)]
pub struct Program {
    program: Vec<Instructions>,
    state: State,
    debug: bool,
    finished: bool,
}

/// A [`Program`] as mathematical values.
#[verifier::ext_equal]
pub struct Run {
    /// The instructions, in the order of their addresses.
    pub program: Seq<Instructions>,
    /// The registers.
    pub state: Machine,
    /// Whether the host is asked to trace the steps.
    pub debug: bool,
    /// Whether a step has failed.
    pub finished: bool,
}

impl Run {
    /// The run before its first step.
    pub open spec fn loaded(program: Seq<Instructions>, debug: bool) -> Run {
        Run { program, state: Machine::initial(), debug, finished: false }
    }

    /// Whether there is a step left to take: no step has failed, and the instruction
    /// pointer is inside the program.
    pub open spec fn running(self) -> bool {
        !self.finished && self.state.ip < self.program.len()
    }

    /// The instruction under the instruction pointer.
    pub open spec fn current(self) -> Instructions {
        self.program[self.state.ip as int]
    }

    /// What the next step needs from the host. A run that has stopped needs nothing.
    pub open spec fn request(self) -> Request {
        if self.running() {
            self.state.request(self.current())
        } else {
            Request::Nothing
        }
    }

    /// The run after its next step, and what the step returns: the result of the
    /// instruction under the instruction pointer, or `None` from a run that has
    /// stopped, which stays as it is. A step that fails stops the run.
    pub open spec fn next(self, supplied: Option<u64>) -> (
        Run,
        Option<Result<Option<u64>, Error>>,
    ) {
        if self.running() {
            let (state, res) = self.state.step(self.current(), supplied);
            (Run { state, finished: res is Err, ..self }, Some(res))
        } else {
            (self, None)
        }
    }

    /// The run after as many steps as there are entries in `supplies`, each step
    /// with its entry as what the host supplied.
    pub open spec fn after(self, supplies: Seq<Option<u64>>) -> Run
        decreases supplies.len(),
    {
        if supplies.len() == 0 {
            self
        } else {
            self.after(supplies.drop_last()).next(supplies.last()).0
        }
    }

    /// What those steps return, in their order.
    pub open spec fn emitted(
        self,
        supplies: Seq<Option<u64>>,
    ) -> Seq<Option<Result<Option<u64>, Error>>>
        decreases supplies.len(),
    {
        if supplies.len() == 0 {
            Seq::empty()
        } else {
            self.emitted(supplies.drop_last()).push(
                self.after(supplies.drop_last()).next(supplies.last()).1,
            )
        }
    }

    /// What a host supplies for the next step: the result of its arithmetic `unit`
    /// on the operands where the step asks for one, what its input source yields,
    /// `read`, where the step asks for input, and nothing where it asks for nothing.
    pub open spec fn supply(
        self,
        unit: spec_fn(Operation, u64, u64) -> u64,
        read: Option<u64>,
    ) -> Option<u64> {
        match self.request() {
            Request::Nothing => None,
            Request::Input => read,
            Request::Arithmetic(operation, fst, snd) => Some(unit(operation, fst, snd)),
        }
    }

    /// What a host supplies step by step: it computes with `unit`, and at step `k`
    /// its input source would yield `reads[k]`.
    pub open spec fn hosted(
        self,
        unit: spec_fn(Operation, u64, u64) -> u64,
        reads: Seq<Option<u64>>,
    ) -> Seq<Option<u64>>
        decreases reads.len(),
    {
        if reads.len() == 0 {
            Seq::empty()
        } else {
            let front = self.hosted(unit, reads.drop_last());
            front.push(self.after(front).supply(unit, reads.last()))
        }
    }

    /// The instructions that the steps run, each with what was supplied for it.
    pub open spec fn fetched(self, supplies: Seq<Option<u64>>) -> Seq<
        (Instructions, Option<u64>),
    >
        decreases supplies.len(),
    {
        if supplies.len() == 0 {
            Seq::empty()
        } else {
            self.fetched(supplies.drop_last()).push(
                (self.after(supplies.drop_last()).current(), supplies.last()),
            )
        }
    }

    /// The text of the number that the instruction at `address` pushes, as the host
    /// wrote it out: the entry of `numbers` at that address, or nothing where
    /// `numbers` is too short.
    pub open spec fn number_at(numbers: Seq<Seq<char>>, address: int) -> Seq<char> {
        if 0 <= address < numbers.len() {
            numbers[address]
        } else {
            Seq::empty()
        }
    }

    /// The listing of the first `count` instructions: the line of each, in the order
    /// of their addresses, each line ended by a line feed.
    pub open spec fn listed(self, numbers: Seq<Seq<char>>, count: nat) -> Seq<char>
        decreases count,
    {
        if count == 0 {
            Seq::empty()
        } else {
            self.listed(numbers, (count - 1) as nat) + self.program[count - 1].line(
                Run::number_at(numbers, count - 1),
            ) + seq!['\n']
        }
    }

    /// The listing of the program. It does not depend on the registers.
    pub open spec fn listing(self, numbers: Seq<Seq<char>>) -> Seq<char> {
        self.listed(numbers, self.program.len())
    }
}

impl View for Program {
    type V = Run;

    closed spec fn view(&self) -> Run {
        Run {
            program: self.program@,
            state: self.state@,
            debug: self.debug,
            finished: self.finished,
        }
    }
}

impl Program {
    /// A program that is about to take its first step.
    pub fn new(program: Vec<Instructions>, debug: bool) -> (r: Program)
        ensures
            r@ == Run::loaded(program@, debug),
    {
        Program { program, state: State::new(), debug, finished: false }
    }

    /// The instructions.
    pub fn program(&self) -> (program: &Vec<Instructions>)
        ensures
            program@ == self@.program,
    {
        &self.program
    }

    /// The registers.
    pub fn state(&self) -> (state: &State)
        ensures
            state@ == self@.state,
    {
        &self.state
    }

    /// Whether the host is asked to trace the steps.
    pub fn debug(&self) -> (debug: bool)
        ensures
            debug == self@.debug,
    {
        self.debug
    }

    /// Whether the program has stopped: a step has failed, or the instruction
    /// pointer has left the program.
    pub fn is_finished(&self) -> (finished: bool)
        ensures
            finished == !self@.running(),
    {
        self.finished || self.state.ip() >= self.program.len()
    }

    /// The listing of the program: the line of each instruction (see
    /// [`Instructions::render`]), in the order of their addresses, each ended by a
    /// line feed.
    ///
    /// `numbers` holds, at the address of each `Psh`, the text of the number that it
    /// pushes, which the host writes out. Its other entries are not read, and an
    /// entry that is missing is read as the empty text.
    pub fn listing(&self, numbers: &Vec<String>) -> (r: String)
        ensures
            r@ == self@.listing(numbers.deep_view()),
    {
        let mut text: String = String::new();
        let mut address: usize = 0;
        proof {
            reveal_strlit("");
            reveal_strlit("\n");
        }
        assert(""@ =~= Seq::<char>::empty());
        assert("\n"@ =~= seq!['\n']);
        while address < self.program.len()
            invariant
                address <= self.program.len(),
                text@ == self@.listed(numbers.deep_view(), address as nat),
                ""@ == Seq::<char>::empty(),
                "\n"@ == seq!['\n'],
            decreases self.program.len() - address,
        {
            let line: String = if address < numbers.len() {
                self.program[address].render(numbers[address].as_str())
            } else {
                self.program[address].render("")
            };
            text.append(line.as_str());
            text.append("\n");
            address = address + 1;
        }
        text
    }

    /// What the next step needs from the host before it can run.
    pub fn request(&self) -> (request: Request)
        ensures
            request == self@.request(),
    {
        if !self.finished && self.state.ip() < self.program.len() {
            self.state.request(&self.program[self.state.ip()])
        } else {
            Request::Nothing
        }
    }

    /// Takes the next step: runs the instruction under the instruction pointer, with
    /// `supplied` as what the host hands in for it (see [`State::eval`]).
    ///
    /// Returns what the instruction returned. A step that fails stops the program;
    /// a program that has stopped does nothing and returns `None`.
    pub fn next(&mut self, supplied: Option<u64>) -> (res: Option<Result<Option<u64>, Error>>)
        ensures
            final(self)@ == old(self)@.next(supplied).0,
            res == old(self)@.next(supplied).1,
    {
        if !self.finished && self.state.ip() < self.program.len() {
            let res = self.state.eval(&self.program[self.state.ip()], supplied);
            if res.is_err() {
                self.finished = true;
            }
            Some(res)
        } else {
            None
        }
    }
}

impl From<Vec<Instructions>> for Program {
    /// A program that is about to take its first step, with no tracing asked for.
    fn from(program: Vec<Instructions>) -> (r: Program)
        ensures
            r@ == Run::loaded(program@, false),
    {
        Program::new(program, false)
    }
}

impl vstd::std_specs::convert::FromSpecImpl<Vec<Instructions>> for Program {
    /// Two programs made from the same instructions need not be the same value, so
    /// `from` does not promise to return `from_spec`: what it returns is stated over
    /// its view.
    open spec fn obeys_from_spec() -> bool {
        false
    }

    /// Some program that is about to take its first step on these instructions.
    closed spec fn from_spec(program: Vec<Instructions>) -> Program {
        choose|r: Program| #[trigger] r.view() == Run::loaded(program@, false)
    }
}

impl From<(Vec<Instructions>, bool)> for Program {
    /// A program that is about to take its first step, with tracing as asked for.
    fn from(parts: (Vec<Instructions>, bool)) -> (r: Program)
        ensures
            r@ == Run::loaded(parts.0@, parts.1),
    {
        Program::new(parts.0, parts.1)
    }
}

impl vstd::std_specs::convert::FromSpecImpl<(Vec<Instructions>, bool)> for Program {
    /// As for the conversion from the instructions alone.
    open spec fn obeys_from_spec() -> bool {
        false
    }

    /// Some program that is about to take its first step on these instructions.
    closed spec fn from_spec(parts: (Vec<Instructions>, bool)) -> Program {
        choose|r: Program| #[trigger] r.view() == Run::loaded(parts.0@, parts.1)
    }
}

impl Run {
    /// A step that fails stops the run, and so does a step that moves the
    /// instruction pointer out of the program.
    pub proof fn lemma_failure_stops(self, supplied: Option<u64>)
        ensures
            ({
                let (after, res) = self.next(supplied);
                &&& res matches Some(Err(_)) ==> !after.running()
                &&& after.state.ip >= self.program.len() ==> !after.running()
            }),
    {
    }

    /// A run that has stopped stays as it is, whatever is supplied, and every further
    /// step returns `None`.
    pub proof fn lemma_stopped_stays(self, supplies: Seq<Option<u64>>)
        requires
            !self.running(),
        ensures
            self.after(supplies) == self,
            self.emitted(supplies).len() == supplies.len(),
            forall|k: int| 0 <= k < supplies.len() ==> self.emitted(supplies)[k] is None,
        decreases supplies.len(),
    {
        if supplies.len() > 0 {
            self.lemma_stopped_stays(supplies.drop_last());
        }
    }

    /// Running a program is a function of its instructions and of what the host
    /// supplies: two runs of the same instructions from the start, handed the same
    /// numbers, return the same and pass through the same registers, whether they
    /// are traced or not.
    pub proof fn lemma_rerun(
        program: Seq<Instructions>,
        supplies: Seq<Option<u64>>,
        traced: bool,
        again: bool,
    )
        ensures
            ({
                let first = Run::loaded(program, traced);
                let second = Run::loaded(program, again);
                &&& first.emitted(supplies) == second.emitted(supplies)
                &&& first.after(supplies).state == second.after(supplies).state
                &&& first.after(supplies).finished == second.after(supplies).finished
            }),
    {
        Run::loaded(program, traced).lemma_debug_is_silent(Run::loaded(program, again), supplies);
    }

    /// Tracing changes nothing: two runs that differ in the debug flag at most return
    /// the same and stay alike in everything else.
    pub proof fn lemma_debug_is_silent(self, other: Run, supplies: Seq<Option<u64>>)
        requires
            self.program == other.program,
            self.state == other.state,
            self.finished == other.finished,
        ensures
            self.emitted(supplies) == other.emitted(supplies),
            self.after(supplies).program == other.after(supplies).program,
            self.after(supplies).state == other.after(supplies).state,
            self.after(supplies).finished == other.after(supplies).finished,
            self.after(supplies).debug == self.debug,
        decreases supplies.len(),
    {
        if supplies.len() > 0 {
            self.lemma_debug_is_silent(other, supplies.drop_last());
        }
    }

    /// A run reads what the host supplies only where it asked for it. Two sequences
    /// of supplies that agree at every step before which the run asks for something
    /// give the same run: the same results, the same registers. In particular a run
    /// that never asks for anything is a function of its instructions alone.
    pub proof fn lemma_supplies_read_where_asked(
        self,
        one: Seq<Option<u64>>,
        other: Seq<Option<u64>>,
    )
        requires
            one.len() == other.len(),
            forall|k: int|
                0 <= k < one.len() && !((#[trigger] self.after(one.take(k))).request() is Nothing)
                    ==> one[k] == other[k],
        ensures
            self.after(one) == self.after(other),
            self.emitted(one) == self.emitted(other),
        decreases one.len(),
    {
        if one.len() > 0 {
            let front = one.drop_last();
            assert forall|k: int|
                0 <= k < front.len() && !((#[trigger] self.after(front.take(k))).request()
                    is Nothing) implies front[k] == other.drop_last()[k] by {
                assert(front.take(k) =~= one.take(k));
            }
            self.lemma_supplies_read_where_asked(front, other.drop_last());
            assert(one.take(front.len() as int) =~= front);
            let before = self.after(front);
            if before.running() {
                if before.request() is Nothing {
                    before.state.lemma_unasked(before.current(), one.last(), other.last());
                }
            }
        }
    }

    /// A run that reads no input is a function of its instructions and of the
    /// host's arithmetic: whatever the input source would have yielded, the run
    /// returns the same and passes through the same registers.
    pub proof fn lemma_input_unread(
        self,
        unit: spec_fn(Operation, u64, u64) -> u64,
        reads: Seq<Option<u64>>,
        others: Seq<Option<u64>>,
    )
        requires
            reads.len() == others.len(),
            forall|k: int|
                0 <= k < reads.len() ==> !((#[trigger] self.after(
                    self.hosted(unit, reads.take(k)),
                )).request() is Input),
        ensures
            self.hosted(unit, reads) == self.hosted(unit, others),
            self.emitted(self.hosted(unit, reads)) == self.emitted(self.hosted(unit, others)),
            self.after(self.hosted(unit, reads)) == self.after(self.hosted(unit, others)),
        decreases reads.len(),
    {
        if reads.len() > 0 {
            let front = reads.drop_last();
            assert forall|k: int| 0 <= k < front.len() implies !((#[trigger] self.after(
                self.hosted(unit, front.take(k)),
            )).request() is Input) by {
                assert(front.take(k) =~= reads.take(k));
            }
            self.lemma_input_unread(unit, front, others.drop_last());
            assert(reads.take(front.len() as int) =~= front);
        }
    }

    /// As long as the run has a step to take, it is the machine taking the steps that
    /// the run fetches: what holds of every sequence of steps of the machine holds of
    /// the run of a program.
    pub proof fn lemma_run_of_the_machine(self, supplies: Seq<Option<u64>>)
        requires
            forall|k: int|
                0 <= k < supplies.len() ==> (#[trigger] self.after(supplies.take(k))).running(),
        ensures
            self.after(supplies).state == self.state.run(self.fetched(supplies)),
            self.after(supplies).program == self.program,
            self.fetched(supplies).len() == supplies.len(),
        decreases supplies.len(),
    {
        if supplies.len() > 0 {
            let front = supplies.drop_last();
            assert forall|k: int| 0 <= k < front.len() implies (#[trigger] self.after(
                front.take(k),
            )).running() by {
                assert(front.take(k) =~= supplies.take(k));
            }
            self.lemma_run_of_the_machine(front);
            assert(supplies.take(front.len() as int) =~= front);
            assert(self.fetched(supplies).drop_last() =~= self.fetched(front));
        }
    }

    /// No step changes the instructions or the debug flag, and so none changes the
    /// listing.
    pub proof fn lemma_program_is_kept(self, supplies: Seq<Option<u64>>, numbers: Seq<Seq<char>>)
        ensures
            self.after(supplies).program == self.program,
            self.after(supplies).debug == self.debug,
            self.after(supplies).listing(numbers) == self.listing(numbers),
        decreases supplies.len(),
    {
        if supplies.len() > 0 {
            self.lemma_program_is_kept(supplies.drop_last(), numbers);
        }
        self.lemma_listing_of_the_instructions(
            self.after(supplies),
            numbers,
            self.program.len(),
        );
    }

    /// The listing is one of the instructions alone: two runs of the same
    /// instructions have the same listing, wherever they stand.
    pub proof fn lemma_listing_of_the_instructions(
        self,
        other: Run,
        numbers: Seq<Seq<char>>,
        count: nat,
    )
        requires
            self.program == other.program,
        ensures
            self.listed(numbers, count) == other.listed(numbers, count),
        decreases count,
    {
        if count > 0 {
            self.lemma_listing_of_the_instructions(other, numbers, (count - 1) as nat);
        }
    }
}

} // verus!
