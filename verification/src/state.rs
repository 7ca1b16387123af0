//! The machine's registers and the effect of one instruction on them.
use crate::instruction::{Instructions, Operation, Request};
use crate::number;
use crate::Error;
use vstd::prelude::*;

verus! {

/// The registers of the machine.
#[derive(Debug, Clone)]
pub struct State {
    ip: usize,
    stack: Vec<u64>,
    call_stack: Vec<usize>,
    array: [u64; 256],
    ap: u8,
}

/// The registers as mathematical values: what a [`State`] stands for.
#[verifier::ext_equal]
pub struct Machine {
    /// The instruction pointer.
    pub ip: usize,
    /// The operand stack, the top last.
    pub stack: Seq<u64>,
    /// The return stack, the top last.
    pub call_stack: Seq<usize>,
    /// The memory cells.
    pub array: Seq<u64>,
    /// The address pointer.
    pub ap: u8,
}

/// What a step returns that went through and emitted nothing.
pub open spec fn silent() -> Result<Option<u64>, Error> {
    Ok(None)
}

/// What a step returns that emitted `value`.
pub open spec fn emitted(value: u64) -> Result<Option<u64>, Error> {
    Ok(Some(value))
}

/// The address after `ip`: one more, and zero after the last address.
pub open spec fn following(ip: usize) -> usize {
    if ip == usize::MAX {
        0
    } else {
        (ip + 1) as usize
    }
}

impl Machine {
    /// A machine has 256 memory cells.
    pub open spec fn wf(self) -> bool {
        self.array.len() == 256
    }

    /// The machine before its first step: every register zero, both stacks empty.
    pub open spec fn initial() -> Machine {
        Machine {
            ip: 0,
            stack: Seq::empty(),
            call_stack: Seq::empty(),
            array: Seq::new(256, |i: int| 0u64),
            ap: 0,
        }
    }

    /// The top of the operand stack.
    pub open spec fn top(self) -> u64 {
        self.stack.last()
    }

    /// The memory cell under the address pointer.
    pub open spec fn cell(self) -> u64 {
        self.array[self.ap as int]
    }

    /// The instruction pointer moved on by one.
    pub open spec fn advance(self) -> Machine {
        Machine { ip: following(self.ip), ..self }
    }

    /// One more number on the operand stack.
    pub open spec fn push(self, value: u64) -> Machine {
        Machine { stack: self.stack.push(value), ..self }
    }

    /// The operand stack without its top.
    pub open spec fn pop(self) -> Machine {
        Machine { stack: self.stack.drop_last(), ..self }
    }

    /// The operand stack with the cells at `i` and `j` exchanged.
    pub open spec fn swap(self, i: int, j: int) -> Machine {
        Machine { stack: self.stack.update(i, self.stack[j]).update(j, self.stack[i]), ..self }
    }

    /// The memory cell under the address pointer overwritten.
    pub open spec fn store(self, value: u64) -> Machine {
        Machine { array: self.array.update(self.ap as int, value), ..self }
    }

    /// A call: the instruction pointer is saved on the return stack and the machine
    /// goes on at `target`.
    pub open spec fn call(self, target: usize) -> Machine {
        Machine { call_stack: self.call_stack.push(self.ip), ip: target, ..self }
    }

    /// Where a call through memory goes on: the address held in the cell under the
    /// address pointer, moved on by one as after every instruction.
    pub open spec fn indirect(self) -> usize {
        following(number::index_of(self.cell()))
    }

    /// The refusal of a step that found the operand stack too short.
    pub open spec fn underflow(self) -> (Machine, Result<Option<u64>, Error>) {
        (self, Err(Error::PopFromEmptyStack))
    }

    /// A step that went through without emitting anything: the instruction pointer
    /// moves on.
    pub open spec fn done(self) -> (Machine, Result<Option<u64>, Error>) {
        (self.advance(), silent())
    }

    /// A call that went through. The target is where the machine goes on, so the
    /// instruction pointer does not move on from it.
    pub open spec fn called(self, target: usize) -> (Machine, Result<Option<u64>, Error>) {
        (self.call(target), silent())
    }

    /// The two operands of an instruction on two numbers, where the stack holds
    /// them: the left operand is the second from the top, the right one the top.
    pub open spec fn operands(self, operation: Operation) -> Request {
        if self.stack.len() >= 2 {
            Request::Arithmetic(
                operation,
                self.stack[self.stack.len() - 2],
                self.stack[self.stack.len() - 1],
            )
        } else {
            Request::Nothing
        }
    }

    /// What the step of `instruction` needs from the host: a number from the input
    /// for `Inp`, the result for an instruction on two numbers that finds both on the
    /// stack, nothing otherwise.
    pub open spec fn request(self, instruction: Instructions) -> Request {
        match instruction {
            Instructions::Inp => Request::Input,
            _ => match instruction.operation() {
                Some(operation) => self.operands(operation),
                None => Request::Nothing,
            },
        }
    }

    /// An instruction on two numbers: both are popped, the right operand first, and
    /// the result that the host supplied is pushed. Where an operand is missing, or
    /// the host supplied no result, what was popped stays popped.
    pub open spec fn compute(self, supplied: Option<u64>) -> (
        Machine,
        Result<Option<u64>, Error>,
    ) {
        if self.stack.len() == 0 {
            self.underflow()
        } else if self.stack.len() == 1 {
            self.pop().underflow()
        } else {
            match supplied {
                Some(result) => self.pop().pop().push(result).done(),
                None => (self.pop().pop(), Err(Error::InputFailed)),
            }
        }
    }

    /// A conditional call: the top is popped, and the call is made if `taken`.
    pub open spec fn branch(self, taken: bool, target: usize) -> (
        Machine,
        Result<Option<u64>, Error>,
    ) {
        if self.stack.len() == 0 {
            self.underflow()
        } else if taken {
            self.pop().called(target)
        } else {
            self.pop().done()
        }
    }

    /// The machine after the step of `instruction`, and what the step returns.
    ///
    /// `supplied` is what the host hands in: for `Inp` what the input source yielded,
    /// for an instruction on two numbers the result of the operation on the operands
    /// named by [`Machine::request`]. A step that fails leaves the instruction pointer
    /// where it was.
    ///
    /// A call ends on its target: the literal target of `Jmp`, `Jiz` and `Jnz`, which
    /// the machine first sets back by one and then moves on from like after any
    /// instruction; and one past the address held in memory for `Jmpa`, `Jiza` and
    /// `Jnza`, which set nothing back.
    pub open spec fn step(self, instruction: Instructions, supplied: Option<u64>) -> (
        Machine,
        Result<Option<u64>, Error>,
    ) {
        match instruction {
            Instructions::Psh(n) => self.push(n).done(),
            Instructions::Pfa => self.push(self.cell()).done(),
            Instructions::Pta => if self.stack.len() == 0 {
                self.underflow()
            } else {
                self.pop().store(self.top()).done()
            },
            Instructions::Gap => self.push(number::of_nat(self.ap as nat)).done(),
            Instructions::Ptap => if self.stack.len() == 0 {
                self.underflow()
            } else {
                Machine { ap: number::byte_of(self.top()), ..self.pop() }.done()
            },
            Instructions::Sap(n) => Machine { ap: n, ..self }.done(),
            Instructions::Pek => if self.stack.len() == 0 {
                self.underflow()
            } else {
                (self.advance(), emitted(self.top()))
            },
            Instructions::Inp => match supplied {
                Some(n) => self.push(n).done(),
                None => (self, Err(Error::InputFailed)),
            },
            Instructions::Dup => if self.stack.len() == 0 {
                self.underflow()
            } else {
                self.push(self.top()).done()
            },
            Instructions::Pop => if self.stack.len() == 0 {
                self.underflow()
            } else {
                self.pop().done()
            },
            Instructions::Swp => if self.stack.len() < 2 {
                self.underflow()
            } else {
                self.swap(self.stack.len() - 1, self.stack.len() - 2).done()
            },
            Instructions::Lsw(n) => if self.stack.len() < n + 2 {
                self.underflow()
            } else {
                self.swap(self.stack.len() - 1, self.stack.len() - n - 2).done()
            },
            Instructions::Add
            | Instructions::Sub
            | Instructions::Mul
            | Instructions::Div
            | Instructions::Mod
            | Instructions::Max
            | Instructions::Min => self.compute(supplied),
            Instructions::Abs => if self.stack.len() == 0 {
                self.underflow()
            } else {
                self.pop().push(number::magnitude(self.top())).done()
            },
            Instructions::Jmp(n) => self.called(n),
            Instructions::Jiz(n) => self.branch(number::within_epsilon(self.top()), n),
            Instructions::Jnz(n) => self.branch(number::beyond_epsilon(self.top()), n),
            Instructions::Ipta => self.store(number::of_index(self.ip)).done(),
            Instructions::Jmpa => self.called(self.indirect()),
            Instructions::Jiza => self.branch(number::within_epsilon(self.top()), self.indirect()),
            Instructions::Jnza => self.branch(number::beyond_epsilon(self.top()), self.indirect()),
            Instructions::Ret => if self.call_stack.len() == 0 {
                (self, Err(Error::PopFromEmptyCallStack))
            } else {
                (
                    Machine {
                        ip: following(self.call_stack.last()),
                        call_stack: self.call_stack.drop_last(),
                        ..self
                    },
                    silent(),
                )
            },
        }
    }
}

impl View for State {
    type V = Machine;

    closed spec fn view(&self) -> Machine {
        Machine {
            ip: self.ip,
            stack: self.stack@,
            call_stack: self.call_stack@,
            array: self.array@,
            ap: self.ap,
        }
    }
}

impl Default for State {
    /// The machine before its first step.
    fn default() -> (state: State)
        ensures
            state@ == Machine::initial(),
    {
        State::new()
    }
}

impl State {
    /// The machine before its first step.
    pub fn new() -> (state: State)
        ensures
            state@ == Machine::initial(),
            state@.wf(),
    {
        let state = State {
            ip: 0,
            stack: Vec::new(),
            call_stack: Vec::new(),
            array: [0u64; 256],
            ap: 0,
        };
        assert(state@ =~= Machine::initial());
        state
    }

    /// Every state has its 256 memory cells.
    pub proof fn lemma_wf(&self)
        ensures
            self@.wf(),
    {
    }

    /// The instruction pointer.
    pub fn ip(&self) -> (ip: usize)
        ensures
            ip == self@.ip,
    {
        self.ip
    }

    /// The operand stack, the top last.
    pub fn stack(&self) -> (stack: &Vec<u64>)
        ensures
            stack@ == self@.stack,
    {
        &self.stack
    }

    /// The return stack, the top last.
    pub fn call_stack(&self) -> (call_stack: &Vec<usize>)
        ensures
            call_stack@ == self@.call_stack,
    {
        &self.call_stack
    }

    /// The memory cells.
    pub fn array(&self) -> (array: &[u64; 256])
        ensures
            array@ == self@.array,
    {
        &self.array
    }

    /// The address pointer.
    pub fn ap(&self) -> (ap: u8)
        ensures
            ap == self@.ap,
    {
        self.ap
    }

    /// What the step of `instruction` needs from the host before it can run.
    pub fn request(&self, instruction: &Instructions) -> (request: Request)
        ensures
            request == self@.request(*instruction),
    {
        let operation: Operation = match *instruction {
            Instructions::Inp => return Request::Input,
            Instructions::Add => Operation::Add,
            Instructions::Sub => Operation::Sub,
            Instructions::Mul => Operation::Mul,
            Instructions::Div => Operation::Div,
            Instructions::Mod => Operation::Mod,
            Instructions::Max => Operation::Max,
            Instructions::Min => Operation::Min,
            _ => return Request::Nothing,
        };
        let len: usize = self.stack.len();
        if len >= 2 {
            Request::Arithmetic(operation, self.stack[len - 2], self.stack[len - 1])
        } else {
            Request::Nothing
        }
    }

    /// Pops the operand stack, or says that it is empty.
    fn take(&mut self) -> (r: Result<u64, Error>)
        ensures
            old(self)@.stack.len() > 0 ==> r == Ok::<u64, Error>(old(self)@.top()) && final(self)@
                == old(self)@.pop(),
            old(self)@.stack.len() == 0 ==> r == Err::<u64, Error>(Error::PopFromEmptyStack)
                && final(self)@ == old(self)@,
    {
        match self.stack.pop() {
            Some(value) => Ok(value),
            None => Err(Error::PopFromEmptyStack),
        }
    }

    /// Exchanges the top of the operand stack with the cell `depth` places below
    /// it, or says that the stack is too short.
    fn exchange(&mut self, depth: usize) -> (r: Result<(), Error>)
        requires
            depth >= 1,
        ensures
            old(self)@.stack.len() > depth ==> r is Ok && final(self)@ == old(self)@.swap(
                old(self)@.stack.len() - 1,
                old(self)@.stack.len() - 1 - depth,
            ),
            old(self)@.stack.len() <= depth ==> r == Err::<(), Error>(Error::PopFromEmptyStack)
                && final(self)@ == old(self)@,
    {
        let len: usize = self.stack.len();
        if len <= depth {
            return Err(Error::PopFromEmptyStack);
        }
        let upper: u64 = self.stack[len - 1];
        let lower: u64 = self.stack[len - 1 - depth];
        self.stack[len - 1] = lower;
        self.stack[len - 1 - depth] = upper;
        assert(self@ =~= old(self)@.swap(len - 1, len - 1 - depth));
        Ok(())
    }

    /// Saves the instruction pointer on the return stack and sets it to `target`.
    fn enter(&mut self, target: usize)
        ensures
            final(self)@ == old(self)@.call(target),
    {
        self.call_stack.push(self.ip);
        self.ip = target;
    }

    /// Runs one instruction.
    ///
    /// `supplied` is what the host hands in for this step: for `Inp` what the input
    /// source yielded; for an instruction on two numbers the result of the operation
    /// on the operands that [`State::request`] named. A step that needs a number and
    /// is handed `None` fails with [`Error::InputFailed`]. No other instruction reads
    /// `supplied`.
    ///
    /// Returns the top of the stack for `Pek` and nothing for every other
    /// instruction, or the reason why the step failed. A step that fails leaves the
    /// instruction pointer where it was, and undoes nothing of what it did before it
    /// failed.
    pub fn eval(
        &mut self,
        instruction: &Instructions,
        supplied: Option<u64>,
    ) -> (res: Result<Option<u64>, Error>)
        ensures
            final(self)@ == old(self)@.step(*instruction, supplied).0,
            res == old(self)@.step(*instruction, supplied).1,
            final(self)@.wf(),
    {
        let mut res: Option<u64> = None;
        match *instruction {
            Instructions::Psh(n) => self.stack.push(n),
            Instructions::Pfa => {
                let value: u64 = self.array[self.ap as usize];
                self.stack.push(value)
            },
            Instructions::Pta => {
                let value: u64 = self.take()?;
                self.array[self.ap as usize] = value
            },
            Instructions::Gap => self.stack.push(number::from_byte(self.ap)),
            Instructions::Ptap => {
                let value: u64 = self.take()?;
                self.ap = number::to_byte(value)
            },
            Instructions::Sap(n) => self.ap = n,
            Instructions::Pek => {
                let len: usize = self.stack.len();
                if len == 0 {
                    return Err(Error::PopFromEmptyStack);
                }
                res = Some(self.stack[len - 1])
            },
            Instructions::Inp => match supplied {
                Some(value) => self.stack.push(value),
                None => return Err(Error::InputFailed),
            },
            Instructions::Dup => {
                let len: usize = self.stack.len();
                if len == 0 {
                    return Err(Error::PopFromEmptyStack);
                }
                let value: u64 = self.stack[len - 1];
                self.stack.push(value)
            },
            Instructions::Pop => {
                self.take()?;
            },
            Instructions::Swp => self.exchange(1)?,
            Instructions::Lsw(n) => {
                let len: usize = self.stack.len();
                if len < 2 || n > len - 2 {
                    return Err(Error::PopFromEmptyStack);
                }
                self.exchange(n + 1)?
            },
            Instructions::Add
            | Instructions::Sub
            | Instructions::Mul
            | Instructions::Div
            | Instructions::Mod
            | Instructions::Max
            | Instructions::Min => {
                self.take()?;
                self.take()?;
                match supplied {
                    Some(result) => self.stack.push(result),
                    None => return Err(Error::InputFailed),
                }
            },
            Instructions::Abs => {
                let value: u64 = self.take()?;
                self.stack.push(number::abs(value))
            },
            Instructions::Jmp(n) => self.enter(n.wrapping_sub(1)),
            Instructions::Jiz(n) => {
                if number::is_zero(self.take()?) {
                    self.enter(n.wrapping_sub(1))
                }
            },
            Instructions::Jnz(n) => {
                if number::is_nonzero(self.take()?) {
                    self.enter(n.wrapping_sub(1))
                }
            },
            Instructions::Ipta => self.array[self.ap as usize] = number::from_index(self.ip),
            Instructions::Jmpa => self.enter(number::to_index(self.array[self.ap as usize])),
            Instructions::Jiza => {
                if number::is_zero(self.take()?) {
                    self.enter(number::to_index(self.array[self.ap as usize]))
                }
            },
            Instructions::Jnza => {
                if number::is_nonzero(self.take()?) {
                    self.enter(number::to_index(self.array[self.ap as usize]))
                }
            },
            Instructions::Ret => match self.call_stack.pop() {
                Some(address) => self.ip = address,
                None => return Err(Error::PopFromEmptyCallStack),
            },
        };
        self.ip = self.ip.wrapping_add(1);
        assert(self@ =~= old(self)@.step(*instruction, supplied).0);
        Ok(res)
    }
}

impl Machine {
    /// The machine after a sequence of steps, each an instruction with what the host
    /// supplied for it. A step that fails leaves what it leaves, and the next one is
    /// taken all the same.
    pub open spec fn run(self, trace: Seq<(Instructions, Option<u64>)>) -> Machine
        decreases trace.len(),
    {
        if trace.len() == 0 {
            self
        } else {
            self.run(trace.drop_last()).step(trace.last().0, trace.last().1).0
        }
    }

    /// When a step succeeds and when it fails, and with which error.
    ///
    /// It fails on the operand stack exactly when the stack holds fewer numbers than
    /// the instruction takes; on the return stack exactly when `Ret` finds it empty;
    /// and for want of a number from the host exactly when the step asked for one and
    /// none was supplied. It succeeds in every other case, whatever the numbers are.
    /// A step that fails leaves the instruction pointer, the return stack, the memory
    /// and the address pointer as they were.
    pub proof fn lemma_outcome(self, instruction: Instructions, supplied: Option<u64>)
        ensures
            self.step(instruction, supplied).1 == Err::<Option<u64>, Error>(
                Error::PopFromEmptyStack,
            ) <==> self.stack.len() < instruction.takes(),
            self.step(instruction, supplied).1 == Err::<Option<u64>, Error>(
                Error::PopFromEmptyCallStack,
            ) <==> instruction == Instructions::Ret && self.call_stack.len() == 0,
            self.step(instruction, supplied).1 == Err::<Option<u64>, Error>(Error::InputFailed)
                <==> !(self.request(instruction) is Nothing) && supplied is None,
            self.step(instruction, supplied).1 is Err ==> ({
                let after = self.step(instruction, supplied).0;
                &&& after.ip == self.ip
                &&& after.call_stack == self.call_stack
                &&& after.array == self.array
                &&& after.ap == self.ap
            }),
    {
    }

    /// Where a step leaves the instruction pointer. A step that fails leaves it where
    /// it was. A step that succeeds without touching the return stack moves it on by
    /// one. A step that makes a call saves it on the return stack and sets it to the
    /// target: the literal one, or one past the address held in memory. And `Ret`
    /// sets it to the address after the one it pops.
    pub proof fn lemma_pointer(self, instruction: Instructions, supplied: Option<u64>)
        ensures
            ({
                let (after, res) = self.step(instruction, supplied);
                &&& res is Err ==> after.ip == self.ip
                &&& res is Ok && after.call_stack.len() == self.call_stack.len() ==> {
                    &&& after.call_stack == self.call_stack
                    &&& after.ip == following(self.ip)
                }
                &&& res is Ok && after.call_stack.len() > self.call_stack.len() ==> {
                    &&& after.call_stack == self.call_stack.push(self.ip)
                    &&& after.ip == match instruction {
                        Instructions::Jmp(n) | Instructions::Jiz(n) | Instructions::Jnz(n) => n,
                        _ => self.indirect(),
                    }
                }
                &&& res is Ok && after.call_stack.len() < self.call_stack.len() ==> {
                    &&& instruction == Instructions::Ret
                    &&& after.call_stack == self.call_stack.drop_last()
                    &&& after.ip == following(self.call_stack.last())
                }
            }),
    {
    }

    /// Only `Pek` emits, and what it emits is the top of the stack.
    pub proof fn lemma_only_peek_emits(self, instruction: Instructions, supplied: Option<u64>)
        ensures
            self.step(instruction, supplied).1 matches Ok(Some(value)) ==> instruction
                == Instructions::Pek && value == self.top(),
    {
    }

    /// `Pek` leaves the operand stack as it is, whether it emits the top or fails on
    /// an empty stack. It emits the top exactly when there is one.
    pub proof fn lemma_peek_keeps_stack(self, supplied: Option<u64>)
        ensures
            self.step(Instructions::Pek, supplied).0.stack == self.stack,
            self.stack.len() > 0 ==> self.step(Instructions::Pek, supplied).1 == emitted(
                self.top(),
            ),
            self.stack.len() == 0 ==> self.step(Instructions::Pek, supplied) == self.underflow(),
    {
    }

    /// An instruction on two numbers succeeds exactly when the stack holds two
    /// numbers and the host supplied the result. It then takes two cells and leaves
    /// one: the stack is one shorter, the result is its top, and the cells below the
    /// operands are as they were.
    pub proof fn lemma_arithmetic_depth(self, instruction: Instructions, supplied: Option<u64>)
        requires
            instruction.operation() is Some,
        ensures
            self.step(instruction, supplied).1 is Ok <==> self.stack.len() >= 2 && supplied is Some,
            self.step(instruction, supplied).1 is Ok ==> ({
                let after = self.step(instruction, supplied).0;
                &&& after.stack.len() == self.stack.len() - 1
                &&& after.stack == self.stack.take(self.stack.len() - 2).push(supplied.unwrap())
            }),
    {
        if self.stack.len() >= 2 && supplied is Some {
            let after = self.step(instruction, supplied).0;
            assert(after.stack =~= self.stack.take(self.stack.len() - 2).push(supplied.unwrap()));
        }
    }

    /// `Abs` succeeds exactly when the stack holds a number. It then takes one cell
    /// and leaves one: the stack is as long as before, and only its top has changed.
    pub proof fn lemma_abs_depth(self, supplied: Option<u64>)
        ensures
            self.step(Instructions::Abs, supplied).1 is Ok <==> self.stack.len() >= 1,
            self.step(Instructions::Abs, supplied).1 is Ok ==> ({
                let after = self.step(Instructions::Abs, supplied).0;
                &&& after.stack.len() == self.stack.len()
                &&& after.stack == self.stack.update(
                    self.stack.len() - 1,
                    number::magnitude(self.top()),
                )
            }),
    {
        if self.stack.len() >= 1 {
            let after = self.step(Instructions::Abs, supplied).0;
            assert(after.stack =~= self.stack.update(
                self.stack.len() - 1,
                number::magnitude(self.top()),
            ));
        }
    }

    /// What one step does to the return stack: nothing, or it pushes the instruction
    /// pointer, or, for `Ret` alone, it pops.
    pub proof fn lemma_step_return_stack(self, instruction: Instructions, supplied: Option<u64>)
        ensures
            ({
                let after = self.step(instruction, supplied).0.call_stack;
                ||| after == self.call_stack
                ||| after == self.call_stack.push(self.ip)
                ||| instruction == Instructions::Ret && self.call_stack.len() > 0 && after
                    == self.call_stack.drop_last()
            }),
    {
    }

    /// As long as the return stack does not get shorter than `depth`, its `depth`
    /// lowest cells stay as they are.
    pub proof fn lemma_return_stack_kept(
        self,
        trace: Seq<(Instructions, Option<u64>)>,
        depth: nat,
    )
        requires
            forall|k: int|
                0 <= k <= trace.len() ==> (#[trigger] self.run(trace.take(k))).call_stack.len()
                    >= depth,
        ensures
            self.run(trace).call_stack.take(depth as int) == self.call_stack.take(depth as int),
        decreases trace.len(),
    {
        if trace.len() > 0 {
            let front = trace.drop_last();
            assert forall|k: int| 0 <= k <= front.len() implies (#[trigger] self.run(
                front.take(k),
            )).call_stack.len() >= depth by {
                assert(front.take(k) =~= trace.take(k));
            }
            self.lemma_return_stack_kept(front, depth);
            assert(trace.take(front.len() as int) =~= front);
            assert(trace.take(trace.len() as int) =~= trace);
            let before = self.run(front);
            before.lemma_step_return_stack(trace.last().0, trace.last().1);
            assert(self.run(trace).call_stack.take(depth as int) =~= before.call_stack.take(
                depth as int,
            ));
        } else {
            assert(trace.take(0) =~= trace);
        }
    }

    /// A call and its return pair up. After `Jmp`, let the machine take any steps
    /// during which the return stack stays above the depth it had before the call,
    /// and which leave it just one above that depth: every call made meanwhile has
    /// returned. Then `Ret` succeeds and goes on at the address after the `Jmp`,
    /// with the return stack as it was before the call.
    pub proof fn lemma_call_and_return(
        self,
        target: usize,
        supplied: Option<u64>,
        trace: Seq<(Instructions, Option<u64>)>,
    )
        requires
            forall|k: int|
                0 <= k <= trace.len() ==> (#[trigger] self.step(
                    Instructions::Jmp(target),
                    supplied,
                ).0.run(trace.take(k))).call_stack.len() > self.call_stack.len(),
            self.step(Instructions::Jmp(target), supplied).0.run(trace).call_stack.len()
                == self.call_stack.len() + 1,
        ensures
            ({
                let called = self.step(Instructions::Jmp(target), supplied).0;
                let back = called.run(trace).step(Instructions::Ret, None);
                &&& called.ip == target
                &&& back.1 == silent()
                &&& back.0.ip == following(self.ip)
                &&& back.0.call_stack == self.call_stack
            }),
    {
        let called = self.step(Instructions::Jmp(target), supplied).0;
        let depth = self.call_stack.len() + 1;
        called.lemma_return_stack_kept(trace, depth);
        let stack = called.run(trace).call_stack;
        assert(stack.take(depth as int) =~= stack);
        assert(called.call_stack.take(depth as int) =~= called.call_stack);
        assert(stack.drop_last() =~= self.call_stack);
    }

    /// Storing and loading through the address pointer: `Sap(k)`, `Psh(v)`, `Pta`,
    /// `Sap(k)`, `Pfa` all succeed and leave `v` on top of the stack as it was before,
    /// and in memory cell `k`.
    pub proof fn lemma_store_and_load(self, k: u8, v: u64)
        requires
            self.wf(),
        ensures
            ({
                let trace = seq![
                    (Instructions::Sap(k), None::<u64>),
                    (Instructions::Psh(v), None::<u64>),
                    (Instructions::Pta, None::<u64>),
                    (Instructions::Sap(k), None::<u64>),
                    (Instructions::Pfa, None::<u64>),
                ];
                let after = self.run(trace);
                &&& forall|i: int|
                    0 <= i < trace.len() ==> (#[trigger] self.run(trace.take(i))).step(
                        trace[i].0,
                        trace[i].1,
                    ).1 is Ok
                &&& after.stack == self.stack.push(v)
                &&& after.top() == v
                &&& after.array == self.array.update(k as int, v)
                &&& after.ap == k
            }),
    {
        let trace = seq![
            (Instructions::Sap(k), None::<u64>),
            (Instructions::Psh(v), None::<u64>),
            (Instructions::Pta, None::<u64>),
            (Instructions::Sap(k), None::<u64>),
            (Instructions::Pfa, None::<u64>),
        ];
        let m0 = self;
        let m1 = m0.step(Instructions::Sap(k), None).0;
        let m2 = m1.step(Instructions::Psh(v), None).0;
        let m3 = m2.step(Instructions::Pta, None).0;
        let m4 = m3.step(Instructions::Sap(k), None).0;
        let m5 = m4.step(Instructions::Pfa, None).0;
        reveal_with_fuel(Machine::run, 6);
        assert(trace.take(0) =~= Seq::empty());
        assert(trace.take(1).drop_last() =~= trace.take(0));
        assert(trace.take(2).drop_last() =~= trace.take(1));
        assert(trace.take(3).drop_last() =~= trace.take(2));
        assert(trace.take(4).drop_last() =~= trace.take(3));
        assert(trace.take(5).drop_last() =~= trace.take(4));
        assert(trace.take(5) =~= trace);
        assert(self.run(trace.take(0)) == m0);
        assert(self.run(trace.take(1)) == m1);
        assert(self.run(trace.take(2)) == m2);
        assert(self.run(trace.take(3)) == m3);
        assert(self.run(trace.take(4)) == m4);
        assert(self.run(trace.take(5)) == m5);
        assert(m3.stack =~= self.stack);
        assert(m5.stack =~= self.stack.push(v));
        assert(m5.array =~= self.array.update(k as int, v));
    }

    /// The address pointer survives the way over the stack: after `Gap` and `Ptap`
    /// it is what it was, and so is the stack.
    pub proof fn lemma_pointer_over_stack(self)
        ensures
            ({
                let pushed = self.step(Instructions::Gap, None);
                let popped = pushed.0.step(Instructions::Ptap, None);
                &&& pushed.1 is Ok
                &&& popped.1 is Ok
                &&& number::encodes(pushed.0.top(), self.ap as nat)
                &&& popped.0.ap == self.ap
                &&& popped.0.stack == self.stack
            }),
    {
        let bits = number::lemma_encodable(self.ap as nat);
        number::lemma_encoded_converts_back(bits, self.ap as nat);
        let pushed = self.step(Instructions::Gap, None);
        let popped = pushed.0.step(Instructions::Ptap, None);
        assert(popped.0.stack =~= self.stack);
    }

    /// A stored instruction pointer leads back: `Ipta` leaves in memory the number
    /// nearest to its own address, and where the address is itself a number, which
    /// every address below two to the power 53 is, a call through that cell goes on
    /// at the address after the `Ipta`.
    pub proof fn lemma_stored_pointer(self)
        requires
            self.wf(),
        ensures
            ({
                let stored = self.step(Instructions::Ipta, None);
                &&& stored.1 is Ok
                &&& number::encodes(stored.0.cell(), number::rounded(self.ip as nat))
                &&& self.ip < number::EXACT ==> stored.0.indirect() == following(self.ip)
            }),
    {
        let bits = number::lemma_rounded_encodable(self.ip as nat);
        if self.ip < number::EXACT {
            number::lemma_rounded_exact(self.ip as nat);
            number::lemma_encoded_converts_back(bits, self.ip as nat);
        }
    }

    /// A step that asks nothing of the host does not read what the host supplies.
    pub proof fn lemma_unasked(
        self,
        instruction: Instructions,
        one: Option<u64>,
        other: Option<u64>,
    )
        requires
            self.request(instruction) is Nothing,
        ensures
            self.step(instruction, one) == self.step(instruction, other),
    {
    }
}

} // verus!
