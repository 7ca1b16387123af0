//! The instruction set.
use crate::state::State;
use crate::Error;
use vstd::prelude::*;

verus! {

/// One instruction of the machine. A number operand is held as the 64 bits of an
/// IEEE 754 binary64.
#[derive(Debug, Clone, Copy, PartialEq, Eq, Structural)]
pub enum Instructions {
    /// Push a number.
    Psh(u64),
    /// Push the memory cell under the address pointer.
    Pfa,
    /// Pop into the memory cell under the address pointer.
    Pta,
    /// Push the address pointer.
    Gap,
    /// Pop into the address pointer.
    Ptap,
    /// Set the address pointer.
    Sap(u8),
    /// Emit the top of the stack and leave it there.
    Pek,
    /// Push a number read from the input.
    Inp,
    /// Push the top of the stack once more.
    Dup,
    /// Drop the top of the stack.
    Pop,
    /// Exchange the two topmost cells.
    Swp,
    /// Exchange the top with the cell so many places below the second.
    Lsw(usize),
    /// Replace the two topmost cells by their sum.
    Add,
    /// Replace the two topmost cells by their difference.
    Sub,
    /// Replace the two topmost cells by their product.
    Mul,
    /// Replace the two topmost cells by their quotient.
    Div,
    /// Replace the two topmost cells by the remainder of their division.
    Mod,
    /// Replace the top by its absolute value.
    Abs,
    /// Replace the two topmost cells by the greater.
    Max,
    /// Replace the two topmost cells by the lesser.
    Min,
    /// Call the given address.
    Jmp(usize),
    /// Pop, and call the given address if what was popped is zero.
    Jiz(usize),
    /// Pop, and call the given address if what was popped is nonzero.
    Jnz(usize),
    /// Store the instruction pointer in the memory cell under the address pointer.
    Ipta,
    /// Call the address held in the memory cell under the address pointer.
    Jmpa,
    /// Pop, and call the address held in memory if what was popped is zero.
    Jiza,
    /// Pop, and call the address held in memory if what was popped is nonzero.
    Jnza,
    /// Return to where the last call came from.
    Ret,
}

/// The arithmetic on two numbers that the machine leaves to its host.
#[derive(Debug, Clone, Copy, PartialEq, Eq, Structural)]
pub enum Operation {
    Add,
    Sub,
    Mul,
    Div,
    Mod,
    Max,
    Min,
}

/// What a step needs from the host before it can run.
#[derive(Debug, Clone, Copy, PartialEq, Eq, Structural)]
pub enum Request {
    /// The step runs by itself.
    Nothing,
    /// The step pushes what the input source yields.
    Input,
    /// The step pushes the result of the operation on the two numbers, the left
    /// operand first.
    Arithmetic(Operation, u64, u64),
}

impl Instructions {
    /// The arithmetic that the instruction asks of the host, if it is one of the
    /// seven instructions on two numbers.
    pub open spec fn operation(self) -> Option<Operation> {
        match self {
            Instructions::Add => Some(Operation::Add),
            Instructions::Sub => Some(Operation::Sub),
            Instructions::Mul => Some(Operation::Mul),
            Instructions::Div => Some(Operation::Div),
            Instructions::Mod => Some(Operation::Mod),
            Instructions::Max => Some(Operation::Max),
            Instructions::Min => Some(Operation::Min),
            _ => None,
        }
    }

    /// How many numbers the instruction needs on the operand stack.
    pub open spec fn takes(self) -> nat {
        match self {
            Instructions::Pta
            | Instructions::Ptap
            | Instructions::Pek
            | Instructions::Dup
            | Instructions::Pop
            | Instructions::Abs
            | Instructions::Jiz(_)
            | Instructions::Jnz(_)
            | Instructions::Jiza
            | Instructions::Jnza => 1,
            Instructions::Swp
            | Instructions::Add
            | Instructions::Sub
            | Instructions::Mul
            | Instructions::Div
            | Instructions::Mod
            | Instructions::Max
            | Instructions::Min => 2,
            Instructions::Lsw(n) => (n + 2) as nat,
            _ => 0,
        }
    }

    /// Runs the instruction on `state`. This is [`State::eval`] seen from the
    /// instruction.
    pub fn eval(
        &self,
        state: &mut State,
        supplied: Option<u64>,
    ) -> (res: Result<Option<u64>, Error>)
        ensures
            final(state)@ == old(state)@.step(*self, supplied).0,
            res == old(state)@.step(*self, supplied).1,
            final(state)@.wf(),
    {
        state.eval(self, supplied)
    }
}

/// The decimal digit for `d`, for a `d` below ten.
pub open spec fn digit(d: nat) -> char {
    seq!['0', '1', '2', '3', '4', '5', '6', '7', '8', '9'][d as int]
}

/// The decimal numeral of `n`: its digits, the most significant first, without
/// leading zeros.
pub open spec fn decimal(n: nat) -> Seq<char>
    decreases n,
{
    if n < 10 {
        seq![digit(n)]
    } else {
        decimal(n / 10).push(digit(n % 10))
    }
}

/// One decimal digit as text.
fn digit_text(d: usize) -> (r: &'static str)
    requires
        d < 10,
    ensures
        r@ == seq![digit(d as nat)],
{
    match d {
        0 => {
            proof {
                reveal_strlit("0");
            }
            assert("0"@ =~= seq!['0']);
            "0"
        },
        1 => {
            proof {
                reveal_strlit("1");
            }
            assert("1"@ =~= seq!['1']);
            "1"
        },
        2 => {
            proof {
                reveal_strlit("2");
            }
            assert("2"@ =~= seq!['2']);
            "2"
        },
        3 => {
            proof {
                reveal_strlit("3");
            }
            assert("3"@ =~= seq!['3']);
            "3"
        },
        4 => {
            proof {
                reveal_strlit("4");
            }
            assert("4"@ =~= seq!['4']);
            "4"
        },
        5 => {
            proof {
                reveal_strlit("5");
            }
            assert("5"@ =~= seq!['5']);
            "5"
        },
        6 => {
            proof {
                reveal_strlit("6");
            }
            assert("6"@ =~= seq!['6']);
            "6"
        },
        7 => {
            proof {
                reveal_strlit("7");
            }
            assert("7"@ =~= seq!['7']);
            "7"
        },
        8 => {
            proof {
                reveal_strlit("8");
            }
            assert("8"@ =~= seq!['8']);
            "8"
        },
        _ => {
            proof {
                reveal_strlit("9");
            }
            assert("9"@ =~= seq!['9']);
            "9"
        },
    }
}

/// The decimal numeral of `n` as text.
pub fn decimal_text(n: usize) -> (r: String)
    ensures
        r@ == decimal(n as nat),
    decreases n,
{
    if n < 10 {
        String::from_str(digit_text(n))
    } else {
        let mut text: String = decimal_text(n / 10);
        text.append(digit_text(n % 10));
        text
    }
}

impl Instructions {
    /// The mnemonic: the word that names the instruction in a listing.
    pub open spec fn name(self) -> Seq<char> {
        match self {
            Instructions::Psh(_) => seq!['p', 'u', 's', 'h'],
            Instructions::Pfa => seq!['p', 'f', 'a'],
            Instructions::Pta => seq!['p', 't', 'a'],
            Instructions::Gap => seq!['g', 'a', 'p'],
            Instructions::Ptap => seq!['p', 't', 'a', 'p'],
            Instructions::Sap(_) => seq!['s', 'a', 'p'],
            Instructions::Pek => seq!['p', 'e', 'k'],
            Instructions::Inp => seq!['i', 'n', 'p'],
            Instructions::Dup => seq!['d', 'u', 'p'],
            Instructions::Pop => seq!['p', 'o', 'p'],
            Instructions::Swp => seq!['s', 'w', 'p'],
            Instructions::Lsw(_) => seq!['l', 's', 'w'],
            Instructions::Add => seq!['a', 'd', 'd'],
            Instructions::Sub => seq!['s', 'u', 'b'],
            Instructions::Mul => seq!['m', 'u', 'l'],
            Instructions::Div => seq!['d', 'i', 'v'],
            Instructions::Mod => seq!['m', 'o', 'd'],
            Instructions::Abs => seq!['a', 'b', 's'],
            Instructions::Max => seq!['m', 'a', 'x'],
            Instructions::Min => seq!['m', 'i', 'n'],
            Instructions::Jmp(_) => seq!['j', 'm', 'p'],
            Instructions::Jiz(_) => seq!['j', 'i', 'z'],
            Instructions::Jnz(_) => seq!['j', 'n', 'z'],
            Instructions::Ipta => seq!['i', 'p', 't', 'a'],
            Instructions::Jmpa => seq!['j', 'm', 'p', 'a'],
            Instructions::Jiza => seq!['j', 'i', 'z', 'a'],
            Instructions::Jnza => seq!['j', 'n', 'z', 'a'],
            Instructions::Ret => seq!['r', 'e', 't'],
        }
    }

    /// The line of the instruction in a listing: the mnemonic, and after a space
    /// the operand where there is one. An address or a count is written as a
    /// decimal numeral; for the number that `Psh` pushes the line holds `number`.
    pub open spec fn line(self, number: Seq<char>) -> Seq<char> {
        match self {
            Instructions::Psh(_) => self.name() + seq![' '] + number,
            Instructions::Sap(n) => self.name() + seq![' '] + decimal(n as nat),
            Instructions::Lsw(n)
            | Instructions::Jmp(n)
            | Instructions::Jiz(n)
            | Instructions::Jnz(n) => self.name() + seq![' '] + decimal(n as nat),
            _ => self.name(),
        }
    }

    /// The mnemonic of the instruction.
    pub fn mnemonic(&self) -> (r: &'static str)
        ensures
            r@ == self.name(),
    {
        match *self {
            Instructions::Psh(_) => {
                proof {
                    reveal_strlit("push");
                }
                assert("push"@ =~= seq!['p', 'u', 's', 'h']);
                "push"
            },
            Instructions::Pfa => {
                proof {
                    reveal_strlit("pfa");
                }
                assert("pfa"@ =~= seq!['p', 'f', 'a']);
                "pfa"
            },
            Instructions::Pta => {
                proof {
                    reveal_strlit("pta");
                }
                assert("pta"@ =~= seq!['p', 't', 'a']);
                "pta"
            },
            Instructions::Gap => {
                proof {
                    reveal_strlit("gap");
                }
                assert("gap"@ =~= seq!['g', 'a', 'p']);
                "gap"
            },
            Instructions::Ptap => {
                proof {
                    reveal_strlit("ptap");
                }
                assert("ptap"@ =~= seq!['p', 't', 'a', 'p']);
                "ptap"
            },
            Instructions::Sap(_) => {
                proof {
                    reveal_strlit("sap");
                }
                assert("sap"@ =~= seq!['s', 'a', 'p']);
                "sap"
            },
            Instructions::Pek => {
                proof {
                    reveal_strlit("pek");
                }
                assert("pek"@ =~= seq!['p', 'e', 'k']);
                "pek"
            },
            Instructions::Inp => {
                proof {
                    reveal_strlit("inp");
                }
                assert("inp"@ =~= seq!['i', 'n', 'p']);
                "inp"
            },
            Instructions::Dup => {
                proof {
                    reveal_strlit("dup");
                }
                assert("dup"@ =~= seq!['d', 'u', 'p']);
                "dup"
            },
            Instructions::Pop => {
                proof {
                    reveal_strlit("pop");
                }
                assert("pop"@ =~= seq!['p', 'o', 'p']);
                "pop"
            },
            Instructions::Swp => {
                proof {
                    reveal_strlit("swp");
                }
                assert("swp"@ =~= seq!['s', 'w', 'p']);
                "swp"
            },
            Instructions::Lsw(_) => {
                proof {
                    reveal_strlit("lsw");
                }
                assert("lsw"@ =~= seq!['l', 's', 'w']);
                "lsw"
            },
            Instructions::Add => {
                proof {
                    reveal_strlit("add");
                }
                assert("add"@ =~= seq!['a', 'd', 'd']);
                "add"
            },
            Instructions::Sub => {
                proof {
                    reveal_strlit("sub");
                }
                assert("sub"@ =~= seq!['s', 'u', 'b']);
                "sub"
            },
            Instructions::Mul => {
                proof {
                    reveal_strlit("mul");
                }
                assert("mul"@ =~= seq!['m', 'u', 'l']);
                "mul"
            },
            Instructions::Div => {
                proof {
                    reveal_strlit("div");
                }
                assert("div"@ =~= seq!['d', 'i', 'v']);
                "div"
            },
            Instructions::Mod => {
                proof {
                    reveal_strlit("mod");
                }
                assert("mod"@ =~= seq!['m', 'o', 'd']);
                "mod"
            },
            Instructions::Abs => {
                proof {
                    reveal_strlit("abs");
                }
                assert("abs"@ =~= seq!['a', 'b', 's']);
                "abs"
            },
            Instructions::Max => {
                proof {
                    reveal_strlit("max");
                }
                assert("max"@ =~= seq!['m', 'a', 'x']);
                "max"
            },
            Instructions::Min => {
                proof {
                    reveal_strlit("min");
                }
                assert("min"@ =~= seq!['m', 'i', 'n']);
                "min"
            },
            Instructions::Jmp(_) => {
                proof {
                    reveal_strlit("jmp");
                }
                assert("jmp"@ =~= seq!['j', 'm', 'p']);
                "jmp"
            },
            Instructions::Jiz(_) => {
                proof {
                    reveal_strlit("jiz");
                }
                assert("jiz"@ =~= seq!['j', 'i', 'z']);
                "jiz"
            },
            Instructions::Jnz(_) => {
                proof {
                    reveal_strlit("jnz");
                }
                assert("jnz"@ =~= seq!['j', 'n', 'z']);
                "jnz"
            },
            Instructions::Ipta => {
                proof {
                    reveal_strlit("ipta");
                }
                assert("ipta"@ =~= seq!['i', 'p', 't', 'a']);
                "ipta"
            },
            Instructions::Jmpa => {
                proof {
                    reveal_strlit("jmpa");
                }
                assert("jmpa"@ =~= seq!['j', 'm', 'p', 'a']);
                "jmpa"
            },
            Instructions::Jiza => {
                proof {
                    reveal_strlit("jiza");
                }
                assert("jiza"@ =~= seq!['j', 'i', 'z', 'a']);
                "jiza"
            },
            Instructions::Jnza => {
                proof {
                    reveal_strlit("jnza");
                }
                assert("jnza"@ =~= seq!['j', 'n', 'z', 'a']);
                "jnza"
            },
            Instructions::Ret => {
                proof {
                    reveal_strlit("ret");
                }
                assert("ret"@ =~= seq!['r', 'e', 't']);
                "ret"
            },
        }
    }

    /// The line of the instruction in a listing.
    ///
    /// `number` is the text of the number that a `Psh` pushes, which the host
    /// writes out; no other instruction reads it.
    pub fn render(&self, number: &str) -> (r: String)
        ensures
            r@ == self.line(number@),
    {
        let mut text: String = String::from_str(self.mnemonic());
        proof {
            reveal_strlit(" ");
        }
        assert(" "@ =~= seq![' ']);
        match *self {
            Instructions::Psh(_) => {
                text.append(" ");
                text.append(number);
            },
            Instructions::Sap(n) => {
                text.append(" ");
                text.append(decimal_text(n as usize).as_str());
            },
            Instructions::Lsw(n)
            | Instructions::Jmp(n)
            | Instructions::Jiz(n)
            | Instructions::Jnz(n) => {
                text.append(" ");
                text.append(decimal_text(n).as_str());
            },
            _ => {},
        }
        text
    }
}

} // verus!
