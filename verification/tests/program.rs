use stackvm::Instructions::{
    Add, Dup, Inp, Jmp, Jnz, Lsw, Max, Mod, Mul, Pek, Pop, Psh, Ret, Sub, Swp,
};
use stackvm::{Error, Operation, Program, Request};

/// The host's arithmetic: what the machine asks for, computed in floating point.
fn arithmetic(operation: Operation, fst: u64, snd: u64) -> u64 {
    let (fst, snd) = (f64::from_bits(fst), f64::from_bits(snd));
    let result = match operation {
        Operation::Add => fst + snd,
        Operation::Sub => fst - snd,
        Operation::Mul => fst * snd,
        Operation::Div => fst / snd,
        Operation::Mod => fst % snd,
        Operation::Max => fst.max(snd),
        Operation::Min => fst.min(snd),
    };
    result.to_bits()
}

/// One step of the program with its host: the input source and the arithmetic.
fn next(
    program: &mut Program,
    input: &mut impl FnMut() -> Option<f64>,
) -> Option<Result<Option<f64>, Error>> {
    let supplied = match program.request() {
        Request::Nothing => None,
        Request::Input => input().map(f64::to_bits),
        Request::Arithmetic(operation, fst, snd) => Some(arithmetic(operation, fst, snd)),
    };
    program
        .next(supplied)
        .map(|res| res.map(|emitted| emitted.map(f64::from_bits)))
}

fn psh(n: f64) -> stackvm::Instructions {
    Psh(n.to_bits())
}

#[test]
fn simple_test() {
    let mut program = Program::from(vec![Inp, psh(1.), Add, Pek, Pop, Pop]);
    let mut input = || Some(5.);

    assert_eq!(next(&mut program, &mut input), Some(Ok(None)));
    assert_eq!(next(&mut program, &mut input), Some(Ok(None)));
    assert_eq!(next(&mut program, &mut input), Some(Ok(None)));
    assert_eq!(next(&mut program, &mut input), Some(Ok(Some(6.))));
    assert_eq!(next(&mut program, &mut input), Some(Ok(None)));
    assert_eq!(next(&mut program, &mut input), Some(Err(Error::PopFromEmptyStack)));
    assert_eq!(next(&mut program, &mut input), None);
}

#[test]
fn test_factorial() {
    let mut program = Program::from(vec![
        psh(1.),
        psh(1.),
        Max,
        Inp,
        Dup,
        Lsw(1),
        Mul,
        Swp,
        psh(1.),
        Sub,
        Dup,
        Jnz(4),
        Pop,
        Pek,
    ]);
    let mut input = || Some(5.);

    assert_eq!(next(&mut program, &mut input), Some(Ok(None)));
    assert_eq!(next(&mut program, &mut input), Some(Ok(None)));
    assert_eq!(next(&mut program, &mut input), Some(Ok(None)));
    assert_eq!(next(&mut program, &mut input), Some(Ok(None)));
    for _ in 0..(5 * 8) {
        assert_eq!(next(&mut program, &mut input), Some(Ok(None)));
    }
    assert_eq!(next(&mut program, &mut input), Some(Ok(None)));
    assert_eq!(next(&mut program, &mut input), Some(Ok(Some(120.))));
    assert_eq!(next(&mut program, &mut input), None);
}

/// Runs the program to its end and collects what its steps return.
fn run(
    program: &mut Program,
    input: &mut impl FnMut() -> Option<f64>,
) -> Vec<Result<Option<f64>, Error>> {
    let mut results = Vec::new();
    while let Some(result) = next(program, input) {
        results.push(result);
        assert!(results.len() < 10_000);
    }
    results
}

#[test]
fn an_empty_program_has_no_steps() {
    let mut program = Program::from(Vec::new());
    assert!(program.is_finished());
    assert_eq!(program.request(), Request::Nothing);
    assert_eq!(program.next(None), None);
    assert_eq!(program.next(Some(1)), None);
    assert_eq!(program.state().ip(), 0);
}

#[test]
fn a_program_starts_from_the_zero_state() {
    let program = Program::from(vec![Pek, Pop]);
    assert!(!program.is_finished());
    assert!(!program.debug());
    assert_eq!(program.program(), &vec![Pek, Pop]);
    assert_eq!(program.state().ip(), 0);
    assert!(program.state().stack().is_empty());
    assert!(program.state().call_stack().is_empty());
    assert!(program.state().array().iter().all(|cell| *cell == 0));
    assert_eq!(program.state().ap(), 0);
}

#[test]
fn the_debug_flag_is_kept() {
    assert!(Program::from((vec![Pek], true)).debug());
    assert!(!Program::from((vec![Pek], false)).debug());
    assert!(Program::new(vec![Pek], true).debug());
}

#[test]
fn tracing_changes_no_result() {
    let instructions = vec![
        Inp, Dup, Mul, Pek, psh(2.), Swp, Sub, Pek, Jnz(9), Pop, Pek,
    ];
    let mut quiet = Program::from((instructions.clone(), false));
    let mut traced = Program::from((instructions, true));
    let mut input = || Some(3.);
    let results = run(&mut quiet, &mut input);
    assert_eq!(run(&mut traced, &mut input), results);
    assert_eq!(quiet.state().stack(), traced.state().stack());
    assert_eq!(quiet.state().ip(), traced.state().ip());
}

#[test]
fn a_rerun_returns_the_same() {
    let instructions = vec![
        psh(10.), psh(3.), Mod, Pek, Dup, Dup, Mul, Mul, Pek, psh(0.), Swp, Sub, Pek, Pop, Pop,
    ];
    let mut input = || None;
    let first = run(&mut Program::from(instructions.clone()), &mut input);
    let second = run(&mut Program::from(instructions), &mut input);
    assert_eq!(first, second);
    assert_eq!(first.len(), 15);
    assert_eq!(first[3], Ok(Some(1.)));
    assert_eq!(first[8], Ok(Some(1.)));
    assert_eq!(first[12], Ok(Some(-1.)));
    assert_eq!(first[14], Err(Error::PopFromEmptyStack));
}

#[test]
fn an_error_is_returned_once_and_then_nothing() {
    let mut program = Program::from(vec![Pop, psh(1.), Pek]);
    let mut input = || Some(5.);
    assert_eq!(next(&mut program, &mut input), Some(Err(Error::PopFromEmptyStack)));
    assert!(program.is_finished());
    assert_eq!(program.state().ip(), 0);
    for _ in 0..5 {
        assert_eq!(next(&mut program, &mut input), None);
        assert_eq!(program.request(), Request::Nothing);
    }
    assert_eq!(program.state().ip(), 0);
    assert!(program.state().stack().is_empty());
}

#[test]
fn a_failed_input_stops_the_program() {
    let mut program = Program::from(vec![Inp, Pek]);
    let mut input = || None;
    assert_eq!(program.request(), Request::Input);
    assert_eq!(next(&mut program, &mut input), Some(Err(Error::InputFailed)));
    assert_eq!(next(&mut program, &mut input), None);
}

#[test]
fn the_input_is_read_once_for_each_input_instruction() {
    let mut reads = 0;
    let mut input = || {
        reads += 1;
        Some(f64::from(reads))
    };
    let mut program = Program::from(vec![psh(1.), Inp, Add, Pek, Inp, Mul, Pek, Pop]);
    let results = run(&mut program, &mut input);
    assert_eq!(
        results,
        vec![
            Ok(None),
            Ok(None),
            Ok(None),
            Ok(Some(2.)),
            Ok(None),
            Ok(None),
            Ok(Some(4.)),
            Ok(None),
        ]
    );
    assert_eq!(reads, 2);
}

#[test]
fn a_return_without_a_call_stops_the_program() {
    let mut program = Program::from(vec![psh(1.), Ret, Pek]);
    let mut input = || None;
    assert_eq!(
        run(&mut program, &mut input),
        vec![Ok(None), Err(Error::PopFromEmptyCallStack)]
    );
}

#[test]
fn a_jump_past_the_end_ends_the_program_without_an_error() {
    let mut program = Program::from(vec![psh(1.), Jmp(100), Pek]);
    let mut input = || None;
    assert_eq!(run(&mut program, &mut input), vec![Ok(None), Ok(None)]);
    assert!(program.is_finished());
    assert_eq!(program.state().ip(), 100);
    assert_eq!(next(&mut program, &mut input), None);
}

#[test]
fn a_call_and_its_return() {
    // 0: jmp 3   1: pek   2: jmp 7   3: push 8   4: jmp 6   5: ret   6: ret
    let mut program = Program::from(vec![Jmp(3), Pek, Jmp(7), psh(8.), Jmp(6), Ret, Ret]);
    let mut input = || None;
    let results = run(&mut program, &mut input);
    assert_eq!(
        results,
        vec![
            Ok(None),
            Ok(None),
            Ok(None),
            Ok(None),
            Ok(None),
            Ok(Some(8.)),
            Ok(None),
        ]
    );
    assert_eq!(program.state().ip(), 7);
    assert_eq!(program.state().call_stack(), &vec![2]);
}

#[test]
fn the_second_example_takes_forty_five_silent_steps() {
    let mut program = Program::from(vec![
        psh(1.),
        psh(1.),
        Max,
        Inp,
        Dup,
        Lsw(1),
        Mul,
        Swp,
        psh(1.),
        Sub,
        Dup,
        Jnz(4),
        Pop,
        Pek,
    ]);
    let mut input = || Some(5.);
    let results = run(&mut program, &mut input);
    assert_eq!(results.len(), 46);
    assert!(results[..45].iter().all(|result| *result == Ok(None)));
    assert_eq!(results[45], Ok(Some(120.)));
}
