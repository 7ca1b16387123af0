use stackvm::instruction::decimal_text;
use stackvm::Instructions::{
    Abs, Add, Div, Dup, Gap, Inp, Ipta, Jiz, Jiza, Jmp, Jmpa, Jnz, Jnza, Lsw, Max, Min, Mod, Mul,
    Pek, Pfa, Pop, Psh, Pta, Ptap, Ret, Sap, Sub, Swp,
};
use stackvm::{Instructions, Program};

/// The line of an instruction, with the pushed number written out as the host does.
fn line(instruction: &Instructions) -> String {
    match instruction {
        Psh(bits) => instruction.render(&format!("{}", f64::from_bits(*bits))),
        _ => instruction.render(""),
    }
}

#[test]
fn lines_of_the_instructions_with_an_operand() {
    assert_eq!(line(&Psh(3.5f64.to_bits())), "push 3.5");
    assert_eq!(line(&Sap(4)), "sap 4");
    assert_eq!(line(&Jnz(12)), "jnz 12");
    assert_eq!(line(&Ret), "ret");
    assert_eq!(line(&Psh(1.0f64.to_bits())), "push 1");
    assert_eq!(line(&Psh((-0.25f64).to_bits())), "push -0.25");
    assert_eq!(line(&Sap(0)), "sap 0");
    assert_eq!(line(&Sap(255)), "sap 255");
    assert_eq!(line(&Lsw(1)), "lsw 1");
    assert_eq!(line(&Jmp(0)), "jmp 0");
    assert_eq!(line(&Jiz(1000)), "jiz 1000");
    assert_eq!(line(&Jnz(usize::MAX)), format!("jnz {}", usize::MAX));
}

#[test]
fn lines_of_the_instructions_without_an_operand() {
    for (instruction, text) in [
        (Pfa, "pfa"),
        (Pta, "pta"),
        (Gap, "gap"),
        (Ptap, "ptap"),
        (Pek, "pek"),
        (Inp, "inp"),
        (Dup, "dup"),
        (Pop, "pop"),
        (Swp, "swp"),
        (Add, "add"),
        (Sub, "sub"),
        (Mul, "mul"),
        (Div, "div"),
        (Mod, "mod"),
        (Abs, "abs"),
        (Max, "max"),
        (Min, "min"),
        (Ipta, "ipta"),
        (Jmpa, "jmpa"),
        (Jiza, "jiza"),
        (Jnza, "jnza"),
        (Ret, "ret"),
    ] {
        assert_eq!(instruction.render("unread"), text);
        assert_eq!(instruction.mnemonic(), text);
    }
}

#[test]
fn mnemonics_of_the_instructions_with_an_operand() {
    assert_eq!(Psh(0).mnemonic(), "push");
    assert_eq!(Sap(0).mnemonic(), "sap");
    assert_eq!(Lsw(0).mnemonic(), "lsw");
    assert_eq!(Jmp(0).mnemonic(), "jmp");
    assert_eq!(Jiz(0).mnemonic(), "jiz");
    assert_eq!(Jnz(0).mnemonic(), "jnz");
}

#[test]
fn only_push_reads_the_text_of_the_number() {
    assert_eq!(Psh(0).render("anything"), "push anything");
    assert_eq!(Sap(7).render("anything"), "sap 7");
    assert_eq!(Jmp(7).render("anything"), "jmp 7");
    assert_eq!(Add.render("anything"), "add");
}

#[test]
fn decimal_numerals() {
    for n in [0usize, 1, 9, 10, 11, 99, 100, 101, 1_234_567_890, usize::MAX] {
        assert_eq!(decimal_text(n), n.to_string());
    }
    for n in 0..2000usize {
        assert_eq!(decimal_text(n), n.to_string());
    }
}

#[test]
fn a_listing_has_one_line_for_each_instruction() {
    let instructions = vec![Inp, Psh(1.0f64.to_bits()), Add, Sap(3), Jnz(4), Psh(2.5f64.to_bits())];
    let numbers: Vec<String> = instructions
        .iter()
        .map(|instruction| match instruction {
            Psh(bits) => f64::from_bits(*bits).to_string(),
            _ => String::new(),
        })
        .collect();
    let program = Program::from(instructions);
    assert_eq!(
        program.listing(&numbers),
        "inp\npush 1\nadd\nsap 3\njnz 4\npush 2.5\n"
    );
}

#[test]
fn a_listing_reads_a_missing_number_as_empty() {
    let program = Program::from(vec![Pek, Psh(0), Ret]);
    assert_eq!(program.listing(&Vec::new()), "pek\npush \nret\n");
    assert_eq!(program.listing(&vec!["x".to_string()]), "pek\npush \nret\n");
}

#[test]
fn the_listing_of_an_empty_program_is_empty() {
    let program = Program::from(Vec::new());
    assert_eq!(program.listing(&Vec::new()), "");
}

#[test]
fn a_listing_does_not_depend_on_what_has_run() {
    let mut program = Program::from(vec![Psh(0), Pop, Pop, Ret]);
    let numbers = vec!["0".to_string()];
    let before = program.listing(&numbers);
    while program.next(None).is_some() {}
    assert!(program.is_finished());
    assert_eq!(program.listing(&numbers), before);
    assert_eq!(before, "push 0\npop\npop\nret\n");
}

#[test]
fn instructions_are_compared_by_their_operands() {
    assert_eq!(Psh(1), Psh(1));
    assert_ne!(Psh(1), Psh(2));
    assert_ne!(Jmp(3), Jiz(3));
    assert_eq!(Sap(3).clone(), Sap(3));
}
