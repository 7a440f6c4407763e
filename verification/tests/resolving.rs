use wmc::{
    Address, Backend, CompileError, InstructionCount, Program, ResolveError, ResolvedProgram,
    Stmt, Target, WmachErr, WriteOp,
};

fn program(text: &str) -> Program {
    match Program::from_str(text) {
        Ok(program) => program,
        Err(e) => panic!("parse failed: {:?}", e),
    }
}

fn resolved(text: &str) -> ResolvedProgram {
    match program(text).resolve() {
        Ok(resolved) => resolved,
        Err(e) => panic!("resolution failed: {:?}", e),
    }
}

fn failure(text: &str) -> ResolveError {
    match program(text).resolve() {
        Ok(resolved) => panic!("resolution succeeded: {:?}", resolved),
        Err(e) => e,
    }
}

fn duplicate(label: &str) -> ResolveError {
    ResolveError::DuplicateLabel { label: label.to_string() }
}

fn unknown(offset: usize, target: &str) -> ResolveError {
    ResolveError::UnknownTarget { offset, target: target.to_string() }
}

#[test]
fn duplicate_label_without_a_jump() {
    assert_eq!(failure("a: a:"), duplicate("a"));
    assert_eq!(failure("a: + - a: ."), duplicate("a"));
}

#[test]
fn duplicate_label_with_jumps_to_it() {
    assert_eq!(failure("a: jmp a a: jmp a, a"), duplicate("a"));
}

#[test]
fn first_second_declaration_is_reported() {
    assert_eq!(failure("a: b: b: a:"), duplicate("b"));
    assert_eq!(failure("a: b: a: b:"), duplicate("a"));
}

#[test]
fn duplicate_label_comes_before_unknown_target() {
    assert_eq!(failure("jmp missing a: a:"), duplicate("a"));
}

#[test]
fn unknown_target_at_the_jump() {
    assert_eq!(failure("jmp missing"), unknown(0, "missing"));
    assert_eq!(failure("+ a: jmp missing"), unknown(2, "missing"));
}

#[test]
fn unknown_second_target() {
    assert_eq!(failure("a: jmp a, missing"), unknown(1, "missing"));
}

#[test]
fn first_target_is_checked_first() {
    assert_eq!(failure("jmp x, y"), unknown(0, "x"));
}

#[test]
fn first_jump_with_an_unknown_target_is_reported() {
    assert_eq!(failure("a: jmp a jmp x jmp y"), unknown(2, "x"));
}

#[test]
fn single_target_falls_through_to_the_next_statement() {
    let resolved = resolved("a: jmp a +");
    assert_eq!(resolved.jumps()[1], Some((Address::Insn(0), Address::Insn(2))));
}

#[test]
fn single_target_in_the_last_statement_halts() {
    let resolved = resolved("a: + jmp a");
    assert_eq!(resolved.jumps()[2], Some((Address::Insn(0), Address::Halt)));
    let resolved = resolved_alone();
    assert_eq!(resolved.jumps()[1], Some((Address::Insn(0), Address::Halt)));
}

fn resolved_alone() -> ResolvedProgram {
    resolved("a: jmp a")
}

#[test]
fn jump_forward_and_to_itself() {
    let resolved = resolved("jmp end, here here: jmp here, end end:");
    assert_eq!(resolved.jumps()[0], Some((Address::Insn(3), Address::Insn(1))));
    assert_eq!(resolved.jumps()[2], Some((Address::Insn(1), Address::Insn(3))));
}

#[test]
fn statements_that_are_no_jumps_have_no_addresses() {
    let resolved = resolved("a: + jmp a <");
    assert_eq!(
        resolved.jumps(),
        &vec![None, None, Some((Address::Insn(0), Address::Insn(3))), None]
    );
}

#[test]
fn statements_stay_as_they_were() {
    let text = "a: + jmp a, b\n-\nb: .";
    assert_eq!(resolved(text).instructions(), &program(text).instructions);
}

#[test]
fn symbols_hold_every_label() {
    let resolved = resolved("a: + b: - c:");
    assert_eq!(resolved.symbols().get("a"), Some(0));
    assert_eq!(resolved.symbols().get("b"), Some(2));
    assert_eq!(resolved.symbols().get("c"), Some(4));
    assert_eq!(resolved.symbols().get("d"), None);
    assert_eq!(resolved.symbols().get(""), None);
    assert_eq!(resolved.symbols().lookup(&"b".to_string()), Some(2));
}

#[test]
fn symbols_list_every_label_once() {
    let resolved = resolved("a: + b: - c:");
    let entries: Vec<(String, usize)> = resolved
        .symbols()
        .entries()
        .iter()
        .map(|symbol| (symbol.name.clone(), symbol.offset))
        .collect();
    assert_eq!(
        entries,
        vec![("a".to_string(), 0), ("b".to_string(), 2), ("c".to_string(), 4)]
    );
}

#[test]
fn empty_program_resolves() {
    let resolved = resolved("");
    assert_eq!(resolved.instructions().len(), 0);
    assert_eq!(resolved.jumps().len(), 0);
    assert_eq!(resolved.symbols().get("a"), None);
}

#[test]
fn program_built_by_hand() {
    let program = Program {
        instructions: vec![
            Stmt::Jmp(Target::NextAddress, Target::Name("x".to_string())),
            Stmt::Label("x".to_string()),
        ],
    };
    let resolved = program.resolve().unwrap();
    assert_eq!(resolved.jumps()[0], Some((Address::Insn(1), Address::Insn(1))));
    let program = Program {
        instructions: vec![Stmt::Jmp(Target::NextAddress, Target::NextAddress)],
    };
    let resolved = program.resolve().unwrap();
    assert_eq!(resolved.jumps()[0], Some((Address::Halt, Address::Halt)));
}

struct Counter;

impl Backend for Counter {
    type Target = usize;
    type Error = String;

    fn compile(&self, program: &ResolvedProgram) -> Result<usize, String> {
        Ok(program.instructions().len())
    }
}

struct Refuser;

impl Backend for Refuser {
    type Target = usize;
    type Error = String;

    fn compile(&self, program: &ResolvedProgram) -> Result<usize, String> {
        Err(format!("{} statements refused", program.instructions().len()))
    }
}

#[test]
fn end_to_end() {
    let text = "a: + jmp a, b\n-\nb: .";
    let program = program(text);
    assert_eq!(
        program.instructions,
        vec![
            Stmt::Label("a".to_string()),
            Stmt::Write(WriteOp::SetBit),
            Stmt::Jmp(Target::Name("a".to_string()), Target::Name("b".to_string())),
            Stmt::Write(WriteOp::Unset),
            Stmt::Label("b".to_string()),
            Stmt::Io(wmc::IoOp::Out),
        ]
    );
    let resolved = program.resolve().unwrap();
    assert_eq!(resolved.symbols().get("a"), Some(0));
    assert_eq!(resolved.symbols().get("b"), Some(4));
    assert_eq!(resolved.jumps()[2], Some((Address::Insn(0), Address::Insn(4))));
    assert_eq!(Counter.compile(&resolved), Ok(6));
    assert_eq!(InstructionCount.compile(&resolved), Ok(6));
    assert_eq!(wmc::compiler::compile(text, &Counter), Ok(6));
    assert_eq!(wmc::compiler::compile(text, &InstructionCount), Ok(6));
}

#[test]
fn counting_backend_counts_labels_too() {
    assert_eq!(wmc::compiler::compile("", &InstructionCount), Ok(0));
    assert_eq!(wmc::compiler::compile("a: b: c:", &InstructionCount), Ok(3));
    assert_eq!(wmc::compiler::compile("<<<< >>", &InstructionCount), Ok(2));
}

#[test]
fn pipeline_stops_at_the_first_stage_that_fails() {
    assert_eq!(
        wmc::compiler::compile("+$", &Counter),
        Err(CompileError::Parse(WmachErr::LeftoverInput { remainder: "$".to_string() }))
    );
    assert_eq!(
        wmc::compiler::compile("a: a:", &Counter),
        Err(CompileError::Resolve(duplicate("a")))
    );
    assert_eq!(
        wmc::compiler::compile("jmp a", &Counter),
        Err(CompileError::Resolve(unknown(0, "a")))
    );
}

#[test]
fn pipeline_hands_on_what_the_backend_returns() {
    assert_eq!(wmc::compiler::compile("", &Counter), Ok(0));
    assert_eq!(
        wmc::compiler::compile("+ -", &Refuser),
        Err(CompileError::Backend("2 statements refused".to_string()))
    );
    assert_eq!(wmc::compiler::backend_outcome::<u8, u8>(Ok(3)), Ok(3));
    assert_eq!(wmc::compiler::backend_outcome::<u8, u8>(Err(4)), Err(CompileError::Backend(4)));
}
