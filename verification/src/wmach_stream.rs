//! The statements of the notation and their mathematical models.

use vstd::prelude::*;
use crate::grammar::{
    comment_end, lemma_any_statement, lemma_program, lemma_runs_collapse, lemma_skip_trivia,
    program_end, program_stmts, same_seek, skip_trivia, spec_any_statement, spec_debug_op,
    spec_input_op, spec_jmp_op, spec_label, spec_label_op, spec_output_op, spec_seek_left,
    spec_seek_left_op, spec_seek_right, spec_seek_right_op, spec_set_op, spec_statement,
    spec_unset_op,
};
use crate::scanner::{
    scan_any_statement, scan_comment, scan_debug_op, scan_input_op, scan_jmp_op, scan_label,
    scan_label_op, scan_output_op, scan_program, scan_seek_left, scan_seek_left_op,
    scan_seek_right, scan_seek_right_op, scan_set_op, scan_statement, scan_trivia, scan_unset_op,
    Source,
};

verus! {

/// Writing the bit under the head.
#[derive(Debug, Clone, Copy, PartialEq, Eq, Structural)]
pub enum WriteOp {
    SetBit,
    Unset,
}

/// Moving the head by a number of cells, which is at least one in every
/// well-formed statement.
#[derive(Debug, Clone, Copy, PartialEq, Eq, Structural)]
pub enum SeekOp {
    Left(usize),
    Right(usize),
}

/// Reading a bit into the current cell, or emitting the current cell's bit.
#[derive(Debug, Clone, Copy, PartialEq, Eq, Structural)]
pub enum IoOp {
    In,
    Out,
}

/// A label name: a non-empty run of letters, digits, `'` and `_`.
pub type LabelId = String;

/// One branch of a jump.
#[derive(Debug, PartialEq, Eq)]
pub enum Target {
    /// The statement that follows the jump.
    NextAddress,
    /// The statement that declares this label.
    Name(LabelId),
}

/// One statement of a program.
#[derive(Debug, PartialEq, Eq)]
pub enum Stmt {
    Write(WriteOp),
    Seek(SeekOp),
    Io(IoOp),
    Label(LabelId),
    /// The first target is taken when the bit under the head is set, the
    /// second when it is not.
    Jmp(Target, Target),
    Debug,
}

pub type Code = Vec<Stmt>;

/// Mathematical model of a [`Target`].
pub enum TargetView {
    NextAddress,
    Name(Seq<char>),
}

/// Mathematical model of a [`Stmt`].
pub enum StmtView {
    Write(WriteOp),
    Seek(SeekOp),
    Io(IoOp),
    Label(Seq<char>),
    Jmp(TargetView, TargetView),
    Debug,
}

impl View for Target {
    type V = TargetView;

    open spec fn view(&self) -> TargetView {
        match *self {
            Target::NextAddress => TargetView::NextAddress,
            Target::Name(name) => TargetView::Name(name@),
        }
    }
}

impl View for Stmt {
    type V = StmtView;

    open spec fn view(&self) -> StmtView {
        match *self {
            Stmt::Write(op) => StmtView::Write(op),
            Stmt::Seek(op) => StmtView::Seek(op),
            Stmt::Io(op) => StmtView::Io(op),
            Stmt::Label(name) => StmtView::Label(name@),
            Stmt::Jmp(on_set, on_unset) => StmtView::Jmp(on_set@, on_unset@),
            Stmt::Debug => StmtView::Debug,
        }
    }
}

/// Whether `c` may appear in a label name.
pub open spec fn is_label_char(c: char) -> bool {
    ||| 'a' <= c <= 'z'
    ||| 'A' <= c <= 'Z'
    ||| '0' <= c <= '9'
    ||| c == '\''
    ||| c == '_'
}

/// Whether `name` is a label name: not empty, and made of label characters.
pub open spec fn is_label_name(name: Seq<char>) -> bool {
    &&& name.len() > 0
    &&& forall|i: int| 0 <= i < name.len() ==> is_label_char(#[trigger] name[i])
}

impl TargetView {
    /// A named target names a label.
    pub open spec fn wf(self) -> bool {
        match self {
            TargetView::NextAddress => true,
            TargetView::Name(name) => is_label_name(name),
        }
    }
}

impl StmtView {
    /// Whether the target for the set bit is a name, where this is a jump.
    /// Every jump that is parsed from a text names its first target; a
    /// program that is built by hand may hold one that does not.
    pub open spec fn names_first_target(self) -> bool {
        self matches StmtView::Jmp(on_set, _) ==> on_set is Name
    }

    /// The data invariants of a statement: a seek moves by at least one cell,
    /// and every name in it is a label name.
    pub open spec fn wf(self) -> bool {
        match self {
            StmtView::Seek(SeekOp::Left(n)) => n >= 1,
            StmtView::Seek(SeekOp::Right(n)) => n >= 1,
            StmtView::Label(name) => is_label_name(name),
            StmtView::Jmp(on_set, on_unset) => on_set.wf() && on_unset.wf(),
            _ => true,
        }
    }
}

/// The models of a sequence of statements, in order.
pub open spec fn code_view(code: Seq<Stmt>) -> Seq<StmtView> {
    code.map_values(|stmt: Stmt| stmt@)
}


impl Clone for Target {
    fn clone(&self) -> (r: Self)
        ensures
            r@ == self@,
    {
        match self {
            Target::NextAddress => Target::NextAddress,
            Target::Name(name) => Target::Name(name.clone()),
        }
    }
}

impl Clone for Stmt {
    fn clone(&self) -> (r: Self)
        ensures
            r@ == self@,
    {
        match self {
            Stmt::Write(op) => Stmt::Write(*op),
            Stmt::Seek(op) => Stmt::Seek(*op),
            Stmt::Io(op) => Stmt::Io(*op),
            Stmt::Label(name) => Stmt::Label(name.clone()),
            Stmt::Jmp(on_set, on_unset) => Stmt::Jmp(on_set.clone(), on_unset.clone()),
            Stmt::Debug => Stmt::Debug,
        }
    }
}

impl Target {
    /// The target as text: the label's name, or `<NextAddress>` for the
    /// statement that follows.
    pub fn to_string(&self) -> (r: String)
        ensures
            r@ == match self@ {
                TargetView::NextAddress => "<NextAddress>"@,
                TargetView::Name(name) => name,
            },
    {
        match self {
            Target::NextAddress => "<NextAddress>".to_owned(),
            Target::Name(name) => name.clone(),
        }
    }
}

/// Why a text is no program.
#[derive(Debug, PartialEq, Eq)]
pub enum WmachErr {
    /// The production that was asked for does not match where the text
    /// starts; the message says what was expected.
    Syntax { message: String },
    /// The statements end before the text does; this is what is left.
    LeftoverInput { remainder: String },
}

/// Mathematical model of a [`WmachErr`].
pub enum WmachErrView {
    Syntax { message: Seq<char> },
    LeftoverInput { remainder: Seq<char> },
}

impl View for WmachErr {
    type V = WmachErrView;

    open spec fn view(&self) -> WmachErrView {
        match *self {
            WmachErr::Syntax { message } => WmachErrView::Syntax { message: message@ },
            WmachErr::LeftoverInput { remainder } => WmachErrView::LeftoverInput {
                remainder: remainder@,
            },
        }
    }
}

/// A program: its statements in the order of the text.
#[derive(Debug)]
pub struct Program {
    pub instructions: Code,
}

impl View for Program {
    type V = Seq<StmtView>;

    open spec fn view(&self) -> Seq<StmtView> {
        code_view(self.instructions@)
    }
}

/// What the function of a production returns on `input`, where the grammar
/// gives `found` at the start of it: the text behind the match and the
/// statement, or a syntax error that says `what` was expected.
pub open spec fn production_result(
    input: Seq<char>,
    found: Option<(int, StmtView)>,
    what: Seq<char>,
    r: Result<(&str, Stmt), WmachErr>,
) -> bool {
    match found {
        Some((q, stmt)) => r matches Ok((rest, got)) && rest@ == input.subrange(
            q,
            input.len() as int,
        ) && got@ == stmt,
        None => r matches Err(e) && e@ == (WmachErrView::Syntax { message: what }),
    }
}

/// Turns what the scanner found into the result of a production's function.
fn finish<'a>(src: &Source<'a>, found: Option<(usize, Stmt)>, what: &str) -> (r: Result<
    (&'a str, Stmt),
    WmachErr,
>)
    requires
        src.wf(),
        found matches Some((q, _)) ==> q <= src.len(),
    ensures
        match found {
            Some((q, stmt)) => r matches Ok((rest, got)) && rest@ == src@.subrange(
                q as int,
                src@.len() as int,
            ) && got@ == stmt@,
            None => r matches Err(e) && e@ == (WmachErrView::Syntax { message: what@ }),
        },
{
    match found {
        Some((q, stmt)) => Ok((src.rest(q), stmt)),
        None => Err(WmachErr::Syntax { message: what.to_owned() }),
    }
}

/// A label name at the start of `input`: the text behind it, and the name.
pub fn label(input: &str) -> (r: Result<(&str, &str), WmachErr>)
    ensures
        match spec_label(input@, 0) {
            Some((q, name)) => r matches Ok((rest, got)) && rest@ == input@.subrange(
                q,
                input@.len() as int,
            ) && got@ == name,
            None => r matches Err(e) && e@ == (WmachErrView::Syntax {
                message: "expected a label name"@,
            }),
        },
{
    let src = Source::new(input);
    match scan_label(&src, 0) {
        Some(q) => Ok((src.rest(q), src.slice(0, q))),
        None => Err(WmachErr::Syntax { message: "expected a label name".to_owned() }),
    }
}

/// A label declaration at the start of `input`.
pub fn label_op(input: &str) -> (r: Result<(&str, Stmt), WmachErr>)
    ensures
        production_result(input@, spec_label_op(input@, 0), "expected a label declaration"@, r),
{
    let src = Source::new(input);
    let found = scan_label_op(&src, 0);
    finish(&src, found, "expected a label declaration")
}

/// A jump at the start of `input`.
pub fn jmp_op(input: &str) -> (r: Result<(&str, Stmt), WmachErr>)
    ensures
        production_result(input@, spec_jmp_op(input@, 0), "expected a jump"@, r),
{
    let src = Source::new(input);
    let found = scan_jmp_op(&src, 0);
    finish(&src, found, "expected a jump")
}

/// `+` at the start of `input`.
pub fn set_op(input: &str) -> (r: Result<(&str, Stmt), WmachErr>)
    ensures
        production_result(input@, spec_set_op(input@, 0), "expected '+'"@, r),
{
    let src = Source::new(input);
    let found = scan_set_op(&src, 0);
    finish(&src, found, "expected '+'")
}

/// `-` at the start of `input`.
pub fn unset_op(input: &str) -> (r: Result<(&str, Stmt), WmachErr>)
    ensures
        production_result(input@, spec_unset_op(input@, 0), "expected '-'"@, r),
{
    let src = Source::new(input);
    let found = scan_unset_op(&src, 0);
    finish(&src, found, "expected '-'")
}

/// A single `<` at the start of `input`.
pub fn seek_left_op(input: &str) -> (r: Result<(&str, Stmt), WmachErr>)
    ensures
        production_result(input@, spec_seek_left_op(input@, 0), "expected '<'"@, r),
{
    let src = Source::new(input);
    let found = scan_seek_left_op(&src, 0);
    finish(&src, found, "expected '<'")
}

/// One or more `<` at the start of `input`, taken together as one seek.
pub fn seek_left(input: &str) -> (r: Result<(&str, Stmt), WmachErr>)
    ensures
        production_result(input@, spec_seek_left(input@, 0), "expected '<'"@, r),
{
    let src = Source::new(input);
    let found = scan_seek_left(&src, 0);
    finish(&src, found, "expected '<'")
}

/// A single `>` at the start of `input`.
pub fn seek_right_op(input: &str) -> (r: Result<(&str, Stmt), WmachErr>)
    ensures
        production_result(input@, spec_seek_right_op(input@, 0), "expected '>'"@, r),
{
    let src = Source::new(input);
    let found = scan_seek_right_op(&src, 0);
    finish(&src, found, "expected '>'")
}

/// One or more `>` at the start of `input`, taken together as one seek.
pub fn seek_right(input: &str) -> (r: Result<(&str, Stmt), WmachErr>)
    ensures
        production_result(input@, spec_seek_right(input@, 0), "expected '>'"@, r),
{
    let src = Source::new(input);
    let found = scan_seek_right(&src, 0);
    finish(&src, found, "expected '>'")
}

/// `,` at the start of `input`, as the input statement.
pub fn input_op(input: &str) -> (r: Result<(&str, Stmt), WmachErr>)
    ensures
        production_result(input@, spec_input_op(input@, 0), "expected ','"@, r),
{
    let src = Source::new(input);
    let found = scan_input_op(&src, 0);
    finish(&src, found, "expected ','")
}

/// `.` at the start of `input`.
pub fn output_op(input: &str) -> (r: Result<(&str, Stmt), WmachErr>)
    ensures
        production_result(input@, spec_output_op(input@, 0), "expected '.'"@, r),
{
    let src = Source::new(input);
    let found = scan_output_op(&src, 0);
    finish(&src, found, "expected '.'")
}

/// `!` at the start of `input`.
pub fn debug_op(input: &str) -> (r: Result<(&str, Stmt), WmachErr>)
    ensures
        production_result(input@, spec_debug_op(input@, 0), "expected '!'"@, r),
{
    let src = Source::new(input);
    let found = scan_debug_op(&src, 0);
    finish(&src, found, "expected '!'")
}

/// One statement at the start of `input`: the first production that matches,
/// in the grammar's order.
pub fn statement(input: &str) -> (r: Result<(&str, Stmt), WmachErr>)
    ensures
        production_result(input@, spec_statement(input@, 0), "expected a statement"@, r),
{
    let src = Source::new(input);
    let found = scan_statement(&src, 0);
    finish(&src, found, "expected a statement")
}

/// A comment at the start of `input`, with the blanks and comments that
/// follow it: the text behind them.
pub fn comment(input: &str) -> (r: Result<(&str, ()), WmachErr>)
    ensures
        match comment_end(input@, 0) {
            Some(e) => r matches Ok((rest, _)) && rest@ == input@.subrange(
                skip_trivia(input@, e),
                input@.len() as int,
            ),
            None => r matches Err(e) && e@ == (WmachErrView::Syntax {
                message: "expected a comment"@,
            }),
        },
{
    let src = Source::new(input);
    match scan_comment(&src, 0) {
        Some(e) => Ok((src.rest(scan_trivia(&src, e)), ())),
        None => Err(WmachErr::Syntax { message: "expected a comment".to_owned() }),
    }
}

/// One statement with what may stand around it: blanks and comments, the
/// statement, and blanks and comments again.
pub fn any_statement(input: &str) -> (r: Result<(&str, Stmt), WmachErr>)
    ensures
        production_result(input@, spec_any_statement(input@, 0), "expected a statement"@, r),
{
    let src = Source::new(input);
    let found = scan_any_statement(&src, 0);
    finish(&src, found, "expected a statement")
}

/// The position where the statements of `s` end: the first position, going
/// from statement to statement, where none follows. It stands behind the
/// blanks and comments that follow the last statement; where `s` starts
/// with no statement it is 0, whatever blanks and comments `s` starts with.
pub open spec fn spec_entry_end(s: Seq<char>) -> int {
    program_end(s, 0)
}

/// The statements of `s` up to [`spec_entry_end`], in order.
pub open spec fn spec_entry_stmts(s: Seq<char>) -> Seq<StmtView> {
    program_stmts(s, 0)
}

/// What parsing the text `s` as a whole gives: its statements where nothing
/// but blanks and comments stands behind them, and else what is left behind
/// them. A text of blanks and comments alone is the empty program.
pub open spec fn spec_parse(s: Seq<char>) -> Result<Seq<StmtView>, WmachErrView> {
    if skip_trivia(s, spec_entry_end(s)) >= s.len() {
        Ok(spec_entry_stmts(s))
    } else {
        Err(WmachErrView::LeftoverInput { remainder: s.subrange(spec_entry_end(s), s.len() as int) })
    }
}

/// A text that parses gives statements that meet the data invariants: every
/// seek moves by at least one cell, every name is a label name, and the
/// first target of every jump is a name. A text that does not parse leaves a
/// remainder in which something other than blanks and comments stands, and
/// behind whose leading blanks and comments no statement starts; the
/// remainder starts with a blank or a comment only where the text holds no
/// statement at all.
pub proof fn lemma_parse(s: Seq<char>)
    requires
        s.len() <= usize::MAX,
    ensures
        spec_parse(s) matches Ok(stmts) ==> forall|i: int|
            0 <= i < stmts.len() ==> (#[trigger] stmts[i]).wf() && stmts[i].names_first_target(),
        spec_parse(s) is Err ==> (spec_parse(s) matches Err(
            WmachErrView::LeftoverInput { remainder },
        ) && remainder.len() > 0 && remainder == s.subrange(spec_entry_end(s), s.len() as int)),
        spec_parse(s) is Err ==> spec_statement(s, skip_trivia(s, spec_entry_end(s))) is None
            && 0 <= spec_entry_end(s) <= skip_trivia(s, spec_entry_end(s)) < s.len(),
        spec_parse(s) is Err && spec_entry_end(s) > 0 ==> skip_trivia(s, spec_entry_end(s))
            == spec_entry_end(s) && spec_entry_stmts(s).len() > 0,
        spec_parse(s) is Err && spec_entry_end(s) == 0 ==> spec_entry_stmts(s).len() == 0,
{
    lemma_program(s, 0);
    lemma_skip_trivia(s, spec_entry_end(s));
    lemma_any_statement(s, 0);
}

/// Runs of seeks are taken whole: a text that parses never gives two seeks in
/// the same direction one after the other.
pub proof fn lemma_parse_collapses(s: Seq<char>)
    ensures
        spec_parse(s) matches Ok(stmts) ==> forall|i: int|
            0 <= i && i + 1 < stmts.len() ==> !same_seek(#[trigger] stmts[i], stmts[i + 1]),
{
    lemma_runs_collapse(s, 0);
}

/// As many statements as stand at the start of `input`, each with the blanks
/// and comments around it, and the text behind them. This never fails: where
/// no statement matches, there are none, and the text is handed back whole.
pub fn parse_entry(input: &str) -> (r: Result<(&str, Vec<Stmt>), WmachErr>)
    ensures
        r matches Ok((rest, code)) && rest@ == input@.subrange(
            spec_entry_end(input@),
            input@.len() as int,
        ) && code_view(code@) == spec_entry_stmts(input@),
{
    let src = Source::new(input);
    let (end, code) = scan_program(&src, 0);
    Ok((src.rest(end), code))
}

impl Program {
    /// The statements of the text `unparsed`, which must be statements from
    /// its start to its end.
    pub fn parse_statements(unparsed: &str) -> (r: Result<Vec<Stmt>, WmachErr>)
        ensures
            match spec_parse(unparsed@) {
                Ok(stmts) => r matches Ok(code) && code_view(code@) == stmts,
                Err(err) => r matches Err(e) && e@ == err,
            },
            r matches Ok(code) ==> forall|i: int|
                0 <= i < code.len() ==> (#[trigger] code[i])@.wf()
                    && code[i]@.names_first_target(),
    {
        let src = Source::new(unparsed);
        proof {
            lemma_parse(unparsed@);
        }
        let (end, code) = scan_program(&src, 0);
        if scan_trivia(&src, end) < src.len() {
            Err(WmachErr::LeftoverInput { remainder: src.rest(end).to_owned() })
        } else {
            assert forall|i: int| 0 <= i < code.len() implies (#[trigger] code[i])@.wf()
                && code[i]@.names_first_target() by {
                let stmts = spec_parse(unparsed@)->Ok_0;
                assert(stmts[i] == code[i]@);
            }
            Ok(code)
        }
    }

    /// The program that the text `unparsed` holds.
    pub fn from_str(unparsed: &str) -> (r: Result<Program, WmachErr>)
        ensures
            match spec_parse(unparsed@) {
                Ok(stmts) => r matches Ok(program) && program@ == stmts,
                Err(err) => r matches Err(e) && e@ == err,
            },
            r matches Ok(program) ==> forall|i: int|
                0 <= i < program@.len() ==> (#[trigger] program@[i]).wf()
                    && program@[i].names_first_target(),
    {
        match Program::parse_statements(unparsed) {
            Ok(statements) => Ok(Program { instructions: statements }),
            Err(e) => Err(e),
        }
    }
}

} // verus!
