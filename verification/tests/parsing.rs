use wmc::wmach_stream::{
    any_statement, comment, debug_op, input_op, jmp_op, label, label_op, output_op, parse_entry,
    seek_left, seek_left_op, seek_right, seek_right_op, set_op, statement, unset_op,
};
use wmc::{IoOp, Program, SeekOp, Stmt, Target, WmachErr, WriteOp};

fn parsed(text: &str) -> Vec<Stmt> {
    match Program::from_str(text) {
        Ok(program) => program.instructions,
        Err(e) => panic!("parse failed: {:?}", e),
    }
}

fn leftover(text: &str) -> String {
    match Program::from_str(text) {
        Err(WmachErr::LeftoverInput { remainder }) => remainder,
        other => panic!("expected leftover input, got {:?}", other),
    }
}

fn syntax(message: &str) -> WmachErr {
    WmachErr::Syntax { message: message.to_string() }
}

fn name(text: &str) -> Target {
    Target::Name(text.to_string())
}

#[test]
fn right_run_is_one_seek() {
    assert_eq!(parsed(">>>"), vec![Stmt::Seek(SeekOp::Right(3))]);
}

#[test]
fn left_run_is_one_seek() {
    assert_eq!(parsed("<<<<"), vec![Stmt::Seek(SeekOp::Left(4))]);
}

#[test]
fn comment_between_statements_adds_nothing() {
    assert_eq!(
        parsed("+ /* c */ -"),
        vec![Stmt::Write(WriteOp::SetBit), Stmt::Write(WriteOp::Unset)]
    );
}

#[test]
fn unknown_character_is_left_over() {
    assert_eq!(
        Program::from_str("+$").unwrap_err(),
        WmachErr::LeftoverInput { remainder: "$".to_string() }
    );
}

#[test]
fn parse_statements_gives_the_statements() {
    assert_eq!(
        Program::parse_statements("+ - !").unwrap(),
        vec![Stmt::Write(WriteOp::SetBit), Stmt::Write(WriteOp::Unset), Stmt::Debug]
    );
    assert_eq!(
        Program::parse_statements("! ?").unwrap_err(),
        WmachErr::LeftoverInput { remainder: "?".to_string() }
    );
}

#[test]
fn empty_text_is_the_empty_program() {
    assert_eq!(parsed(""), vec![]);
}

#[test]
fn blanks_and_comments_alone_are_the_empty_program() {
    assert_eq!(parsed(" \t\r\n"), vec![]);
    assert_eq!(parsed("/* nothing */"), vec![]);
    assert_eq!(parsed("  /* a */\n/* b */  "), vec![]);
}

#[test]
fn every_single_character_statement() {
    assert_eq!(
        parsed("+-<>,.!"),
        vec![
            Stmt::Write(WriteOp::SetBit),
            Stmt::Write(WriteOp::Unset),
            Stmt::Seek(SeekOp::Left(1)),
            Stmt::Seek(SeekOp::Right(1)),
            Stmt::Io(IoOp::In),
            Stmt::Io(IoOp::Out),
            Stmt::Debug,
        ]
    );
}

#[test]
fn run_goes_on_over_blanks_and_comments() {
    assert_eq!(parsed("< <\n<"), vec![Stmt::Seek(SeekOp::Left(3))]);
    assert_eq!(parsed("> /* one */ > /* two */ >"), vec![Stmt::Seek(SeekOp::Right(3))]);
}

#[test]
fn run_ends_at_another_statement() {
    assert_eq!(
        parsed("<<><"),
        vec![
            Stmt::Seek(SeekOp::Left(2)),
            Stmt::Seek(SeekOp::Right(1)),
            Stmt::Seek(SeekOp::Left(1)),
        ]
    );
    assert_eq!(
        parsed("> + >"),
        vec![
            Stmt::Seek(SeekOp::Right(1)),
            Stmt::Write(WriteOp::SetBit),
            Stmt::Seek(SeekOp::Right(1)),
        ]
    );
}

#[test]
fn jump_with_two_targets() {
    assert_eq!(parsed("jmp a, b"), vec![Stmt::Jmp(name("a"), name("b"))]);
    assert_eq!(parsed("jmp a,b"), vec![Stmt::Jmp(name("a"), name("b"))]);
    assert_eq!(parsed("jmp a\n,\nb"), vec![Stmt::Jmp(name("a"), name("b"))]);
}

#[test]
fn jump_with_one_target_falls_through() {
    assert_eq!(parsed("jmp a"), vec![Stmt::Jmp(name("a"), Target::NextAddress)]);
    assert_eq!(
        parsed("jmp a +"),
        vec![Stmt::Jmp(name("a"), Target::NextAddress), Stmt::Write(WriteOp::SetBit)]
    );
}

#[test]
fn comma_without_a_second_name_is_input() {
    assert_eq!(
        parsed("jmp a, -"),
        vec![
            Stmt::Jmp(name("a"), Target::NextAddress),
            Stmt::Io(IoOp::In),
            Stmt::Write(WriteOp::Unset),
        ]
    );
    assert_eq!(parsed(","), vec![Stmt::Io(IoOp::In)]);
}

#[test]
fn comments_inside_a_jump() {
    assert_eq!(
        parsed("jmp /* to */ a /* or */ , /* else */ b /* done */"),
        vec![Stmt::Jmp(name("a"), name("b"))]
    );
    assert_eq!(parsed("jmp/**/a"), vec![Stmt::Jmp(name("a"), Target::NextAddress)]);
}

#[test]
fn jmp_needs_something_between_it_and_the_name() {
    assert_eq!(leftover("jmpa"), "jmpa");
    assert_eq!(leftover("jmp"), "jmp");
    assert_eq!(leftover("jmp ,"), "jmp ,");
}

#[test]
fn a_name_before_a_colon_is_a_label_even_if_it_is_jmp() {
    assert_eq!(parsed("jmp:"), vec![Stmt::Label("jmp".to_string())]);
    assert_eq!(
        parsed("jmp: jmp jmp"),
        vec![Stmt::Label("jmp".to_string()), Stmt::Jmp(name("jmp"), Target::NextAddress)]
    );
}

#[test]
fn label_names_hold_letters_digits_apostrophe_and_underscore() {
    assert_eq!(parsed("a'_9Z:"), vec![Stmt::Label("a'_9Z".to_string())]);
    assert_eq!(parsed("0:"), vec![Stmt::Label("0".to_string())]);
    assert_eq!(leftover("a-b:"), "a-b:");
}

#[test]
fn blanks_and_comments_before_the_colon() {
    assert_eq!(parsed("a :"), vec![Stmt::Label("a".to_string())]);
    assert_eq!(parsed("a\n/* here */:"), vec![Stmt::Label("a".to_string())]);
}

#[test]
fn stacked_labels() {
    assert_eq!(
        parsed("alias0: alias1:"),
        vec![Stmt::Label("alias0".to_string()), Stmt::Label("alias1".to_string())]
    );
}

#[test]
fn a_name_alone_is_left_over() {
    assert_eq!(leftover("+ foo"), "foo");
    assert_eq!(leftover("a b:"), "a b:");
    assert_eq!(leftover(":"), ":");
}

#[test]
fn comment_ends_at_the_first_closer() {
    assert_eq!(parsed("/**/+"), vec![Stmt::Write(WriteOp::SetBit)]);
    assert_eq!(parsed("/* a*b / c **/+"), vec![Stmt::Write(WriteOp::SetBit)]);
    assert_eq!(leftover("+ /* a /* b */ c */"), "c */");
}

#[test]
fn unclosed_comment_is_left_over() {
    assert_eq!(leftover("+ /* abc"), "/* abc");
    assert_eq!(leftover("/*/"), "/*/");
    assert_eq!(leftover("/ +"), "/ +");
}

#[test]
fn leftover_starts_behind_the_last_statement_and_what_follows_it() {
    assert_eq!(leftover("+  $"), "$");
    assert_eq!(leftover("+ /* c */ /* d */ $ +"), "$ +");
    assert_eq!(leftover("jmp a $"), "$");
}

#[test]
fn text_without_a_statement_is_left_over_whole() {
    assert_eq!(leftover("  $"), "  $");
    assert_eq!(leftover("/* c */ $"), "/* c */ $");
    assert_eq!(leftover("/* a /* b */ c */"), "/* a /* b */ c */");
}

#[test]
fn characters_outside_ascii() {
    assert_eq!(leftover("é"), "é");
    assert_eq!(leftover("+ /* é */ - ü+"), "ü+");
    assert_eq!(parsed("/* ∀x */ > /* → */ >"), vec![Stmt::Seek(SeekOp::Right(2))]);
    assert_eq!(leftover("é:"), "é:");
}

#[test]
fn whole_program() {
    assert_eq!(
        parsed("a: + jmp a, b\n-\nb: ."),
        vec![
            Stmt::Label("a".to_string()),
            Stmt::Write(WriteOp::SetBit),
            Stmt::Jmp(name("a"), name("b")),
            Stmt::Write(WriteOp::Unset),
            Stmt::Label("b".to_string()),
            Stmt::Io(IoOp::Out),
        ]
    );
}

#[test]
fn production_gives_the_text_behind_it() {
    assert_eq!(set_op("+ -"), Ok(("-", Stmt::Write(WriteOp::SetBit))));
    assert_eq!(unset_op("-/* c */+"), Ok(("+", Stmt::Write(WriteOp::Unset))));
    assert_eq!(input_op(",,"), Ok((",", Stmt::Io(IoOp::In))));
    assert_eq!(output_op(". x"), Ok(("x", Stmt::Io(IoOp::Out))));
    assert_eq!(debug_op("!"), Ok(("", Stmt::Debug)));
    assert_eq!(label_op("a : b"), Ok(("b", Stmt::Label("a".to_string()))));
    assert_eq!(jmp_op("jmp a, b c"), Ok(("c", Stmt::Jmp(name("a"), name("b")))));
}

#[test]
fn jump_with_one_target_ends_behind_its_name() {
    assert_eq!(jmp_op("jmp a , +"), Ok((" , +", Stmt::Jmp(name("a"), Target::NextAddress))));
    assert_eq!(jmp_op("jmp a "), Ok((" ", Stmt::Jmp(name("a"), Target::NextAddress))));
    assert_eq!(jmp_op("jmp a"), Ok(("", Stmt::Jmp(name("a"), Target::NextAddress))));
    assert_eq!(jmp_op("jmp a,b"), Ok(("", Stmt::Jmp(name("a"), name("b")))));
    assert_eq!(jmp_op("jmp a, b  "), Ok(("", Stmt::Jmp(name("a"), name("b")))));
    assert_eq!(
        jmp_op("jmp a /* c */ ,"),
        Ok((" /* c */ ,", Stmt::Jmp(name("a"), Target::NextAddress)))
    );
    assert_eq!(statement("jmp a +"), Ok((" +", Stmt::Jmp(name("a"), Target::NextAddress))));
    assert_eq!(any_statement("jmp a +"), Ok(("+", Stmt::Jmp(name("a"), Target::NextAddress))));
}

#[test]
fn single_seek_takes_one_character() {
    assert_eq!(seek_left_op("<<<"), Ok(("<<", Stmt::Seek(SeekOp::Left(1)))));
    assert_eq!(seek_right_op("> >"), Ok((">", Stmt::Seek(SeekOp::Right(1)))));
}

#[test]
fn seek_takes_the_run() {
    assert_eq!(seek_left("<<< >"), Ok((">", Stmt::Seek(SeekOp::Left(3)))));
    assert_eq!(seek_right("> > +"), Ok(("+", Stmt::Seek(SeekOp::Right(2)))));
}

#[test]
fn label_gives_the_name_and_the_text_behind_it() {
    assert_eq!(label("abc def"), Ok((" def", "abc")));
    assert_eq!(label("a_1':"), Ok((":", "a_1'")));
    assert_eq!(label(" abc"), Err(syntax("expected a label name")));
    assert_eq!(label(""), Err(syntax("expected a label name")));
}

#[test]
fn statement_takes_the_first_production_that_matches() {
    assert_eq!(statement("jmp: +"), Ok(("+", Stmt::Label("jmp".to_string()))));
    assert_eq!(statement("<<+"), Ok(("+", Stmt::Seek(SeekOp::Left(2)))));
    assert_eq!(statement(", a"), Ok(("a", Stmt::Io(IoOp::In))));
    assert_eq!(statement(" +"), Err(syntax("expected a statement")));
}

#[test]
fn any_statement_skips_what_stands_before() {
    assert_eq!(any_statement("  /* c */ + -"), Ok(("-", Stmt::Write(WriteOp::SetBit))));
    assert_eq!(any_statement("  /* c */ "), Err(syntax("expected a statement")));
    assert_eq!(any_statement("$"), Err(syntax("expected a statement")));
}

#[test]
fn comment_gives_the_text_behind_it() {
    assert_eq!(comment("/* a */  +"), Ok(("+", ())));
    assert_eq!(comment("/* a *//* b */+"), Ok(("+", ())));
    assert_eq!(comment("/* a"), Err(syntax("expected a comment")));
    assert_eq!(comment(" /* a */"), Err(syntax("expected a comment")));
}

#[test]
fn parse_entry_stops_where_no_statement_matches() {
    assert_eq!(parse_entry("+ $ -"), Ok(("$ -", vec![Stmt::Write(WriteOp::SetBit)])));
    assert_eq!(parse_entry("  "), Ok(("  ", vec![])));
    assert_eq!(parse_entry(" ?"), Ok((" ?", vec![])));
    assert_eq!(parse_entry("?"), Ok(("?", vec![])));
    assert_eq!(parse_entry(" + "), Ok(("", vec![Stmt::Write(WriteOp::SetBit)])));
    assert_eq!(
        parse_entry("jmp a , ?"),
        Ok(("?", vec![Stmt::Jmp(name("a"), Target::NextAddress), Stmt::Io(IoOp::In)]))
    );
}

#[test]
fn each_production_says_what_it_expected() {
    assert_eq!(set_op("-"), Err(syntax("expected '+'")));
    assert_eq!(unset_op("+"), Err(syntax("expected '-'")));
    assert_eq!(seek_left_op(">"), Err(syntax("expected '<'")));
    assert_eq!(seek_left(">"), Err(syntax("expected '<'")));
    assert_eq!(seek_right_op("<"), Err(syntax("expected '>'")));
    assert_eq!(seek_right("<"), Err(syntax("expected '>'")));
    assert_eq!(input_op("."), Err(syntax("expected ','")));
    assert_eq!(output_op(","), Err(syntax("expected '.'")));
    assert_eq!(debug_op("?"), Err(syntax("expected '!'")));
    assert_eq!(label_op("a"), Err(syntax("expected a label declaration")));
    assert_eq!(label_op(":"), Err(syntax("expected a label declaration")));
    assert_eq!(jmp_op("jmp"), Err(syntax("expected a jump")));
    assert_eq!(jmp_op("jmpa"), Err(syntax("expected a jump")));
    assert_eq!(jmp_op("jump a"), Err(syntax("expected a jump")));
}

#[test]
fn productions_do_not_skip_what_stands_before() {
    assert_eq!(set_op(" +"), Err(syntax("expected '+'")));
    assert_eq!(jmp_op(" jmp a"), Err(syntax("expected a jump")));
}

#[test]
fn target_as_text() {
    assert_eq!(Target::NextAddress.to_string(), "<NextAddress>");
    assert_eq!(name("loop").to_string(), "loop");
}

#[test]
fn statements_can_be_cloned() {
    let stmt = Stmt::Jmp(name("a"), Target::NextAddress);
    assert_eq!(stmt.clone(), stmt);
    assert_eq!(Stmt::Label("x".to_string()).clone(), Stmt::Label("x".to_string()));
    assert_eq!(Stmt::Seek(SeekOp::Left(7)).clone(), Stmt::Seek(SeekOp::Left(7)));
}

#[test]
fn long_run_counts_every_character() {
    let text = "<".repeat(1000);
    assert_eq!(parsed(&text), vec![Stmt::Seek(SeekOp::Left(1000))]);
}
