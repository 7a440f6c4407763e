//! The grammar of the notation, as functions on a character sequence and a
//! position in it.
//!
//! Every production starts at the position it is given. Where it matches, it
//! ends behind the blanks and comments that follow its last token, with two
//! exceptions: a label name alone ends directly behind the name, and so does
//! a jump with one target, because the attempt at a second target either
//! matches as a whole or takes nothing. What stands between two statements
//! is skipped where statements are taken in sequence.

use vstd::prelude::*;
use crate::wmach_stream::{is_label_char, is_label_name, IoOp, SeekOp, StmtView, TargetView, WriteOp};

verus! {

/// Blank characters: space, tab, line feed, carriage return.
pub open spec fn is_space(c: char) -> bool {
    c == ' ' || c == '\t' || c == '\n' || c == '\r'
}

/// Whether the character `c` stands at position `p` of `s`.
pub open spec fn has_char(s: Seq<char>, p: int, c: char) -> bool {
    0 <= p < s.len() && s[p] == c
}

/// Whether `/*` stands at `p`.
pub open spec fn opens_comment(s: Seq<char>, p: int) -> bool {
    has_char(s, p, '/') && has_char(s, p + 1, '*')
}

/// Whether `*/` stands at `p`.
pub open spec fn closes_comment(s: Seq<char>, p: int) -> bool {
    has_char(s, p, '*') && has_char(s, p + 1, '/')
}

/// The first position at or after `q` where `*/` stands, or `s.len()` where
/// there is none.
pub open spec fn closer_from(s: Seq<char>, q: int) -> int
    decreases s.len() - q,
{
    if q < 0 || q >= s.len() {
        s.len() as int
    } else if closes_comment(s, q) {
        q
    } else {
        closer_from(s, q + 1)
    }
}

/// The position behind the comment that starts at `p`. Comments do not nest:
/// one ends at the first `*/` behind its `/*`. A `/*` that is never closed
/// starts no comment.
pub open spec fn comment_end(s: Seq<char>, p: int) -> Option<int> {
    if opens_comment(s, p) && closer_from(s, p + 2) < s.len() {
        Some(closer_from(s, p + 2) + 2)
    } else {
        None
    }
}

/// `closer_from(s, q)` is the first position from `q` on where `*/` stands.
pub proof fn lemma_closer_bounds(s: Seq<char>, q: int)
    requires
        0 <= q,
    ensures
        q <= closer_from(s, q) || closer_from(s, q) == s.len(),
        closer_from(s, q) <= s.len(),
        closer_from(s, q) < s.len() ==> closes_comment(s, closer_from(s, q)),
        forall|k: int| q <= k < closer_from(s, q) ==> !closes_comment(s, k),
    decreases s.len() - q,
{
    if q < s.len() && !closes_comment(s, q) {
        lemma_closer_bounds(s, q + 1);
    }
}

/// The first position at or after `p` that holds neither a blank nor the start
/// of a comment.
pub open spec fn skip_trivia(s: Seq<char>, p: int) -> int
    decreases s.len() - p,
{
    if p < 0 || p >= s.len() {
        p
    } else if is_space(s[p]) {
        skip_trivia(s, p + 1)
    } else {
        match comment_end(s, p) {
            Some(e) => {
                proof {
                    lemma_closer_bounds(s, p + 2);
                }
                skip_trivia(s, e)
            },
            None => p,
        }
    }
}

/// Skipping moves forward, stays inside the text, and stops where nothing is
/// left to skip.
pub proof fn lemma_skip_trivia(s: Seq<char>, p: int)
    requires
        0 <= p <= s.len(),
    ensures
        p <= skip_trivia(s, p) <= s.len(),
        skip_trivia(s, skip_trivia(s, p)) == skip_trivia(s, p),
        skip_trivia(s, p) < s.len() ==> !is_space(s[skip_trivia(s, p)]),
        comment_end(s, skip_trivia(s, p)) is None,
    decreases s.len() - p,
{
    if p < s.len() {
        if is_space(s[p]) {
            lemma_skip_trivia(s, p + 1);
        } else if let Some(e) = comment_end(s, p) {
            lemma_closer_bounds(s, p + 2);
            lemma_skip_trivia(s, e);
        }
    }
}

/// The end of the longest run of label characters that starts at `p`.
pub open spec fn name_end(s: Seq<char>, p: int) -> int
    decreases s.len() - p,
{
    if 0 <= p < s.len() && is_label_char(s[p]) {
        name_end(s, p + 1)
    } else {
        p
    }
}

/// The run from `p` to `name_end(s, p)` holds label characters only, and the
/// character behind it, if there is one, is none.
pub proof fn lemma_name_end(s: Seq<char>, p: int)
    requires
        0 <= p <= s.len(),
    ensures
        p <= name_end(s, p) <= s.len(),
        forall|k: int| p <= k < name_end(s, p) ==> is_label_char(#[trigger] s[k]),
        name_end(s, p) < s.len() ==> !is_label_char(s[name_end(s, p)]),
    decreases s.len() - p,
{
    if p < s.len() && is_label_char(s[p]) {
        lemma_name_end(s, p + 1);
    }
}

/// A label name at `p`: the longest run of label characters there, which must
/// not be empty. Gives the position behind the name, and the name.
pub open spec fn spec_label(s: Seq<char>, p: int) -> Option<(int, Seq<char>)> {
    if name_end(s, p) > p {
        Some((name_end(s, p), s.subrange(p, name_end(s, p))))
    } else {
        None
    }
}

/// A statement that is the single character `c`.
pub open spec fn spec_char_op(s: Seq<char>, p: int, c: char, stmt: StmtView) -> Option<
    (int, StmtView),
> {
    if has_char(s, p, c) {
        Some((skip_trivia(s, p + 1), stmt))
    } else {
        None
    }
}

/// `+`
pub open spec fn spec_set_op(s: Seq<char>, p: int) -> Option<(int, StmtView)> {
    spec_char_op(s, p, '+', StmtView::Write(WriteOp::SetBit))
}

/// `-`
pub open spec fn spec_unset_op(s: Seq<char>, p: int) -> Option<(int, StmtView)> {
    spec_char_op(s, p, '-', StmtView::Write(WriteOp::Unset))
}

/// A single `<`
pub open spec fn spec_seek_left_op(s: Seq<char>, p: int) -> Option<(int, StmtView)> {
    spec_char_op(s, p, '<', StmtView::Seek(SeekOp::Left(1)))
}

/// A single `>`
pub open spec fn spec_seek_right_op(s: Seq<char>, p: int) -> Option<(int, StmtView)> {
    spec_char_op(s, p, '>', StmtView::Seek(SeekOp::Right(1)))
}

/// `,` where it is a statement
pub open spec fn spec_input_op(s: Seq<char>, p: int) -> Option<(int, StmtView)> {
    spec_char_op(s, p, ',', StmtView::Io(IoOp::In))
}

/// `.`
pub open spec fn spec_output_op(s: Seq<char>, p: int) -> Option<(int, StmtView)> {
    spec_char_op(s, p, '.', StmtView::Io(IoOp::Out))
}

/// `!`
pub open spec fn spec_debug_op(s: Seq<char>, p: int) -> Option<(int, StmtView)> {
    spec_char_op(s, p, '!', StmtView::Debug)
}

/// The position behind the run of `c` that starts at `p`; only blanks and
/// comments may stand between two characters of a run.
pub open spec fn run_end(s: Seq<char>, p: int, c: char) -> int
    decreases s.len() - p,
{
    if has_char(s, p, c) {
        proof {
            lemma_skip_trivia(s, p + 1);
        }
        run_end(s, skip_trivia(s, p + 1), c)
    } else {
        p
    }
}

/// How many times `c` stands in the run that starts at `p`.
pub open spec fn run_count(s: Seq<char>, p: int, c: char) -> nat
    decreases s.len() - p,
{
    if has_char(s, p, c) {
        proof {
            lemma_skip_trivia(s, p + 1);
        }
        1 + run_count(s, skip_trivia(s, p + 1), c)
    } else {
        0
    }
}

/// A run ends inside the text and holds no more characters than it spans.
pub proof fn lemma_run(s: Seq<char>, p: int, c: char)
    requires
        0 <= p <= s.len(),
    ensures
        p <= run_end(s, p, c) <= s.len(),
        run_count(s, p, c) <= run_end(s, p, c) - p,
        has_char(s, p, c) ==> run_count(s, p, c) >= 1 && run_end(s, p, c) > p,
        skip_trivia(s, p) == p ==> skip_trivia(s, run_end(s, p, c)) == run_end(s, p, c),
    decreases s.len() - p,
{
    if has_char(s, p, c) {
        lemma_skip_trivia(s, p + 1);
        lemma_run(s, skip_trivia(s, p + 1), c);
    }
}

/// One or more `<`, taken together as one seek.
pub open spec fn spec_seek_left(s: Seq<char>, p: int) -> Option<(int, StmtView)> {
    if has_char(s, p, '<') {
        Some((run_end(s, p, '<'), StmtView::Seek(SeekOp::Left(run_count(s, p, '<') as usize))))
    } else {
        None
    }
}

/// One or more `>`, taken together as one seek.
pub open spec fn spec_seek_right(s: Seq<char>, p: int) -> Option<(int, StmtView)> {
    if has_char(s, p, '>') {
        Some((run_end(s, p, '>'), StmtView::Seek(SeekOp::Right(run_count(s, p, '>') as usize))))
    } else {
        None
    }
}

/// A label declaration: a name, then `:`.
pub open spec fn spec_label_op(s: Seq<char>, p: int) -> Option<(int, StmtView)> {
    match spec_label(s, p) {
        Some((q, name)) => {
            let colon = skip_trivia(s, q);
            if has_char(s, colon, ':') {
                Some((skip_trivia(s, colon + 1), StmtView::Label(name)))
            } else {
                None
            }
        },
        None => None,
    }
}

/// Whether the word `jmp` stands at `p`.
pub open spec fn has_jmp(s: Seq<char>, p: int) -> bool {
    has_char(s, p, 'j') && has_char(s, p + 1, 'm') && has_char(s, p + 2, 'p')
}

/// The second target of a jump, where `,` and a name stand at `p`. Gives the
/// position behind the name, and the name.
pub open spec fn spec_second_target(s: Seq<char>, p: int) -> Option<(int, Seq<char>)> {
    if has_char(s, p, ',') {
        spec_label(s, skip_trivia(s, p + 1))
    } else {
        None
    }
}

/// A jump: `jmp`, at least one blank or comment, a name, and then either `,`
/// and a second name or nothing. Without a second name the jump falls through
/// to the next statement when the bit is not set, and it ends directly behind
/// its one name: blanks, comments and a `,` that follow are left where they
/// are.
pub open spec fn spec_jmp_op(s: Seq<char>, p: int) -> Option<(int, StmtView)> {
    let first = skip_trivia(s, p + 3);
    if has_jmp(s, p) && first > p + 3 {
        match spec_label(s, first) {
            Some((q, on_set)) => {
                let sep = skip_trivia(s, q);
                match spec_second_target(s, sep) {
                    Some((r, on_unset)) => Some(
                        (
                            skip_trivia(s, r),
                            StmtView::Jmp(TargetView::Name(on_set), TargetView::Name(on_unset)),
                        ),
                    ),
                    None => Some(
                        (q, StmtView::Jmp(TargetView::Name(on_set), TargetView::NextAddress)),
                    ),
                }
            },
            None => None,
        }
    } else {
        None
    }
}

/// The first of two attempts that matched.
pub open spec fn or_else(a: Option<(int, StmtView)>, b: Option<(int, StmtView)>) -> Option<
    (int, StmtView),
> {
    if a is Some {
        a
    } else {
        b
    }
}

/// One statement at `p`. The productions are tried in this order, and the
/// first that matches is taken: a name followed by `:` is a label
/// declaration even where the name is `jmp`, and `,` is the input statement
/// only where no jump has taken it for its separator.
pub open spec fn spec_statement(s: Seq<char>, p: int) -> Option<(int, StmtView)> {
    or_else(
        spec_label_op(s, p),
        or_else(
            spec_jmp_op(s, p),
            or_else(
                spec_set_op(s, p),
                or_else(
                    spec_unset_op(s, p),
                    or_else(
                        spec_seek_left(s, p),
                        or_else(
                            spec_seek_right(s, p),
                            or_else(
                                spec_input_op(s, p),
                                or_else(spec_output_op(s, p), spec_debug_op(s, p)),
                            ),
                        ),
                    ),
                ),
            ),
        ),
    )
}

/// A name that [`spec_label`] finds is a label name.
pub proof fn lemma_label(s: Seq<char>, p: int)
    requires
        0 <= p <= s.len(),
    ensures
        spec_label(s, p) matches Some((q, name)) ==> p < q <= s.len() && is_label_name(name),
{
    lemma_name_end(s, p);
    if let Some((q, name)) = spec_label(s, p) {
        assert forall|i: int| 0 <= i < name.len() implies is_label_char(#[trigger] name[i]) by {
            assert(name[i] == s[p + i]);
        }
    }
}

/// A statement starts inside the text, and ends behind where it started and
/// inside the text.
pub proof fn lemma_statement(s: Seq<char>, p: int)
    ensures
        spec_statement(s, p) matches Some((q, stmt)) ==> 0 <= p < q <= s.len(),
{
    if 0 <= p < s.len() {
        lemma_skip_trivia(s, p + 1);
        assert(spec_seek_left(s, p) matches Some((q, stmt)) ==> p < q <= s.len()) by {
            lemma_run(s, p, '<');
        }
        assert(spec_seek_right(s, p) matches Some((q, stmt)) ==> p < q <= s.len()) by {
            lemma_run(s, p, '>');
        }
        assert(spec_label_op(s, p) matches Some((q, stmt)) ==> p < q <= s.len()) by {
            lemma_name_end(s, p);
            let colon = skip_trivia(s, name_end(s, p));
            lemma_skip_trivia(s, name_end(s, p));
            if colon < s.len() {
                lemma_skip_trivia(s, colon + 1);
            }
        }
        assert(spec_jmp_op(s, p) matches Some((q, stmt)) ==> p < q <= s.len()) by {
            if has_jmp(s, p) {
                lemma_skip_trivia(s, p + 3);
                let first = skip_trivia(s, p + 3);
                lemma_name_end(s, first);
                let a = name_end(s, first);
                lemma_skip_trivia(s, a);
                let sep = skip_trivia(s, a);
                if has_char(s, sep, ',') {
                    lemma_skip_trivia(s, sep + 1);
                    let second = skip_trivia(s, sep + 1);
                    lemma_name_end(s, second);
                    lemma_skip_trivia(s, name_end(s, second));
                }
            }
        }
    }
}

/// A statement that the grammar yields meets the data invariants: its seeks
/// move by at least one cell, and its names are label names. Where it is a
/// jump, its first target is a name.
pub proof fn lemma_statement_wf(s: Seq<char>, p: int)
    requires
        s.len() <= usize::MAX,
    ensures
        spec_statement(s, p) matches Some((q, stmt)) ==> stmt.wf() && stmt.names_first_target(),
{
    if 0 <= p < s.len() {
        lemma_run(s, p, '<');
        lemma_run(s, p, '>');
        lemma_label(s, p);
        if has_jmp(s, p) {
            lemma_skip_trivia(s, p + 3);
            let first = skip_trivia(s, p + 3);
            lemma_label(s, first);
            let a = name_end(s, first);
            lemma_name_end(s, first);
            lemma_skip_trivia(s, a);
            let sep = skip_trivia(s, a);
            if has_char(s, sep, ',') {
                lemma_skip_trivia(s, sep + 1);
                lemma_label(s, skip_trivia(s, sep + 1));
            }
        }
    }
}

/// One statement with what may stand around it: blanks and comments, the
/// statement, and blanks and comments again.
pub open spec fn spec_any_statement(s: Seq<char>, p: int) -> Option<(int, StmtView)> {
    match spec_statement(s, skip_trivia(s, p)) {
        Some((q, stmt)) => Some((skip_trivia(s, q), stmt)),
        None => None,
    }
}

/// A statement with what stands around it ends behind where it started and
/// inside the text, and leaves no blank or comment to skip behind it.
pub proof fn lemma_any_statement(s: Seq<char>, p: int)
    ensures
        spec_any_statement(s, p) matches Some((q, stmt)) ==> {
            &&& 0 <= p < q <= s.len()
            &&& skip_trivia(s, q) == q
            &&& spec_statement(s, skip_trivia(s, p)) matches Some((e, inner)) && inner == stmt
                && q == skip_trivia(s, e)
        },
{
    if 0 <= p <= s.len() {
        lemma_skip_trivia(s, p);
        lemma_statement(s, skip_trivia(s, p));
        if let Some((e, stmt)) = spec_statement(s, skip_trivia(s, p)) {
            lemma_skip_trivia(s, e);
        }
    } else {
        lemma_statement(s, p);
    }
}

/// The position where the statements that start at `p` end: the first
/// position, going from statement to statement, where none follows. What
/// stands around a statement is skipped with it; where no statement follows,
/// nothing is skipped.
pub open spec fn program_end(s: Seq<char>, p: int) -> int
    decreases s.len() - p,
{
    match spec_any_statement(s, p) {
        Some((q, _)) => {
            proof {
                lemma_any_statement(s, p);
            }
            program_end(s, q)
        },
        None => p,
    }
}

/// The statements that start at `p`, in order.
pub open spec fn program_stmts(s: Seq<char>, p: int) -> Seq<StmtView>
    decreases s.len() - p,
{
    match spec_any_statement(s, p) {
        Some((q, stmt)) => {
            proof {
                lemma_any_statement(s, p);
            }
            seq![stmt] + program_stmts(s, q)
        },
        None => Seq::empty(),
    }
}

/// The statements that start at `p` end inside the text, where no statement
/// follows, and each of them meets the data invariants and, where it is a
/// jump, has a name for its first target.
pub proof fn lemma_program(s: Seq<char>, p: int)
    requires
        0 <= p <= s.len() <= usize::MAX,
    ensures
        p <= program_end(s, p) <= s.len(),
        spec_any_statement(s, program_end(s, p)) is None,
        program_end(s, p) > p ==> skip_trivia(s, program_end(s, p)) == program_end(s, p),
        forall|i: int|
            0 <= i < program_stmts(s, p).len() ==> (#[trigger] program_stmts(s, p)[i]).wf()
                && program_stmts(s, p)[i].names_first_target(),
    decreases s.len() - p,
{
    if let Some((q, stmt)) = spec_any_statement(s, p) {
        lemma_any_statement(s, p);
        lemma_skip_trivia(s, p);
        lemma_statement_wf(s, skip_trivia(s, p));
        lemma_program(s, q);
        let rest = program_stmts(s, q);
        assert forall|i: int| 0 <= i < program_stmts(s, p).len() implies (#[trigger] program_stmts(
            s,
            p,
        )[i]).wf() && program_stmts(s, p)[i].names_first_target() by {
            if i > 0 {
                assert(program_stmts(s, p)[i] == rest[i - 1]);
            }
        }
    }
}

/// A run ends where its character does not stand.
pub proof fn lemma_run_ends(s: Seq<char>, p: int, c: char)
    requires
        0 <= p <= s.len(),
    ensures
        !has_char(s, run_end(s, p, c), c),
    decreases s.len() - p,
{
    if has_char(s, p, c) {
        lemma_skip_trivia(s, p + 1);
        lemma_run_ends(s, skip_trivia(s, p + 1), c);
    }
}

/// Whether `a` and `b` are seeks in the same direction.
pub open spec fn same_seek(a: StmtView, b: StmtView) -> bool {
    ||| a matches StmtView::Seek(SeekOp::Left(_)) && b matches StmtView::Seek(SeekOp::Left(_))
    ||| a matches StmtView::Seek(SeekOp::Right(_)) && b matches StmtView::Seek(SeekOp::Right(_))
}

/// Runs are taken whole: of the statements that start at `p`, no two
/// neighbours are seeks in the same direction.
pub proof fn lemma_runs_collapse(s: Seq<char>, p: int)
    requires
        0 <= p <= s.len(),
    ensures
        forall|i: int|
            0 <= i && i + 1 < program_stmts(s, p).len() ==> !same_seek(
                #[trigger] program_stmts(s, p)[i],
                program_stmts(s, p)[i + 1],
            ),
    decreases s.len() - p,
{
    if let Some((q, stmt)) = spec_any_statement(s, p) {
        lemma_any_statement(s, p);
        lemma_runs_collapse(s, q);
        lemma_skip_trivia(s, p);
        let start = skip_trivia(s, p);
        lemma_run_ends(s, start, '<');
        lemma_run_ends(s, start, '>');
        lemma_run(s, start, '<');
        lemma_run(s, start, '>');
        let all = program_stmts(s, p);
        let rest = program_stmts(s, q);
        assert forall|i: int| 0 <= i && i + 1 < all.len() implies !same_seek(
            #[trigger] all[i],
            all[i + 1],
        ) by {
            assert(all[i + 1] == rest[i]);
            if i > 0 {
                assert(all[i] == rest[i - 1]);
            } else {
                assert(all[0] == stmt);
                lemma_any_statement(s, q);
                let next = spec_any_statement(s, q).unwrap();
                assert(rest[0] == next.1);
            }
        }
    }
}

} // verus!
