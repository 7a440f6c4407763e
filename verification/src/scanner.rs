//! Executable scanning of a source text, one production of the grammar per
//! function, each proved equal to the grammar's own function.

use vstd::prelude::*;
use crate::grammar::{
    closer_from, comment_end, has_char, is_space, lemma_closer_bounds, lemma_run, lemma_statement,
    name_end, program_end, program_stmts, run_count, run_end, skip_trivia, spec_char_op,
    spec_any_statement, spec_debug_op, spec_input_op, spec_jmp_op, spec_label, spec_label_op, spec_output_op,
    spec_seek_left, spec_seek_left_op, spec_seek_right, spec_seek_right_op, spec_set_op,
    spec_statement, spec_unset_op,
};
use crate::wmach_stream::{
    code_view, is_label_char, IoOp, SeekOp, Stmt, StmtView, Target, WriteOp,
};

verus! {

/// A source text together with its characters, for access by position.
pub struct Source<'a> {
    pub text: &'a str,
    pub chars: Vec<char>,
}

impl<'a> View for Source<'a> {
    type V = Seq<char>;

    open spec fn view(&self) -> Seq<char> {
        self.chars@
    }
}

impl<'a> Source<'a> {
    /// The characters are those of the text.
    pub open spec fn wf(&self) -> bool {
        self.chars@ == self.text@
    }

    /// The source that holds `text`.
    pub fn new(text: &'a str) -> (src: Self)
        ensures
            src.wf(),
            src@ == text@,
    {
        let mut chars: Vec<char> = Vec::new();
        for c in it: text.chars()
            invariant
                chars@ == it.seq().take(it.index() as int),
                it.seq() == text@,
        {
            chars.push(c);
        }
        assert(chars@ =~= text@);
        Source { text, chars }
    }

    /// The number of characters, which fits the machine's word.
    pub open spec fn spec_len(&self) -> usize {
        self.chars.len()
    }

    /// The number of characters.
    #[verifier::when_used_as_spec(spec_len)]
    pub fn len(&self) -> (n: usize)
        ensures
            n == self.spec_len(),
            n == self@.len(),
    {
        self.chars.len()
    }

    /// Whether `c` stands at position `p`.
    pub fn has(&self, p: usize, c: char) -> (r: bool)
        ensures
            r == has_char(self@, p as int, c),
    {
        p < self.chars.len() && self.chars[p] == c
    }

    /// Whether a blank stands at position `p`.
    pub fn has_space(&self, p: usize) -> (r: bool)
        ensures
            r == (p < self@.len() && is_space(self@[p as int])),
    {
        p < self.chars.len() && {
            let c = self.chars[p];
            c == ' ' || c == '\t' || c == '\n' || c == '\r'
        }
    }

    /// Whether a label character stands at position `p`.
    pub fn has_label_char(&self, p: usize) -> (r: bool)
        ensures
            r == (p < self@.len() && is_label_char(self@[p as int])),
    {
        p < self.chars.len() && {
            let c = self.chars[p];
            ('a' <= c && c <= 'z') || ('A' <= c && c <= 'Z') || ('0' <= c && c <= '9') || c == '\''
                || c == '_'
        }
    }

    /// The text from `from` up to `to`.
    pub fn slice(&self, from: usize, to: usize) -> (r: &'a str)
        requires
            self.wf(),
            from <= to <= self.len(),
        ensures
            r@ == self@.subrange(from as int, to as int),
    {
        self.text.substring_char(from, to)
    }

    /// The text from `from` on.
    pub fn rest(&self, from: usize) -> (r: &'a str)
        requires
            self.wf(),
            from <= self.len(),
        ensures
            r@ == self@.subrange(from as int, self@.len() as int),
    {
        self.text.substring_char(from, self.chars.len())
    }
}

/// The first position at or after `from` where `*/` stands, or the length of
/// the text.
pub fn scan_closer(src: &Source, from: usize) -> (k: usize)
    requires
        from <= src.len(),
    ensures
        k == closer_from(src@, from as int),
        from <= k <= src.len(),
{
    let n = src.len();
    let mut k = from;
    while k < n
        invariant
            from <= k <= n == src.len(),
            closer_from(src@, k as int) == closer_from(src@, from as int),
        decreases n - k,
    {
        if src.has(k, '*') && src.has(k + 1, '/') {
            return k;
        }
        k += 1;
    }
    k
}

/// The position behind the comment that starts at `p`, if one does.
pub fn scan_comment(src: &Source, p: usize) -> (r: Option<usize>)
    requires
        p <= src.len(),
    ensures
        r is Some == comment_end(src@, p as int) is Some,
        r matches Some(e) ==> comment_end(src@, p as int) == Some(e as int) && p < e <= src.len(),
{
    if src.has(p, '/') && p + 1 < src.len() && src.has(p + 1, '*') {
        let k = scan_closer(src, p + 2);
        if k < src.len() {
            proof {
                lemma_closer_bounds(src@, p + 2);
            }
            Some(k + 2)
        } else {
            None
        }
    } else {
        None
    }
}

/// Skips blanks and comments from `p` on.
pub fn scan_trivia(src: &Source, p: usize) -> (q: usize)
    requires
        p <= src.len(),
    ensures
        q == skip_trivia(src@, p as int),
        p <= q <= src.len(),
{
    let mut q = p;
    loop
        invariant
            p <= q <= src.len(),
            skip_trivia(src@, q as int) == skip_trivia(src@, p as int),
        ensures
            p <= q <= src.len(),
            q == skip_trivia(src@, p as int),
        decreases src.len() - q,
    {
        if src.has_space(q) {
            q += 1;
        } else {
            match scan_comment(src, q) {
                Some(e) => {
                    q = e;
                },
                None => {
                    break ;
                },
            }
        }
    }
    q
}

/// The end of the run of label characters that starts at `p`.
pub fn scan_name_end(src: &Source, p: usize) -> (q: usize)
    requires
        p <= src.len(),
    ensures
        q == name_end(src@, p as int),
        p <= q <= src.len(),
{
    let mut q = p;
    while src.has_label_char(q)
        invariant
            p <= q <= src.len(),
            name_end(src@, q as int) == name_end(src@, p as int),
        decreases src.len() - q,
    {
        q += 1;
    }
    q
}

/// A label name at `p`, as the positions where it starts and ends.
pub fn scan_label(src: &Source, p: usize) -> (r: Option<usize>)
    requires
        p <= src.len(),
    ensures
        match r {
            Some(q) => spec_label(src@, p as int) == Some(
                (q as int, src@.subrange(p as int, q as int)),
            ) && p < q <= src.len(),
            None => spec_label(src@, p as int) is None,
        },
{
    let q = scan_name_end(src, p);
    if q > p {
        Some(q)
    } else {
        None
    }
}

/// Whether an executable result is what the grammar gives.
pub open spec fn agrees(r: Option<(usize, Stmt)>, m: Option<(int, StmtView)>) -> bool {
    match r {
        Some((q, stmt)) => m == Some((q as int, stmt@)),
        None => m is None,
    }
}

/// A statement that is the single character `c`.
pub fn scan_char_op(src: &Source, p: usize, c: char, stmt: Stmt) -> (r: Option<(usize, Stmt)>)
    requires
        p <= src.len(),
    ensures
        agrees(r, spec_char_op(src@, p as int, c, stmt@)),
        r matches Some((q, _)) ==> p < q <= src.len(),
{
    if src.has(p, c) {
        Some((scan_trivia(src, p + 1), stmt))
    } else {
        None
    }
}


/// `+`
pub fn scan_set_op(src: &Source, p: usize) -> (r: Option<(usize, Stmt)>)
    requires
        p <= src.len(),
    ensures
        agrees(r, spec_set_op(src@, p as int)),
        r matches Some((q, _)) ==> p < q <= src.len(),
{
    scan_char_op(src, p, '+', Stmt::Write(WriteOp::SetBit))
}

/// `-`
pub fn scan_unset_op(src: &Source, p: usize) -> (r: Option<(usize, Stmt)>)
    requires
        p <= src.len(),
    ensures
        agrees(r, spec_unset_op(src@, p as int)),
        r matches Some((q, _)) ==> p < q <= src.len(),
{
    scan_char_op(src, p, '-', Stmt::Write(WriteOp::Unset))
}

/// A single `<`
pub fn scan_seek_left_op(src: &Source, p: usize) -> (r: Option<(usize, Stmt)>)
    requires
        p <= src.len(),
    ensures
        agrees(r, spec_seek_left_op(src@, p as int)),
        r matches Some((q, _)) ==> p < q <= src.len(),
{
    scan_char_op(src, p, '<', Stmt::Seek(SeekOp::Left(1)))
}

/// A single `>`
pub fn scan_seek_right_op(src: &Source, p: usize) -> (r: Option<(usize, Stmt)>)
    requires
        p <= src.len(),
    ensures
        agrees(r, spec_seek_right_op(src@, p as int)),
        r matches Some((q, _)) ==> p < q <= src.len(),
{
    scan_char_op(src, p, '>', Stmt::Seek(SeekOp::Right(1)))
}

/// `,` where it is a statement
pub fn scan_input_op(src: &Source, p: usize) -> (r: Option<(usize, Stmt)>)
    requires
        p <= src.len(),
    ensures
        agrees(r, spec_input_op(src@, p as int)),
        r matches Some((q, _)) ==> p < q <= src.len(),
{
    scan_char_op(src, p, ',', Stmt::Io(IoOp::In))
}

/// `.`
pub fn scan_output_op(src: &Source, p: usize) -> (r: Option<(usize, Stmt)>)
    requires
        p <= src.len(),
    ensures
        agrees(r, spec_output_op(src@, p as int)),
        r matches Some((q, _)) ==> p < q <= src.len(),
{
    scan_char_op(src, p, '.', Stmt::Io(IoOp::Out))
}

/// `!`
pub fn scan_debug_op(src: &Source, p: usize) -> (r: Option<(usize, Stmt)>)
    requires
        p <= src.len(),
    ensures
        agrees(r, spec_debug_op(src@, p as int)),
        r matches Some((q, _)) ==> p < q <= src.len(),
{
    scan_char_op(src, p, '!', Stmt::Debug)
}

/// The run of `c` that starts at `p`: where it ends, and how many times `c`
/// stands in it.
pub fn scan_run(src: &Source, p: usize, c: char) -> (r: (usize, usize))
    requires
        p <= src.len(),
    ensures
        r.0 == run_end(src@, p as int, c),
        r.1 == run_count(src@, p as int, c),
        p <= r.0 <= src.len(),
        has_char(src@, p as int, c) ==> p < r.0 && r.1 >= 1,
{
    proof {
        lemma_run(src@, p as int, c);
    }
    let mut q = p;
    let mut count: usize = 0;
    while src.has(q, c)
        invariant
            p <= q <= src.len(),
            count <= q - p,
            run_end(src@, q as int, c) == run_end(src@, p as int, c),
            count + run_count(src@, q as int, c) == run_count(src@, p as int, c),
        decreases src.len() - q,
    {
        q = scan_trivia(src, q + 1);
        count += 1;
    }
    (q, count)
}

/// One or more `<`, taken together as one seek.
pub fn scan_seek_left(src: &Source, p: usize) -> (r: Option<(usize, Stmt)>)
    requires
        p <= src.len(),
    ensures
        agrees(r, spec_seek_left(src@, p as int)),
        r matches Some((q, _)) ==> p < q <= src.len(),
{
    if src.has(p, '<') {
        let (q, count) = scan_run(src, p, '<');
        Some((q, Stmt::Seek(SeekOp::Left(count))))
    } else {
        None
    }
}

/// One or more `>`, taken together as one seek.
pub fn scan_seek_right(src: &Source, p: usize) -> (r: Option<(usize, Stmt)>)
    requires
        p <= src.len(),
    ensures
        agrees(r, spec_seek_right(src@, p as int)),
        r matches Some((q, _)) ==> p < q <= src.len(),
{
    if src.has(p, '>') {
        let (q, count) = scan_run(src, p, '>');
        Some((q, Stmt::Seek(SeekOp::Right(count))))
    } else {
        None
    }
}

/// A label declaration: a name, then `:`.
pub fn scan_label_op(src: &Source, p: usize) -> (r: Option<(usize, Stmt)>)
    requires
        src.wf(),
        p <= src.len(),
    ensures
        agrees(r, spec_label_op(src@, p as int)),
        r matches Some((q, _)) ==> p < q <= src.len(),
{
    match scan_label(src, p) {
        Some(q) => {
            let colon = scan_trivia(src, q);
            if src.has(colon, ':') {
                let name = src.slice(p, q).to_owned();
                Some((scan_trivia(src, colon + 1), Stmt::Label(name)))
            } else {
                None
            }
        },
        None => None,
    }
}

/// A jump: `jmp`, at least one blank or comment, a name, and then either `,`
/// and a second name or nothing; with one name it ends directly behind it.
pub fn scan_jmp_op(src: &Source, p: usize) -> (r: Option<(usize, Stmt)>)
    requires
        src.wf(),
        p <= src.len(),
    ensures
        agrees(r, spec_jmp_op(src@, p as int)),
        r matches Some((q, _)) ==> p < q <= src.len(),
{
    if !(src.has(p, 'j') && src.has(p + 1, 'm') && src.has(p + 2, 'p')) {
        return None;
    }
    let first = scan_trivia(src, p + 3);
    if first == p + 3 {
        return None;
    }
    let q = match scan_label(src, first) {
        Some(q) => q,
        None => {
            return None;
        },
    };
    let on_set = Target::Name(src.slice(first, q).to_owned());
    let sep = scan_trivia(src, q);
    if src.has(sep, ',') {
        let second = scan_trivia(src, sep + 1);
        match scan_label(src, second) {
            Some(r) => {
                let on_unset = Target::Name(src.slice(second, r).to_owned());
                return Some((scan_trivia(src, r), Stmt::Jmp(on_set, on_unset)));
            },
            None => {},
        }
    }
    Some((q, Stmt::Jmp(on_set, Target::NextAddress)))
}

/// One statement at `p`: the first production that matches, in the grammar's
/// order.
pub fn scan_statement(src: &Source, p: usize) -> (r: Option<(usize, Stmt)>)
    requires
        src.wf(),
        p <= src.len(),
    ensures
        agrees(r, spec_statement(src@, p as int)),
        r matches Some((q, _)) ==> p < q <= src.len(),
{
    proof {
        lemma_statement(src@, p as int);
    }
    let r = scan_label_op(src, p);
    if r.is_some() {
        return r;
    }
    let r = scan_jmp_op(src, p);
    if r.is_some() {
        return r;
    }
    let r = scan_set_op(src, p);
    if r.is_some() {
        return r;
    }
    let r = scan_unset_op(src, p);
    if r.is_some() {
        return r;
    }
    let r = scan_seek_left(src, p);
    if r.is_some() {
        return r;
    }
    let r = scan_seek_right(src, p);
    if r.is_some() {
        return r;
    }
    let r = scan_input_op(src, p);
    if r.is_some() {
        return r;
    }
    let r = scan_output_op(src, p);
    if r.is_some() {
        return r;
    }
    scan_debug_op(src, p)
}

/// One statement with the blanks and comments around it.
pub fn scan_any_statement(src: &Source, p: usize) -> (r: Option<(usize, Stmt)>)
    requires
        src.wf(),
        p <= src.len(),
    ensures
        agrees(r, spec_any_statement(src@, p as int)),
        r matches Some((q, _)) ==> p < q <= src.len(),
{
    let start = scan_trivia(src, p);
    match scan_statement(src, start) {
        Some((end, stmt)) => Some((scan_trivia(src, end), stmt)),
        None => None,
    }
}

/// The statements that start at `p`, and the position where they end.
pub fn scan_program(src: &Source, p: usize) -> (r: (usize, Vec<Stmt>))
    requires
        src.wf(),
        p <= src.len(),
    ensures
        r.0 == program_end(src@, p as int),
        code_view(r.1@) == program_stmts(src@, p as int),
        p <= r.0 <= src.len(),
{
    let mut q = p;
    let mut code: Vec<Stmt> = Vec::new();
    loop
        invariant
            src.wf(),
            p <= q <= src.len(),
            program_end(src@, q as int) == program_end(src@, p as int),
            code_view(code@) + program_stmts(src@, q as int) == program_stmts(src@, p as int),
        ensures
            p <= q <= src.len(),
            q == program_end(src@, p as int),
            code_view(code@) == program_stmts(src@, p as int),
        decreases src.len() - q,
    {
        match scan_any_statement(src, q) {
            Some((next, stmt)) => {
                proof {
                    let ghost before = code_view(code@);
                    let ghost tail = program_stmts(src@, next as int);
                    assert(code_view(code@.push(stmt)) =~= before.push(stmt@));
                    assert(before.push(stmt@) + tail =~= before + (seq![stmt@] + tail));
                }
                code.push(stmt);
                q = next;
            },
            None => {
                assert(code_view(code@) + Seq::<StmtView>::empty() =~= code_view(code@));
                break ;
            },
        }
    }
    (q, code)
}

} // verus!
