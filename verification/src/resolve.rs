//! Label resolution: the check that every label is declared once and every
//! jump target is declared, and the addresses that the jumps go to.
//!
//! Addresses are indices into the statements of the program, and a label
//! declaration is a statement like any other: a jump to a label lands on the
//! declaration itself, which does nothing, and goes on from there. The index
//! behind the last statement is the halt address.

use vstd::prelude::*;
use crate::symbols::SymbolTable;
use crate::wmach_stream::{code_view, Code, LabelId, Program, Stmt, StmtView, Target, TargetView};

verus! {

/// Where a jump goes: to the statement at an index, or behind the last
/// statement, where the program halts.
#[derive(Debug, Clone, Copy, PartialEq, Eq, Structural)]
pub enum Address {
    Insn(usize),
    Halt,
}

/// Why a program cannot be resolved.
#[derive(Debug, PartialEq, Eq)]
pub enum ResolveError {
    /// A second declaration of this label was found.
    DuplicateLabel { label: LabelId },
    /// The jump at this index names a label that is declared nowhere.
    UnknownTarget { offset: usize, target: LabelId },
}

/// Mathematical model of a [`ResolveError`].
pub enum ResolveErrorView {
    DuplicateLabel { label: Seq<char> },
    UnknownTarget { offset: int, target: Seq<char> },
}

impl View for ResolveError {
    type V = ResolveErrorView;

    open spec fn view(&self) -> ResolveErrorView {
        match *self {
            ResolveError::DuplicateLabel { label } => ResolveErrorView::DuplicateLabel {
                label: label@,
            },
            ResolveError::UnknownTarget { offset, target } => ResolveErrorView::UnknownTarget {
                offset: offset as int,
                target: target@,
            },
        }
    }
}

/// Whether the statement at `i` declares the label `name`.
pub open spec fn declares(code: Seq<StmtView>, i: int, name: Seq<char>) -> bool {
    0 <= i < code.len() && code[i] == StmtView::Label(name)
}

/// Whether some statement declares the label `name`.
pub open spec fn is_declared(code: Seq<StmtView>, name: Seq<char>) -> bool {
    exists|i: int| declares(code, i, name)
}

/// The index of a statement that declares `name`; where the labels are
/// unique, of the one that does.
pub open spec fn label_index(code: Seq<StmtView>, name: Seq<char>) -> int {
    choose|i: int| declares(code, i, name)
}

/// Whether the statement at `j` declares a label that an earlier statement
/// has declared.
pub open spec fn redeclares(code: Seq<StmtView>, j: int) -> bool {
    &&& 0 <= j < code.len()
    &&& code[j] is Label
    &&& exists|i: int| 0 <= i < j && code[i] == code[j]
}

/// Whether two statements declare the label `name`.
pub open spec fn declared_twice(code: Seq<StmtView>, name: Seq<char>) -> bool {
    exists|a: int, b: int| a != b && declares(code, a, name) && declares(code, b, name)
}

/// Whether some label is declared twice.
pub open spec fn has_duplicate(code: Seq<StmtView>) -> bool {
    exists|j: int| redeclares(code, j)
}

/// Whether `j` is the first statement that declares a label again.
pub open spec fn is_first_duplicate(code: Seq<StmtView>, j: int) -> bool {
    redeclares(code, j) && forall|k: int| 0 <= k < j ==> !redeclares(code, k)
}

/// Whether `target` names a label that is declared nowhere.
pub open spec fn is_unknown(code: Seq<StmtView>, target: TargetView) -> bool {
    target matches TargetView::Name(name) && !is_declared(code, name)
}

/// The first target of the statement at `i` that names an undeclared label:
/// the target for the set bit comes before the one for the unset bit.
pub open spec fn unknown_at(code: Seq<StmtView>, i: int) -> Option<Seq<char>> {
    if 0 <= i < code.len() {
        match code[i] {
            StmtView::Jmp(on_set, on_unset) => {
                if is_unknown(code, on_set) {
                    Some(on_set->Name_0)
                } else if is_unknown(code, on_unset) {
                    Some(on_unset->Name_0)
                } else {
                    None
                }
            },
            _ => None,
        }
    } else {
        None
    }
}

/// Whether some jump names an undeclared label.
pub open spec fn has_unknown(code: Seq<StmtView>) -> bool {
    exists|i: int| unknown_at(code, i) is Some
}

/// Whether `i` is the first statement that names an undeclared label.
pub open spec fn is_first_unknown(code: Seq<StmtView>, i: int) -> bool {
    unknown_at(code, i) is Some && forall|k: int| 0 <= k < i ==> unknown_at(code, k) is None
}

/// The symbol table of a program: each declared label with the index of its
/// declaration.
pub open spec fn symbol_map(code: Seq<StmtView>) -> Map<Seq<char>, usize> {
    Map::new(
        |name: Seq<char>| is_declared(code, name),
        |name: Seq<char>| label_index(code, name) as usize,
    )
}

/// The address that `target` stands for in the jump at index `i`: the
/// statement after the jump, which is the halt address where the jump is the
/// last statement, or the statement that declares the label.
pub open spec fn target_address(code: Seq<StmtView>, i: int, target: TargetView) -> Address {
    match target {
        TargetView::NextAddress => if i + 1 == code.len() {
            Address::Halt
        } else {
            Address::Insn((i + 1) as usize)
        },
        TargetView::Name(name) => Address::Insn(label_index(code, name) as usize),
    }
}

/// The two addresses of the statement at `i`, where that is a jump.
pub open spec fn jump_addresses(code: Seq<StmtView>, i: int) -> Option<(Address, Address)> {
    match code[i] {
        StmtView::Jmp(on_set, on_unset) => Some(
            (target_address(code, i, on_set), target_address(code, i, on_unset)),
        ),
        _ => None,
    }
}

/// Mathematical model of a [`ResolvedProgram`].
pub struct ResolvedView {
    /// The statements, unchanged.
    pub instructions: Seq<StmtView>,
    /// Each label with the index of its declaration.
    pub symbols: Map<Seq<char>, usize>,
    /// For each statement, the two addresses it jumps to if it is a jump.
    pub jumps: Seq<Option<(Address, Address)>>,
}

/// What a program resolves to where nothing is wrong with it.
pub open spec fn resolution(code: Seq<StmtView>) -> ResolvedView {
    ResolvedView {
        instructions: code,
        symbols: symbol_map(code),
        jumps: Seq::new(code.len(), |i: int| jump_addresses(code, i)),
    }
}

/// What resolving a program gives. A label that is declared twice comes
/// before any jump to an undeclared label; of several faults of one kind the
/// first in the program is reported.
pub open spec fn spec_resolve(code: Seq<StmtView>) -> Result<ResolvedView, ResolveErrorView> {
    if has_duplicate(code) {
        let j = choose|j: int| is_first_duplicate(code, j);
        Err(ResolveErrorView::DuplicateLabel { label: code[j]->Label_0 })
    } else if has_unknown(code) {
        let i = choose|i: int| is_first_unknown(code, i);
        Err(ResolveErrorView::UnknownTarget { offset: i, target: unknown_at(code, i)->0 })
    } else {
        Ok(resolution(code))
    }
}

/// Among the statements that declare a label again there is a first.
pub proof fn lemma_first_duplicate(code: Seq<StmtView>, j: int)
    requires
        redeclares(code, j),
    ensures
        exists|f: int| 0 <= f <= j && is_first_duplicate(code, f),
    decreases j,
{
    if exists|k: int| 0 <= k < j && redeclares(code, k) {
        let k = choose|k: int| 0 <= k < j && redeclares(code, k);
        lemma_first_duplicate(code, k);
    } else {
        assert(is_first_duplicate(code, j));
    }
}

/// Among the statements that name an undeclared label there is a first.
pub proof fn lemma_first_unknown(code: Seq<StmtView>, i: int)
    requires
        unknown_at(code, i) is Some,
    ensures
        exists|f: int| 0 <= f <= i && is_first_unknown(code, f),
    decreases i,
{
    if exists|k: int| 0 <= k < i && unknown_at(code, k) is Some {
        let k = choose|k: int| 0 <= k < i && unknown_at(code, k) is Some;
        lemma_first_unknown(code, k);
    } else {
        assert(is_first_unknown(code, i));
    }
}

/// Where no label is declared twice, a label's index is that of its one
/// declaration.
pub proof fn lemma_label_index(code: Seq<StmtView>, i: int, name: Seq<char>)
    requires
        !has_duplicate(code),
        declares(code, i, name),
    ensures
        label_index(code, name) == i,
{
    let k = label_index(code, name);
    assert(declares(code, k, name));
    if k < i {
        assert(redeclares(code, i));
    } else if i < k {
        assert(redeclares(code, k));
    }
}

/// Resolution fails with the label of the first statement that declares a
/// label again, whatever the jumps of the program are.
pub proof fn lemma_first_duplicate_reported(code: Seq<StmtView>, j: int)
    requires
        is_first_duplicate(code, j),
    ensures
        spec_resolve(code) == Err::<ResolvedView, ResolveErrorView>(
            ResolveErrorView::DuplicateLabel { label: code[j]->Label_0 },
        ),
{
    assert(redeclares(code, j));
    let f = choose|f: int| is_first_duplicate(code, f);
    assert(is_first_duplicate(code, f));
    if f < j {
        assert(!redeclares(code, f));
    } else if j < f {
        assert(!redeclares(code, j));
    }
}

/// A jump to a label that is declared nowhere makes resolution fail with an
/// unknown target at that jump's index, and with the first undeclared name
/// of that jump, where no label is declared twice and no earlier jump names
/// an undeclared label.
pub proof fn lemma_unknown_target(code: Seq<StmtView>, i: int)
    requires
        !has_duplicate(code),
        is_first_unknown(code, i),
    ensures
        spec_resolve(code) == Err::<ResolvedView, ResolveErrorView>(
            ResolveErrorView::UnknownTarget { offset: i, target: unknown_at(code, i)->0 },
        ),
{
    assert(unknown_at(code, i) is Some);
    let f = choose|f: int| is_first_unknown(code, f);
    assert(is_first_unknown(code, f));
    if f < i {
        assert(unknown_at(code, f) is None);
    } else if i < f {
        assert(unknown_at(code, i) is None);
    }
}

/// Whether `table` holds the labels that the first `n` statements declare,
/// each with the index of its declaration.
spec fn holds_labels(table: Map<Seq<char>, usize>, code: Seq<StmtView>, n: int) -> bool {
    &&& forall|name: Seq<char>| #[trigger]
        table.dom().contains(name) <==> exists|k: int| 0 <= k < n && declares(code, k, name)
    &&& forall|k: int, name: Seq<char>|
        0 <= k < n && #[trigger] declares(code, k, name) ==> table[name] == k
}

/// The first pass: the symbol table, or the first label that is declared
/// twice.
fn collect_labels(code: &Code) -> (r: Result<SymbolTable, ResolveError>)
    ensures
        match r {
            Ok(table) => !has_duplicate(code_view(code@)) && table@ == symbol_map(
                code_view(code@),
            ),
            Err(e) => has_duplicate(code_view(code@)) && spec_resolve(code_view(code@)) == Err::<
                ResolvedView,
                ResolveErrorView,
            >(e@),
        },
{
    let ghost cv = code_view(code@);
    let mut table = SymbolTable::new();
    let mut i: usize = 0;
    while i < code.len()
        invariant
            i <= code.len(),
            cv == code_view(code@),
            holds_labels(table@, cv, i as int),
            forall|k: int| 0 <= k < i ==> !redeclares(cv, k),
        decreases code.len() - i,
    {
        assert(cv[i as int] == code@[i as int]@);
        match &code[i] {
            Stmt::Label(name) => {
                assert(declares(cv, i as int, name@));
                if table.lookup(name).is_some() {
                    proof {
                        let k = choose|k: int| 0 <= k < i && declares(cv, k, name@);
                        assert(cv[k] == cv[i as int]);
                        assert(is_first_duplicate(cv, i as int));
                        lemma_first_duplicate_reported(cv, i as int);
                    }
                    return Err(ResolveError::DuplicateLabel { label: name.clone() });
                }
                let ghost before = table@;
                table = table.insert(name.clone(), i);
                proof {
                    assert(!redeclares(cv, i as int)) by {
                        if redeclares(cv, i as int) {
                            let k = choose|k: int| 0 <= k < i && cv[k] == cv[i as int];
                            assert(declares(cv, k, name@));
                        }
                    }
                    assert forall|n: Seq<char>| #[trigger]
                        table@.dom().contains(n) <==> exists|k: int|
                            0 <= k < i + 1 && declares(cv, k, n) by {
                        if before.dom().contains(n) {
                            let k = choose|k: int| 0 <= k < i && declares(cv, k, n);
                            assert(0 <= k < i + 1 && declares(cv, k, n));
                        }
                        if exists|k: int| 0 <= k < i + 1 && declares(cv, k, n) {
                            let k = choose|k: int| 0 <= k < i + 1 && declares(cv, k, n);
                            if k < i {
                                assert(0 <= k < i && declares(cv, k, n));
                            }
                        }
                    }
                    assert forall|k: int, n: Seq<char>|
                        0 <= k < i + 1 && #[trigger] declares(cv, k, n) implies table@[n]
                        == k by {
                        if k < i {
                            assert(before.dom().contains(n));
                        }
                    }
                }
            },
            _ => {
                assert(!redeclares(cv, i as int));
                assert forall|n: Seq<char>| #[trigger]
                    table@.dom().contains(n) <==> exists|k: int|
                        0 <= k < i + 1 && declares(cv, k, n) by {
                    if table@.dom().contains(n) {
                        let k = choose|k: int| 0 <= k < i && declares(cv, k, n);
                        assert(0 <= k < i + 1 && declares(cv, k, n));
                    }
                    if exists|k: int| 0 <= k < i + 1 && declares(cv, k, n) {
                        let k = choose|k: int| 0 <= k < i + 1 && declares(cv, k, n);
                        assert(0 <= k < i && declares(cv, k, n));
                    }
                }
            },
        }
        i += 1;
    }
    proof {
        assert(!has_duplicate(cv));
        assert forall|n: Seq<char>| #[trigger]
            table@.dom().contains(n) == symbol_map(cv).dom().contains(n) by {
            if table@.dom().contains(n) {
                let k = choose|k: int| 0 <= k < i && declares(cv, k, n);
                assert(declares(cv, k, n));
            }
            if is_declared(cv, n) {
                let k = choose|k: int| declares(cv, k, n);
                assert(0 <= k < i && declares(cv, k, n));
            }
        }
        assert forall|n: Seq<char>| #[trigger] table@.dom().contains(n) implies table@[n]
            == symbol_map(cv)[n] by {
            let k = choose|k: int| 0 <= k < i && declares(cv, k, n);
            lemma_label_index(cv, k, n);
        }
        assert(table@ =~= symbol_map(cv));
    }
    Ok(table)
}


/// The address that `target` stands for in the jump at index `i`, or the
/// name of the undeclared label that it names.
fn resolve_target(code: &Code, table: &SymbolTable, i: usize, target: &Target) -> (r: Result<
    Address,
    LabelId,
>)
    requires
        i < code.len(),
        table@ == symbol_map(code_view(code@)),
    ensures
        match r {
            Ok(address) => !is_unknown(code_view(code@), target@) && address == target_address(
                code_view(code@),
                i as int,
                target@,
            ),
            Err(name) => is_unknown(code_view(code@), target@) && target@ == TargetView::Name(
                name@,
            ),
        },
{
    match target {
        Target::NextAddress => {
            if i + 1 == code.len() {
                Ok(Address::Halt)
            } else {
                Ok(Address::Insn(i + 1))
            }
        },
        Target::Name(name) => {
            match table.lookup(name) {
                Some(index) => Ok(Address::Insn(index)),
                None => Err(name.clone()),
            }
        },
    }
}

/// The second pass: the addresses of every jump, or the first jump that
/// names an undeclared label.
fn resolve_jumps(code: &Code, table: &SymbolTable) -> (r: Result<
    Vec<Option<(Address, Address)>>,
    ResolveError,
>)
    requires
        !has_duplicate(code_view(code@)),
        table@ == symbol_map(code_view(code@)),
    ensures
        match r {
            Ok(jumps) => !has_unknown(code_view(code@)) && jumps@ == resolution(
                code_view(code@),
            ).jumps,
            Err(e) => spec_resolve(code_view(code@)) == Err::<ResolvedView, ResolveErrorView>(e@),
        },
{
    let ghost cv = code_view(code@);
    let mut jumps: Vec<Option<(Address, Address)>> = Vec::new();
    let mut i: usize = 0;
    while i < code.len()
        invariant
            i <= code.len(),
            cv == code_view(code@),
            !has_duplicate(cv),
            table@ == symbol_map(cv),
            jumps@.len() == i,
            forall|k: int| 0 <= k < i ==> jumps@[k] == jump_addresses(cv, k),
            forall|k: int| 0 <= k < i ==> unknown_at(cv, k) is None,
        decreases code.len() - i,
    {
        assert(cv[i as int] == code@[i as int]@);
        match &code[i] {
            Stmt::Jmp(on_set, on_unset) => {
                let first = match resolve_target(code, table, i, on_set) {
                    Ok(address) => address,
                    Err(name) => {
                        proof {
                            assert(is_first_unknown(cv, i as int));
                            lemma_unknown_target(cv, i as int);
                        }
                        return Err(ResolveError::UnknownTarget { offset: i, target: name });
                    },
                };
                let second = match resolve_target(code, table, i, on_unset) {
                    Ok(address) => address,
                    Err(name) => {
                        proof {
                            assert(is_first_unknown(cv, i as int));
                            lemma_unknown_target(cv, i as int);
                        }
                        return Err(ResolveError::UnknownTarget { offset: i, target: name });
                    },
                };
                jumps.push(Some((first, second)));
            },
            _ => {
                jumps.push(None);
            },
        }
        i += 1;
    }
    proof {
        assert(!has_unknown(cv)) by {
            if has_unknown(cv) {
                let k = choose|k: int| unknown_at(cv, k) is Some;
                assert(0 <= k < i);
            }
        }
        assert(jumps@ =~= resolution(cv).jumps);
    }
    Ok(jumps)
}

/// A program whose labels are checked and whose jumps are resolved. Every
/// value of this type is the resolution of its own statements.
#[derive(Debug, PartialEq, Eq)]
pub struct ResolvedProgram {
    instructions: Code,
    symbols: SymbolTable,
    jumps: Vec<Option<(Address, Address)>>,
}

impl View for ResolvedProgram {
    type V = ResolvedView;

    closed spec fn view(&self) -> ResolvedView {
        ResolvedView {
            instructions: code_view(self.instructions@),
            symbols: self.symbols@,
            jumps: self.jumps@,
        }
    }
}

impl ResolvedView {
    /// Whether this is what its own statements resolve to.
    pub open spec fn valid(self) -> bool {
        spec_resolve(self.instructions) == Ok::<ResolvedView, ResolveErrorView>(self)
    }
}

impl ResolvedProgram {
    #[verifier::type_invariant]
    closed spec fn resolved(&self) -> bool {
        self@.valid()
    }

    /// The statements, as they were before resolution.
    pub fn instructions(&self) -> (code: &Code)
        ensures
            code_view(code@) == self@.instructions,
            self@.valid(),
    {
        proof {
            use_type_invariant(self);
        }
        &self.instructions
    }

    /// The symbol table.
    pub fn symbols(&self) -> (table: &SymbolTable)
        ensures
            table@ == self@.symbols,
            self@.valid(),
    {
        proof {
            use_type_invariant(self);
        }
        &self.symbols
    }

    /// For each statement, the two addresses it jumps to if it is a jump.
    pub fn jumps(&self) -> (jumps: &Vec<Option<(Address, Address)>>)
        ensures
            jumps@ == self@.jumps,
            self@.valid(),
    {
        proof {
            use_type_invariant(self);
        }
        &self.jumps
    }
}

impl Program {
    /// Checks the labels of the program and resolves its jumps.
    pub fn resolve(self) -> (r: Result<ResolvedProgram, ResolveError>)
        ensures
            match spec_resolve(self@) {
                Ok(resolved) => r matches Ok(program) && program@ == resolved,
                Err(error) => r matches Err(e) && e@ == error,
            },
    {
        let symbols = match collect_labels(&self.instructions) {
            Ok(table) => table,
            Err(e) => {
                return Err(e);
            },
        };
        let jumps = match resolve_jumps(&self.instructions, &symbols) {
            Ok(jumps) => jumps,
            Err(e) => {
                return Err(e);
            },
        };
        let ghost cv = self@;
        let program = ResolvedProgram { instructions: self.instructions, symbols, jumps };
        assert(program@ == resolution(cv));
        Ok(program)
    }
}

/// Two statements that declare the same label make resolution fail with a
/// duplicate label, whatever jumps the program holds and whether or not any
/// of them names that label. The label reported is one that is declared more
/// than once.
pub proof fn lemma_duplicate_label(code: Seq<StmtView>, i: int, j: int, name: Seq<char>)
    requires
        i != j,
        declares(code, i, name),
        declares(code, j, name),
    ensures
        spec_resolve(code) matches Err(ResolveErrorView::DuplicateLabel { label })
            && declared_twice(code, label),
{
    let later = if i < j {
        j
    } else {
        i
    };
    let earlier = if i < j {
        i
    } else {
        j
    };
    assert(code[earlier] == code[later]);
    assert(redeclares(code, later));
    lemma_first_duplicate(code, later);
    let f = choose|f: int| 0 <= f <= later && is_first_duplicate(code, f);
    lemma_first_duplicate_reported(code, f);
    let a = choose|a: int| 0 <= a < f && code[a] == code[f];
    let label = code[f]->Label_0;
    assert(code[f] == StmtView::Label(label));
    assert(declares(code, a, label) && declares(code, f, label));
}

/// A jump to a label that is declared nowhere makes resolution fail with an
/// unknown target at or before that jump, where no label is declared twice.
pub proof fn lemma_some_unknown_target(code: Seq<StmtView>, i: int)
    requires
        !has_duplicate(code),
        unknown_at(code, i) is Some,
    ensures
        spec_resolve(code) matches Err(ResolveErrorView::UnknownTarget { offset, target })
            && 0 <= offset <= i && unknown_at(code, offset) == Some(target),
{
    lemma_first_unknown(code, i);
    let f = choose|f: int| 0 <= f <= i && is_first_unknown(code, f);
    lemma_unknown_target(code, f);
}

/// Resolution succeeds exactly where no label is declared twice and every
/// label that a jump names is declared.
pub proof fn lemma_resolves(code: Seq<StmtView>)
    ensures
        spec_resolve(code) is Ok <==> !has_duplicate(code) && !has_unknown(code),
        spec_resolve(code) matches Ok(resolved) ==> resolved == resolution(code),
{
}

/// In a resolved program a jump that gives one target only goes, where the
/// bit is not set, to the statement behind the jump, and to the halt address
/// where the jump is the last statement.
pub proof fn lemma_fall_through(code: Seq<StmtView>, i: int, on_set: TargetView)
    requires
        0 <= i < code.len() <= usize::MAX,
        code[i] == StmtView::Jmp(on_set, TargetView::NextAddress),
    ensures
        spec_resolve(code) matches Ok(resolved) ==> resolved.jumps[i] matches Some((_, address))
            && address == (if i + 1 == code.len() {
            Address::Halt
        } else {
            Address::Insn((i + 1) as usize)
        }) && (address matches Address::Insn(next) ==> next == i + 1),
{
}

/// In a resolved program a jump to a label goes to the statement that
/// declares the label, and a statement that is no jump has no addresses.
pub proof fn lemma_jump_lands_on_label(code: Seq<StmtView>, i: int)
    requires
        0 <= i < code.len() <= usize::MAX,
        spec_resolve(code) is Ok,
    ensures
        code[i] matches StmtView::Jmp(on_set, on_unset) ==> {
            let jumps = spec_resolve(code)->Ok_0.jumps;
            &&& jumps[i] matches Some((first, second))
            &&& on_set matches TargetView::Name(name) ==> first matches Address::Insn(k)
                && declares(code, k as int, name)
            &&& on_unset matches TargetView::Name(name) ==> second matches Address::Insn(k)
                && declares(code, k as int, name)
        },
        !(code[i] is Jmp) ==> spec_resolve(code)->Ok_0.jumps[i] is None,
{
    if let StmtView::Jmp(on_set, on_unset) = code[i] {
        assert(unknown_at(code, i) is None);
        if let TargetView::Name(name) = on_set {
            assert(declares(code, label_index(code, name), name));
        }
        if let TargetView::Name(name) = on_unset {
            assert(declares(code, label_index(code, name), name));
        }
    }
}

/// The symbol table of a resolved program holds each label with the index of
/// its one declaration, and nothing else.
pub proof fn lemma_symbols(code: Seq<StmtView>, name: Seq<char>)
    requires
        code.len() <= usize::MAX,
        spec_resolve(code) is Ok,
    ensures
        spec_resolve(code)->Ok_0.symbols.dom().contains(name) <==> is_declared(code, name),
        forall|i: int| declares(code, i, name) ==> spec_resolve(code)->Ok_0.symbols[name] == i,
{
    assert forall|i: int| declares(code, i, name) implies spec_resolve(code)->Ok_0.symbols[name]
        == i by {
        lemma_label_index(code, i, name);
    }
}

} // verus!
