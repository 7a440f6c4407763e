//! The symbol table: each label of a program with the index of its
//! declaration.

use vstd::prelude::*;
use crate::wmach_stream::LabelId;

verus! {

/// One label and the index of the statement that declares it.
#[derive(Debug, PartialEq, Eq)]
pub struct Symbol {
    pub name: LabelId,
    pub offset: usize,
}

/// A table from label names to indices, in which no name stands twice and
/// the entries stand by rising index. Its model is the map from each name to
/// its index.
#[derive(Debug, PartialEq, Eq)]
pub struct SymbolTable {
    entries: Vec<Symbol>,
}

/// Whether the entry at `i` has the name `name`.
pub open spec fn names(entries: Seq<Symbol>, i: int, name: Seq<char>) -> bool {
    0 <= i < entries.len() && entries[i].name@ == name
}

/// Whether the entries stand by rising index.
pub open spec fn rising(entries: Seq<Symbol>) -> bool {
    forall|i: int, j: int|
        0 <= i < j < entries.len() ==> (#[trigger] entries[i]).offset < (
        #[trigger] entries[j]).offset
}

impl View for SymbolTable {
    type V = Map<Seq<char>, usize>;

    closed spec fn view(&self) -> Map<Seq<char>, usize> {
        Map::new(
            |name: Seq<char>| exists|i: int| names(self.entries@, i, name),
            |name: Seq<char>| self.entries[choose|i: int| names(self.entries@, i, name)].offset,
        )
    }
}

impl SymbolTable {
    #[verifier::type_invariant]
    closed spec fn distinct(&self) -> bool {
        &&& forall|i: int, j: int, name: Seq<char>|
            names(self.entries@, i, name) && names(self.entries@, j, name) ==> i == j
        &&& rising(self.entries@)
    }

    /// The table without entries.
    pub fn new() -> (table: Self)
        ensures
            table@ == Map::<Seq<char>, usize>::empty(),
    {
        let table = SymbolTable { entries: Vec::new() };
        assert(table@ =~= Map::<Seq<char>, usize>::empty());
        table
    }

    /// The table with one more name, which it did not hold before, and whose
    /// index is above every index that the table holds.
    pub(crate) fn insert(self, name: LabelId, offset: usize) -> (table: Self)
        requires
            !self@.dom().contains(name@),
            forall|held: Seq<char>| #[trigger]
                self@.dom().contains(held) ==> self@[held] < offset,
        ensures
            table@ == self@.insert(name@, offset),
    {
        proof {
            use_type_invariant(&self);
        }
        let ghost before = self.entries@;
        let ghost key = name@;
        assert(forall|i: int| !names(before, i, key));
        assert forall|i: int| 0 <= i < before.len() implies (#[trigger] before[i]).offset
            < offset by {
            let held = before[i].name@;
            assert(names(before, i, held));
            assert(self@.dom().contains(held));
            let c = choose|c: int| names(before, c, held);
            assert(c == i);
        }
        let mut entries = self.entries;
        entries.push(Symbol { name, offset });
        proof {
            assert forall|i: int, j: int, n: Seq<char>|
                names(entries@, i, n) && names(entries@, j, n) implies i == j by {
                if i < before.len() {
                    assert(names(before, i, n));
                }
                if j < before.len() {
                    assert(names(before, j, n));
                }
            }
        }
        let table = SymbolTable { entries };
        proof {
            let after = table.entries@;
            let last = before.len() as int;
            assert(names(after, last, key));
            assert forall|n: Seq<char>| #[trigger] table@.dom().contains(n) == self@.insert(
                key,
                offset,
            ).dom().contains(n) by {
                if exists|i: int| names(after, i, n) {
                    let i = choose|i: int| names(after, i, n);
                    if i < last {
                        assert(names(before, i, n));
                    }
                }
                if exists|i: int| names(before, i, n) {
                    let i = choose|i: int| names(before, i, n);
                    assert(names(after, i, n));
                }
            }
            assert forall|n: Seq<char>| #[trigger] table@.dom().contains(n) implies table@[n]
                == self@.insert(key, offset)[n] by {
                let i = choose|i: int| names(after, i, n);
                if n == key {
                    assert(i == last);
                } else {
                    assert(i < last);
                    assert(names(before, i, n));
                    let k = choose|k: int| names(before, k, n);
                    assert(k == i);
                }
            }
            assert(table@ =~= self@.insert(key, offset));
        }
        table
    }

    /// The index that the table holds for `name`.
    pub fn lookup(&self, name: &LabelId) -> (r: Option<usize>)
        ensures
            r == if self@.dom().contains(name@) {
                Some(self@[name@])
            } else {
                None::<usize>
            },
    {
        let mut k: usize = 0;
        while k < self.entries.len()
            invariant
                k <= self.entries.len(),
                forall|i: int| 0 <= i < k ==> !names(self.entries@, i, name@),
            decreases self.entries.len() - k,
        {
            if self.entries[k].name == *name {
                proof {
                    use_type_invariant(self);
                    assert(names(self.entries@, k as int, name@));
                    let c = choose|i: int| names(self.entries@, i, name@);
                    assert(c == k);
                }
                return Some(self.entries[k].offset);
            }
            k += 1;
        }
        None
    }

    /// The entries of the table, by rising index: no two of them share a
    /// name, and together they are what the table holds.
    pub fn entries(&self) -> (entries: &Vec<Symbol>)
        ensures
            rising(entries@),
            forall|name: Seq<char>| #[trigger]
                self@.dom().contains(name) <==> exists|i: int| names(entries@, i, name),
            forall|i: int|
                0 <= i < entries.len() ==> self@[(#[trigger] entries[i]).name@]
                    == entries[i].offset,
            forall|i: int, j: int, name: Seq<char>|
                names(entries@, i, name) && names(entries@, j, name) ==> i == j,
    {
        proof {
            use_type_invariant(self);
            assert forall|i: int| 0 <= i < self.entries.len() implies self@[(
            #[trigger] self.entries[i]).name@] == self.entries[i].offset by {
                let name = self.entries[i].name@;
                assert(names(self.entries@, i, name));
                let c = choose|c: int| names(self.entries@, c, name);
                assert(c == i);
            }
        }
        &self.entries
    }

    /// The index that the table holds for `name`.
    pub fn get(&self, name: &str) -> (r: Option<usize>)
        ensures
            r == if self@.dom().contains(name@) {
                Some(self@[name@])
            } else {
                None::<usize>
            },
    {
        self.lookup(&name.to_owned())
    }
}

} // verus!
