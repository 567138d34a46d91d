//! The symbol table: which address each name stands for.

use vstd::prelude::*;
use crate::syntax::is_name;
use crate::text::{chars_of, same_text};

verus! {

/// The address of the first variable in memory.
pub const FIRST_VARIABLE: usize = 16;

/// The address that a predefined symbol stands for: the virtual registers `R0` to `R15`,
/// the two memory-mapped devices, and the five pointers.
pub open spec fn predefined_address(name: Seq<char>) -> Option<nat> {
    if name == "R0"@ {
        Some(0)
    } else if name == "R1"@ {
        Some(1)
    } else if name == "R2"@ {
        Some(2)
    } else if name == "R3"@ {
        Some(3)
    } else if name == "R4"@ {
        Some(4)
    } else if name == "R5"@ {
        Some(5)
    } else if name == "R6"@ {
        Some(6)
    } else if name == "R7"@ {
        Some(7)
    } else if name == "R8"@ {
        Some(8)
    } else if name == "R9"@ {
        Some(9)
    } else if name == "R10"@ {
        Some(10)
    } else if name == "R11"@ {
        Some(11)
    } else if name == "R12"@ {
        Some(12)
    } else if name == "R13"@ {
        Some(13)
    } else if name == "R14"@ {
        Some(14)
    } else if name == "R15"@ {
        Some(15)
    } else if name == "SCREEN"@ {
        Some(16384)
    } else if name == "KBD"@ {
        Some(24576)
    } else if name == "SP"@ {
        Some(0)
    } else if name == "LCL"@ {
        Some(1)
    } else if name == "ARG"@ {
        Some(2)
    } else if name == "THIS"@ {
        Some(3)
    } else if name == "THAT"@ {
        Some(4)
    } else {
        None
    }
}

/// The table that every run starts from: the predefined symbols and nothing else.
pub open spec fn predefined() -> Map<Seq<char>, nat> {
    Map::new(
        |name: Seq<char>| predefined_address(name) is Some,
        |name: Seq<char>| predefined_address(name)->0,
    )
}

/// How many symbols are predefined.
pub const PREDEFINED_SYMBOLS: usize = 23;

/// One binding of a name to an address.
struct Entry {
    name: Vec<char>,
    address: usize,
}

/// A growing map from names to addresses, which starts out with the predefined symbols.
/// A later binding of a name replaces an earlier one; no binding is ever taken out.
pub struct SymbolTable {
    entries: Vec<Entry>,
}

/// The map that a run of bindings amounts to, the last binding of each name counting.
spec fn bound(entries: Seq<Entry>) -> Map<Seq<char>, nat>
    decreases entries.len(),
{
    if entries.len() == 0 {
        Map::empty()
    } else {
        bound(entries.drop_last()).insert(entries.last().name@, entries.last().address as nat)
    }
}

/// Bindings that do not name `key` change nothing for `key`: what the whole run binds it
/// to is what the bindings before them bind it to.
proof fn lemma_bound_shadowed(entries: Seq<Entry>, i: int, key: Seq<char>)
    requires
        0 <= i <= entries.len(),
        forall|k: int| i <= k < entries.len() ==> (#[trigger] entries[k]).name@ != key,
    ensures
        bound(entries).contains_key(key) == bound(entries.take(i)).contains_key(key),
        bound(entries).contains_key(key) ==> bound(entries)[key] == bound(entries.take(i))[key],
    decreases entries.len(),
{
    if i == entries.len() {
        assert(entries.take(i) =~= entries);
    } else {
        let front = entries.drop_last();
        assert(entries.last().name@ != key);
        assert(front.take(i) =~= entries.take(i));
        assert forall|k: int| i <= k < front.len() implies (#[trigger] front[k]).name@ != key by {
            assert(front[k] == entries[k]);
        }
        lemma_bound_shadowed(front, i, key);
    }
}

/// Adds a binding at the end of `entries`.
fn push_entry(entries: &mut Vec<Entry>, name: Vec<char>, address: usize)
    ensures
        bound(final(entries)@) == bound(old(entries)@).insert(name@, address as nat),
        final(entries)@.len() == old(entries)@.len() + 1,
{
    entries.push(Entry { name, address });
    assert(entries@.drop_last() == old(entries)@);
}

impl View for SymbolTable {
    type V = Map<Seq<char>, nat>;

    closed spec fn view(&self) -> Map<Seq<char>, nat> {
        bound(self.entries@)
    }
}

impl SymbolTable {
    /// How many bindings were made so far, the predefined ones among them.
    pub closed spec fn size(&self) -> nat {
        self.entries@.len()
    }

    /// A table is well formed when it holds at least as many bindings as there are
    /// predefined symbols. Every table starts out with that many and none is ever taken
    /// out, so every table that can be made is well formed.
    pub open spec fn well_formed(&self) -> bool {
        self.size() >= PREDEFINED_SYMBOLS
    }

    /// How many bindings were made so far, the predefined ones among them.
    pub fn len(&self) -> (n: usize)
        ensures
            n == self.size(),
    {
        self.entries.len()
    }

    /// Binds `name` to `address`, in place of any earlier binding of `name`.
    pub fn bind(&mut self, name: Vec<char>, address: usize)
        ensures
            final(self)@ == old(self)@.insert(name@, address as nat),
            final(self).size() == old(self).size() + 1,
    {
        push_entry(&mut self.entries, name, address);
    }

    /// The address bound to `name`, if any.
    pub fn address_of(&self, name: &[char]) -> (found: Option<usize>)
        ensures
            match found {
                Some(address) => self@.contains_key(name@) && self@[name@] == address,
                None => !self@.contains_key(name@),
            },
    {
        let mut i: usize = self.entries.len();
        while i > 0
            invariant
                i <= self.entries.len(),
                forall|k: int|
                    i <= k < self.entries.len() ==> (#[trigger] self.entries@[k]).name@ != name@,
            decreases i,
        {
            i -= 1;
            if same_text(self.entries[i].name.as_slice(), name) {
                proof {
                    lemma_bound_shadowed(self.entries@, i + 1, name@);
                    assert(self.entries@.take(i + 1).drop_last() == self.entries@.take(i as int));
                }
                return Some(self.entries[i].address);
            }
        }
        proof {
            lemma_bound_shadowed(self.entries@, 0, name@);
        }
        None
    }

    /// Binds the name spelled by `name` to `address`.
    pub fn insert(&mut self, name: &str, address: usize)
        ensures
            final(self)@ == old(self)@.insert(name@, address as nat),
            final(self).size() == old(self).size() + 1,
    {
        self.bind(chars_of(name), address);
    }

    /// The address bound to the name spelled by `name`, if any.
    pub fn lookup(&self, name: &str) -> (found: Option<usize>)
        ensures
            match found {
                Some(address) => self@.contains_key(name@) && self@[name@] == address,
                None => !self@.contains_key(name@),
            },
    {
        let chars = chars_of(name);
        self.address_of(chars.as_slice())
    }

    /// The table that every run starts from: the predefined symbols and nothing else.
    pub fn predefined() -> (table: SymbolTable)
        ensures
            table@ == predefined(),
            table.size() == PREDEFINED_SYMBOLS,
    {
        let mut entries: Vec<Entry> = Vec::new();
        push_entry(&mut entries, chars_of("R0"), 0);
        push_entry(&mut entries, chars_of("R1"), 1);
        push_entry(&mut entries, chars_of("R2"), 2);
        push_entry(&mut entries, chars_of("R3"), 3);
        push_entry(&mut entries, chars_of("R4"), 4);
        push_entry(&mut entries, chars_of("R5"), 5);
        push_entry(&mut entries, chars_of("R6"), 6);
        push_entry(&mut entries, chars_of("R7"), 7);
        push_entry(&mut entries, chars_of("R8"), 8);
        push_entry(&mut entries, chars_of("R9"), 9);
        push_entry(&mut entries, chars_of("R10"), 10);
        push_entry(&mut entries, chars_of("R11"), 11);
        push_entry(&mut entries, chars_of("R12"), 12);
        push_entry(&mut entries, chars_of("R13"), 13);
        push_entry(&mut entries, chars_of("R14"), 14);
        push_entry(&mut entries, chars_of("R15"), 15);
        push_entry(&mut entries, chars_of("SCREEN"), 16384);
        push_entry(&mut entries, chars_of("KBD"), 24576);
        push_entry(&mut entries, chars_of("SP"), 0);
        push_entry(&mut entries, chars_of("LCL"), 1);
        push_entry(&mut entries, chars_of("ARG"), 2);
        push_entry(&mut entries, chars_of("THIS"), 3);
        push_entry(&mut entries, chars_of("THAT"), 4);
        proof {
            lemma_predefined_spelling();
            assert(bound(entries@) =~= predefined());
        }
        SymbolTable { entries }
    }
}

/// The predefined symbols, entry by entry.
pub proof fn lemma_predefined_table()
    ensures
        predefined_address("R0"@) == Some(0nat),
        predefined_address("R1"@) == Some(1nat),
        predefined_address("R2"@) == Some(2nat),
        predefined_address("R3"@) == Some(3nat),
        predefined_address("R4"@) == Some(4nat),
        predefined_address("R5"@) == Some(5nat),
        predefined_address("R6"@) == Some(6nat),
        predefined_address("R7"@) == Some(7nat),
        predefined_address("R8"@) == Some(8nat),
        predefined_address("R9"@) == Some(9nat),
        predefined_address("R10"@) == Some(10nat),
        predefined_address("R11"@) == Some(11nat),
        predefined_address("R12"@) == Some(12nat),
        predefined_address("R13"@) == Some(13nat),
        predefined_address("R14"@) == Some(14nat),
        predefined_address("R15"@) == Some(15nat),
        predefined_address("SCREEN"@) == Some(16384nat),
        predefined_address("KBD"@) == Some(24576nat),
        predefined_address("SP"@) == Some(0nat),
        predefined_address("LCL"@) == Some(1nat),
        predefined_address("ARG"@) == Some(2nat),
        predefined_address("THIS"@) == Some(3nat),
        predefined_address("THAT"@) == Some(4nat),
{
    lemma_predefined_spelling();
}

/// Every predefined symbol has a name that a symbol can have.
pub proof fn lemma_predefined_are_names(name: Seq<char>)
    requires
        predefined_address(name) is Some,
    ensures
        is_name(name),
{
    lemma_predefined_spelling();
}

/// How the predefined names are spelled, character by character.
pub proof fn lemma_predefined_spelling()
    ensures
        "R0"@.len() == 2 && "R0"@[0] == 'R' && "R0"@[1] == '0',
        "R1"@.len() == 2 && "R1"@[0] == 'R' && "R1"@[1] == '1',
        "R2"@.len() == 2 && "R2"@[0] == 'R' && "R2"@[1] == '2',
        "R3"@.len() == 2 && "R3"@[0] == 'R' && "R3"@[1] == '3',
        "R4"@.len() == 2 && "R4"@[0] == 'R' && "R4"@[1] == '4',
        "R5"@.len() == 2 && "R5"@[0] == 'R' && "R5"@[1] == '5',
        "R6"@.len() == 2 && "R6"@[0] == 'R' && "R6"@[1] == '6',
        "R7"@.len() == 2 && "R7"@[0] == 'R' && "R7"@[1] == '7',
        "R8"@.len() == 2 && "R8"@[0] == 'R' && "R8"@[1] == '8',
        "R9"@.len() == 2 && "R9"@[0] == 'R' && "R9"@[1] == '9',
        "R10"@.len() == 3 && "R10"@[0] == 'R' && "R10"@[1] == '1' && "R10"@[2] == '0',
        "R11"@.len() == 3 && "R11"@[0] == 'R' && "R11"@[1] == '1' && "R11"@[2] == '1',
        "R12"@.len() == 3 && "R12"@[0] == 'R' && "R12"@[1] == '1' && "R12"@[2] == '2',
        "R13"@.len() == 3 && "R13"@[0] == 'R' && "R13"@[1] == '1' && "R13"@[2] == '3',
        "R14"@.len() == 3 && "R14"@[0] == 'R' && "R14"@[1] == '1' && "R14"@[2] == '4',
        "R15"@.len() == 3 && "R15"@[0] == 'R' && "R15"@[1] == '1' && "R15"@[2] == '5',
        "SCREEN"@.len() == 6 && "SCREEN"@[0] == 'S' && "SCREEN"@[1] == 'C'
            && "SCREEN"@[2] == 'R' && "SCREEN"@[3] == 'E' && "SCREEN"@[4] == 'E'
            && "SCREEN"@[5] == 'N',
        "KBD"@.len() == 3 && "KBD"@[0] == 'K' && "KBD"@[1] == 'B' && "KBD"@[2] == 'D',
        "SP"@.len() == 2 && "SP"@[0] == 'S' && "SP"@[1] == 'P',
        "LCL"@.len() == 3 && "LCL"@[0] == 'L' && "LCL"@[1] == 'C' && "LCL"@[2] == 'L',
        "ARG"@.len() == 3 && "ARG"@[0] == 'A' && "ARG"@[1] == 'R' && "ARG"@[2] == 'G',
        "THIS"@.len() == 4 && "THIS"@[0] == 'T' && "THIS"@[1] == 'H' && "THIS"@[2] == 'I'
            && "THIS"@[3] == 'S',
        "THAT"@.len() == 4 && "THAT"@[0] == 'T' && "THAT"@[1] == 'H' && "THAT"@[2] == 'A'
            && "THAT"@[3] == 'T',
{
    reveal_strlit("R0");
    reveal_strlit("R1");
    reveal_strlit("R2");
    reveal_strlit("R3");
    reveal_strlit("R4");
    reveal_strlit("R5");
    reveal_strlit("R6");
    reveal_strlit("R7");
    reveal_strlit("R8");
    reveal_strlit("R9");
    reveal_strlit("R10");
    reveal_strlit("R11");
    reveal_strlit("R12");
    reveal_strlit("R13");
    reveal_strlit("R14");
    reveal_strlit("R15");
    reveal_strlit("SCREEN");
    reveal_strlit("KBD");
    reveal_strlit("SP");
    reveal_strlit("LCL");
    reveal_strlit("ARG");
    reveal_strlit("THIS");
    reveal_strlit("THAT");
}

} // verus!
