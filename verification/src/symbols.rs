//! The symbol table: names and the addresses they are bound to.

use crate::text::same_bytes;
use vstd::prelude::*;
use vstd::string::*;

verus! {

/// One binding: a name and the address it stands for.
pub struct Symbol {
    pub name: Vec<u8>,
    pub address: u16,
}

/// The table that holds the bindings of `symbols`, a later binding of a name
/// replacing an earlier one.
pub open spec fn bindings(symbols: Seq<Symbol>) -> Map<Seq<u8>, u16>
    decreases symbols.len(),
{
    if symbols.len() == 0 {
        Map::empty()
    } else {
        bindings(symbols.drop_last()).insert(symbols.last().name@, symbols.last().address)
    }
}

/// The names that are bound before any program is read: the stack pointer and
/// the segment pointers, the sixteen registers, the screen and the keyboard.
pub open spec fn predefined() -> Map<Seq<u8>, u16> {
    Map::<Seq<u8>, u16>::empty().insert("SP".spec_bytes(), 0).insert("LCL".spec_bytes(), 1).insert(
        "ARG".spec_bytes(),
        2,
    ).insert("THIS".spec_bytes(), 3).insert("THAT".spec_bytes(), 4).insert(
        "R0".spec_bytes(),
        0,
    ).insert("R1".spec_bytes(), 1).insert("R2".spec_bytes(), 2).insert("R3".spec_bytes(), 3).insert(
        "R4".spec_bytes(),
        4,
    ).insert("R5".spec_bytes(), 5).insert("R6".spec_bytes(), 6).insert("R7".spec_bytes(), 7).insert(
        "R8".spec_bytes(),
        8,
    ).insert("R9".spec_bytes(), 9).insert("R10".spec_bytes(), 10).insert(
        "R11".spec_bytes(),
        11,
    ).insert("R12".spec_bytes(), 12).insert("R13".spec_bytes(), 13).insert(
        "R14".spec_bytes(),
        14,
    ).insert("R15".spec_bytes(), 15).insert("SCREEN".spec_bytes(), 16384).insert(
        "KBD".spec_bytes(),
        24576,
    )
}

/// Whether `name` is one of the predefined names.
pub open spec fn is_predefined(name: Seq<u8>) -> bool {
    predefined().contains_key(name)
}

/// No predefined name is bound beyond the keyboard.
pub proof fn lemma_predefined_addresses()
    ensures
        forall|name: Seq<u8>| #[trigger]
            predefined().contains_key(name) ==> predefined()[name] <= 24576,
{
}

/// Whether `ident` is one of the predefined names.
pub fn is_predefined_ident(ident: &[u8]) -> (r: bool)
    ensures
        r == is_predefined(ident@),
{
    same_bytes(ident, "SP".as_bytes()) || same_bytes(ident, "LCL".as_bytes()) || same_bytes(
        ident,
        "ARG".as_bytes(),
    ) || same_bytes(ident, "THIS".as_bytes()) || same_bytes(ident, "THAT".as_bytes())
        || same_bytes(ident, "R0".as_bytes()) || same_bytes(ident, "R1".as_bytes()) || same_bytes(
        ident,
        "R2".as_bytes(),
    ) || same_bytes(ident, "R3".as_bytes()) || same_bytes(ident, "R4".as_bytes()) || same_bytes(
        ident,
        "R5".as_bytes(),
    ) || same_bytes(ident, "R6".as_bytes()) || same_bytes(ident, "R7".as_bytes()) || same_bytes(
        ident,
        "R8".as_bytes(),
    ) || same_bytes(ident, "R9".as_bytes()) || same_bytes(ident, "R10".as_bytes()) || same_bytes(
        ident,
        "R11".as_bytes(),
    ) || same_bytes(ident, "R12".as_bytes()) || same_bytes(ident, "R13".as_bytes())
        || same_bytes(ident, "R14".as_bytes()) || same_bytes(ident, "R15".as_bytes())
        || same_bytes(ident, "SCREEN".as_bytes()) || same_bytes(ident, "KBD".as_bytes())
}

/// A table from names to addresses.
pub struct SymbolTable {
    symbols: Vec<Symbol>,
}

impl View for SymbolTable {
    type V = Map<Seq<u8>, u16>;

    closed spec fn view(&self) -> Map<Seq<u8>, u16> {
        bindings(self.symbols@)
    }
}

impl SymbolTable {
    /// An empty table.
    pub fn new() -> (table: SymbolTable)
        ensures
            table@ == Map::<Seq<u8>, u16>::empty(),
    {
        SymbolTable { symbols: Vec::new() }
    }

    /// The table of the predefined names.
    pub fn get_default_ident_map() -> (table: SymbolTable)
        ensures
            table@ == predefined(),
    {
        let mut table = SymbolTable::new();
        table.insert("SP".as_bytes(), 0);
        table.insert("LCL".as_bytes(), 1);
        table.insert("ARG".as_bytes(), 2);
        table.insert("THIS".as_bytes(), 3);
        table.insert("THAT".as_bytes(), 4);
        table.insert("R0".as_bytes(), 0);
        table.insert("R1".as_bytes(), 1);
        table.insert("R2".as_bytes(), 2);
        table.insert("R3".as_bytes(), 3);
        table.insert("R4".as_bytes(), 4);
        table.insert("R5".as_bytes(), 5);
        table.insert("R6".as_bytes(), 6);
        table.insert("R7".as_bytes(), 7);
        table.insert("R8".as_bytes(), 8);
        table.insert("R9".as_bytes(), 9);
        table.insert("R10".as_bytes(), 10);
        table.insert("R11".as_bytes(), 11);
        table.insert("R12".as_bytes(), 12);
        table.insert("R13".as_bytes(), 13);
        table.insert("R14".as_bytes(), 14);
        table.insert("R15".as_bytes(), 15);
        table.insert("SCREEN".as_bytes(), 16384);
        table.insert("KBD".as_bytes(), 24576);
        table
    }

    /// Binds `name` to `address`, in place of what it was bound to.
    pub fn insert(&mut self, name: &[u8], address: u16)
        ensures
            final(self)@ == old(self)@.insert(name@, address),
    {
        let mut owned: Vec<u8> = Vec::new();
        crate::text::push_all(&mut owned, name);
        assert(owned@ =~= name@);
        let ghost symbols = self.symbols@;
        self.symbols.push(Symbol { name: owned, address });
        assert(self.symbols@.drop_last() =~= symbols);
    }

    /// The address that `name` is bound to, if it is bound.
    pub fn get(&self, name: &[u8]) -> (address: Option<u16>)
        ensures
            address == if self@.contains_key(name@) {
                Some(self@[name@])
            } else {
                None::<u16>
            },
    {
        let mut i: usize = self.symbols.len();
        assert(self.symbols@.take(i as int) =~= self.symbols@);
        while i > 0
            invariant
                i <= self.symbols@.len(),
                self@.contains_key(name@) == bindings(self.symbols@.take(i as int)).contains_key(
                    name@,
                ),
                self@.contains_key(name@) ==> self@[name@] == bindings(
                    self.symbols@.take(i as int),
                )[name@],
            decreases i,
        {
            assert(self.symbols@.take(i as int).drop_last() =~= self.symbols@.take(i - 1));
            i = i - 1;
            if same_bytes(self.symbols[i].name.as_slice(), name) {
                return Some(self.symbols[i].address);
            }
        }
        None
    }

    /// Whether `name` is bound.
    pub fn contains_key(&self, name: &[u8]) -> (r: bool)
        ensures
            r == self@.contains_key(name@),
    {
        self.get(name).is_some()
    }
}

} // verus!
