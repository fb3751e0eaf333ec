use crate::error::{result_view, SaveError, SaveErrorView, SaveResult};
use crate::gzip::{gunzip_to_string, gzip_text};
use crate::sym_text::{
    lemma_line_end_is, parse_line_chars, parse_lines_from, parse_sym_text, with_line, Symbol,
};
use crate::types::Address;
use vstd::prelude::*;

verus! {

/// Whether `address` lies in the banked window, `0xA000..0xC000`.
pub open spec fn spec_is_sram_address(address: u16) -> bool {
    0xA000 <= address < 0xC000
}

/// Whether `address` lies in the fixed window, `0xC000..0xE000`.
pub open spec fn spec_is_wram_address(address: u16) -> bool {
    0xC000 <= address < 0xE000
}

/// The buffer offset of a symbol of the banked window: `0x2000` bytes for each
/// bank before its own, and its distance from the window's start.
pub open spec fn sram_offset(symbol: Symbol) -> int {
    symbol.bank as int * 0x2000 + (symbol.address as int - 0xA000)
}

pub open spec fn spec_get_symbol(table: Map<Seq<char>, Symbol>, name: Seq<char>) -> Result<
    Symbol,
    SaveErrorView,
> {
    if table.dom().contains(name) {
        Ok(table[name])
    } else {
        Err(SaveErrorView::SymbolNotFound { name })
    }
}

pub open spec fn spec_sram_absolute_address(
    table: Map<Seq<char>, Symbol>,
    name: Seq<char>,
) -> Result<Address, SaveErrorView> {
    match spec_get_symbol(table, name) {
        Err(e) => Err(e),
        Ok(symbol) => if spec_is_sram_address(symbol.address) {
            Ok(Address(sram_offset(symbol) as u32))
        } else {
            Err(SaveErrorView::SymbolNotInSram { name, address: symbol.address })
        },
    }
}

/// The symbol of `name`, which has to lie in the window that `in_window` and
/// `label` describe.
pub open spec fn spec_symbol_in_region(
    table: Map<Seq<char>, Symbol>,
    name: Seq<char>,
    in_window: spec_fn(u16) -> bool,
    label: Seq<char>,
) -> Result<Symbol, SaveErrorView> {
    match spec_get_symbol(table, name) {
        Err(e) => Err(e),
        Ok(symbol) => if in_window(symbol.address) {
            Ok(symbol)
        } else {
            Err(
                SaveErrorView::SymbolNotInExpectedRegion {
                    name,
                    expected: label,
                    address: symbol.address,
                },
            )
        },
    }
}

/// The buffer offset of `wram_symbol`, taken as far behind `base_sram_symbol`
/// as it lies behind `base_wram_symbol`. The two symbols of the fixed window
/// are looked at first, the base before the other, then their order, then the
/// base of the banked window.
pub open spec fn spec_wram_relative_to_sram_absolute_address(
    table: Map<Seq<char>, Symbol>,
    base_wram_symbol: Seq<char>,
    base_sram_symbol: Seq<char>,
    wram_symbol: Seq<char>,
) -> Result<Address, SaveErrorView> {
    let in_wram = |address: u16| spec_is_wram_address(address);
    let in_sram = |address: u16| spec_is_sram_address(address);
    match spec_symbol_in_region(table, base_wram_symbol, in_wram, "WRAM"@) {
        Err(e) => Err(e),
        Ok(base_wram) => match spec_symbol_in_region(table, wram_symbol, in_wram, "WRAM"@) {
            Err(e) => Err(e),
            Ok(wram) => if wram.address < base_wram.address {
                Err(
                    SaveErrorView::SymbolBeforeBase {
                        symbol: wram_symbol,
                        base: base_wram_symbol,
                    },
                )
            } else {
                match spec_symbol_in_region(table, base_sram_symbol, in_sram, "SRAM"@) {
                    Err(e) => Err(e),
                    Ok(base_sram) => Ok(
                        Address(
                            (sram_offset(base_sram) + (wram.address - base_wram.address)) as u32,
                        ),
                    ),
                }
            },
        },
    }
}

/// An address of the banked window resolves to an offset below `0x20_0000`,
/// and a distance inside the fixed window adds less than `0x2000` to it, so
/// neither formula leaves 32 bits.
pub proof fn lemma_sram_offset_bounds(symbol: Symbol)
    requires
        spec_is_sram_address(symbol.address),
    ensures
        0 <= sram_offset(symbol) < 0x20_0000,
        sram_offset(symbol) / 0x2000 == symbol.bank,
        sram_offset(symbol) % 0x2000 == symbol.address - 0xA000,
{
}

/// No address lies in both windows.
pub proof fn lemma_windows_disjoint(address: u16)
    ensures
        !(spec_is_sram_address(address) && spec_is_wram_address(address)),
{
}

#[derive(Debug)]
struct Entry {
    name: String,
    symbol: Symbol,
}

/// A lookup table for `.sym` symbols used to turn symbolic addresses into save offsets.
///
/// Every name is held once; a later definition of a name takes the place of
/// the earlier one.
#[derive(Debug)]
pub struct SymbolDatabase {
    entries: Vec<Entry>,
}

impl View for SymbolDatabase {
    type V = Map<Seq<char>, Symbol>;

    closed spec fn view(&self) -> Map<Seq<char>, Symbol> {
        Map::new(
            |name: Seq<char>| self.holds(name),
            |name: Seq<char>| self.entries@[self.index_of(name)].symbol,
        )
    }
}

impl SymbolDatabase {
    #[verifier::type_invariant]
    spec fn names_distinct(self) -> bool {
        forall|i: int, j: int|
            0 <= i < j < self.entries@.len() ==> self.entries@[i].name@ != self.entries@[j].name@
    }

    spec fn holds(self, name: Seq<char>) -> bool {
        exists|i: int| 0 <= i < self.entries@.len() && #[trigger] self.entries@[i].name@ == name
    }

    spec fn index_of(self, name: Seq<char>) -> int {
        choose|i: int| 0 <= i < self.entries@.len() && #[trigger] self.entries@[i].name@ == name
    }

    proof fn lemma_entry_in_view(self, i: int)
        requires
            self.names_distinct(),
            0 <= i < self.entries@.len(),
        ensures
            self@.dom().contains(self.entries@[i].name@),
            self@[self.entries@[i].name@] == self.entries@[i].symbol,
    {
        let name = self.entries@[i].name@;
        assert(self.holds(name));
        let k = self.index_of(name);
        assert(k == i) by {
            if k < i {
                assert(self.entries@[k].name@ != self.entries@[i].name@);
            } else if i < k {
                assert(self.entries@[i].name@ != self.entries@[k].name@);
            }
        }
    }

    /// Creates an empty symbol database.
    #[must_use]
    pub fn new() -> (db: SymbolDatabase)
        ensures
            db@ == Map::<Seq<char>, Symbol>::empty(),
    {
        let db = SymbolDatabase { entries: Vec::new() };
        assert(db@ =~= Map::<Seq<char>, Symbol>::empty());
        db
    }

    fn position_of(&self, name: &String) -> (r: Option<usize>)
        ensures
            match r {
                Some(i) => i < self.entries@.len() && self.entries@[i as int].name@ == name@,
                None => !self.holds(name@),
            },
    {
        let mut i: usize = 0;
        while i < self.entries.len()
            invariant
                i <= self.entries@.len(),
                forall|k: int| 0 <= k < i ==> self.entries@[k].name@ != name@,
            decreases self.entries@.len() - i,
        {
            if self.entries[i].name == *name {
                return Some(i);
            }
            i += 1;
        }
        None
    }

    /// Defines `name` as `symbol`, in place of what it was defined as before.
    fn insert(&mut self, name: String, symbol: Symbol)
        ensures
            final(self)@ == old(self)@.insert(name@, symbol),
    {
        proof {
            use_type_invariant(&*self);
        }
        let ghost before = *self;
        let found = self.position_of(&name);
        let mut entries: Vec<Entry> = Vec::new();
        std::mem::swap(&mut entries, &mut self.entries);
        match found {
            Some(i) => {
                let ghost key = name@;
                entries[i] = Entry { name, symbol };
                std::mem::swap(&mut entries, &mut self.entries);
                proof {
                    let after = *self;
                    assert(after.names_distinct());
                    assert forall|n: Seq<char>| after.holds(n) == before.holds(n) by {
                        if before.holds(n) {
                            let k = before.index_of(n);
                            assert(after.entries@[k].name@ == n);
                        }
                        if after.holds(n) {
                            let k = after.index_of(n);
                            assert(before.entries@[k].name@ == n);
                        }
                    }
                    assert forall|n: Seq<char>| after.holds(n) implies after@[n] == before@.insert(
                        key,
                        symbol,
                    )[n] by {
                        let k = after.index_of(n);
                        after.lemma_entry_in_view(k);
                        before.lemma_entry_in_view(k);
                        before.lemma_entry_in_view(i as int);
                    }
                    before.lemma_entry_in_view(i as int);
                    assert(after@ =~= before@.insert(key, symbol));
                }
            },
            None => {
                let ghost key = name@;
                entries.push(Entry { name, symbol });
                assert forall|n: int| 0 <= n < before.entries@.len() implies before.entries@[n].name@
                    != key by {
                    assert(!before.holds(key));
                }
                std::mem::swap(&mut entries, &mut self.entries);
                proof {
                    let after = *self;
                    assert(after.names_distinct());
                    let last = before.entries@.len() as int;
                    assert forall|n: Seq<char>| after.holds(n) == (before.holds(n) || n
                        == key) by {
                        if before.holds(n) {
                            let k = before.index_of(n);
                            assert(after.entries@[k].name@ == n);
                        }
                        if n == key {
                            assert(after.entries@[last].name@ == n);
                        }
                        if after.holds(n) {
                            let k = after.index_of(n);
                            if k < last {
                                assert(before.entries@[k].name@ == n);
                            }
                        }
                    }
                    assert forall|n: Seq<char>| after.holds(n) implies after@[n] == before@.insert(
                        key,
                        symbol,
                    )[n] by {
                        let k = after.index_of(n);
                        after.lemma_entry_in_view(k);
                        if k < last {
                            before.lemma_entry_in_view(k);
                        }
                    }
                    assert(after@ =~= before@.insert(key, symbol));
                }
            },
        }
    }

    /// Looks up a symbol by name.
    pub fn get_symbol(&self, name: &str) -> (r: SaveResult<Symbol>)
        ensures
            result_view(r) == spec_get_symbol(self@, name@),
    {
        proof {
            use_type_invariant(self);
        }
        let key = name.to_owned();
        match self.position_of(&key) {
            Some(i) => {
                proof {
                    self.lemma_entry_in_view(i as int);
                }
                Ok(self.entries[i].symbol)
            },
            None => Err(SaveError::SymbolNotFound { name: key }),
        }
    }

    /// Returns true if a symbol exists.
    #[must_use]
    pub fn contains(&self, name: &str) -> (r: bool)
        ensures
            r == self@.dom().contains(name@),
    {
        let key = name.to_owned();
        self.position_of(&key).is_some()
    }

    /// All symbols, each name once with what it is defined as.
    pub fn iter(&self) -> (all: Vec<(String, Symbol)>)
        ensures
            forall|k: int|
                0 <= k < all@.len() ==> self@.dom().contains((#[trigger] all@[k]).0@)
                    && self@[all@[k].0@] == all@[k].1,
            forall|j: int, k: int| 0 <= j < k < all@.len() ==> all@[j].0@ != all@[k].0@,
            forall|name: Seq<char>|
                self@.dom().contains(name) ==> exists|k: int|
                    0 <= k < all@.len() && (#[trigger] all@[k]).0@ == name,
    {
        proof {
            use_type_invariant(self);
        }
        let mut all: Vec<(String, Symbol)> = Vec::new();
        let mut i: usize = 0;
        while i < self.entries.len()
            invariant
                i <= self.entries@.len(),
                all@.len() == i,
                forall|k: int|
                    0 <= k < i ==> (#[trigger] all@[k]).0@ == self.entries@[k].name@ && all@[k].1
                        == self.entries@[k].symbol,
            decreases self.entries@.len() - i,
        {
            all.push((self.entries[i].name.clone(), self.entries[i].symbol));
            i += 1;
        }
        proof {
            assert forall|k: int| 0 <= k < all@.len() implies self@.dom().contains(
                (#[trigger] all@[k]).0@,
            ) && self@[all@[k].0@] == all@[k].1 by {
                self.lemma_entry_in_view(k);
            }
            assert forall|name: Seq<char>| self@.dom().contains(name) implies exists|k: int|
                0 <= k < all@.len() && (#[trigger] all@[k]).0@ == name by {
                let k = self.index_of(name);
                assert(all@[k].0@ == name);
            }
        }
        all
    }

    /// Parses a `.sym` text blob.
    ///
    /// Lines that do not match the expected format are ignored.
    pub fn from_sym_text(text: &str) -> (db: SymbolDatabase)
        ensures
            db@ == parse_sym_text(text@),
    {
        let mut db = SymbolDatabase::new();
        let mut line: Vec<char> = Vec::new();
        let ghost mut from: int = 0;
        for c in it: text.chars()
            invariant
                it.seq() == text@,
                0 <= from <= it.index(),
                line@ == text@.subrange(from, it.index() as int),
                forall|k: int| from <= k < it.index() ==> text@[k] != '\n',
                parse_sym_text(text@) == parse_lines_from(text@, from, db@),
        {
            let ghost at = it.index() as int;
            if c == '\n' {
                proof {
                    lemma_line_end_is(text@, from, at);
                }
                match parse_line_chars(&line) {
                    Some((name, symbol)) => {
                        db.insert(name, symbol);
                    },
                    None => {},
                }
                line.clear();
                proof {
                    from = at + 1;
                }
                assert(line@ =~= text@.subrange(from, at + 1));
            } else {
                line.push(c);
                assert(line@ =~= text@.subrange(from, at + 1));
            }
        }
        let ghost total = text@.len() as int;
        let ghost table = db@;
        assert(line@ == text@.subrange(from, total));
        proof {
            lemma_line_end_is(text@, from, total);
            if from < total {
                assert(parse_lines_from(text@, from, table) == parse_lines_from(
                    text@,
                    total + 1,
                    with_line(table, line@),
                ));
            }
        }
        if line.len() > 0 {
            match parse_line_chars(&line) {
                Some((name, symbol)) => {
                    db.insert(name, symbol);
                },
                None => {},
            }
            assert(db@ == with_line(table, line@));
        }
        db
    }

    /// Parses a gzip-compressed `.sym.gz` payload: the table that its text
    /// writes, or the decompression error where the payload holds no text.
    pub fn from_gzip_bytes(gz_bytes: &[u8]) -> (r: SaveResult<SymbolDatabase>)
        ensures
            match gzip_text(gz_bytes@) {
                Some(text) => r matches Ok(db) && db@ == parse_sym_text(text),
                None => r matches Err(e) && e@ == SaveErrorView::SymbolFileDecompressionFailed,
            },
    {
        match gunzip_to_string(gz_bytes) {
            Ok(text) => Ok(SymbolDatabase::from_sym_text(text.as_str())),
            Err(_) => Err(SaveError::SymbolFileDecompressionFailed),
        }
    }

    /// Resolves a symbol expected to be in SRAM into an absolute save-buffer address.
    pub fn sram_absolute_address(&self, name: &str) -> (r: SaveResult<Address>)
        ensures
            result_view(r) == spec_sram_absolute_address(self@, name@),
    {
        let symbol = match self.get_symbol(name) {
            Ok(symbol) => symbol,
            Err(e) => {
                return Err(e);
            },
        };
        if !SymbolDatabase::is_sram_address(symbol.address) {
            return Err(
                SaveError::SymbolNotInSram { name: name.to_owned(), address: symbol.address },
            );
        }
        let bank_offset: u32 = (symbol.bank as u32) * 0x2000;
        let address_offset: u32 = (symbol.address as u32) - 0xA000;
        Ok(Address(bank_offset + address_offset))
    }

    /// Returns true if `address` is in WRAM.
    #[must_use]
    pub fn is_wram_address(address: u16) -> (r: bool)
        ensures
            r == spec_is_wram_address(address),
    {
        0xC000 <= address && address < 0xE000
    }

    /// Returns true if `address` is in SRAM.
    #[must_use]
    pub fn is_sram_address(address: u16) -> (r: bool)
        ensures
            r == spec_is_sram_address(address),
    {
        0xA000 <= address && address < 0xC000
    }

    /// Resolves an address by taking a WRAM-relative offset and applying it to an SRAM base.
    ///
    /// This is convenient when the save data layout mirrors WRAM structs.
    pub fn wram_relative_to_sram_absolute_address(
        &self,
        base_wram_symbol: &str,
        base_sram_symbol: &str,
        wram_symbol: &str,
    ) -> (r: SaveResult<Address>)
        ensures
            result_view(r) == spec_wram_relative_to_sram_absolute_address(
                self@,
                base_wram_symbol@,
                base_sram_symbol@,
                wram_symbol@,
            ),
    {
        let base_wram = match self.get_symbol(base_wram_symbol) {
            Ok(symbol) => symbol,
            Err(e) => {
                return Err(e);
            },
        };
        if !SymbolDatabase::is_wram_address(base_wram.address) {
            return Err(
                SaveError::SymbolNotInExpectedRegion {
                    name: base_wram_symbol.to_owned(),
                    expected: "WRAM",
                    address: base_wram.address,
                },
            );
        }
        let wram = match self.get_symbol(wram_symbol) {
            Ok(symbol) => symbol,
            Err(e) => {
                return Err(e);
            },
        };
        if !SymbolDatabase::is_wram_address(wram.address) {
            return Err(
                SaveError::SymbolNotInExpectedRegion {
                    name: wram_symbol.to_owned(),
                    expected: "WRAM",
                    address: wram.address,
                },
            );
        }
        if wram.address < base_wram.address {
            return Err(
                SaveError::SymbolBeforeBase {
                    symbol: wram_symbol.to_owned(),
                    base: base_wram_symbol.to_owned(),
                },
            );
        }
        let distance: u32 = (wram.address - base_wram.address) as u32;
        let base_sram = match self.get_symbol(base_sram_symbol) {
            Ok(symbol) => symbol,
            Err(e) => {
                return Err(e);
            },
        };
        if !SymbolDatabase::is_sram_address(base_sram.address) {
            return Err(
                SaveError::SymbolNotInExpectedRegion {
                    name: base_sram_symbol.to_owned(),
                    expected: "SRAM",
                    address: base_sram.address,
                },
            );
        }
        let bank_offset: u32 = (base_sram.bank as u32) * 0x2000;
        let address_offset: u32 = (base_sram.address as u32) - 0xA000;
        Ok(Address(bank_offset + address_offset + distance))
    }
}

impl Default for SymbolDatabase {
    fn default() -> (db: SymbolDatabase)
        ensures
            db@ == Map::<Seq<char>, Symbol>::empty(),
    {
        SymbolDatabase::new()
    }
}

impl Clone for SymbolDatabase {
    /// A table of its own with the same definitions.
    fn clone(&self) -> (copy: SymbolDatabase)
        ensures
            copy@ == self@,
    {
        proof {
            use_type_invariant(self);
        }
        let mut entries: Vec<Entry> = Vec::new();
        let mut i: usize = 0;
        while i < self.entries.len()
            invariant
                i <= self.entries@.len(),
                entries@.len() == i,
                forall|k: int|
                    0 <= k < i ==> (#[trigger] entries@[k]).name@ == self.entries@[k].name@
                        && entries@[k].symbol == self.entries@[k].symbol,
            decreases self.entries@.len() - i,
        {
            entries.push(Entry { name: self.entries[i].name.clone(), symbol: self.entries[i].symbol });
            i += 1;
        }
        let copy = SymbolDatabase { entries };
        proof {
            assert forall|n: Seq<char>| copy.holds(n) == self.holds(n) by {
                if copy.holds(n) {
                    let k = copy.index_of(n);
                    assert(self.entries@[k].name@ == n);
                }
                if self.holds(n) {
                    let k = self.index_of(n);
                    assert(copy.entries@[k].name@ == n);
                }
            }
            assert forall|n: Seq<char>| copy.holds(n) implies copy@[n] == self@[n] by {
                let k = copy.index_of(n);
                copy.lemma_entry_in_view(k);
                self.lemma_entry_in_view(k);
            }
            assert(copy@ =~= self@);
        }
        copy
    }
}

} // verus!
