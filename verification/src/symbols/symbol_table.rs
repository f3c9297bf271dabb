use crate::symbols::model::{
    lemma_index_of_unique, lemma_insert_keeps_other_ids, lemma_insert_preserves_wf,
    lemma_least_prime_exists, lemma_next_prime_unique, TableModel,
};
use crate::symbols::symbol::{Symbol, SymbolView};
use crate::utils;
use crate::utils::{is_prime_number, least_prime_from};
use vstd::arithmetic::div_mod::{lemma_mod_self_0, lemma_small_mod};
use vstd::prelude::*;
use vstd::set_lib::{lemma_int_range, lemma_len_subset, set_int_range};

verus! {

/// [Symbol] and associated code.
pub type SymbolTuple = (Symbol, usize);

/// Slot for storing a [Symbol].
pub type SymbolSlot = Option<SymbolTuple>;

/// The slot at which the search for `symbol` starts in a table of `slots` slots.
pub open spec fn home_slot(symbol: SymbolView, slots: int) -> int {
    symbol.hash_code() as int % slots
}

/// The slot that the search reaches `step` steps after `home`, going round at the end.
pub open spec fn probe_slot(home: int, step: int, slots: int) -> int {
    if home + step < slots {
        home + step
    } else {
        home + step - slots
    }
}

/// The number of steps from `home` to `slot`, going round at the end.
pub open spec fn probe_steps(home: int, slot: int, slots: int) -> int {
    if slot >= home {
        slot - home
    } else {
        slot - home + slots
    }
}

/// Whether slot `j` holds a symbol.
pub open spec fn occupied(values: Seq<SymbolSlot>, j: int) -> bool {
    0 <= j < values.len() && values[j] is Some
}

/// The symbol in slot `j`.
pub open spec fn symbol_at(values: Seq<SymbolSlot>, j: int) -> SymbolView {
    let entry = values[j]->0;
    entry.0@
}

/// The id in slot `j`.
pub open spec fn id_at(values: Seq<SymbolSlot>, j: int) -> int {
    let entry = values[j]->0;
    entry.1 as int
}

/// The slot that the search for the symbol of slot `j` reaches after `step` steps.
pub open spec fn chain_slot(values: Seq<SymbolSlot>, j: int, step: int) -> int {
    probe_slot(home_slot(symbol_at(values, j), values.len() as int), step, values.len() as int)
}

/// The number of steps that the search for the symbol of slot `j` takes to reach it.
pub open spec fn chain_len(values: Seq<SymbolSlot>, j: int) -> int {
    probe_steps(home_slot(symbol_at(values, j), values.len() as int), j, values.len() as int)
}

/// Every slot between the home of a symbol and the slot that holds it is taken,
/// so that a search from the home reaches the symbol before it reaches a free slot.
pub open spec fn chains_unbroken(values: Seq<SymbolSlot>) -> bool {
    forall|j: int, step: int|
        occupied(values, j) && 0 <= step < chain_len(values, j) ==> occupied(
            values,
            #[trigger] chain_slot(values, j, step),
        )
}

/// No two slots hold the same symbol.
pub open spec fn distinct_symbols(values: Seq<SymbolSlot>) -> bool {
    forall|i: int, j: int|
        #![trigger occupied(values, i), occupied(values, j)]
        occupied(values, i) && occupied(values, j) && i != j ==> symbol_at(values, i) != symbol_at(
            values,
            j,
        )
}

/// Every taken slot holds an id from 1 to the length of `order`, and `order`
/// leads from that id back to the slot.
pub open spec fn slots_indexed(values: Seq<SymbolSlot>, order: Seq<int>) -> bool {
    forall|j: int| #[trigger]
        occupied(values, j) ==> 1 <= id_at(values, j) <= order.len() && order[id_at(values, j) - 1]
            == j
}

/// `order` leads from every id to a taken slot that holds that id.
pub open spec fn order_covered(values: Seq<SymbolSlot>, order: Seq<int>) -> bool {
    forall|k: int|
        0 <= k < order.len() ==> occupied(values, #[trigger] order[k]) && id_at(values, order[k])
            == k + 1
}

/// The entry in slot `j`: its symbol and its id.
pub open spec fn entry_at(values: Seq<SymbolSlot>, j: int) -> (SymbolView, nat) {
    (symbol_at(values, j), id_at(values, j) as nat)
}

/// The entries of the slots from `from` on, in the order of the slots.
pub open spec fn entries_from(values: Seq<SymbolSlot>, from: int) -> Seq<(SymbolView, nat)>
    decreases values.len() - from,
{
    if from < 0 || from >= values.len() {
        Seq::empty()
    } else if values[from] is Some {
        seq![entry_at(values, from)] + entries_from(values, from + 1)
    } else {
        entries_from(values, from + 1)
    }
}

/// The entries of the slots from `from` on are the entries of the taken
/// slots among them, each once.
proof fn lemma_entries_from(values: Seq<SymbolSlot>, order: Seq<int>, from: int)
    requires
        slots_indexed(values, order),
        0 <= from <= values.len(),
    ensures
        entries_from(values, from).no_duplicates(),
        forall|entry: (SymbolView, nat)|
            entries_from(values, from).contains(entry) ==> exists|j: int|
                from <= j && #[trigger] occupied(values, j) && entry == entry_at(values, j),
        forall|j: int|
            from <= j && #[trigger] occupied(values, j) ==> entries_from(values, from).contains(
                entry_at(values, j),
            ),
    decreases values.len() - from,
{
    let here = entries_from(values, from);
    if from < values.len() {
        lemma_entries_from(values, order, from + 1);
        let rest = entries_from(values, from + 1);
        if values[from] is Some {
            let first = entry_at(values, from);
            assert(occupied(values, from));
            assert(here[0] == first);
            assert forall|i: int| 0 < i < here.len() implies here[i] == rest[i - 1] by {}
            assert forall|entry: (SymbolView, nat)| here.contains(entry) implies exists|j: int|
                from <= j && #[trigger] occupied(values, j) && entry == entry_at(values, j) by {
                let i = choose|i: int| 0 <= i < here.len() && here[i] == entry;
                if i > 0 {
                    assert(rest.contains(entry));
                    let j = choose|j: int|
                        from + 1 <= j && #[trigger] occupied(values, j) && entry == entry_at(
                            values,
                            j,
                        );
                    assert(from <= j && occupied(values, j) && entry == entry_at(values, j));
                }
            }
            assert forall|j: int| from <= j && #[trigger] occupied(values, j) implies here.contains(
                entry_at(values, j),
            ) by {
                if j > from {
                    let i = choose|i: int| 0 <= i < rest.len() && rest[i] == entry_at(values, j);
                    assert(here[i + 1] == entry_at(values, j));
                }
            }
            assert forall|a: int, b: int|
                0 <= a < here.len() && 0 <= b < here.len() && a != b implies here[a] != here[b] by {
                if a > 0 && b > 0 {
                    assert(rest[a - 1] != rest[b - 1]);
                } else {
                    let other: int = if a == 0 {
                        b
                    } else {
                        a
                    };
                    assert(rest.contains(rest[other - 1]));
                    let j = choose|j: int|
                        from + 1 <= j && #[trigger] occupied(values, j) && rest[other - 1]
                            == entry_at(values, j);
                    assert(id_at(values, j) != id_at(values, from));
                }
            }
        } else {
            assert forall|j: int| from <= j && #[trigger] occupied(values, j) implies here.contains(
                entry_at(values, j),
            ) by {
                assert(j != from);
            }
        }
    }
}

/// Hashmap-based symbol table.
pub struct SymbolTable {
    values: Vec<SymbolSlot>,
    len: usize,
    /// For each id, less one, the slot that holds it.
    order: Ghost<Seq<int>>,
}

impl View for SymbolTable {
    type V = TableModel;

    closed spec fn view(&self) -> TableModel {
        TableModel {
            symbols: Seq::new(
                self.len as nat,
                |k: int| symbol_at(self.values@, self.order@[k]),
            ),
            capacity: self.values@.len(),
        }
    }
}

/// A table with fewer ids than slots has a free slot.
proof fn lemma_free_slot_exists(values: Seq<SymbolSlot>, order: Seq<int>)
    requires
        slots_indexed(values, order),
        order.len() < values.len(),
    ensures
        exists|e: int| 0 <= e < values.len() && !occupied(values, e),
{
    if forall|e: int| 0 <= e < values.len() ==> occupied(values, e) {
        let all = set_int_range(0, values.len() as int);
        lemma_int_range(0, values.len() as int);
        order.lemma_cardinality_of_set();
        assert forall|e: int| all.contains(e) implies order.to_set().contains(e) by {
            assert(occupied(values, e));
            let k: int = id_at(values, e) - 1;
            assert(order[k] == e);
        }
        assert(all.subset_of(order.to_set()));
        lemma_len_subset(all, order.to_set());
    }
}

/// A search that has only met taken slots so far has not gone all the way round.
proof fn lemma_probe_can_advance(values: Seq<SymbolSlot>, order: Seq<int>, home: int, step: int)
    requires
        slots_indexed(values, order),
        order.len() < values.len(),
        0 <= home < values.len(),
        0 <= step < values.len(),
        forall|m: int|
            0 <= m <= step ==> occupied(values, #[trigger] probe_slot(home, m, values.len() as int)),
    ensures
        step + 1 < values.len(),
{
    lemma_free_slot_exists(values, order);
    let e = choose|e: int| 0 <= e < values.len() && !occupied(values, e);
    let d: int = probe_steps(home, e, values.len() as int);
    assert(probe_slot(home, d, values.len() as int) == e);
}

/// A search for `symbol` that has met only other symbols and then a free slot
/// shows that no slot holds `symbol`.
proof fn lemma_probe_miss(values: Seq<SymbolSlot>, symbol: SymbolView, step: int)
    requires
        chains_unbroken(values),
        values.len() > 0,
        0 <= step < values.len(),
        forall|m: int|
            0 <= m < step ==> {
                let slot = #[trigger] probe_slot(
                    home_slot(symbol, values.len() as int),
                    m,
                    values.len() as int,
                );
                occupied(values, slot) && symbol_at(values, slot) != symbol
            },
        !occupied(
            values,
            probe_slot(home_slot(symbol, values.len() as int), step, values.len() as int),
        ),
    ensures
        forall|j: int| occupied(values, j) ==> symbol_at(values, j) != symbol,
{
    let slots = values.len() as int;
    let home = home_slot(symbol, slots);
    assert(0 <= home < slots);
    assert forall|j: int| occupied(values, j) implies symbol_at(values, j) != symbol by {
        if symbol_at(values, j) == symbol {
            let d: int = chain_len(values, j);
            assert(probe_slot(home, d, slots) == j);
            if d > step {
                assert(occupied(values, chain_slot(values, j, step)));
            }
        }
    }
}

/// The slot after `i`, going round at the end.
fn next_slot(i: usize, slots: usize) -> (next: usize)
    requires
        i < slots,
    ensures
        next == if i + 1 == slots {
            0
        } else {
            i + 1
        },
{
    proof {
        if i + 1 == slots {
            lemma_mod_self_0(slots as int);
        } else {
            lemma_small_mod((i + 1) as nat, slots as nat);
        }
    }
    (i + 1) % slots
}

impl SymbolTable {
    /// The layout of the table is sound: the ids are the numbers from 1 to the
    /// number of symbols, each in one slot; no symbol is held twice; every
    /// symbol is reached from its home slot; at most three quarters of the
    /// slots are taken; and the number of slots is zero or a prime.
    pub closed spec fn wf(&self) -> bool {
        &&& self.order@.len() == self.len
        &&& order_covered(self.values@, self.order@)
        &&& slots_indexed(self.values@, self.order@)
        &&& distinct_symbols(self.values@)
        &&& chains_unbroken(self.values@)
        &&& 4 * self.len <= 3 * self.values@.len()
        &&& (self.values@.len() == 0 || is_prime_number(self.values@.len() as int))
    }

    /// The model of a table with a sound layout is well formed.
    pub proof fn lemma_view_wf(&self)
        requires
            self.wf(),
        ensures
            self@.wf(),
    {
        let symbols = self@.symbols;
        assert forall|i: int, j: int|
            0 <= i < symbols.len() && 0 <= j < symbols.len() && i != j implies symbols[i]
            != symbols[j] by {
            assert(occupied(self.values@, self.order@[i]));
            assert(occupied(self.values@, self.order@[j]));
        }
    }

    /// Inserts a symbol into the table if it doesn't exist already.
    /// Returns the code associated to the symbol.
    pub fn insert(&mut self, symbol: Symbol) -> (id: usize)
        requires
            old(self).wf(),
            old(self)@.can_take(symbol@),
        ensures
            final(self).wf(),
            final(self)@ == old(self)@.insert(symbol@),
            id == old(self)@.id_on_insert(symbol@),
            final(self)@.id_of(symbol@) == Some(id as nat),
            final(self)@.capacity > 0,
            4 * final(self)@.len() <= 3 * final(self)@.capacity,
            forall|other: SymbolView|
                other != symbol@ && #[trigger] old(self)@.contains(other) ==> final(self)@.id_of(
                    other,
                ) == old(self)@.id_of(other) && old(self)@.id_of(other) != Some(id as nat),
    {
        proof {
            old(self).lemma_view_wf();
            lemma_insert_preserves_wf(old(self)@, symbol@);
            assert forall|other: SymbolView|
                other != symbol@ && #[trigger] old(self)@.contains(other) implies old(
                self,
            )@.insert(symbol@).id_of(other) == old(self)@.id_of(other) && old(self)@.id_of(other)
                != Some(old(self)@.id_on_insert(symbol@)) by {
                lemma_insert_keeps_other_ids(old(self)@, symbol@, other);
            }
        }
        if let Some(id) = self.get(&symbol) {
            return id;
        }
        if self.should_grow() {
            self.grow();
        }
        let slots = self.slots();
        let ghost home = home_slot(symbol@, slots as int);
        let ghost mut step: int = 0;
        let mut i = (symbol.hash_code() % (slots as u64)) as usize;

        while self.values[i].is_some()
            invariant
                self.wf(),
                slots == self.values@.len(),
                slots > 0,
                0 <= home < slots,
                0 <= step < slots,
                i == probe_slot(home, step, slots as int),
                forall|m: int|
                    0 <= m < step ==> occupied(
                        self.values@,
                        #[trigger] probe_slot(home, m, slots as int),
                    ),
            decreases slots - step,
        {
            proof {
                assert forall|m: int| 0 <= m <= step implies occupied(
                    self.values@,
                    #[trigger] probe_slot(home, m, slots as int),
                ) by {}
                lemma_probe_can_advance(self.values@, self.order@, home, step);
                step = step + 1;
            }
            i = next_slot(i, slots);
        }

        proof {
            assert forall|j: int| occupied(self.values@, j) implies symbol_at(self.values@, j)
                != symbol@ by {
                self.lemma_holds_slot(j);
            }
        }
        let ghost before = *self;
        self.len += 1;
        self.values.set(i, Some((symbol, self.len)));
        self.order = Ghost(self.order@.push(i as int));
        proof {
            let values = self.values@;
            let order = self.order@;
            assert(order_covered(values, order)) by {
                assert forall|k: int| 0 <= k < order.len() implies occupied(
                    values,
                    #[trigger] order[k],
                ) && id_at(values, order[k]) == k + 1 by {
                    if k < before.len {
                        assert(occupied(before.values@, before.order@[k]));
                    }
                }
            }
            assert(slots_indexed(values, order)) by {
                assert forall|j: int| #[trigger] occupied(values, j) implies 1 <= id_at(values, j)
                    <= order.len() && order[id_at(values, j) - 1] == j by {
                    if j != i {
                        assert(occupied(before.values@, j));
                    }
                }
            }
            assert(distinct_symbols(values)) by {
                assert forall|a: int, b: int|
                    #![trigger occupied(values, a), occupied(values, b)]
                    occupied(values, a) && occupied(values, b) && a != b implies symbol_at(
                    values,
                    a,
                ) != symbol_at(values, b) by {
                    if a != i {
                        assert(occupied(before.values@, a));
                    }
                    if b != i {
                        assert(occupied(before.values@, b));
                    }
                }
            }
            assert(chains_unbroken(values)) by {
                assert forall|j: int, s: int|
                    occupied(values, j) && 0 <= s < chain_len(values, j) implies occupied(
                    values,
                    #[trigger] chain_slot(values, j, s),
                ) by {
                    if j != i {
                        assert(occupied(before.values@, j));
                        assert(chain_slot(values, j, s) == chain_slot(before.values@, j, s));
                        assert(occupied(before.values@, chain_slot(before.values@, j, s)));
                    } else {
                        assert(chain_len(values, j) == step);
                        let slot = probe_slot(home, s, slots as int);
                        assert(occupied(before.values@, slot));
                    }
                }
            }
            assert(self@.symbols =~= before@.symbols.push(symbol@)) by {
                assert forall|k: int| 0 <= k < before.len implies self@.symbols[k]
                    == before@.symbols[k] by {
                    assert(occupied(before.values@, before.order@[k]));
                }
            }
            assert(self@.symbols[before.len as int] == symbol@);
            self.lemma_view_wf();
            lemma_index_of_unique(self@.symbols, before.len as int);
        }
        self.len
    }

    /// Inserts a symbol as [`SymbolTable::insert`] does where the table can
    /// take it, and leaves the table as it is where it cannot.
    pub fn try_insert(&mut self, symbol: Symbol) -> (id: Option<usize>)
        requires
            old(self).wf(),
        ensures
            final(self).wf(),
            4 * final(self)@.len() <= 3 * final(self)@.capacity,
            old(self)@.can_take(symbol@) ==> final(self)@ == old(self)@.insert(symbol@) && id
                == Some(old(self)@.id_on_insert(symbol@) as usize) && final(self)@.id_of(symbol@)
                == Some(old(self)@.id_on_insert(symbol@)) && final(self)@.capacity > 0,
            !old(self)@.can_take(symbol@) ==> final(self)@ == old(self)@ && id is None,
            forall|other: SymbolView|
                other != symbol@ && #[trigger] old(self)@.contains(other) ==> final(self)@.id_of(
                    other,
                ) == old(self)@.id_of(other) && Some(old(self)@.id_of(other)->0 as usize) != id,
    {
        proof {
            self.lemma_view_wf();
        }
        if !self.contains(&symbol) && self.should_grow() && self.next_capacity().is_none() {
            return None;
        }
        Some(self.insert(symbol))
    }

    /// Returns the code associated to the symbol, if it exists.
    pub fn get(&self, symbol: &Symbol) -> (id: Option<usize>)
        requires
            self.wf(),
        ensures
            match id {
                Some(id) => self@.id_of(symbol@) == Some(id as nat),
                None => self@.id_of(symbol@) is None,
            },
    {
        let slots = self.slots();
        if slots == 0 {
            return None;
        }
        let ghost home = home_slot(symbol@, slots as int);
        let ghost mut step: int = 0;
        let mut i = (symbol.hash_code() % (slots as u64)) as usize;

        loop
            invariant
                self.wf(),
                slots == self.values@.len(),
                slots > 0,
                home == home_slot(symbol@, slots as int),
                0 <= home < slots,
                0 <= step < slots,
                i == probe_slot(home, step, slots as int),
                forall|m: int|
                    0 <= m < step ==> {
                        let slot = #[trigger] probe_slot(home, m, slots as int);
                        occupied(self.values@, slot) && symbol_at(self.values@, slot) != symbol@
                    },
            ensures
                !occupied(self.values@, i as int),
            decreases slots - step,
        {
            match &self.values[i] {
                Some(entry) => {
                    if entry.0 == *symbol {
                        proof {
                            self.lemma_holds_slot(i as int);
                        }
                        return Some(entry.1);
                    }
                },
                None => {
                    break ;
                },
            }
            proof {
                assert forall|m: int| 0 <= m <= step implies occupied(
                    self.values@,
                    #[trigger] probe_slot(home, m, slots as int),
                ) by {
                    if m < step {
                        let slot = probe_slot(home, m, slots as int);
                        assert(occupied(self.values@, slot));
                    }
                }
                lemma_probe_can_advance(self.values@, self.order@, home, step);
                step = step + 1;
            }
            i = next_slot(i, slots);
        }

        proof {
            lemma_probe_miss(self.values@, symbol@, step);
            self.lemma_misses(symbol@);
        }
        None
    }

    /// Returns whether the table contains a symbol.
    #[inline]
    pub fn contains(&self, symbol: &Symbol) -> (found: bool)
        requires
            self.wf(),
        ensures
            found == self@.contains(symbol@),
    {
        self.get(symbol).is_some()
    }

    /// The entries of the table in the order of the slots that hold them.
    pub closed spec fn slot_entries(&self) -> Seq<(SymbolView, nat)> {
        entries_from(self.values@, 0)
    }

    /// The entries in the order of their slots are the entries in the order
    /// of their ids, in another order: the same entries, each once.
    pub proof fn lemma_slot_entries(&self)
        requires
            self.wf(),
        ensures
            self.slot_entries().no_duplicates(),
            self.slot_entries().to_set() == self@.entries().to_set(),
            self.slot_entries().len() == self@.len(),
    {
        let in_slots = self.slot_entries();
        let in_order = self@.entries();
        lemma_entries_from(self.values@, self.order@, 0);
        assert forall|entry: (SymbolView, nat)|
            in_slots.to_set().contains(entry) <==> in_order.to_set().contains(entry) by {
            if in_slots.contains(entry) {
                let j = choose|j: int|
                    0 <= j && occupied(self.values@, j) && entry == entry_at(self.values@, j);
                let k: int = id_at(self.values@, j) - 1;
                assert(in_order[k] == entry);
            }
            if in_order.contains(entry) {
                let k = choose|k: int| 0 <= k < in_order.len() && in_order[k] == entry;
                assert(occupied(self.values@, self.order@[k]));
                assert(entry == entry_at(self.values@, self.order@[k]));
            }
        }
        assert(in_slots.to_set() =~= in_order.to_set());
        in_slots.unique_seq_to_set();
        in_order.unique_seq_to_set();
    }

    /// Returns an iterator over all symbols in the table and their associated codes.
    #[inline]
    pub fn iter(&self) -> (iter: SymbolTableIter<'_>)
        ensures
            iter.remaining() == self.slot_entries(),
    {
        SymbolTableIter { values: &self.values, position: 0 }
    }

    /// Returns the symbol table as a sorted vector.
    pub fn to_sorted_vec(&self) -> (symbols: Vec<(&Symbol, usize)>)
        requires
            self.wf(),
        ensures
            symbols@.len() == self@.len(),
            forall|k: int|
                0 <= k < symbols@.len() ==> (#[trigger] symbols@[k]).0@ == self@.symbols[k]
                    && symbols@[k].1 == k + 1,
    {
        let slots = self.slots();
        let mut slot_of: Vec<usize> = Vec::new();
        while slot_of.len() < self.len
            invariant
                slot_of@.len() <= self.len,
            decreases self.len - slot_of@.len(),
        {
            slot_of.push(0);
        }
        for j in 0..slots
            invariant
                self.wf(),
                slots == self.values@.len(),
                slot_of@.len() == self.len,
                forall|k: int|
                    0 <= k < self.len && (#[trigger] self.order@[k]) < j ==> slot_of@[k]
                        == self.order@[k],
        {
            match &self.values[j] {
                Some(entry) => {
                    assert(occupied(self.values@, j as int));
                    let ghost before = slot_of@;
                    slot_of.set(entry.1 - 1, j);
                    assert forall|k: int|
                        0 <= k < self.len && (#[trigger] self.order@[k]) < j + 1 implies slot_of@[k]
                        == self.order@[k] by {
                        if self.order@[k] == j {
                            assert(k == entry.1 - 1);
                        } else {
                            assert(before[k] == self.order@[k]);
                        }
                    }
                },
                None => {},
            }
        }
        let mut symbols: Vec<(&Symbol, usize)> = Vec::new();
        for k in 0..self.len
            invariant
                self.wf(),
                slots == self.values@.len(),
                slot_of@.len() == self.len,
                forall|k: int|
                    0 <= k < self.len ==> slot_of@[k] == #[trigger] self.order@[k],
                symbols@.len() == k,
                forall|n: int|
                    0 <= n < k ==> (#[trigger] symbols@[n]).0@ == self@.symbols[n] && symbols@[n].1
                        == n + 1,
        {
            assert(occupied(self.values@, self.order@[k as int]));
            match &self.values[slot_of[k]] {
                Some(entry) => {
                    symbols.push((&entry.0, entry.1));
                },
                None => {},
            }
        }
        symbols
    }

    /// Returns the number of symbols in the table.
    #[inline]
    pub fn len(&self) -> (len: usize)
        ensures
            len == self@.len(),
    {
        self.len
    }

    /// Returns whether the table is empty.
    #[inline]
    pub fn is_empty(&self) -> (empty: bool)
        ensures
            empty == (self@.len() == 0),
    {
        self.len == 0
    }

    /// Returns the number of symbol slots that the table has allocated.
    #[inline]
    pub fn capacity(&self) -> (slots: usize)
        ensures
            slots == self@.capacity,
    {
        self.slots()
    }

    /// Returns the number of symbol slots available.
    #[inline]
    fn slots(&self) -> (slots: usize)
        ensures
            slots == self.values@.len(),
            slots == self@.capacity,
    {
        self.values.len()
    }

    /// Returns whether the table should grow before inserting a new element.
    fn should_grow(&self) -> (grow: bool)
        requires
            self.wf(),
        ensures
            grow == self@.needs_growth(),
    {
        if self.values.len() == 0 {
            true
        } else {
            (self.len as u128 + 1) * 4 > (self.slots() as u128) * 3
        }
    }

    /// Returns the number of slots that the table has after it has grown, or
    /// nothing where that number cannot be held.
    fn next_capacity(&self) -> (slots: Option<usize>)
        requires
            self.wf(),
        ensures
            match slots {
                Some(slots) => self@.can_grow() && slots == self@.grown_capacity(),
                None => !self@.can_grow(),
            },
    {
        let slots = self.slots();
        if slots == 0 {
            Some(5)
        } else if slots > usize::MAX / 2 {
            None
        } else {
            let found = utils::checked_next_prime(slots * 2);
            proof {
                if let Some(p) = found {
                    lemma_next_prime_unique(
                        2 * (slots as int),
                        p as int,
                        least_prime_from(2 * (slots as int)),
                    );
                }
            }
            found
        }
    }

    /// Grows the hash table.
    fn grow(&mut self)
        requires
            old(self).wf(),
            old(self)@.can_grow(),
        ensures
            final(self).wf(),
            final(self)@.symbols == old(self)@.symbols,
            final(self)@.capacity == old(self)@.grown_capacity(),
            !final(self)@.needs_growth(),
    {
        let ghost before = *self;
        let next_cap = if self.slots() == 0 {
            5
        } else {
            proof {
                let p = choose|p: int|
                    2 * (self.values@.len() as int) <= p < usize::MAX && is_prime_number(p);
                lemma_least_prime_exists(2 * (self.values@.len() as int), p);
            }
            let found = utils::next_prime(self.slots() * 2);
            proof {
                lemma_next_prime_unique(
                    2 * (self.values@.len() as int),
                    found as int,
                    least_prime_from(2 * (self.values@.len() as int)),
                );
            }
            found
        };

        let mut next_values: Vec<SymbolSlot> = Vec::new();
        while next_values.len() < next_cap
            invariant
                next_values@.len() <= next_cap,
                forall|j: int| 0 <= j < next_values@.len() ==> !occupied(next_values@, j),
            decreases next_cap - next_values@.len(),
        {
            let ghost filled = next_values@;
            next_values.push(None);
            assert forall|j: int| 0 <= j < next_values@.len() implies !occupied(
                next_values@,
                j,
            ) by {
                if j < filled.len() {
                    assert(!occupied(filled, j));
                }
            }
        }

        let mut old_values: Vec<SymbolSlot> = Vec::new();
        std::mem::swap(&mut self.values, &mut old_values);
        let ghost mut next_order: Seq<int> = Seq::new(self.len as nat, |k: int| -1);

        for slot in it: old_values
            invariant
                it.seq() == before.values@,
                before.wf(),
                self.len == before.len,
                self.order@ == before.order@,
                next_values@.len() == next_cap,
                self.len < next_cap,
                next_order.len() == self.len,
                slots_indexed(next_values@, next_order),
                chains_unbroken(next_values@),
                forall|t: int| #[trigger]
                    occupied(next_values@, t) ==> before.order@[id_at(next_values@, t) - 1]
                        < it.index() && symbol_at(next_values@, t) == symbol_at(
                        before.values@,
                        before.order@[id_at(next_values@, t) - 1],
                    ),
                forall|k: int|
                    0 <= k < self.len && (#[trigger] before.order@[k]) < it.index() ==> occupied(
                        next_values@,
                        next_order[k],
                    ) && id_at(next_values@, next_order[k]) == k + 1,
        {
            let ghost index = it.index() as int;
            if let Some((symbol, symbol_index)) = slot {
                assert(occupied(before.values@, index));
                let ghost home = home_slot(symbol@, next_cap as int);
                let ghost mut step: int = 0;
                let mut i = (symbol.hash_code() % (next_cap as u64)) as usize;

                while next_values[i].is_some()
                    invariant
                        next_values@.len() == next_cap,
                        next_order.len() < next_cap,
                        slots_indexed(next_values@, next_order),
                        home == home_slot(symbol@, next_cap as int),
                        0 <= home < next_cap,
                        0 <= step < next_cap,
                        i == probe_slot(home, step, next_cap as int),
                        forall|m: int|
                            0 <= m < step ==> occupied(
                                next_values@,
                                #[trigger] probe_slot(home, m, next_cap as int),
                            ),
                    decreases next_cap - step,
                {
                    proof {
                        assert forall|m: int| 0 <= m <= step implies occupied(
                            next_values@,
                            #[trigger] probe_slot(home, m, next_cap as int),
                        ) by {}
                        lemma_probe_can_advance(next_values@, next_order, home, step);
                        step = step + 1;
                    }
                    i = next_slot(i, next_cap);
                }

                let ghost placed = next_values@;
                let ghost placed_order = next_order;
                next_values.set(i, Some((symbol, symbol_index)));
                proof {
                    let k: int = symbol_index - 1;
                    next_order = next_order.update(k, i as int);
                    let values = next_values@;
                    assert(before.order@[k] == index);
                    assert forall|t: int| #[trigger] occupied(values, t) implies 1 <= id_at(
                        values,
                        t,
                    ) <= next_order.len() && next_order[id_at(values, t) - 1] == t
                        && before.order@[id_at(values, t) - 1] < index + 1 && symbol_at(values, t)
                        == symbol_at(before.values@, before.order@[id_at(values, t) - 1]) by {
                        if t != i {
                            assert(occupied(placed, t));
                        }
                    }
                    assert forall|n: int|
                        0 <= n < self.len && (#[trigger] before.order@[n]) < index
                            + 1 implies occupied(values, next_order[n]) && id_at(
                        values,
                        next_order[n],
                    ) == n + 1 by {
                        if before.order@[n] == index {
                            assert(n == k);
                        } else {
                            assert(occupied(placed, placed_order[n]));
                            assert(id_at(placed, placed_order[n]) == n + 1);
                            assert(n != k);
                        }
                    }
                    assert(chains_unbroken(values)) by {
                        assert forall|j: int, s: int|
                            occupied(values, j) && 0 <= s < chain_len(values, j) implies occupied(
                            values,
                            #[trigger] chain_slot(values, j, s),
                        ) by {
                            if j != i {
                                assert(occupied(placed, j));
                                assert(chain_slot(values, j, s) == chain_slot(placed, j, s));
                                assert(occupied(placed, chain_slot(placed, j, s)));
                            } else {
                                assert(chain_len(values, j) == step);
                                assert(occupied(placed, probe_slot(home, s, next_cap as int)));
                            }
                        }
                    }
                }
            }
        }

        self.values = next_values;
        self.order = Ghost(next_order);
        proof {
            let values = self.values@;
            let order = self.order@;
            assert(order_covered(values, order)) by {
                assert forall|k: int| 0 <= k < order.len() implies occupied(
                    values,
                    #[trigger] order[k],
                ) && id_at(values, order[k]) == k + 1 by {
                    assert(occupied(before.values@, before.order@[k]));
                }
            }
            assert(distinct_symbols(values)) by {
                assert forall|a: int, b: int|
                    #![trigger occupied(values, a), occupied(values, b)]
                    occupied(values, a) && occupied(values, b) && a != b implies symbol_at(
                    values,
                    a,
                ) != symbol_at(values, b) by {
                    let ka: int = id_at(values, a) - 1;
                    let kb: int = id_at(values, b) - 1;
                    assert(occupied(before.values@, before.order@[ka]));
                    assert(occupied(before.values@, before.order@[kb]));
                    assert(before.order@[ka] != before.order@[kb]);
                }
            }
            assert(self@.symbols =~= before@.symbols) by {
                assert forall|k: int| 0 <= k < self.len implies self@.symbols[k]
                    == before@.symbols[k] by {
                    assert(occupied(before.values@, before.order@[k]));
                    assert(occupied(values, order[k]));
                }
            }
        }
    }

    /// A slot that holds a symbol makes the model hold it, under the slot's id.
    proof fn lemma_holds_slot(&self, j: int)
        requires
            self.wf(),
            occupied(self.values@, j),
        ensures
            self@.contains(symbol_at(self.values@, j)),
            self@.id_of(symbol_at(self.values@, j)) == Some(id_at(self.values@, j) as nat),
            self@.id_on_insert(symbol_at(self.values@, j)) == id_at(self.values@, j),
            self@.insert(symbol_at(self.values@, j)).symbols == self@.symbols,
    {
        let k: int = id_at(self.values@, j) - 1;
        assert(self@.symbols[k] == symbol_at(self.values@, j));
        self.lemma_view_wf();
        lemma_index_of_unique(self@.symbols, k);
    }

    /// Where no slot holds a symbol, the model does not hold it.
    proof fn lemma_misses(&self, symbol: SymbolView)
        requires
            self.wf(),
            forall|j: int| occupied(self.values@, j) ==> symbol_at(self.values@, j) != symbol,
        ensures
            !self@.contains(symbol),
    {
        if self@.symbols.contains(symbol) {
            let k = self@.symbols.index_of(symbol);
            assert(occupied(self.values@, self.order@[k]));
        }
    }
}

/// Iterator over all symbols in the table and their associated codes.
pub struct SymbolTableIter<'a> {
    values: &'a Vec<SymbolSlot>,
    position: usize,
}

impl<'a> SymbolTableIter<'a> {
    /// The entries that the iterator has not yet returned, in the order in
    /// which it returns them.
    pub closed spec fn remaining(&self) -> Seq<(SymbolView, nat)> {
        entries_from(self.values@, self.position as int)
    }

    /// Returns the next symbol and its code, or nothing when all were returned.
    #[inline]
    pub fn next(&mut self) -> (entry: Option<&'a SymbolTuple>)
        ensures
            match entry {
                Some(entry) => old(self).remaining().len() > 0 && (entry.0@, entry.1 as nat) == old(
                    self,
                ).remaining().first() && final(self).remaining() == old(
                    self,
                ).remaining().drop_first(),
                None => old(self).remaining().len() == 0 && final(self).remaining().len() == 0,
            },
    {
        let values: &'a Vec<SymbolSlot> = self.values;
        while self.position < values.len()
            invariant
                values == self.values,
                values == old(self).values,
                entries_from(values@, self.position as int) == old(self).remaining(),
            decreases values@.len() - self.position,
        {
            let ghost before = self.position as int;
            let slot = &values[self.position];
            self.position += 1;
            if let Some(entry) = slot {
                proof {
                    let rest = entries_from(values@, before + 1);
                    assert(old(self).remaining() == seq![entry_at(values@, before)] + rest);
                    assert(old(self).remaining().drop_first() =~= rest);
                }
                return Some(entry);
            }
        }
        None
    }
}

impl Default for SymbolTable {
    fn default() -> (table: SymbolTable)
        ensures
            table.wf(),
            table@ == TableModel::empty(),
    {
        let table = SymbolTable { values: Vec::new(), len: 0, order: Ghost(Seq::empty()) };
        assert(table@.symbols =~= Seq::empty());
        table
    }
}

} // verus!
