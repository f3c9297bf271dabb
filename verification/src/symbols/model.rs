use crate::symbols::symbol::SymbolView;
use crate::utils::{is_next_prime, is_prime_number, least_prime_from};
use vstd::prelude::*;

verus! {

/// What a symbol table stands for: its symbols in the order in which they
/// were first inserted, and the number of slots it has allocated. The symbol
/// at index `k` has the id `k + 1`.
pub struct TableModel {
    pub symbols: Seq<SymbolView>,
    pub capacity: nat,
}

impl TableModel {
    /// The table that nothing was inserted into.
    pub open spec fn empty() -> TableModel {
        TableModel { symbols: Seq::empty(), capacity: 0 }
    }

    /// The number of symbols.
    pub open spec fn len(self) -> nat {
        self.symbols.len()
    }

    /// No symbol occurs twice, at most three quarters of the slots are taken,
    /// and the number of slots is zero or a prime.
    pub open spec fn wf(self) -> bool {
        &&& self.symbols.no_duplicates()
        &&& 4 * self.symbols.len() <= 3 * self.capacity
        &&& (self.capacity == 0 || is_prime_number(self.capacity as int))
    }

    /// Whether the table holds `symbol`.
    pub open spec fn contains(self, symbol: SymbolView) -> bool {
        self.symbols.contains(symbol)
    }

    /// The id of `symbol`: one more than its index, if the table holds it.
    pub open spec fn id_of(self, symbol: SymbolView) -> Option<nat> {
        if self.symbols.contains(symbol) {
            Some((self.symbols.index_of(symbol) + 1) as nat)
        } else {
            None
        }
    }

    /// The table's entries in ascending order of their ids.
    pub open spec fn entries(self) -> Seq<(SymbolView, nat)> {
        Seq::new(self.symbols.len(), |k: int| (self.symbols[k], (k + 1) as nat))
    }

    /// Whether one more symbol would take more than three quarters of the
    /// slots, so that an insertion grows the table first.
    pub open spec fn needs_growth(self) -> bool {
        self.capacity == 0 || 4 * (self.symbols.len() + 1) > 3 * self.capacity
    }

    /// The number of slots after growing: 5 for a table without slots, else
    /// the least prime that is at least twice the current number.
    pub open spec fn grown_capacity(self) -> nat {
        if self.capacity == 0 {
            5
        } else {
            least_prime_from(2 * (self.capacity as int)) as nat
        }
    }

    /// Whether the grown number of slots can be held in a `usize`.
    pub open spec fn can_grow(self) -> bool {
        self.capacity == 0 || exists|p: int|
            2 * self.capacity <= p < usize::MAX && is_prime_number(p)
    }

    /// Whether the table can take one more symbol: it need not grow for it, or
    /// it can.
    pub open spec fn has_room(self) -> bool {
        self.needs_growth() ==> self.can_grow()
    }

    /// Whether `symbol` can be inserted: the table holds it already, or has
    /// room for one more symbol.
    pub open spec fn can_take(self, symbol: SymbolView) -> bool {
        self.symbols.contains(symbol) || self.has_room()
    }

    /// The table after `symbol` was inserted: the same table where it holds
    /// `symbol` already; else `symbol` comes last, and the table has grown
    /// first if one more symbol would overfill it.
    pub open spec fn insert(self, symbol: SymbolView) -> TableModel {
        TableModel {
            symbols: if self.symbols.contains(symbol) {
                self.symbols
            } else {
                self.symbols.push(symbol)
            },
            capacity: if !self.symbols.contains(symbol) && self.needs_growth() {
                self.grown_capacity()
            } else {
                self.capacity
            },
        }
    }

    /// The id that an insertion of `symbol` returns: the id it has already,
    /// or the next free one.
    pub open spec fn id_on_insert(self, symbol: SymbolView) -> nat {
        if self.symbols.contains(symbol) {
            (self.symbols.index_of(symbol) + 1) as nat
        } else {
            self.symbols.len() + 1
        }
    }

    /// The table after `symbol` was inserted `times` times in a row.
    pub open spec fn insert_repeatedly(self, symbol: SymbolView, times: nat) -> TableModel
        decreases times,
    {
        if times == 0 {
            self
        } else {
            self.insert_repeatedly(symbol, (times - 1) as nat).insert(symbol)
        }
    }
}

/// In a sequence without duplicates a value is found where it stands.
pub proof fn lemma_index_of_unique(symbols: Seq<SymbolView>, k: int)
    requires
        symbols.no_duplicates(),
        0 <= k < symbols.len(),
    ensures
        symbols.contains(symbols[k]),
        symbols.index_of(symbols[k]) == k,
{
    assert(symbols.contains(symbols[k]));
}

/// There is only one least prime from a given number on.
pub proof fn lemma_next_prime_unique(n: int, p: int, q: int)
    requires
        is_next_prime(n, p),
        is_next_prime(n, q),
    ensures
        p == q,
{
}

/// A well-formed table stays well formed under an insertion that it can
/// take: no symbol occurs twice, at most three quarters of its slots are
/// taken, and it has slots. The table then holds the symbol under the id that
/// the insertion returns.
pub proof fn lemma_insert_preserves_wf(table: TableModel, symbol: SymbolView)
    requires
        table.wf(),
        table.can_take(symbol),
    ensures
        table.insert(symbol).wf(),
        table.insert(symbol).capacity > 0,
        4 * table.insert(symbol).len() <= 3 * table.insert(symbol).capacity,
        table.insert(symbol).id_of(symbol) == Some(table.id_on_insert(symbol)),
        1 <= table.id_on_insert(symbol) <= table.insert(symbol).len(),
{
    let after = table.insert(symbol);
    if !table.symbols.contains(symbol) && table.needs_growth() && table.capacity != 0 {
        let p = choose|p: int| 2 * table.capacity <= p < usize::MAX && is_prime_number(p);
        lemma_least_prime_exists(2 * (table.capacity as int), p);
        let doubled = 2 * (table.capacity as int);
        let least = choose|q: int| is_next_prime(doubled, q);
        assert(is_next_prime(doubled, least_prime_from(doubled)));
        assert(is_next_prime(2 * (table.capacity as int), table.grown_capacity() as int));
    }
    if table.symbols.contains(symbol) {
        let k = table.symbols.index_of(symbol);
        assert(0 <= k < table.symbols.len());
    } else {
        lemma_push_new_keeps_unique(table.symbols, symbol);
        assert(after.symbols[table.symbols.len() as int] == symbol);
        lemma_index_of_unique(after.symbols, table.symbols.len() as int);
    }
}

/// Where some prime is at least `n`, a least one is.
pub proof fn lemma_least_prime_exists(n: int, p: int)
    requires
        n <= p,
        is_prime_number(p),
    ensures
        exists|q: int| is_next_prime(n, q) && q <= p,
    decreases p - n,
{
    if exists|r: int| n <= r < p && is_prime_number(r) {
        let r = choose|r: int| n <= r < p && is_prime_number(r);
        lemma_least_prime_exists(n, r);
        let q = choose|q: int| is_next_prime(n, q) && q <= r;
        assert(is_next_prime(n, q) && q <= p);
    } else {
        assert(is_next_prime(n, p));
    }
}

/// Appending a value that a sequence without duplicates does not hold leaves
/// it without duplicates.
pub proof fn lemma_push_new_keeps_unique(symbols: Seq<SymbolView>, symbol: SymbolView)
    requires
        symbols.no_duplicates(),
        !symbols.contains(symbol),
    ensures
        symbols.push(symbol).no_duplicates(),
{
    let pushed = symbols.push(symbol);
    assert forall|i: int, j: int| 0 <= i < pushed.len() && 0 <= j < pushed.len() && i != j
        implies pushed[i] != pushed[j] by {
        if i < symbols.len() {
            assert(symbols.contains(symbols[i]));
        }
        if j < symbols.len() {
            assert(symbols.contains(symbols[j]));
        }
    }
}

/// Inserting one symbol into an empty table any number of times, at least
/// once, gives the id 1 every time and leaves a table of that one symbol.
pub proof fn lemma_insert_idempotent(symbol: SymbolView, times: nat)
    requires
        times >= 1,
    ensures
        TableModel::empty().insert_repeatedly(symbol, times).symbols == seq![symbol],
        TableModel::empty().insert_repeatedly(symbol, times).len() == 1,
        TableModel::empty().insert_repeatedly(symbol, times).capacity == 5,
        TableModel::empty().insert_repeatedly(symbol, times).can_take(symbol),
        TableModel::empty().insert_repeatedly(symbol, (times - 1) as nat).can_take(symbol),
        TableModel::empty().insert_repeatedly(symbol, (times - 1) as nat).id_on_insert(symbol) == 1,
    decreases times,
{
    let empty = TableModel::empty();
    if times == 1 {
        assert(empty.insert_repeatedly(symbol, 0) == empty);
        assert(empty.insert_repeatedly(symbol, 1) == empty.insert(symbol)) by {
            reveal_with_fuel(TableModel::insert_repeatedly, 2);
        }
        assert(empty.insert(symbol).symbols =~= seq![symbol]);
    } else {
        lemma_insert_idempotent(symbol, (times - 1) as nat);
        let before = empty.insert_repeatedly(symbol, (times - 1) as nat);
        assert(before.symbols[0] == symbol);
        assert(before.symbols.contains(symbol));
        assert(before.symbols.index_of(symbol) == 0);
    }
}

/// An insertion of a symbol that the table holds leaves the table as it is.
pub proof fn lemma_insert_of_known_symbol(table: TableModel, symbol: SymbolView)
    requires
        table.contains(symbol),
    ensures
        table.insert(symbol) == table,
        table.id_of(symbol) == Some(table.id_on_insert(symbol)),
{
}

/// An insertion leaves every other symbol of a well-formed table its id, and
/// returns an id that none of them has.
pub proof fn lemma_insert_keeps_other_ids(table: TableModel, symbol: SymbolView, other: SymbolView)
    requires
        table.wf(),
        table.contains(other),
        other != symbol,
    ensures
        table.insert(symbol).id_of(other) == table.id_of(other),
        table.id_of(other) != Some(table.id_on_insert(symbol)),
{
    let after = table.insert(symbol);
    let k = table.symbols.index_of(other);
    assert(after.symbols[k] == other);
    if table.symbols.contains(symbol) {
        let l = table.symbols.index_of(symbol);
        assert(table.symbols[k] != table.symbols[l]);
    } else {
        lemma_push_new_keeps_unique(table.symbols, symbol);
        lemma_index_of_unique(after.symbols, k);
    }
}

/// In a well-formed table two different symbols have different ids.
pub proof fn lemma_distinct_symbols_distinct_ids(
    table: TableModel,
    first: SymbolView,
    second: SymbolView,
)
    requires
        table.wf(),
        table.contains(first),
        table.contains(second),
        first != second,
    ensures
        table.id_of(first) != table.id_of(second),
{
}

/// Inserting two different symbols, one after the other, returns two
/// different ids, whatever the table held before.
pub proof fn lemma_inserts_of_distinct_symbols_differ(
    table: TableModel,
    first: SymbolView,
    second: SymbolView,
)
    requires
        table.wf(),
        first != second,
    ensures
        table.id_on_insert(first) != table.insert(first).id_on_insert(second),
{
    let after = table.insert(first);
    if table.symbols.contains(first) {
        let k = table.symbols.index_of(first);
        if table.symbols.contains(second) {
            let l = table.symbols.index_of(second);
            assert(table.symbols[k] != table.symbols[l]);
        }
    } else {
        if after.symbols.contains(second) {
            let l = after.symbols.index_of(second);
            assert(after.symbols[l] == second);
            assert(after.symbols[table.symbols.len() as int] == first);
        }
    }
}

/// The ids of a well-formed table do not depend on how many slots it has:
/// the symbols that a table holds, and the ids it gives out, stay as they
/// are when only its capacity changes.
pub proof fn lemma_ids_independent_of_capacity(table: TableModel, capacity: nat, symbol: SymbolView)
    ensures
        (TableModel { capacity, ..table }).id_of(symbol) == table.id_of(symbol),
        (TableModel { capacity, ..table }).id_on_insert(symbol) == table.id_on_insert(symbol),
        (TableModel { capacity, ..table }).insert(symbol).symbols == table.insert(symbol).symbols,
{
}

/// In a well-formed table with slots, at most three quarters of them are taken.
pub proof fn lemma_load_factor(table: TableModel)
    requires
        table.wf(),
    ensures
        4 * table.len() <= 3 * table.capacity,
        table.capacity > 0 ==> table.len() < table.capacity,
{
}

} // verus!
