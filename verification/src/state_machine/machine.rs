use crate::state_machine::model::{
    lemma_final_states_resolved, lemma_transitions_resolved, DescriptionModel, DeserErrorModel,
    MachineModel, Name, TransitionModel,
};
use crate::text::texts_of;
use vstd::hash_map::StringHashMap;
use vstd::prelude::*;
use vstd::string::StringExecFns;

verus! {

/// The characters of each of the strings.
pub open spec fn names_of(strings: Seq<String>) -> Seq<Name> {
    Seq::new(strings.len(), |i: int| strings[i]@)
}

/// The characters of each string slice of each of the triples.
pub open spec fn triples_of(triples: Seq<(&str, &str, &str)>) -> Seq<(Name, Name, Name)> {
    Seq::new(triples.len(), |i: int| (triples[i].0@, triples[i].1@, triples[i].2@))
}

/// A transition of a description: from `src_state` on `symbol` to `dst_state`.
#[derive(Debug)]
pub struct Transition {
    pub src_state: String,
    pub symbol: String,
    pub dst_state: String,
}

impl View for Transition {
    type V = TransitionModel;

    open spec fn view(&self) -> TransitionModel {
        TransitionModel {
            src_state: self.src_state@,
            symbol: self.symbol@,
            dst_state: self.dst_state@,
        }
    }
}

/// A description of a state machine by the names of its states and symbols.
#[derive(Debug)]
pub struct StateMachineDescription {
    /// All possible states.
    pub states: Vec<String>,
    /// All symbols that make up the state machine alphabet.
    pub alphabet: Vec<String>,
    /// All transitions supported by the state machine.
    pub transitions: Vec<Transition>,
    /// The initial state of the state machine.
    pub initial_state: String,
    /// The final states of the state machine.
    pub final_states: Vec<String>,
}

impl View for StateMachineDescription {
    type V = DescriptionModel;

    open spec fn view(&self) -> DescriptionModel {
        DescriptionModel {
            states: names_of(self.states@),
            alphabet: names_of(self.alphabet@),
            transitions: Seq::new(self.transitions@.len(), |i: int| self.transitions@[i]@),
            initial_state: self.initial_state@,
            final_states: names_of(self.final_states@),
        }
    }
}

/// Errors that may be returned when a state machine is built from its description.
#[derive(Debug)]
pub enum StateMachineDeserError {
    /// The given state is invalid.
    InvalidState(String),
    /// The given symbol is invalid.
    InvalidSymbol(String),
}

impl View for StateMachineDeserError {
    type V = DeserErrorModel;

    open spec fn view(&self) -> DeserErrorModel {
        match self {
            StateMachineDeserError::InvalidState(state) => DeserErrorModel::InvalidState(state@),
            StateMachineDeserError::InvalidSymbol(symbol) => DeserErrorModel::InvalidSymbol(
                symbol@,
            ),
        }
    }
}

impl DeserErrorModel {
    /// The error in words: what kind of name is invalid, and the name in
    /// double quotes.
    pub open spec fn message(self) -> Seq<char> {
        match self {
            DeserErrorModel::InvalidState(state) => "Invalid state \""@ + state + "\""@,
            DeserErrorModel::InvalidSymbol(symbol) => "Invalid symbol \""@ + symbol + "\""@,
        }
    }
}

impl Clone for StateMachineDeserError {
    fn clone(&self) -> (copy: StateMachineDeserError)
        ensures
            copy@ == self@,
    {
        match self {
            StateMachineDeserError::InvalidState(state) => StateMachineDeserError::InvalidState(
                state.clone(),
            ),
            StateMachineDeserError::InvalidSymbol(symbol) => StateMachineDeserError::InvalidSymbol(
                symbol.clone(),
            ),
        }
    }
}

impl StateMachineDeserError {
    /// Returns the error in words.
    pub fn to_string(&self) -> (message: String)
        ensures
            message@ == self@.message(),
    {
        match self {
            StateMachineDeserError::InvalidState(state) => {
                let mut message = String::from_str("Invalid state \"");
                message.append(state.as_str());
                message.append("\"");
                message
            },
            StateMachineDeserError::InvalidSymbol(symbol) => {
                let mut message = String::from_str("Invalid symbol \"");
                message.append(symbol.as_str());
                message.append("\"");
                message
            },
        }
    }
}

/// `ids` leads from each name of `names` to the place where it stands, and
/// from nothing else.
pub open spec fn indexes(names: Seq<String>, ids: Map<Name, usize>) -> bool {
    &&& forall|i: int|
        0 <= i < names.len() ==> ids.contains_key((#[trigger] names[i])@) && ids[names[i]@] == i
    &&& forall|name: Name| #[trigger]
        ids.contains_key(name) ==> ids[name] < names.len() && names[ids[name] as int]@ == name
}

/// Where the machine goes from the state with handle `state` on the symbol
/// with handle `symbol`.
pub open spec fn target(table: Seq<Vec<Option<usize>>>, state: int, symbol: int) -> Option<usize> {
    table[state]@[symbol]
}

/// The table has `states` rows of `symbols` entries, each of them nothing or
/// the handle of a state.
pub open spec fn table_sound(table: Seq<Vec<Option<usize>>>, states: int, symbols: int) -> bool {
    &&& table.len() == states
    &&& forall|s: int| 0 <= s < states ==> (#[trigger] table[s])@.len() == symbols
    &&& forall|s: int, y: int|
        0 <= s < states && 0 <= y < symbols ==> (#[trigger] target(table, s, y) matches Some(d)
            ==> d < states)
}

/// The transitions that a table holds, by the names of the states and symbols.
pub open spec fn table_transitions(
    table: Seq<Vec<Option<usize>>>,
    state_names: Seq<String>,
    state_ids: Map<Name, usize>,
    symbol_ids: Map<Name, usize>,
) -> Map<(Name, Name), Name> {
    Map::new(
        |key: (Name, Name)|
            state_ids.contains_key(key.0) && symbol_ids.contains_key(key.1) && target(
                table,
                state_ids[key.0] as int,
                symbol_ids[key.1] as int,
            ) is Some,
        |key: (Name, Name)|
            state_names[target(table, state_ids[key.0] as int, symbol_ids[key.1] as int)->0 as int]@,
    )
}

/// The states that `accepting` marks, by their names.
pub open spec fn marked_states(accepting: Seq<bool>, state_ids: Map<Name, usize>) -> Set<Name> {
    Set::new(|name: Name| state_ids.contains_key(name) && accepting[state_ids[name] as int])
}

/// Implements the logic required for a finite state machine.
pub struct StateMachine {
    /// All possible states; a state's handle is its place here.
    state_names: Vec<String>,
    /// The handle of each state.
    state_ids: StringHashMap<usize>,
    /// All symbols that make up the state machine alphabet; a symbol's handle is its place here.
    symbol_names: Vec<String>,
    /// The handle of each symbol.
    symbol_ids: StringHashMap<usize>,
    /// All transitions supported by the state machine, by state and symbol.
    table: Vec<Vec<Option<usize>>>,
    /// The initial state of the state machine.
    initial: usize,
    /// Whether each state is a final state of the state machine.
    accepting: Vec<bool>,
}

impl View for StateMachine {
    type V = MachineModel;

    closed spec fn view(&self) -> MachineModel {
        MachineModel {
            states: self.state_ids@.dom(),
            alphabet: self.symbol_ids@.dom(),
            transitions: table_transitions(
                self.table@,
                self.state_names@,
                self.state_ids@,
                self.symbol_ids@,
            ),
            initial_state: self.state_names@[self.initial as int]@,
            final_states: marked_states(self.accepting@, self.state_ids@),
        }
    }
}

/// Numbers the names in the order in which they first occur.
fn index_names(names: Vec<String>) -> (indexed: (Vec<String>, StringHashMap<usize>))
    ensures
        indexes(indexed.0@, indexed.1@),
        indexed.1@.dom() == names_of(names@).to_set(),
{
    let mut list: Vec<String> = Vec::new();
    let mut ids: StringHashMap<usize> = StringHashMap::new();
    for name in it: names
        invariant
            it.seq() == names@,
            indexes(list@, ids@),
            forall|n: Name|
                ids@.contains_key(n) <==> exists|k: int|
                    0 <= k < it.index() && (#[trigger] names@[k])@ == n,
    {
        let ghost index = it.index() as int;
        let ghost list_before = list@;
        let ghost ids_before = ids@;
        if !ids.contains_key(name.as_str()) {
            ids.insert(name.clone(), list.len());
            list.push(name);
            proof {
                assert forall|i: int| 0 <= i < list@.len() implies ids@.contains_key(
                    (#[trigger] list@[i])@,
                ) && ids@[list@[i]@] == i by {
                    if i < list_before.len() {
                        assert(ids_before.contains_key(list_before[i]@));
                    }
                }
                assert forall|n: Name| #[trigger] ids@.contains_key(n) implies ids@[n] < list@.len()
                    && list@[ids@[n] as int]@ == n by {
                    if n != name@ {
                        assert(ids_before.contains_key(n));
                    }
                }
            }
        }
        proof {
            assert forall|n: Name|
                ids@.contains_key(n) <==> exists|k: int|
                    0 <= k < index + 1 && (#[trigger] names@[k])@ == n by {
                if ids@.contains_key(n) {
                    if ids_before.contains_key(n) {
                        let k = choose|k: int| 0 <= k < index && (#[trigger] names@[k])@ == n;
                        assert(0 <= k < index + 1 && names@[k]@ == n);
                    } else {
                        assert(names@[index]@ == n);
                    }
                }
                if exists|k: int| 0 <= k < index + 1 && (#[trigger] names@[k])@ == n {
                    let k = choose|k: int| 0 <= k < index + 1 && (#[trigger] names@[k])@ == n;
                    if k < index {
                        assert(ids_before.contains_key(n));
                    }
                }
            }
        }
    }
    proof {
        let declared = names_of(names@);
        assert forall|n: Name| ids@.dom().contains(n) <==> declared.to_set().contains(n) by {
            if ids@.contains_key(n) {
                let k = choose|k: int| 0 <= k < names@.len() && (#[trigger] names@[k])@ == n;
                assert(declared[k] == n);
            }
            if declared.contains(n) {
                let k = choose|k: int| 0 <= k < declared.len() && declared[k] == n;
                assert(names@[k]@ == n);
            }
        }
        assert(ids@.dom() =~= declared.to_set());
    }
    (list, ids)
}

/// Makes a table of `states` rows of `symbols` entries that holds no transition.
fn empty_table(states: usize, symbols: usize) -> (table: Vec<Vec<Option<usize>>>)
    ensures
        table_sound(table@, states as int, symbols as int),
        forall|s: int, y: int|
            0 <= s < states && 0 <= y < symbols ==> #[trigger] target(table@, s, y) is None,
{
    let mut table: Vec<Vec<Option<usize>>> = Vec::new();
    while table.len() < states
        invariant
            table@.len() <= states,
            forall|s: int| 0 <= s < table@.len() ==> (#[trigger] table@[s])@.len() == symbols,
            forall|s: int, y: int|
                0 <= s < table@.len() && 0 <= y < symbols ==> #[trigger] target(table@, s, y)
                    is None,
        decreases states - table@.len(),
    {
        let mut row: Vec<Option<usize>> = Vec::new();
        while row.len() < symbols
            invariant
                row@.len() <= symbols,
                forall|y: int| 0 <= y < row@.len() ==> #[trigger] row@[y] is None,
            decreases symbols - row@.len(),
        {
            row.push(None);
        }
        let ghost before = table@;
        table.push(row);
        proof {
            assert forall|s: int, y: int|
                0 <= s < table@.len() && 0 <= y < symbols implies #[trigger] target(table@, s, y)
                is None by {
                if s < before.len() {
                    assert(target(before, s, y) is None);
                }
            }
        }
    }
    table
}

impl StateMachine {
    /// The handles are sound: each name has one handle and each handle one
    /// name, the table has a row for each state and an entry for each symbol,
    /// and every handle that the machine holds is the handle of a state.
    pub closed spec fn wf(&self) -> bool {
        &&& indexes(self.state_names@, self.state_ids@)
        &&& indexes(self.symbol_names@, self.symbol_ids@)
        &&& table_sound(
            self.table@,
            self.state_names@.len() as int,
            self.symbol_names@.len() as int,
        )
        &&& self.initial < self.state_names@.len()
        &&& self.accepting@.len() == self.state_names@.len()
    }

    /// The model of a machine with sound handles is internally consistent.
    pub proof fn lemma_view_wf(&self)
        requires
            self.wf(),
        ensures
            self@.wf(),
    {
        let model = self@;
        assert(self.state_ids@.contains_key(self.state_names@[self.initial as int]@));
        assert forall|key: (Name, Name)| #[trigger]
            model.transitions.contains_key(key) implies model.states.contains(key.0)
            && model.alphabet.contains(key.1) && model.states.contains(model.transitions[key]) by {
            let s = self.state_ids@[key.0] as int;
            let y = self.symbol_ids@[key.1] as int;
            let d = target(self.table@, s, y)->0 as int;
            assert(self.state_ids@.contains_key(self.state_names@[d]@));
        }
    }

    /// Builds the state machine that `description` describes, or returns the
    /// first name that `description` uses and does not declare.
    pub fn try_from(description: StateMachineDescription) -> (machine: Result<
        StateMachine,
        StateMachineDeserError,
    >)
        ensures
            match machine {
                Ok(machine) => description@.first_error() is None && machine.wf() && machine@
                    == description@.machine(),
                Err(error) => description@.first_error() == Some(error@),
            },
    {
        let ghost model = description@;
        let StateMachineDescription { states, alphabet, transitions, initial_state, final_states } =
            description;
        let (state_names, state_ids) = index_names(states);
        let (symbol_names, symbol_ids) = index_names(alphabet);
        let mut table = empty_table(state_names.len(), symbol_names.len());

        proof {
            assert(table_transitions(table@, state_names@, state_ids@, symbol_ids@)
                =~= model.transition_map(0));
        }
        for transition in it: transitions
            invariant
                it.seq() == transitions@,
                model == description@,
                model.transitions == Seq::new(transitions@.len(), |i: int| transitions@[i]@),
                model.states.to_set() == state_ids@.dom(),
                model.alphabet.to_set() == symbol_ids@.dom(),
                indexes(state_names@, state_ids@),
                indexes(symbol_names@, symbol_ids@),
                table_sound(table@, state_names@.len() as int, symbol_names@.len() as int),
                model.transitions_error(it.index() as nat) is None,
                table_transitions(table@, state_names@, state_ids@, symbol_ids@)
                    == model.transition_map(it.index() as nat),
        {
            let ghost index = it.index() as int;
            assert(model.transitions[index] == transition@);
            let src_state = match state_ids.get(transition.src_state.as_str()) {
                Some(id) => *id,
                None => {
                    proof {
                        assert(!model.states.to_set().contains(transition.src_state@));
                        lemma_first_transition_error(model, transitions@.len() as nat, index);
                    }
                    return Err(StateMachineDeserError::InvalidState(transition.src_state));
                },
            };
            let symbol = match symbol_ids.get(transition.symbol.as_str()) {
                Some(id) => *id,
                None => {
                    proof {
                        assert(model.states.to_set().contains(transition.src_state@));
                        assert(!model.alphabet.to_set().contains(transition.symbol@));
                        lemma_first_transition_error(model, transitions@.len() as nat, index);
                    }
                    return Err(StateMachineDeserError::InvalidSymbol(transition.symbol));
                },
            };
            let dst_state = match state_ids.get(transition.dst_state.as_str()) {
                Some(id) => *id,
                None => {
                    proof {
                        assert(model.states.to_set().contains(transition.src_state@));
                        assert(model.alphabet.to_set().contains(transition.symbol@));
                        assert(!model.states.to_set().contains(transition.dst_state@));
                        lemma_first_transition_error(model, transitions@.len() as nat, index);
                    }
                    return Err(StateMachineDeserError::InvalidState(transition.dst_state));
                },
            };
            let ghost before = table@;
            table[src_state][symbol] = Some(dst_state);
            proof {
                assert(model.states.to_set().contains(transition.src_state@));
                assert(model.alphabet.to_set().contains(transition.symbol@));
                assert(model.states.to_set().contains(transition.dst_state@));
                assert(model.transition_error(transition@) is None);
                assert forall|s: int, y: int|
                    0 <= s < state_names@.len() && 0 <= y < symbol_names@.len() implies (
                #[trigger] target(table@, s, y) matches Some(d) ==> d < state_names@.len()) by {
                    if s != src_state || y != symbol {
                        assert(target(table@, s, y) == target(before, s, y));
                    }
                }
                assert forall|s: int| 0 <= s < state_names@.len() implies (#[trigger] table@[s])@.len()
                    == symbol_names@.len() by {
                    assert(before[s]@.len() == symbol_names@.len());
                }
                let held = table_transitions(table@, state_names@, state_ids@, symbol_ids@);
                let wanted = model.transition_map((index + 1) as nat);
                let earlier = model.transition_map(index as nat);
                let new_key = (transition.src_state@, transition.symbol@);
                assert(earlier == table_transitions(
                    before,
                    state_names@,
                    state_ids@,
                    symbol_ids@,
                ));
                assert forall|key: (Name, Name)| held.contains_key(key) <==> wanted.contains_key(
                    key,
                ) by {
                    if key != new_key && state_ids@.contains_key(key.0) && symbol_ids@.contains_key(
                        key.1,
                    ) {
                        let s = state_ids@[key.0] as int;
                        let y = symbol_ids@[key.1] as int;
                        assert(s != src_state || y != symbol);
                        assert(target(table@, s, y) == target(before, s, y));
                        assert(earlier.contains_key(key) <==> target(before, s, y) is Some);
                    }
                }
                assert forall|key: (Name, Name)| held.contains_key(key) implies held[key]
                    == wanted[key] by {
                    if key != new_key {
                        let s = state_ids@[key.0] as int;
                        let y = symbol_ids@[key.1] as int;
                        assert(s != src_state || y != symbol);
                        assert(target(table@, s, y) == target(before, s, y));
                        assert(earlier.contains_key(key));
                    }
                }
                assert(held =~= wanted);
            }
        }

        let initial = match state_ids.get(initial_state.as_str()) {
            Some(id) => *id,
            None => {
                proof {
                    assert(!model.states.to_set().contains(initial_state@));
                }
                return Err(StateMachineDeserError::InvalidState(initial_state));
            },
        };
        proof {
            assert(model.states.to_set().contains(initial_state@));
        }

        let mut accepting: Vec<bool> = Vec::new();
        while accepting.len() < state_names.len()
            invariant
                accepting@.len() <= state_names@.len(),
                forall|s: int| 0 <= s < accepting@.len() ==> !#[trigger] accepting@[s],
            decreases state_names@.len() - accepting@.len(),
        {
            accepting.push(false);
        }
        for state in it: final_states
            invariant
                it.seq() == final_states@,
                model == description@,
                model.transitions_error(model.transitions.len()) is None,
                model.states.contains(model.initial_state),
                model.final_states == names_of(final_states@),
                model.states.to_set() == state_ids@.dom(),
                indexes(state_names@, state_ids@),
                accepting@.len() == state_names@.len(),
                model.final_states_error(it.index() as nat) is None,
                forall|name: Name|
                    state_ids@.contains_key(name) ==> (accepting@[(#[trigger] state_ids@[name]) as int]
                        <==> exists|k: int|
                        0 <= k < it.index() && #[trigger] model.final_states[k] == name),
        {
            let ghost index = it.index() as int;
            assert(model.final_states[index] == state@);
            match state_ids.get(state.as_str()) {
                Some(id) => {
                    let ghost before = accepting@;
                    accepting.set(*id, true);
                    proof {
                        assert(state_ids@.dom().contains(state@));
                        assert forall|name: Name| state_ids@.contains_key(name) implies (accepting@[(
                        #[trigger] state_ids@[name]) as int] <==> exists|k: int|
                            0 <= k < index + 1 && #[trigger] model.final_states[k] == name) by {
                            let marked_before = exists|k: int|
                                0 <= k < index && #[trigger] model.final_states[k] == name;
                            assert(before[state_ids@[name] as int] <==> marked_before);
                            if name == state@ {
                                assert(model.final_states[index] == name);
                            } else {
                                assert(state_ids@[name] != *id);
                                if marked_before {
                                    let k = choose|k: int|
                                        0 <= k < index && #[trigger] model.final_states[k] == name;
                                    assert(0 <= k < index + 1 && model.final_states[k] == name);
                                }
                                if exists|k: int|
                                    0 <= k < index + 1 && #[trigger] model.final_states[k] == name {
                                    let k = choose|k: int|
                                        0 <= k < index + 1 && #[trigger] model.final_states[k]
                                            == name;
                                    assert(k < index);
                                }
                            }
                        }
                    }
                },
                None => {
                    proof {
                        assert(!model.states.to_set().contains(state@));
                        lemma_first_final_error(model, final_states@.len() as nat, index);
                    }
                    return Err(StateMachineDeserError::InvalidState(state));
                },
            }
        }

        let machine = StateMachine {
            state_names,
            state_ids,
            symbol_names,
            symbol_ids,
            table,
            initial,
            accepting,
        };
        proof {
            let wanted = model.machine();
            assert forall|name: Name|
                machine@.final_states.contains(name) <==> wanted.final_states.contains(name) by {
                if model.final_states.contains(name) {
                    let k = choose|k: int|
                        0 <= k < model.final_states.len() && model.final_states[k] == name;
                    lemma_final_states_resolved(model, model.final_states.len(), k);
                    assert(state_ids@.dom().contains(name));
                }
                if machine@.final_states.contains(name) {
                    let k = choose|k: int|
                        0 <= k < model.final_states.len() && #[trigger] model.final_states[k]
                            == name;
                    assert(model.final_states.contains(name));
                }
            }
            assert(machine@.final_states =~= wanted.final_states);
        }
        Ok(machine)
    }

    /// Returns whether a sequence is accepted by the state machine.
    pub fn is_accepted(&self, sequence: &[&str]) -> (accepted: bool)
        requires
            self.wf(),
        ensures
            accepted == self@.accepts(texts_of(sequence@)),
    {
        let ghost input = texts_of(sequence@);
        let mut state: usize = self.initial;
        proof {
            assert(input.skip(0) =~= input);
        }

        for i in 0..sequence.len()
            invariant
                self.wf(),
                input == texts_of(sequence@),
                state < self.state_names@.len(),
                self@.run(self@.initial_state, input) == self@.run(
                    self.state_names@[state as int]@,
                    input.skip(i as int),
                ),
        {
            let symbol = sequence[i];
            let ghost rest = input.skip(i as int);
            let ghost name = self.state_names@[state as int]@;
            proof {
                assert(rest.first() == symbol@);
                assert(rest.drop_first() =~= input.skip(i + 1));
                assert(self.state_ids@.contains_key(name));
            }
            let next_state = match self.symbol_ids.get(symbol) {
                Some(handle) => self.table[state][*handle],
                None => None,
            };
            match next_state {
                Some(next_state) => {
                    state = next_state;
                },
                None => {
                    assert(self@.step(name, symbol@) is None);
                    return false;
                },
            }
        }

        proof {
            assert(input.skip(sequence@.len() as int).len() == 0);
            assert(self.state_ids@.contains_key(self.state_names@[state as int]@));
        }
        self.accepting[state]
    }

    /// Returns all states, each once.
    pub fn iter_states(&self) -> (states: Vec<&str>)
        requires
            self.wf(),
        ensures
            texts_of(states@).no_duplicates(),
            texts_of(states@).to_set() == self@.states,
    {
        let states = names_as_strs(&self.state_names);
        proof {
            lemma_indexed_names(self.state_names@, self.state_ids@);
            assert(texts_of(states@) =~= names_of(self.state_names@));
        }
        states
    }

    /// Returns all symbols, each once.
    pub fn iter_symbols(&self) -> (symbols: Vec<&str>)
        requires
            self.wf(),
        ensures
            texts_of(symbols@).no_duplicates(),
            texts_of(symbols@).to_set() == self@.alphabet,
    {
        let symbols = names_as_strs(&self.symbol_names);
        proof {
            lemma_indexed_names(self.symbol_names@, self.symbol_ids@);
            assert(texts_of(symbols@) =~= names_of(self.symbol_names@));
        }
        symbols
    }

    /// Returns all transitions, each once, where each item is a tuple of the shape
    /// `(src_state, symbol, dst_state)`.
    pub fn iter_transitions(&self) -> (transitions: Vec<(&str, &str, &str)>)
        requires
            self.wf(),
        ensures
            triples_of(transitions@).no_duplicates(),
            triples_of(transitions@).to_set() == self@.triples(),
    {
        let states = self.state_names.len();
        let symbols = self.symbol_names.len();
        let mut transitions: Vec<(&str, &str, &str)> = Vec::new();
        let ghost mut cells: Seq<(int, int)> = Seq::empty();

        for s in 0..states
            invariant
                self.wf(),
                states == self.state_names@.len(),
                symbols == self.symbol_names@.len(),
                self.lists(transitions@, cells),
                forall|k: int| 0 <= k < cells.len() ==> (#[trigger] cells[k]).0 < s,
                forall|a: int, b: int|
                    0 <= a < s && 0 <= b < symbols && #[trigger] target(self.table@, a, b)
                        is Some ==> cells.contains((a, b)),
        {
            for y in 0..symbols
                invariant
                    self.wf(),
                    s < states,
                    states == self.state_names@.len(),
                    symbols == self.symbol_names@.len(),
                    self.lists(transitions@, cells),
                    forall|k: int|
                        0 <= k < cells.len() ==> (#[trigger] cells[k]).0 < s || (cells[k].0 == s
                            && cells[k].1 < y),
                    forall|a: int, b: int|
                        (0 <= a < s && 0 <= b < symbols || a == s && 0 <= b < y)
                            && #[trigger] target(self.table@, a, b) is Some ==> cells.contains(
                            (a, b),
                        ),
            {
                assert(self.table@[s as int]@.len() == symbols);
                if let Some(d) = self.table[s][y] {
                    assert(target(self.table@, s as int, y as int) == Some(d));
                    let ghost before = cells;
                    transitions.push(
                        (
                            self.state_names[s].as_str(),
                            self.symbol_names[y].as_str(),
                            self.state_names[d].as_str(),
                        ),
                    );
                    proof {
                        cells = cells.push((s as int, y as int));
                        assert(cells[before.len() as int] == (s as int, y as int));
                        assert forall|a: int, b: int|
                            (0 <= a < s && 0 <= b < symbols || a == s && 0 <= b < y + 1)
                                && #[trigger] target(self.table@, a, b) is Some implies cells.contains(
                            (a, b),
                        ) by {
                            if a == s && b == y {
                            } else {
                                let k = choose|k: int| 0 <= k < before.len() && before[k] == (a, b);
                                assert(cells[k] == (a, b));
                            }
                        }
                    }
                }
            }
        }

        proof {
            self.lemma_listed_transitions(transitions@, cells);
        }
        transitions
    }

    /// `cells` names, in ascending order, the places of the table whose
    /// transitions `transitions` lists.
    pub closed spec fn lists(&self, transitions: Seq<(&str, &str, &str)>, cells: Seq<(int, int)>) -> bool {
        &&& transitions.len() == cells.len()
        &&& forall|k: int|
            0 <= k < cells.len() ==> {
                let cell = #[trigger] cells[k];
                &&& 0 <= cell.0 < self.state_names@.len()
                &&& 0 <= cell.1 < self.symbol_names@.len()
                &&& target(self.table@, cell.0, cell.1) matches Some(d)
                &&& triples_of(transitions)[k] == (
                    self.state_names@[cell.0]@,
                    self.symbol_names@[cell.1]@,
                    self.state_names@[d as int]@,
                )
            }
        &&& forall|k: int, l: int|
            0 <= k < l < cells.len() ==> (#[trigger] cells[k]).0 < (#[trigger] cells[l]).0 || (
            cells[k].0 == cells[l].0 && cells[k].1 < cells[l].1)
    }

    /// A list of the transitions of every place of the table holds each
    /// transition of the machine once.
    proof fn lemma_listed_transitions(
        &self,
        transitions: Seq<(&str, &str, &str)>,
        cells: Seq<(int, int)>,
    )
        requires
            self.wf(),
            self.lists(transitions, cells),
            forall|a: int, b: int|
                0 <= a < self.state_names@.len() && 0 <= b < self.symbol_names@.len()
                    && #[trigger] target(self.table@, a, b) is Some ==> cells.contains((a, b)),
        ensures
            triples_of(transitions).no_duplicates(),
            triples_of(transitions).to_set() == self@.triples(),
    {
        let triples = triples_of(transitions);
        assert forall|k: int, l: int|
            0 <= k < triples.len() && 0 <= l < triples.len() && k != l implies triples[k]
            != triples[l] by {
            let first = cells[k];
            let second = cells[l];
            assert(self.state_ids@[self.state_names@[first.0]@] == first.0);
            assert(self.state_ids@[self.state_names@[second.0]@] == second.0);
            assert(self.symbol_ids@[self.symbol_names@[first.1]@] == first.1);
            assert(self.symbol_ids@[self.symbol_names@[second.1]@] == second.1);
            if k < l {
                assert(first != second);
            } else {
                assert(second != first);
            }
        }
        assert forall|triple: (Name, Name, Name)|
            triples.to_set().contains(triple) <==> self@.triples().contains(triple) by {
            if triples.contains(triple) {
                let k = choose|k: int| 0 <= k < triples.len() && triples[k] == triple;
                let cell = cells[k];
                assert(self.state_ids@[self.state_names@[cell.0]@] == cell.0);
                assert(self.symbol_ids@[self.symbol_names@[cell.1]@] == cell.1);
            }
            if self@.triples().contains(triple) {
                let a = self.state_ids@[triple.0] as int;
                let b = self.symbol_ids@[triple.1] as int;
                assert(target(self.table@, a, b) is Some);
                let k = choose|k: int| 0 <= k < cells.len() && cells[k] == (a, b);
                assert(triples[k] == triple);
            }
        }
        assert(triples.to_set() =~= self@.triples());
    }

    /// Returns the final states of the state machine, each once.
    pub fn final_states(&self) -> (states: Vec<&str>)
        requires
            self.wf(),
        ensures
            texts_of(states@).no_duplicates(),
            texts_of(states@).to_set() == self@.final_states,
    {
        let mut states: Vec<&str> = Vec::new();
        let ghost mut handles: Seq<int> = Seq::empty();

        for s in 0..self.state_names.len()
            invariant
                self.wf(),
                states@.len() == handles.len(),
                forall|k: int|
                    0 <= k < handles.len() ==> 0 <= (#[trigger] handles[k]) < s
                        && self.accepting@[handles[k]] && states@[k]@
                        == self.state_names@[handles[k]]@,
                forall|k: int, l: int|
                    0 <= k < l < handles.len() ==> (#[trigger] handles[k]) < (#[trigger] handles[l]),
                forall|a: int| 0 <= a < s && #[trigger] self.accepting@[a] ==> handles.contains(a),
        {
            if self.accepting[s] {
                let ghost before = handles;
                states.push(self.state_names[s].as_str());
                proof {
                    handles = handles.push(s as int);
                    assert(handles[before.len() as int] == s);
                    assert forall|a: int|
                        0 <= a < s + 1 && #[trigger] self.accepting@[a] implies handles.contains(
                        a,
                    ) by {
                        if a < s {
                            let k = choose|k: int| 0 <= k < before.len() && before[k] == a;
                            assert(handles[k] == a);
                        }
                    }
                }
            }
        }

        proof {
            let texts = texts_of(states@);
            assert forall|k: int, l: int|
                0 <= k < texts.len() && 0 <= l < texts.len() && k != l implies texts[k]
                != texts[l] by {
                assert(self.state_ids@[self.state_names@[handles[k]]@] == handles[k]);
                assert(self.state_ids@[self.state_names@[handles[l]]@] == handles[l]);
                if k < l {
                    assert(handles[k] < handles[l]);
                } else {
                    assert(handles[l] < handles[k]);
                }
            }
            assert forall|name: Name|
                texts.to_set().contains(name) <==> self@.final_states.contains(name) by {
                if texts.contains(name) {
                    let k = choose|k: int| 0 <= k < texts.len() && texts[k] == name;
                    assert(self.state_ids@[self.state_names@[handles[k]]@] == handles[k]);
                }
                if self@.final_states.contains(name) {
                    let a = self.state_ids@[name] as int;
                    let k = choose|k: int| 0 <= k < handles.len() && handles[k] == a;
                    assert(texts[k] == name);
                }
            }
            assert(texts.to_set() =~= self@.final_states);
        }
        states
    }

    /// Returns the initial state of the state machine.
    pub fn initial_state(&self) -> (state: &str)
        requires
            self.wf(),
        ensures
            state@ == self@.initial_state,
    {
        self.state_names[self.initial].as_str()
    }
}

/// The strings of `names` as string slices.
fn names_as_strs(names: &Vec<String>) -> (strs: Vec<&str>)
    ensures
        texts_of(strs@) == names_of(names@),
{
    let mut strs: Vec<&str> = Vec::new();
    for i in 0..names.len()
        invariant
            strs@.len() == i,
            forall|k: int| 0 <= k < i ==> (#[trigger] strs@[k])@ == names@[k]@,
    {
        strs.push(names[i].as_str());
    }
    proof {
        assert(texts_of(strs@) =~= names_of(names@));
    }
    strs
}

/// Names that `ids` indexes are all different, and they are the names that `ids` knows.
proof fn lemma_indexed_names(names: Seq<String>, ids: Map<Name, usize>)
    requires
        indexes(names, ids),
    ensures
        names_of(names).no_duplicates(),
        names_of(names).to_set() == ids.dom(),
{
    let texts = names_of(names);
    assert forall|i: int, j: int| 0 <= i < texts.len() && 0 <= j < texts.len() && i != j implies texts[i]
        != texts[j] by {
        assert(ids[names[i]@] == i);
        assert(ids[names[j]@] == j);
    }
    assert forall|name: Name| texts.to_set().contains(name) <==> ids.dom().contains(name) by {
        if texts.contains(name) {
            let k = choose|k: int| 0 <= k < texts.len() && texts[k] == name;
            assert(ids.contains_key(names[k]@));
        }
        if ids.contains_key(name) {
            assert(texts[ids[name] as int] == name);
        }
    }
    assert(texts.to_set() =~= ids.dom());
}

/// The first transition with an undeclared name, after transitions without
/// one, gives the error of all the transitions.
proof fn lemma_first_transition_error(description: DescriptionModel, count: nat, index: int)
    requires
        0 <= index < count <= description.transitions.len(),
        description.transitions_error(index as nat) is None,
        description.transition_error(description.transitions[index]) is Some,
    ensures
        description.transitions_error(count) == description.transition_error(
            description.transitions[index],
        ),
    decreases count,
{
    if count - 1 > index {
        lemma_first_transition_error(description, (count - 1) as nat, index);
    }
}

/// The first undeclared final state, after declared ones, gives the error of
/// all the final states.
proof fn lemma_first_final_error(description: DescriptionModel, count: nat, index: int)
    requires
        0 <= index < count <= description.final_states.len(),
        description.final_states_error(index as nat) is None,
        !description.states.contains(description.final_states[index]),
    ensures
        description.final_states_error(count) == Some(
            DeserErrorModel::InvalidState(description.final_states[index]),
        ),
    decreases count,
{
    if count - 1 > index {
        lemma_first_final_error(description, (count - 1) as nat, index);
    }
}

} // verus!
