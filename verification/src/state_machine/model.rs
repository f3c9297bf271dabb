use vstd::prelude::*;

verus! {

/// A name of a state or of a symbol, by its characters.
pub type Name = Seq<char>;

/// What a state machine stands for: its states, its alphabet, where each
/// state goes on each symbol, the state it starts in and the states it
/// accepts in.
pub struct MachineModel {
    pub states: Set<Name>,
    pub alphabet: Set<Name>,
    pub transitions: Map<(Name, Name), Name>,
    pub initial_state: Name,
    pub final_states: Set<Name>,
}

impl MachineModel {
    /// Every state that the machine starts in, accepts in or moves between is
    /// one of its states, and every symbol that it moves on is in its alphabet.
    pub open spec fn wf(self) -> bool {
        &&& self.states.contains(self.initial_state)
        &&& self.final_states.subset_of(self.states)
        &&& forall|key: (Name, Name)| #[trigger]
            self.transitions.contains_key(key) ==> self.states.contains(key.0)
                && self.alphabet.contains(key.1) && self.states.contains(self.transitions[key])
    }

    /// The state that follows `state` on `symbol`, if the machine has a
    /// transition for the two.
    pub open spec fn step(self, state: Name, symbol: Name) -> Option<Name> {
        if self.transitions.contains_key((state, symbol)) {
            Some(self.transitions[(state, symbol)])
        } else {
            None
        }
    }

    /// The state that the machine is in after it has read `input` from
    /// `state` on, or nothing where it met a symbol without a transition.
    pub open spec fn run(self, state: Name, input: Seq<Name>) -> Option<Name>
        decreases input.len(),
    {
        if input.len() == 0 {
            Some(state)
        } else {
            match self.step(state, input.first()) {
                Some(next) => self.run(next, input.drop_first()),
                None => None,
            }
        }
    }

    /// Whether the machine, started in its initial state, reads all of
    /// `input` and ends in a final state.
    pub open spec fn accepts(self, input: Seq<Name>) -> bool {
        match self.run(self.initial_state, input) {
            Some(state) => self.final_states.contains(state),
            None => false,
        }
    }

    /// The machine's transitions as triples of source state, symbol and
    /// destination state.
    pub open spec fn triples(self) -> Set<(Name, Name, Name)> {
        Set::new(
            |triple: (Name, Name, Name)|
                self.transitions.contains_key((triple.0, triple.1)) && self.transitions[(
                    triple.0,
                    triple.1,
                )] == triple.2,
        )
    }
}

/// What a transition of a description stands for.
pub struct TransitionModel {
    pub src_state: Name,
    pub symbol: Name,
    pub dst_state: Name,
}

/// Why a description is no state machine: the name that it uses and does not declare.
pub enum DeserErrorModel {
    InvalidState(Name),
    InvalidSymbol(Name),
}

/// What a description of a state machine stands for: the names as they are
/// listed.
pub struct DescriptionModel {
    pub states: Seq<Name>,
    pub alphabet: Seq<Name>,
    pub transitions: Seq<TransitionModel>,
    pub initial_state: Name,
    pub final_states: Seq<Name>,
}

impl DescriptionModel {
    /// The first name that `transition` uses and the description does not
    /// declare: its source state, then its symbol, then its destination state.
    pub open spec fn transition_error(self, transition: TransitionModel) -> Option<
        DeserErrorModel,
    > {
        if !self.states.contains(transition.src_state) {
            Some(DeserErrorModel::InvalidState(transition.src_state))
        } else if !self.alphabet.contains(transition.symbol) {
            Some(DeserErrorModel::InvalidSymbol(transition.symbol))
        } else if !self.states.contains(transition.dst_state) {
            Some(DeserErrorModel::InvalidState(transition.dst_state))
        } else {
            None
        }
    }

    /// The first undeclared name among the first `count` transitions.
    pub open spec fn transitions_error(self, count: nat) -> Option<DeserErrorModel>
        decreases count,
    {
        if count == 0 {
            None
        } else {
            match self.transitions_error((count - 1) as nat) {
                Some(error) => Some(error),
                None => self.transition_error(self.transitions[count - 1]),
            }
        }
    }

    /// The first undeclared state among the first `count` final states.
    pub open spec fn final_states_error(self, count: nat) -> Option<DeserErrorModel>
        decreases count,
    {
        if count == 0 {
            None
        } else {
            match self.final_states_error((count - 1) as nat) {
                Some(error) => Some(error),
                None => if self.states.contains(self.final_states[count - 1]) {
                    None
                } else {
                    Some(DeserErrorModel::InvalidState(self.final_states[count - 1]))
                },
            }
        }
    }

    /// The first undeclared name that the description uses: in its
    /// transitions in their order, then as its initial state, then in its
    /// final states in their order.
    pub open spec fn first_error(self) -> Option<DeserErrorModel> {
        match self.transitions_error(self.transitions.len()) {
            Some(error) => Some(error),
            None => if !self.states.contains(self.initial_state) {
                Some(DeserErrorModel::InvalidState(self.initial_state))
            } else {
                self.final_states_error(self.final_states.len())
            },
        }
    }

    /// Where the first `count` transitions lead: of two transitions from one
    /// state on one symbol, the later one counts.
    pub open spec fn transition_map(self, count: nat) -> Map<(Name, Name), Name>
        decreases count,
    {
        if count == 0 {
            Map::empty()
        } else {
            let last = self.transitions[count - 1];
            self.transition_map((count - 1) as nat).insert(
                (last.src_state, last.symbol),
                last.dst_state,
            )
        }
    }

    /// The state machine that the description describes.
    pub open spec fn machine(self) -> MachineModel {
        MachineModel {
            states: self.states.to_set(),
            alphabet: self.alphabet.to_set(),
            transitions: self.transition_map(self.transitions.len()),
            initial_state: self.initial_state,
            final_states: self.final_states.to_set(),
        }
    }
}

/// A description without an undeclared name describes a machine that is
/// internally consistent.
pub proof fn lemma_valid_description_gives_wf_machine(description: DescriptionModel)
    requires
        description.first_error() is None,
    ensures
        description.machine().wf(),
{
    let machine = description.machine();
    lemma_transitions_resolved(description, description.transitions.len());
    assert forall|name: Name| machine.final_states.contains(name) implies machine.states.contains(
        name,
    ) by {
        let k = choose|k: int|
            0 <= k < description.final_states.len() && description.final_states[k] == name;
        lemma_final_states_resolved(description, description.final_states.len(), k);
    }
}

/// Where the first `count` transitions use no undeclared name, every
/// transition among them joins declared states on a declared symbol.
pub proof fn lemma_transitions_resolved(description: DescriptionModel, count: nat)
    requires
        count <= description.transitions.len(),
        description.transitions_error(count) is None,
    ensures
        forall|key: (Name, Name)| #[trigger]
            description.transition_map(count).contains_key(key) ==> description.states.contains(
                key.0,
            ) && description.alphabet.contains(key.1) && description.states.contains(
                description.transition_map(count)[key],
            ),
    decreases count,
{
    if count > 0 {
        lemma_transitions_resolved(description, (count - 1) as nat);
        let last = description.transitions[count - 1];
        let before = description.transition_map((count - 1) as nat);
        assert(description.transition_error(last) is None);
        assert forall|key: (Name, Name)| #[trigger]
            description.transition_map(count).contains_key(key) implies description.states.contains(
            key.0,
        ) && description.alphabet.contains(key.1) && description.states.contains(
            description.transition_map(count)[key],
        ) by {
            if key != (last.src_state, last.symbol) {
                assert(before.contains_key(key));
            }
        }
    }
}

/// Where the first `count` final states are declared, each of them is.
pub proof fn lemma_final_states_resolved(description: DescriptionModel, count: nat, k: int)
    requires
        count <= description.final_states.len(),
        description.final_states_error(count) is None,
        0 <= k < count,
    ensures
        description.states.contains(description.final_states[k]),
    decreases count,
{
    if k < count - 1 {
        lemma_final_states_resolved(description, (count - 1) as nat, k);
    }
}

/// A machine rejects every input that holds a symbol outside its alphabet.
pub proof fn lemma_undeclared_symbol_rejected(machine: MachineModel, input: Seq<Name>, k: int)
    requires
        machine.wf(),
        0 <= k < input.len(),
        !machine.alphabet.contains(input[k]),
    ensures
        !machine.accepts(input),
{
    lemma_run_stops_at_undeclared(machine, machine.initial_state, input, k);
}

/// A run from any state stops at a symbol outside the alphabet.
pub proof fn lemma_run_stops_at_undeclared(
    machine: MachineModel,
    state: Name,
    input: Seq<Name>,
    k: int,
)
    requires
        machine.wf(),
        0 <= k < input.len(),
        !machine.alphabet.contains(input[k]),
    ensures
        machine.run(state, input) is None,
    decreases input.len(),
{
    if k == 0 {
        assert(!machine.transitions.contains_key((state, input.first())));
    } else {
        match machine.step(state, input.first()) {
            Some(next) => {
                assert(input.drop_first()[k - 1] == input[k]);
                lemma_run_stops_at_undeclared(machine, next, input.drop_first(), k - 1);
            },
            None => {},
        }
    }
}

} // verus!
