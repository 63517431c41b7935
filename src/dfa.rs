use vstd::prelude::*;

use crate::nfa::{eps_closure, move_on, vec_contains, Edge, NondeterministicFiniteAutomaton};

verus! {

broadcast use vstd::seq_lib::group_seq_properties, vstd::set_lib::group_set_properties;

/// The mathematical content of a subset automaton: its start set, the accept states of
/// the underlying nondeterministic automaton, and that automaton's transitions.
pub struct DfaModel {
    pub start: Set<u64>,
    pub accepts: Set<u64>,
    pub trans: Set<Edge>,
}

/// The successor of the state set `states` on byte `c`: the closure of what one
/// transition on `c` reaches.
pub open spec fn dfa_step(trans: Set<Edge>, states: Set<u64>, c: u8) -> Set<u64> {
    eps_closure(trans, move_on(trans, states, c))
}

/// The state set reached from `states` after reading `w`.
pub open spec fn run(trans: Set<Edge>, states: Set<u64>, w: Seq<u8>) -> Set<u64>
    decreases w.len(),
{
    if w.len() == 0 {
        states
    } else {
        dfa_step(trans, run(trans, states, w.drop_last()), w.last())
    }
}

/// A successor state set is fixed by the states that the byte reaches before closing and
/// by the epsilon moves: equal such inputs never close to different sets.
pub proof fn lemma_dfa_step_determined(t1: Set<Edge>, t2: Set<Edge>, s1: Set<u64>, s2: Set<u64>, c: u8)
    requires
        move_on(t1, s1, c) == move_on(t2, s2, c),
        forall|p: u64, q: u64| t1.contains((p, None::<u8>, q)) == t2.contains((p, None::<u8>, q)),
    ensures
        dfa_step(t1, s1, c) == dfa_step(t2, s2, c),
{
    crate::nfa::lemma_closure_depends_on_eps_moves(t1, t2, move_on(t1, s1, c));
}

/// Every state set reached from a closed start set is itself an epsilon closure: no
/// epsilon move leaves it.
pub proof fn lemma_run_stays_closed(trans: Set<Edge>, states: Set<u64>, w: Seq<u8>)
    requires
        crate::nfa::eps_closed(trans, states),
    ensures
        crate::nfa::eps_closed(trans, run(trans, states, w)),
    decreases w.len(),
{
    if w.len() > 0 {
        let before = run(trans, states, w.drop_last());
        crate::nfa::lemma_closure_least(trans, move_on(trans, before, w.last()), Set::empty());
    }
}

/// A state set accepts when it holds an accept state.
pub open spec fn accepting(accepts: Set<u64>, states: Set<u64>) -> bool {
    exists|x: u64| states.contains(x) && accepts.contains(x)
}

/// Whether the automaton accepts `w`.
pub open spec fn dfa_accepts(m: DfaModel, w: Seq<u8>) -> bool {
    accepting(m.accepts, run(m.trans, m.start, w))
}

/// A deterministic automaton whose states are sets of states of a nondeterministic one.
pub struct DeterministicFiniteAutomaton {
    start: Vec<u64>,
    accept: Vec<u64>,
    transition: NondeterministicFiniteAutomaton,
}

impl View for DeterministicFiniteAutomaton {
    type V = DfaModel;

    closed spec fn view(&self) -> DfaModel {
        DfaModel { start: self.start@.to_set(), accepts: self.accept@.to_set(), trans: self.transition@.trans }
    }
}

impl DeterministicFiniteAutomaton {
    pub fn new(start: Vec<u64>, accept: Vec<u64>, transition: NondeterministicFiniteAutomaton) -> (r: Self)
        ensures
            r@ == (DfaModel { start: start@.to_set(), accepts: accept@.to_set(), trans: transition@.trans }),
    {
        DeterministicFiniteAutomaton { start, accept, transition }
    }

    pub fn get_runtime(&self) -> (r: DfaRuntime<'_>)
        ensures
            r.automaton() == self@,
            r.current() == self@.start,
    {
        DfaRuntime::new(self)
    }

    /// The state set that follows `state` on `character`.
    pub fn trans(&self, state: Vec<u64>, character: u8) -> (r: Vec<u64>)
        ensures
            r@.to_set() == dfa_step(self@.trans, state@.to_set(), character),
    {
        let ghost trans = self@.trans;
        let mut ret: Vec<u64> = Vec::new();
        let mut i: usize = 0;
        while i < state.len()
            invariant
                0 <= i <= state.len(),
                trans == self.transition@.trans,
                ret@.to_set() == move_on(trans, state@.subrange(0, i as int).to_set(), character),
            decreases state.len() - i,
        {
            let elem = state[i];
            let ghost before = ret@;
            let ghost prefix = state@.subrange(0, i as int).to_set();
            match self.transition.trans(elem, Some(character)) {
                Ok(set) => {
                    let mut k: usize = 0;
                    while k < set.len()
                        invariant
                            0 <= k <= set.len(),
                            ret@.to_set() == before.to_set() + set@.subrange(0, k as int).to_set(),
                        decreases set.len() - k,
                    {
                        let ghost r0 = ret@;
                        ret.push(set[k]);
                        assert(ret@.to_set() =~= r0.to_set().insert(set[k as int]));
                        assert(set@.subrange(0, k + 1) =~= set@.subrange(0, k as int).push(set[k as int]));
                        assert(ret@.to_set() =~= before.to_set() + set@.subrange(0, k + 1).to_set());
                        k = k + 1;
                    }
                    assert(set@.subrange(0, k as int) =~= set@);
                },
                Err(_) => {},
            }
            assert(state@.subrange(0, i + 1) =~= state@.subrange(0, i as int).push(elem));
            assert(ret@.to_set() =~= move_on(trans, state@.subrange(0, i + 1).to_set(), character)) by {
                assert forall|t: u64| #[trigger] ret@.to_set().contains(t)
                    == move_on(trans, state@.subrange(0, i + 1).to_set(), character).contains(t) by {
                    if move_on(trans, state@.subrange(0, i + 1).to_set(), character).contains(t) {
                        let s = choose|s: u64| state@.subrange(0, i + 1).to_set().contains(s)
                            && #[trigger] trans.contains((s, Some(character), t));
                        if s != elem {
                            assert(prefix.contains(s));
                            assert(move_on(trans, prefix, character).contains(t));
                        } else {
                            assert(crate::nfa::step(trans, elem, Some(character)).contains(t));
                        }
                    }
                    if ret@.to_set().contains(t) && !before.to_set().contains(t) {
                        assert(crate::nfa::step(trans, elem, Some(character)).contains(t));
                        assert(state@.subrange(0, i + 1).to_set().contains(elem));
                    }
                }
            }
            i = i + 1;
        }
        assert(state@.subrange(0, i as int) =~= state@);
        self.transition.epsilon_expnad(ret)
    }
}

/// A cursor that replays a deterministic automaton over input bytes.
pub struct DfaRuntime<'a> {
    dfa: &'a DeterministicFiniteAutomaton,
    cur_state: Vec<u64>,
}

impl<'a> DfaRuntime<'a> {
    /// The automaton being replayed.
    pub closed spec fn automaton(&self) -> DfaModel {
        self.dfa@
    }

    /// The state set the cursor stands on.
    pub closed spec fn current(&self) -> Set<u64> {
        self.cur_state@.to_set()
    }

    pub fn new(dfa: &'a DeterministicFiniteAutomaton) -> (r: Self)
        ensures
            r.automaton() == dfa@,
            r.current() == dfa@.start,
    {
        let cur_state = dfa.start.clone();
        assert(cur_state@ =~= dfa.start@);
        DfaRuntime { dfa, cur_state }
    }

    /// Moves the cursor along the transition on `character`.
    pub fn do_trantision(&mut self, character: u8)
        ensures
            final(self).automaton() == old(self).automaton(),
            final(self).current() == dfa_step(old(self).automaton().trans, old(self).current(), character),
    {
        let cur_state = self.cur_state.clone();
        assert(cur_state@ =~= self.cur_state@);
        self.cur_state = self.dfa.trans(cur_state, character);
    }

    /// Whether the current state set holds an accept state.
    pub fn is_accept_state(&self) -> (r: bool)
        ensures
            r == accepting(self.automaton().accepts, self.current()),
    {
        let mut i: usize = 0;
        while i < self.cur_state.len()
            invariant
                0 <= i <= self.cur_state.len(),
                forall|j: int| 0 <= j < i ==> !self.dfa@.accepts.contains(#[trigger] self.cur_state@[j]),
            decreases self.cur_state.len() - i,
        {
            if vec_contains(&self.dfa.accept, self.cur_state[i]) {
                assert(self.cur_state@.to_set().contains(self.cur_state@[i as int]));
                return true;
            }
            i = i + 1;
        }
        false
    }

    /// Reads all of `input`, then tells whether the state reached accepts.
    pub fn does_accept(&mut self, input: &[u8]) -> (r: bool)
        ensures
            final(self).automaton() == old(self).automaton(),
            final(self).current() == run(old(self).automaton().trans, old(self).current(), input@),
            r == accepting(old(self).automaton().accepts, final(self).current()),
    {
        let ghost trans = self.automaton().trans;
        let ghost first = self.current();
        let mut i: usize = 0;
        while i < input.len()
            invariant
                0 <= i <= input.len(),
                self.automaton() == old(self).automaton(),
                trans == self.automaton().trans,
                first == old(self).current(),
                self.current() == run(trans, first, input@.subrange(0, i as int)),
            decreases input.len() - i,
        {
            self.do_trantision(input[i]);
            assert(input@.subrange(0, i + 1).drop_last() =~= input@.subrange(0, i as int));
            i = i + 1;
        }
        assert(input@.subrange(0, i as int) =~= input@);
        self.is_accept_state()
    }
}

} // verus!
