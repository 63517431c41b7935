use vstd::prelude::*;

use crate::dfa::{DeterministicFiniteAutomaton, DfaModel};

verus! {

broadcast use vstd::seq_lib::group_seq_properties, vstd::set_lib::group_set_properties;

/// A transition `(from, label, to)`; a label of `None` is an epsilon move.
pub type Edge = (u64, Option<u8>, u64);

/// The mathematical content of an automaton or of a fragment of one.
pub struct NfaModel {
    pub start: u64,
    pub accepts: Set<u64>,
    pub trans: Set<Edge>,
}

/// The states reached from `s` by one transition labelled `c`.
pub open spec fn step(trans: Set<Edge>, s: u64, c: Option<u8>) -> Set<u64> {
    Set::new(|t: u64| trans.contains((s, c, t)))
}

/// The states reached from some state of `states` by one transition on byte `c`.
pub open spec fn move_on(trans: Set<Edge>, states: Set<u64>, c: u8) -> Set<u64> {
    Set::new(|t: u64| exists|s: u64| states.contains(s) && #[trigger] trans.contains((s, Some(c), t)))
}

/// `t` is reached from `src` by at most `n` epsilon moves.
pub open spec fn eps_reach(trans: Set<Edge>, src: Set<u64>, t: u64, n: nat) -> bool
    decreases n,
{
    if n == 0 {
        src.contains(t)
    } else {
        eps_reach(trans, src, t, (n - 1) as nat) || exists|p: u64|
            #[trigger] trans.contains((p, None::<u8>, t)) && eps_reach(trans, src, p, (n - 1) as nat)
    }
}

/// Every state reachable from `src` by epsilon moves, `src` included.
pub open spec fn eps_closure(trans: Set<Edge>, src: Set<u64>) -> Set<u64> {
    Set::new(|t: u64| exists|n: nat| eps_reach(trans, src, t, n))
}

/// No epsilon move leaves `x`.
pub open spec fn eps_closed(trans: Set<Edge>, x: Set<u64>) -> bool {
    forall|p: u64, q: u64| x.contains(p) && #[trigger] trans.contains((p, None::<u8>, q)) ==> x.contains(q)
}

/// Every state of `x` is reached from `src` by epsilon moves.
proof fn lemma_reach_inside_closed(trans: Set<Edge>, src: Set<u64>, x: Set<u64>, t: u64, n: nat)
    requires
        src.subset_of(x),
        eps_closed(trans, x),
        eps_reach(trans, src, t, n),
    ensures
        x.contains(t),
    decreases n,
{
    if n > 0 {
        if eps_reach(trans, src, t, (n - 1) as nat) {
            lemma_reach_inside_closed(trans, src, x, t, (n - 1) as nat);
        } else {
            let p = choose|p: u64|
                #[trigger] trans.contains((p, None::<u8>, t)) && eps_reach(trans, src, p, (n - 1) as nat);
            lemma_reach_inside_closed(trans, src, x, p, (n - 1) as nat);
        }
    }
}

/// The closure of `src` holds `src`, is closed under epsilon moves, and lies inside every
/// closed superset of `src`: it is the least such set.
pub proof fn lemma_closure_least(trans: Set<Edge>, src: Set<u64>, x: Set<u64>)
    ensures
        src.subset_of(eps_closure(trans, src)),
        eps_closed(trans, eps_closure(trans, src)),
        src.subset_of(x) && eps_closed(trans, x) ==> eps_closure(trans, src).subset_of(x),
{
    let c = eps_closure(trans, src);
    assert forall|t: u64| src.contains(t) implies c.contains(t) by {
        assert(eps_reach(trans, src, t, 0));
    }
    assert forall|p: u64, q: u64| c.contains(p) && #[trigger] trans.contains((p, None::<u8>, q)) implies c.contains(q) by {
        let n = choose|n: nat| eps_reach(trans, src, p, n);
        assert(eps_reach(trans, src, q, n + 1));
    }
    if src.subset_of(x) && eps_closed(trans, x) {
        assert forall|t: u64| c.contains(t) implies x.contains(t) by {
            let n = choose|n: nat| eps_reach(trans, src, t, n);
            lemma_reach_inside_closed(trans, src, x, t, n);
        }
    }
}

/// A set equals the closure of `src` when it holds `src`, is closed, and holds only
/// states of that closure.
pub proof fn lemma_closure_unique(trans: Set<Edge>, src: Set<u64>, x: Set<u64>)
    requires
        src.subset_of(x),
        eps_closed(trans, x),
        x.subset_of(eps_closure(trans, src)),
    ensures
        x == eps_closure(trans, src),
{
    lemma_closure_least(trans, src, x);
    assert(x =~= eps_closure(trans, src));
}

/// Closing a set twice gives what closing it once gives.
pub proof fn lemma_closure_idempotent(trans: Set<Edge>, src: Set<u64>)
    ensures
        eps_closure(trans, eps_closure(trans, src)) == eps_closure(trans, src),
{
    let c = eps_closure(trans, src);
    lemma_closure_least(trans, src, c);
    lemma_closure_least(trans, c, c);
    assert(eps_closure(trans, c) =~= c);
}

/// The closure depends on the epsilon moves alone: two transition relations that share
/// their epsilon moves close every set alike.
pub proof fn lemma_closure_depends_on_eps_moves(t1: Set<Edge>, t2: Set<Edge>, src: Set<u64>)
    requires
        forall|p: u64, q: u64| t1.contains((p, None::<u8>, q)) == t2.contains((p, None::<u8>, q)),
    ensures
        eps_closure(t1, src) == eps_closure(t2, src),
{
    lemma_closure_least(t1, src, eps_closure(t2, src));
    lemma_closure_least(t2, src, eps_closure(t1, src));
    assert(eps_closure(t1, src) =~= eps_closure(t2, src));
}

/// Closing a set that no epsilon move leaves gives that set back.
pub proof fn lemma_closure_of_closed(trans: Set<Edge>, x: Set<u64>)
    requires
        eps_closed(trans, x),
    ensures
        eps_closure(trans, x) == x,
{
    lemma_closure_least(trans, x, x);
    assert(eps_closure(trans, x) =~= x);
}

/// Merging two transition relations loses no transition: from every state and on every
/// label, the merged relation leads to the states that either one leads to.
pub proof fn lemma_merge_keeps_transitions(t1: Set<Edge>, t2: Set<Edge>, s: u64, c: Option<u8>)
    ensures
        step(t1 + t2, s, c) == step(t1, s, c) + step(t2, s, c),
{
    assert(step(t1 + t2, s, c) =~= step(t1, s, c) + step(t2, s, c));
}

/// Issues the state identifiers of one compilation.
pub struct Context {
    state_count: u64,
}

impl Context {
    /// The last identifier issued; every identifier issued so far is at most this.
    pub closed spec fn count(&self) -> nat {
        self.state_count as nat
    }

    /// Identifiers start above 1, so each one issued is at least 2.
    #[verifier::type_invariant]
    spec fn started(&self) -> bool {
        self.state_count >= 1
    }

    pub fn new() -> (r: Self)
        ensures
            r.count() == 1,
    {
        Context { state_count: 1 }
    }

    /// Issues an identifier greater than every one issued before.
    pub fn new_state(&mut self) -> (r: u64)
        requires
            old(self).count() < u64::MAX,
        ensures
            r == old(self).count() + 1,
            r >= 2,
            final(self).count() == r,
    {
        proof {
            use_type_invariant(&*self);
        }
        let next = self.state_count + 1;
        *self = Context { state_count: next };
        next
    }
}

/// Whether `x` is in `v`.
pub(crate) fn vec_contains(v: &Vec<u64>, x: u64) -> (r: bool)
    ensures
        r == v@.contains(x),
{
    let mut i: usize = 0;
    while i < v.len()
        invariant
            0 <= i <= v.len(),
            forall|j: int| 0 <= j < i ==> v@[j] != x,
        decreases v.len() - i,
    {
        if v[i] == x {
            return true;
        }
        i = i + 1;
    }
    false
}

fn copy_edges(v: &Vec<Edge>) -> (r: Vec<Edge>)
    ensures
        r@ == v@,
{
    let mut r: Vec<Edge> = Vec::new();
    let mut i: usize = 0;
    while i < v.len()
        invariant
            0 <= i <= v.len(),
            r@ == v@.subrange(0, i as int),
        decreases v.len() - i,
    {
        r.push(v[i]);
        i = i + 1;
        assert(r@ =~= v@.subrange(0, i as int));
    }
    assert(r@ =~= v@);
    r
}

/// A partly built automaton: a start state, accept states and a list of transitions.
#[derive(Debug)]
pub struct NFAFragment {
    pub start: u64,
    pub accepts: Vec<u64>,
    pub map: Vec<Edge>,
}

impl View for NFAFragment {
    type V = NfaModel;

    open spec fn view(&self) -> NfaModel {
        NfaModel { start: self.start, accepts: self.accepts@.to_set(), trans: self.map@.to_set() }
    }
}

impl NFAFragment {
    pub fn new(start: u64, accepts: Vec<u64>) -> (r: Self)
        ensures
            r@ == (NfaModel { start, accepts: accepts@.to_set(), trans: Set::empty() }),
    {
        let r = NFAFragment { start, accepts, map: Vec::new() };
        assert(r.map@.to_set() =~= Set::empty());
        r
    }

    /// Adds the transition `from --character--> to`, keeping all others.
    pub fn connect(&mut self, from: u64, character: Option<u8>, to: u64)
        ensures
            final(self)@ == (NfaModel { trans: old(self)@.trans.insert((from, character, to)), ..old(self)@ }),
    {
        self.map.push((from, character, to));
        assert(self.map@.to_set() =~= old(self).map@.to_set().insert((from, character, to)));
    }

    /// A fragment with this one's transitions, no start chosen and no accept state.
    pub fn new_skelton(&self) -> (r: Self)
        ensures
            r@ == (NfaModel { start: 0, accepts: Set::empty(), trans: self@.trans }),
    {
        let r = NFAFragment { start: 0, accepts: Vec::new(), map: copy_edges(&self.map) };
        assert(r.accepts@.to_set() =~= Set::empty());
        r
    }

    /// A fragment with the transitions of both, no start chosen and no accept state.
    pub fn or(&self, frag: &NFAFragment) -> (r: Self)
        ensures
            r@ == (NfaModel { start: 0, accepts: Set::empty(), trans: self@.trans + frag@.trans }),
    {
        let mut r = self.new_skelton();
        let mut i: usize = 0;
        assert(r@.trans =~= self@.trans + frag.map@.subrange(0, 0).to_set());
        while i < frag.map.len()
            invariant
                0 <= i <= frag.map.len(),
                r@ == (NfaModel { start: 0, accepts: Set::empty(), trans: self@.trans + frag.map@.subrange(0, i as int).to_set() }),
            decreases frag.map.len() - i,
        {
            let e = frag.map[i];
            r.connect(e.0, e.1, e.2);
            assert(frag.map@.subrange(0, i + 1).to_set() =~= frag.map@.subrange(0, i as int).to_set().insert(e)) by {
                assert(frag.map@.subrange(0, i + 1) =~= frag.map@.subrange(0, i as int).push(e));
            }
            assert(r@.trans =~= self@.trans + frag.map@.subrange(0, i + 1).to_set());
            i = i + 1;
        }
        assert(frag.map@.subrange(0, i as int) =~= frag.map@);
        assert(r@.trans =~= self@.trans + frag@.trans);
        r
    }

    pub fn build(self) -> (r: NondeterministicFiniteAutomaton)
        ensures
            r@ == self@,
    {
        NondeterministicFiniteAutomaton::new(self.start, self.accepts, self.map)
    }
}

/// A nondeterministic automaton over bytes with epsilon moves.
pub struct NondeterministicFiniteAutomaton {
    start: u64,
    accept: Vec<u64>,
    transition: Vec<Edge>,
}

impl View for NondeterministicFiniteAutomaton {
    type V = NfaModel;

    closed spec fn view(&self) -> NfaModel {
        NfaModel { start: self.start, accepts: self.accept@.to_set(), trans: self.transition@.to_set() }
    }
}


/// Every state that some transition leads to.
pub open spec fn targets(edges: Seq<Edge>) -> Set<u64> {
    edges.map_values(|e: Edge| e.2).to_set()
}

impl NondeterministicFiniteAutomaton {
    pub fn new(start: u64, accept: Vec<u64>, transition: Vec<Edge>) -> (r: Self)
        ensures
            r@ == (NfaModel { start, accepts: accept@.to_set(), trans: transition@.to_set() }),
    {
        NondeterministicFiniteAutomaton { start, accept, transition }
    }

    /// The accept states, as a list.
    fn accept_states(&self) -> (r: Vec<u64>)
        ensures
            r@.to_set() == self@.accepts,
    {
        self.accept.clone()
    }

    /// The states reached from `state` by one transition labelled `character`;
    /// an error where there are none.
    pub fn trans(&self, state: u64, character: Option<u8>) -> (r: Result<Vec<u64>, String>)
        ensures
            match r {
                Ok(v) => v@.to_set() == step(self@.trans, state, character) && v@.len() > 0,
                Err(_) => step(self@.trans, state, character) == Set::<u64>::empty(),
            },
    {
        let mut out: Vec<u64> = Vec::new();
        let mut i: usize = 0;
        while i < self.transition.len()
            invariant
                0 <= i <= self.transition.len(),
                forall|t: u64| out@.contains(t) <==> exists|j: int|
                    0 <= j < i && #[trigger] self.transition@[j] == (state, character, t),
            decreases self.transition.len() - i,
        {
            let e = self.transition[i];
            let ghost before = out@;
            if e.0 == state && e.1 == character {
                out.push(e.2);
            }
            assert forall|t: u64| out@.contains(t) <==> exists|j: int|
                0 <= j < i + 1 && #[trigger] self.transition@[j] == (state, character, t) by {
                if out@.contains(t) && !before.contains(t) {
                    assert(self.transition@[i as int] == (state, character, t));
                }
                if exists|j: int| 0 <= j < i + 1 && #[trigger] self.transition@[j] == (state, character, t) {
                    let j = choose|j: int| 0 <= j < i + 1 && #[trigger] self.transition@[j] == (state, character, t);
                    if j == i {
                        assert(out@.last() == t);
                    } else {
                        assert(before.contains(t));
                    }
                }
            }
            i = i + 1;
        }
        assert forall|t: u64| out@.to_set().contains(t) == step(self@.trans, state, character).contains(t) by {
            if step(self@.trans, state, character).contains(t) {
                let j = choose|j: int| 0 <= j < self.transition@.len() && self.transition@[j] == (state, character, t);
            }
        }
        assert(out@.to_set() =~= step(self@.trans, state, character));
        if out.len() == 0 {
            assert(step(self@.trans, state, character) =~= Set::<u64>::empty());
            Err("Can't transition".to_string())
        } else {
            Ok(out)
        }
    }

    /// The epsilon closure of the states in `set`, each listed once. The states are
    /// taken up one by one from a work list; a state already taken up is skipped, so
    /// the loop ends also where epsilon moves form cycles.
    pub fn epsilon_expnad(&self, set: Vec<u64>) -> (r: Vec<u64>)
        ensures
            r@.to_set() == eps_closure(self@.trans, set@.to_set()),
            r@.no_duplicates(),
    {
        let ghost trans = self@.trans;
        let ghost src = set@.to_set();
        let ghost univ = src + targets(self.transition@);
        let ghost clo = eps_closure(trans, src);
        proof {
            lemma_closure_least(trans, src, src);
        }
        let mut que = set;
        let mut done: Vec<u64> = Vec::new();
        while que.len() > 0
            invariant
                univ.finite(),
                trans == self.transition@.to_set(),
                univ == src + targets(self.transition@),
                clo == eps_closure(trans, src),
                eps_closed(trans, clo),
                done@.no_duplicates(),
                done@.len() <= univ.len(),
                forall|x: u64| done@.contains(x) ==> clo.contains(x) && univ.contains(x),
                forall|x: u64| que@.contains(x) ==> clo.contains(x) && univ.contains(x),
                forall|x: u64| src.contains(x) ==> done@.contains(x) || que@.contains(x),
                forall|p: u64, q: u64|
                    done@.contains(p) && #[trigger] trans.contains((p, None::<u8>, q)) ==> done@.contains(q) || que@.contains(q),
            decreases univ.len() - done@.len(), que@.len(),
        {
            let s = que.pop().unwrap();
            if !vec_contains(&done, s) {
                done.push(s);
                proof {
                    vstd::set_lib::lemma_len_subset(done@.to_set(), univ);
                    done@.unique_seq_to_set();
                }
                match self.trans(s, None) {
                    Ok(nexts) => {
                        let mut k: usize = 0;
                        while k < nexts.len()
                            invariant
                                0 <= k <= nexts.len(),
                                nexts@.to_set() == step(trans, s, None),
                                trans == self.transition@.to_set(),
                                clo == eps_closure(trans, src),
                                univ == src + targets(self.transition@),
                                eps_closed(trans, clo),
                                done@.contains(s),
                                forall|x: u64| done@.contains(x) ==> clo.contains(x) && univ.contains(x),
                                forall|x: u64| que@.contains(x) ==> clo.contains(x) && univ.contains(x),
                                forall|x: u64| src.contains(x) ==> done@.contains(x) || que@.contains(x),
                                forall|p: u64, q: u64|
                                    done@.contains(p) && p != s && #[trigger] trans.contains((p, None::<u8>, q))
                                        ==> done@.contains(q) || que@.contains(q),
                                forall|j: int| 0 <= j < k ==> done@.contains(#[trigger] nexts@[j]) || que@.contains(nexts@[j]),
                            decreases nexts.len() - k,
                        {
                            let t = nexts[k];
                            assert(nexts@.to_set().contains(t));
                            assert(trans.contains((s, None::<u8>, t)));
                            assert(clo.contains(s));
                            assert(clo.contains(t));
                            if !vec_contains(&done, t) {
                                proof {
                                    let j = choose|j: int| 0 <= j < self.transition@.len() && self.transition@[j] == (s, None::<u8>, t);
                                    assert(self.transition@.map_values(|e: Edge| e.2)[j] == t);
                                }
                                que.push(t);
                            }
                            k = k + 1;
                        }
                        assert forall|q: u64| #[trigger] trans.contains((s, None::<u8>, q)) implies done@.contains(q) || que@.contains(q) by {
                            assert(step(trans, s, None).contains(q));
                            assert(nexts@.to_set().contains(q));
                        }
                    },
                    Err(_) => {
                        assert forall|q: u64| !#[trigger] trans.contains((s, None::<u8>, q)) by {
                            assert(!step(trans, s, None).contains(q));
                        }
                    },
                }
            }
        }
        proof {
            assert(src.subset_of(done@.to_set()));
            assert(eps_closed(trans, done@.to_set()));
            lemma_closure_unique(trans, src, done@.to_set());
        }
        done
    }

    /// The subset automaton: it starts from the closure of the start state, keeps the
    /// accept states, and moves on the transitions of this automaton.
    pub fn nfa2dfa(self) -> (r: DeterministicFiniteAutomaton)
        ensures
            r@ == (DfaModel {
                start: eps_closure(self@.trans, set![self@.start]),
                accepts: self@.accepts,
                trans: self@.trans,
            }),
    {
        let mut first: Vec<u64> = Vec::new();
        first.push(self.start);
        assert(first@.to_set() =~= set![self@.start]);
        let expand_start_from_start = self.epsilon_expnad(first);
        let accept_copy = self.accept_states();
        DeterministicFiniteAutomaton::new(expand_start_from_start, accept_copy, self)
    }
}

} // verus!
