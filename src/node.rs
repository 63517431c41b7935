use vstd::prelude::*;

use crate::nfa::{Context, Edge, NFAFragment, NfaModel};

verus! {

broadcast use vstd::seq_lib::group_seq_properties, vstd::set_lib::group_set_properties;

/// A parsed pattern. Each node owns its operands.
#[derive(Debug, PartialEq, Eq)]
pub enum Node {
    Character { character: u8 },
    Union { operand1: Box<Node>, operand2: Box<Node> },
    Concat { operand1: Box<Node>, operand2: Box<Node> },
    Star { operand: Box<Node> },
    /// The empty pattern, which matches the empty input only.
    Epsilon,
}

/// How many states the construction of `node` allocates.
pub open spec fn states_needed(node: Node) -> nat
    decreases node,
{
    match node {
        Node::Character { .. } => 2,
        Node::Union { operand1, operand2 } => states_needed(*operand1) + states_needed(*operand2) + 1,
        Node::Concat { operand1, operand2 } => states_needed(*operand1) + states_needed(*operand2),
        Node::Star { operand } => states_needed(*operand) + 1,
        Node::Epsilon => 1,
    }
}

/// An epsilon move from each state of `from` to `to`.
pub open spec fn links(from: Set<u64>, to: u64) -> Set<Edge> {
    Set::new(|e: Edge| from.contains(e.0) && e.1 == None::<u8> && e.2 == to)
}

/// The fragment that the structural construction builds for `node` when the last
/// identifier issued before it is `c`.
pub open spec fn thompson(node: Node, c: nat) -> NfaModel
    decreases node,
{
    match node {
        Node::Character { character } => {
            let s1 = (c + 1) as u64;
            let s2 = (c + 2) as u64;
            NfaModel { start: s1, accepts: set![s2], trans: set![(s1, Some(character), s2)] }
        },
        Node::Union { operand1, operand2 } => {
            let f1 = thompson(*operand1, c);
            let c1 = c + states_needed(*operand1);
            let f2 = thompson(*operand2, c1);
            let s = (c1 + states_needed(*operand2) + 1) as u64;
            NfaModel {
                start: s,
                accepts: f1.accepts + f2.accepts,
                trans: f1.trans + f2.trans + set![(s, None, f1.start), (s, None, f2.start)],
            }
        },
        Node::Concat { operand1, operand2 } => {
            let f1 = thompson(*operand1, c);
            let f2 = thompson(*operand2, c + states_needed(*operand1));
            NfaModel {
                start: f1.start,
                accepts: f2.accepts,
                trans: f1.trans + f2.trans + links(f1.accepts, f2.start),
            }
        },
        Node::Star { operand } => {
            let f = thompson(*operand, c);
            let s = (c + states_needed(*operand) + 1) as u64;
            NfaModel {
                start: s,
                accepts: f.accepts.insert(s),
                trans: f.trans + links(f.accepts, f.start) + set![(s, None, f.start)],
            }
        },
        Node::Epsilon => {
            let s = (c + 1) as u64;
            NfaModel { start: s, accepts: set![s], trans: Set::empty() }
        },
    }
}

/// Every state named by `m` lies in `(lo, hi]`.
pub open spec fn ids_within(m: NfaModel, lo: nat, hi: nat) -> bool {
    &&& lo < m.start <= hi
    &&& forall|a: u64| #[trigger] m.accepts.contains(a) ==> lo < a <= hi
    &&& forall|e: Edge| #[trigger] m.trans.contains(e) ==> lo < e.0 <= hi && lo < e.2 <= hi
}

/// The construction names only the identifiers it allocates, those after `c`.
pub proof fn lemma_thompson_ids(node: Node, c: nat)
    requires
        c + states_needed(node) <= u64::MAX,
    ensures
        ids_within(thompson(node, c), c, c + states_needed(node)),
    decreases node,
{
    match node {
        Node::Union { operand1, operand2 } => {
            lemma_thompson_ids(*operand1, c);
            lemma_thompson_ids(*operand2, c + states_needed(*operand1));
        },
        Node::Concat { operand1, operand2 } => {
            lemma_thompson_ids(*operand1, c);
            lemma_thompson_ids(*operand2, c + states_needed(*operand1));
        },
        Node::Star { operand } => {
            lemma_thompson_ids(*operand, c);
        },
        _ => {},
    }
}

/// Fragments assembled one after the other with one allocator share no state: every
/// state of the first is smaller than every state of the second.
pub proof fn lemma_fragments_disjoint(n1: Node, n2: Node, c: nat)
    requires
        c + states_needed(n1) + states_needed(n2) <= u64::MAX,
    ensures
        ids_within(thompson(n1, c), c, c + states_needed(n1)),
        ids_within(thompson(n2, c + states_needed(n1)), c + states_needed(n1), c + states_needed(n1) + states_needed(n2)),
{
    lemma_thompson_ids(n1, c);
    lemma_thompson_ids(n2, c + states_needed(n1));
}

/// The union of two operands: its start is one fresh state above every state of both
/// operand fragments, its accept states are those of both, and its transitions are those
/// of both, none dropped, plus an epsilon move from the new start to each operand's start.
pub proof fn lemma_union_wiring(l: Node, r: Node, c: nat)
    requires
        c + states_needed(l) + states_needed(r) + 1 <= u64::MAX,
    ensures
        ({
            let fl = thompson(l, c);
            let c1 = c + states_needed(l);
            let fr = thompson(r, c1);
            let c2 = c1 + states_needed(r);
            let u = thompson(Node::Union { operand1: Box::new(l), operand2: Box::new(r) }, c);
            &&& ids_within(fl, c, c1)
            &&& ids_within(fr, c1, c2)
            &&& u.start == c2 + 1
            &&& u.accepts == fl.accepts + fr.accepts
            &&& u.trans == fl.trans + fr.trans + set![(u.start, None, fl.start), (u.start, None, fr.start)]
            &&& fl.trans.subset_of(u.trans)
            &&& fr.trans.subset_of(u.trans)
        }),
{
    lemma_thompson_ids(l, c);
    lemma_thompson_ids(r, c + states_needed(l));
}

/// Adds an epsilon move from each state of `from` to `to`.
fn link_all(frag: &mut NFAFragment, from: &Vec<u64>, to: u64)
    ensures
        final(frag)@ == (NfaModel { trans: old(frag)@.trans + links(from@.to_set(), to), ..old(frag)@ }),
{
    let mut i: usize = 0;
    assert(old(frag)@.trans + links(from@.subrange(0, 0).to_set(), to) =~= old(frag)@.trans);
    while i < from.len()
        invariant
            0 <= i <= from.len(),
            frag@ == (NfaModel { trans: old(frag)@.trans + links(from@.subrange(0, i as int).to_set(), to), ..old(frag)@ }),
        decreases from.len() - i,
    {
        frag.connect(from[i], None, to);
        assert(from@.subrange(0, i + 1) =~= from@.subrange(0, i as int).push(from[i as int]));
        assert(frag@.trans =~= old(frag)@.trans + links(from@.subrange(0, i + 1).to_set(), to));
        i = i + 1;
    }
    assert(from@.subrange(0, i as int) =~= from@);
}

impl Node {
    pub fn character(character: u8) -> (r: Self)
        ensures
            r == (Node::Character { character }),
    {
        Node::Character { character }
    }

    pub fn union(operand1: Node, operand2: Node) -> (r: Self)
        ensures
            r == (Node::Union { operand1: Box::new(operand1), operand2: Box::new(operand2) }),
    {
        Node::Union { operand1: Box::new(operand1), operand2: Box::new(operand2) }
    }

    pub fn concat(operand1: Node, operand2: Node) -> (r: Self)
        ensures
            r == (Node::Concat { operand1: Box::new(operand1), operand2: Box::new(operand2) }),
    {
        Node::Concat { operand1: Box::new(operand1), operand2: Box::new(operand2) }
    }

    pub fn star(operand: Node) -> (r: Self)
        ensures
            r == (Node::Star { operand: Box::new(operand) }),
    {
        Node::Star { operand: Box::new(operand) }
    }

    /// How many states `assemble` allocates for this node; `None` where that count
    /// does not fit in a `u64`.
    pub fn state_count(&self) -> (r: Option<u64>)
        ensures
            match r {
                Some(n) => n == states_needed(*self),
                None => states_needed(*self) > u64::MAX,
            },
        decreases self,
    {
        match self {
            Node::Character { .. } => Some(2),
            Node::Union { operand1, operand2 } => {
                match (operand1.state_count(), operand2.state_count()) {
                    (Some(a), Some(b)) => match a.checked_add(b) {
                        Some(ab) => ab.checked_add(1),
                        None => None,
                    },
                    _ => None,
                }
            },
            Node::Concat { operand1, operand2 } => {
                match (operand1.state_count(), operand2.state_count()) {
                    (Some(a), Some(b)) => a.checked_add(b),
                    _ => None,
                }
            },
            Node::Star { operand } => match operand.state_count() {
                Some(a) => a.checked_add(1),
                None => None,
            },
            Node::Epsilon => Some(1),
        }
    }

    /// Builds the fragment of this node, drawing fresh states from `context`.
    pub fn assemble(self, context: &mut Context) -> (r: NFAFragment)
        requires
            old(context).count() + states_needed(self) <= u64::MAX,
        ensures
            r@ == thompson(self, old(context).count()),
            final(context).count() == old(context).count() + states_needed(self),
        decreases self,
    {
        match self {
            Node::Character { character } => {
                let s1 = context.new_state();
                let s2 = context.new_state();
                let mut accepts: Vec<u64> = Vec::new();
                accepts.push(s2);
                let mut frag = NFAFragment::new(s1, accepts);
                frag.connect(s1, Some(character), s2);
                assert(frag@.accepts =~= set![s2]);
                assert(frag@.trans =~= set![(s1, Some(character), s2)]);
                frag
            },
            Node::Union { operand1, operand2 } => {
                let frag1 = operand1.assemble(context);
                let frag2 = operand2.assemble(context);
                let mut frag = frag1.or(&frag2);
                let start = context.new_state();
                frag.connect(start, None, frag1.start);
                frag.connect(start, None, frag2.start);
                frag.start = start;
                let mut accepts = frag1.accepts;
                let mut more = frag2.accepts;
                accepts.append(&mut more);
                frag.accepts = accepts;
                assert(frag@.accepts =~= frag1@.accepts + frag2@.accepts);
                assert(frag@.trans =~= frag1@.trans + frag2@.trans + set![(start, None, frag1@.start), (start, None, frag2@.start)]);
                frag
            },
            Node::Concat { operand1, operand2 } => {
                let frag1 = operand1.assemble(context);
                let frag2 = operand2.assemble(context);
                let mut frag = frag1.or(&frag2);
                link_all(&mut frag, &frag1.accepts, frag2.start);
                frag.start = frag1.start;
                frag.accepts = frag2.accepts;
                frag
            },
            Node::Star { operand } => {
                let frag_orig = operand.assemble(context);
                let mut frag = frag_orig.new_skelton();
                let start = context.new_state();
                frag.start = start;
                link_all(&mut frag, &frag_orig.accepts, frag_orig.start);
                frag.connect(start, None, frag_orig.start);
                let mut accepts = frag_orig.accepts;
                accepts.push(start);
                frag.accepts = accepts;
                assert(frag@.accepts =~= frag_orig@.accepts.insert(start));
                assert(frag@.trans =~= frag_orig@.trans + links(frag_orig@.accepts, frag_orig@.start)
                    + set![(start, None, frag_orig@.start)]);
                frag
            },
            Node::Epsilon => {
                let s = context.new_state();
                let mut accepts: Vec<u64> = Vec::new();
                accepts.push(s);
                let frag = NFAFragment::new(s, accepts);
                assert(frag@.accepts =~= set![s]);
                frag
            },
        }
    }
}

} // verus!
