use vstd::prelude::*;

use crate::dfa::{dfa_accepts, DeterministicFiniteAutomaton, DfaModel};
use crate::lexer::Lexer;
use crate::nfa::eps_closure;
use crate::node::{states_needed, thompson, Node};
use crate::parser::{parse_pattern, Parser};

verus! {

/// The subset automaton of the structural construction of `node`, with the first
/// identifier issued after 1.
pub open spec fn compile(node: Node) -> DfaModel {
    let m = thompson(node, 1);
    DfaModel { start: eps_closure(m.trans, set![m.start]), accepts: m.accepts, trans: m.trans }
}

/// The pattern `b` follows the grammar and its automaton fits the `u64` identifiers.
pub open spec fn compiles(b: Seq<u8>) -> bool {
    &&& parse_pattern(b) is Some
    &&& states_needed(parse_pattern(b)->Some_0) < u64::MAX
}

/// The pattern `b` matches the input `w`.
pub open spec fn pattern_matches(b: Seq<u8>, w: Seq<u8>) -> bool {
    dfa_accepts(compile(parse_pattern(b)->Some_0), w)
}

/// A compiled pattern.
pub struct Regex {
    regex: String,
    dfa: DeterministicFiniteAutomaton,
}

impl Regex {
    /// The bytes of the pattern.
    pub closed spec fn pattern(&self) -> Seq<u8> {
        vstd::utf8::encode_utf8(self.regex@)
    }

    /// The automaton compiled from the pattern.
    pub closed spec fn automaton(&self) -> DfaModel {
        self.dfa@
    }

    /// The automaton is the one that the pattern compiles to.
    pub closed spec fn wf(&self) -> bool {
        &&& compiles(self.pattern())
        &&& self.dfa@ == compile(parse_pattern(self.pattern())->Some_0)
    }

    /// Compiles `regex`; an error where it breaks the grammar.
    pub fn new(regex: String) -> (r: Result<Regex, String>)
        ensures
            match r {
                Ok(x) => x.wf() && x.pattern() == vstd::utf8::encode_utf8(regex@)
                    && x.automaton() == compile(parse_pattern(x.pattern())->Some_0),
                Err(_) => !compiles(vstd::utf8::encode_utf8(regex@)),
            },
            r is Ok <==> compiles(vstd::utf8::encode_utf8(regex@)),
    {
        let regex_copy = regex.clone();
        let lexer = Lexer::new(regex);
        let mut parser = match Parser::new(lexer) {
            Ok(p) => p,
            Err(e) => return Err(e),
        };
        let nfa = match parser.expression() {
            Ok(a) => a,
            Err(e) => return Err(e),
        };
        Ok(Regex { regex: regex_copy, dfa: nfa.nfa2dfa() })
    }

    /// Whether the pattern matches all of `string`.
    pub fn matches(&self, string: String) -> (r: bool)
        requires
            self.wf(),
        ensures
            r == pattern_matches(self.pattern(), vstd::utf8::encode_utf8(string@)),
    {
        let mut runtime = self.dfa.get_runtime();
        runtime.does_accept(string.as_str().as_bytes())
    }
}

/// Matching is a pure function of the pattern and the input: two regexes built from
/// the same pattern hold the same automaton, so every call on the same input gives the
/// same answer.
pub proof fn lemma_matches_pure(a: Regex, b: Regex, w: Seq<u8>)
    requires
        a.wf(),
        b.wf(),
        a.pattern() == b.pattern(),
    ensures
        a.automaton() == b.automaton(),
        dfa_accepts(a.automaton(), w) == pattern_matches(a.pattern(), w),
        pattern_matches(a.pattern(), w) == pattern_matches(b.pattern(), w),
{
}

} // verus!
