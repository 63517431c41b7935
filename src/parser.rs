use vstd::prelude::*;

use crate::lexer::{scan_at, Lexer, Token, TokenKind};
use crate::nfa::{Context, NondeterministicFiniteAutomaton};
use crate::node::{states_needed, thompson, Node};

verus! {

// The grammar, one token of lookahead:
//   expression = subexpr EOF
//   subexpr    = seq ('|' subexpr)?
//   seq        = subseq | (empty, where no '(' or literal comes next)
//   subseq     = star subseq?
//   star       = factor '*'?
//   factor     = '(' subexpr ')' | literal
// The empty alternative of `seq` is allowed wherever `seq` stands: as the whole pattern,
// as an arm of `|`, and between parentheses; it reads as `Node::Epsilon`.
// A rule below stands at position `p` of the pattern `b`, where its lookahead token
// starts, and gives the node it read and the position of the token after it.

/// The token at `p`.
pub open spec fn look(b: Seq<u8>, p: int) -> Token {
    scan_at(b, p)->Some_0.0
}

/// Where the token after the one at `p` starts.
pub open spec fn after(b: Seq<u8>, p: int) -> int {
    scan_at(b, p)->Some_0.1
}

/// Consumes the token at `p` if it is of kind `k` and the token after it can be read.
pub open spec fn eat(b: Seq<u8>, p: int, k: TokenKind) -> Option<int> {
    if scan_at(b, p) is Some && look(b, p).kind == k && scan_at(b, after(b, p)) is Some {
        Some(after(b, p))
    } else {
        None
    }
}

/// A token other than the end of input lies inside the pattern and moves the position
/// forward.
pub proof fn lemma_advance(b: Seq<u8>, p: int)
    ensures
        scan_at(b, p) is Some && look(b, p).kind != TokenKind::EOF ==> p < after(b, p) <= b.len(),
{
}

/// A token that can start an operand.
pub open spec fn starts_operand(k: TokenKind) -> bool {
    k == TokenKind::LPAREN || k == TokenKind::CHACTER
}

pub open spec fn parse_factor(b: Seq<u8>, p: int) -> Option<(Node, int)>
    decreases b.len() - p, 0int,
{
    if look(b, p).kind == TokenKind::LPAREN {
        proof {
            lemma_advance(b, p);
        }
        match eat(b, p, TokenKind::LPAREN) {
            Some(q) => match parse_subexpr(b, q) {
                Some((n, r)) => match eat(b, r, TokenKind::RPAREN) {
                    Some(s) => Some((n, s)),
                    None => None,
                },
                None => None,
            },
            None => None,
        }
    } else {
        match eat(b, p, TokenKind::CHACTER) {
            Some(q) => Some((Node::Character { character: look(b, p).value }, q)),
            None => None,
        }
    }
}

pub open spec fn parse_star(b: Seq<u8>, p: int) -> Option<(Node, int)>
    decreases b.len() - p, 1int,
{
    match parse_factor(b, p) {
        Some((n, q)) => if look(b, q).kind == TokenKind::OPE_STAR {
            match eat(b, q, TokenKind::OPE_STAR) {
                Some(r) => Some((Node::Star { operand: Box::new(n) }, r)),
                None => None,
            }
        } else {
            Some((n, q))
        },
        None => None,
    }
}

/// Every operand read moves the position forward, which the condition `p < q` records.
pub open spec fn parse_subseq(b: Seq<u8>, p: int) -> Option<(Node, int)>
    decreases b.len() - p, 2int,
{
    match parse_star(b, p) {
        Some((n1, q)) => if starts_operand(look(b, q).kind) && p < q {
            match parse_subseq(b, q) {
                Some((n2, r)) => Some((Node::Concat { operand1: Box::new(n1), operand2: Box::new(n2) }, r)),
                None => None,
            }
        } else {
            Some((n1, q))
        },
        None => None,
    }
}

pub open spec fn parse_seq(b: Seq<u8>, p: int) -> Option<(Node, int)>
    decreases b.len() - p, 3int,
{
    if starts_operand(look(b, p).kind) {
        parse_subseq(b, p)
    } else {
        Some((Node::Epsilon, p))
    }
}

/// A rule never moves the position back, which the condition `p <= q` records.
pub open spec fn parse_subexpr(b: Seq<u8>, p: int) -> Option<(Node, int)>
    decreases b.len() - p, 4int,
{
    match parse_seq(b, p) {
        Some((n1, q)) => if look(b, q).kind == TokenKind::OPE_UNION && p <= q {
            proof {
                lemma_advance(b, q);
            }
            match eat(b, q, TokenKind::OPE_UNION) {
                Some(r) => match parse_subexpr(b, r) {
                    Some((n2, s)) => Some((Node::Union { operand1: Box::new(n1), operand2: Box::new(n2) }, s)),
                    None => None,
                },
                None => None,
            }
        } else {
            Some((n1, q))
        },
        None => None,
    }
}

/// A whole expression from `p` up to the end of input.
pub open spec fn parse_expression(b: Seq<u8>, p: int) -> Option<Node> {
    match parse_subexpr(b, p) {
        Some((n, q)) => match eat(b, q, TokenKind::EOF) {
            Some(_) => Some(n),
            None => None,
        },
        None => None,
    }
}

/// The tree of the pattern `b`; `None` where `b` does not follow the grammar.
pub open spec fn parse_pattern(b: Seq<u8>) -> Option<Node> {
    if scan_at(b, 0) is Some {
        parse_expression(b, 0)
    } else {
        None
    }
}

/// A recursive-descent parser holding one token of lookahead.
pub struct Parser {
    lexer: Lexer,
    look: Token,
    look_at: Ghost<int>,
}

impl Parser {
    /// The bytes of the pattern.
    pub closed spec fn input(&self) -> Seq<u8> {
        self.lexer.input()
    }

    /// Where the lookahead token starts.
    pub closed spec fn at(&self) -> int {
        self.look_at@
    }

    /// The lookahead token is the one that starts at `at`, and the lexer stands after it.
    pub closed spec fn wf(&self) -> bool {
        &&& self.look_at@ <= self.lexer.input().len()
        &&& self.lexer.position() <= self.lexer.input().len()
        &&& scan_at(self.lexer.input(), self.look_at@) == Some((self.look, self.lexer.position()))
    }

    /// Reads the first token; an error where it cannot be read.
    pub fn new(lexer: Lexer) -> (r: Result<Self, String>)
        requires
            lexer.position() <= lexer.input().len(),
        ensures
            r is Ok <==> scan_at(lexer.input(), lexer.position()) is Some,
            r matches Ok(p) ==> p.wf() && p.input() == lexer.input() && p.at() == lexer.position(),
    {
        let ghost at = lexer.position();
        let mut lexer = lexer;
        match lexer.scan() {
            Ok(look) => Ok(Parser { lexer, look, look_at: Ghost(at) }),
            Err(e) => Err(e),
        }
    }

    /// Consumes the lookahead token if it is of kind `tag`.
    pub fn match_parse(&mut self, tag: TokenKind) -> (r: Result<(), String>)
        requires
            old(self).wf(),
        ensures
            final(self).input() == old(self).input(),
            match eat(old(self).input(), old(self).at(), tag) {
                Some(q) => r is Ok && final(self).wf() && final(self).at() == q,
                None => r is Err,
            },
            look(old(self).input(), old(self).at()).kind != tag ==> *final(self) == *old(self),
    {
        if self.look.kind != tag {
            return Err("syntax error".to_string());
        }
        self.move_parser()
    }

    /// Reads the next token into the lookahead.
    pub fn move_parser(&mut self) -> (r: Result<(), String>)
        requires
            old(self).wf(),
        ensures
            final(self).input() == old(self).input(),
            match scan_at(old(self).input(), after(old(self).input(), old(self).at())) {
                Some(_) => r is Ok && final(self).wf() && final(self).at() == after(old(self).input(), old(self).at()),
                None => r is Err,
            },
    {
        let ghost next = self.lexer.position();
        match self.lexer.scan() {
            Ok(t) => {
                self.look = t;
                self.look_at = Ghost(next);
                Ok(())
            },
            Err(e) => Err(e),
        }
    }

    fn factor(&mut self) -> (r: Result<Node, String>)
        requires
            old(self).wf(),
        ensures
            final(self).input() == old(self).input(),
            match parse_factor(old(self).input(), old(self).at()) {
                Some((n, q)) => r == Ok::<Node, String>(n) && final(self).wf() && final(self).at() == q
                    && old(self).at() < q,
                None => r is Err,
            },
            !starts_operand(look(old(self).input(), old(self).at()).kind) ==> r is Err && *final(self) == *old(self),
        decreases old(self).input().len() - old(self).at(), 0int,
    {
        let ghost b = self.input();
        let ghost p = self.at();
        proof {
            lemma_advance(b, p);
        }
        if self.look.kind == TokenKind::LPAREN {
            if let Err(e) = self.match_parse(TokenKind::LPAREN) {
                return Err(e);
            }
            let node = match self.subexpr() {
                Ok(n) => n,
                Err(e) => return Err(e),
            };
            proof {
                lemma_advance(b, self.at());
            }
            if let Err(e) = self.match_parse(TokenKind::RPAREN) {
                return Err(e);
            }
            Ok(node)
        } else {
            let node = Node::character(self.look.value);
            if let Err(e) = self.match_parse(TokenKind::CHACTER) {
                return Err(e);
            }
            Ok(node)
        }
    }

    fn star(&mut self) -> (r: Result<Node, String>)
        requires
            old(self).wf(),
        ensures
            final(self).input() == old(self).input(),
            match parse_star(old(self).input(), old(self).at()) {
                Some((n, q)) => r == Ok::<Node, String>(n) && final(self).wf() && final(self).at() == q
                    && old(self).at() < q,
                None => r is Err,
            },
            !starts_operand(look(old(self).input(), old(self).at()).kind) ==> r is Err && *final(self) == *old(self),
        decreases old(self).input().len() - old(self).at(), 1int,
    {
        let ghost b = self.input();
        let node = match self.factor() {
            Ok(n) => n,
            Err(e) => return Err(e),
        };
        if self.look.kind == TokenKind::OPE_STAR {
            proof {
                lemma_advance(b, self.at());
            }
            if let Err(e) = self.match_parse(TokenKind::OPE_STAR) {
                return Err(e);
            }
            return Ok(Node::star(node));
        }
        Ok(node)
    }

    fn seq(&mut self) -> (r: Result<Node, String>)
        requires
            old(self).wf(),
        ensures
            final(self).input() == old(self).input(),
            match parse_seq(old(self).input(), old(self).at()) {
                Some((n, q)) => r == Ok::<Node, String>(n) && final(self).wf() && final(self).at() == q
                    && old(self).at() <= q,
                None => r is Err,
            },
        decreases old(self).input().len() - old(self).at(), 3int,
    {
        if self.look.kind == TokenKind::LPAREN || self.look.kind == TokenKind::CHACTER {
            self.subseq()
        } else {
            Ok(Node::Epsilon)
        }
    }

    fn subseq(&mut self) -> (r: Result<Node, String>)
        requires
            old(self).wf(),
        ensures
            final(self).input() == old(self).input(),
            match parse_subseq(old(self).input(), old(self).at()) {
                Some((n, q)) => r == Ok::<Node, String>(n) && final(self).wf() && final(self).at() == q
                    && old(self).at() < q,
                None => r is Err,
            },
            !starts_operand(look(old(self).input(), old(self).at()).kind) ==> r is Err && *final(self) == *old(self),
        decreases old(self).input().len() - old(self).at(), 2int,
    {
        let node1 = match self.star() {
            Ok(n) => n,
            Err(e) => return Err(e),
        };
        if self.look.kind == TokenKind::LPAREN || self.look.kind == TokenKind::CHACTER {
            let node2 = match self.subseq() {
                Ok(n) => n,
                Err(e) => return Err(e),
            };
            return Ok(Node::concat(node1, node2));
        }
        Ok(node1)
    }

    fn subexpr(&mut self) -> (r: Result<Node, String>)
        requires
            old(self).wf(),
        ensures
            final(self).input() == old(self).input(),
            match parse_subexpr(old(self).input(), old(self).at()) {
                Some((n, q)) => r == Ok::<Node, String>(n) && final(self).wf() && final(self).at() == q
                    && old(self).at() <= q,
                None => r is Err,
            },
        decreases old(self).input().len() - old(self).at(), 4int,
    {
        let ghost b = self.input();
        let node = match self.seq() {
            Ok(n) => n,
            Err(e) => return Err(e),
        };
        if self.look.kind == TokenKind::OPE_UNION {
            proof {
                lemma_advance(b, self.at());
            }
            if let Err(e) = self.match_parse(TokenKind::OPE_UNION) {
                return Err(e);
            }
            let node2 = match self.subexpr() {
                Ok(n) => n,
                Err(e) => return Err(e),
            };
            return Ok(Node::union(node, node2));
        }
        Ok(node)
    }

    /// Parses the whole pattern and builds its nondeterministic automaton. An error
    /// where the pattern breaks the grammar, or where its automaton would need more
    /// state identifiers than a `u64` holds.
    pub fn expression(&mut self) -> (r: Result<NondeterministicFiniteAutomaton, String>)
        requires
            old(self).wf(),
        ensures
            match parse_expression(old(self).input(), old(self).at()) {
                Some(n) => if states_needed(n) < u64::MAX {
                    r matches Ok(a) && a@ == thompson(n, 1)
                } else {
                    r is Err
                },
                None => r is Err,
            },
    {
        let node = match self.subexpr() {
            Ok(n) => n,
            Err(e) => return Err(e),
        };
        if let Err(e) = self.match_parse(TokenKind::EOF) {
            return Err(e);
        }
        match node.state_count() {
            Some(n) => {
                if n == u64::MAX {
                    return Err("pattern too large".to_string());
                }
            },
            None => return Err("pattern too large".to_string()),
        }
        let mut context = Context::new();
        let fragment = node.assemble(&mut context);
        Ok(fragment.build())
    }
}

} // verus!
