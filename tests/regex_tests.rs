use regex::dfa::DeterministicFiniteAutomaton;
use regex::lexer::{Lexer, Token, TokenKind};
use regex::nfa::{Context, NFAFragment, NondeterministicFiniteAutomaton};
use regex::node::Node;
use regex::parser::Parser;
use regex::regex::Regex;

fn compile(pattern: &str) -> Regex {
    Regex::new(pattern.to_string()).unwrap()
}

fn sorted(mut v: Vec<u64>) -> Vec<u64> {
    v.sort();
    v.dedup();
    v
}

#[test]
fn test_epsilon() {
    // 1 -e-> 2 -e-> 3 -e-> 1, and 3 -a-> 4
    let nfa = NondeterministicFiniteAutomaton::new(
        1,
        vec![4],
        vec![(1, None, 2), (2, None, 3), (3, None, 1), (3, Some(b'a'), 4)],
    );
    assert_eq!(sorted(nfa.epsilon_expnad(vec![1])), vec![1, 2, 3]);
    assert_eq!(sorted(nfa.epsilon_expnad(vec![4])), vec![4]);
    assert_eq!(sorted(nfa.epsilon_expnad(vec![])), Vec::<u64>::new());
}

#[test]
fn empty_pattern_matches_only_empty_input() {
    let r = compile("");
    assert!(r.matches("".to_string()));
    assert!(!r.matches("a".to_string()));
}

#[test]
fn literal_pattern() {
    let r = compile("a");
    assert!(r.matches("a".to_string()));
    assert!(!r.matches("".to_string()));
    assert!(!r.matches("aa".to_string()));
}

#[test]
fn union_pattern() {
    let r = compile("a|b");
    assert!(r.matches("a".to_string()));
    assert!(r.matches("b".to_string()));
    assert!(!r.matches("c".to_string()));
}

#[test]
fn star_pattern() {
    let r = compile("a*");
    assert!(r.matches("".to_string()));
    assert!(r.matches("aaaa".to_string()));
    assert!(!r.matches("aab".to_string()));
}

#[test]
fn grouped_star_of_union() {
    let r = compile("(a|b)*");
    assert!(r.matches("".to_string()));
    assert!(r.matches("abba".to_string()));
    assert!(!r.matches("abc".to_string()));
    assert!(r.matches("aa".to_string()));
}

#[test]
fn escaped_star() {
    let r = compile("\\*");
    assert!(r.matches("*".to_string()));
    assert!(!r.matches("".to_string()));
    assert!(!r.matches("a".to_string()));
}

#[test]
fn escaped_operators_and_backslash() {
    let r = compile("\\(\\|\\)\\\\");
    assert!(r.matches("(|)\\".to_string()));
    assert!(!r.matches("(|)".to_string()));
}

#[test]
fn concatenation_and_empty_union_arm() {
    let r = compile("ab(c|d)");
    assert!(r.matches("abc".to_string()));
    assert!(r.matches("abd".to_string()));
    assert!(!r.matches("ab".to_string()));
    let r = compile("a|");
    assert!(r.matches("a".to_string()));
    assert!(r.matches("".to_string()));
    assert!(!r.matches("b".to_string()));
}

#[test]
fn repeated_matching_gives_the_same_answer() {
    let r = compile("(ab)*c");
    for _ in 0..3 {
        assert!(r.matches("ababc".to_string()));
        assert!(!r.matches("abab".to_string()));
    }
    let r2 = compile("(ab)*c");
    assert_eq!(r.matches("c".to_string()), r2.matches("c".to_string()));
}

#[test]
fn syntax_errors() {
    assert!(Regex::new("(a".to_string()).is_err());
    assert!(Regex::new("a)".to_string()).is_err());
    assert!(Regex::new("*".to_string()).is_err());
    assert!(Regex::new("a**".to_string()).is_err());
    assert!(Regex::new("a\\".to_string()).is_err());
    assert!(Regex::new("\\".to_string()).is_err());
}

#[test]
fn lexer_tokens() {
    let mut lexer = Lexer::new("(a|\\*)*b".to_string());
    let kinds = [
        (b'(', TokenKind::LPAREN),
        (b'a', TokenKind::CHACTER),
        (b'|', TokenKind::OPE_UNION),
        (b'*', TokenKind::CHACTER),
        (b')', TokenKind::RPAREN),
        (b'*', TokenKind::OPE_STAR),
        (b'b', TokenKind::CHACTER),
    ];
    for (value, kind) in kinds.iter() {
        assert_eq!(lexer.scan().unwrap(), Token::new(*value, *kind));
    }
    assert_eq!(lexer.scan().unwrap().kind, TokenKind::EOF);
    assert_eq!(lexer.scan().unwrap().kind, TokenKind::EOF);
}

#[test]
fn lexer_escape_at_end_is_an_error() {
    let mut lexer = Lexer::new("a\\".to_string());
    assert_eq!(lexer.scan().unwrap(), Token::new(b'a', TokenKind::CHACTER));
    assert!(lexer.scan().is_err());
}

#[test]
fn parser_match_parse_checks_the_kind() {
    let mut parser = Parser::new(Lexer::new("ab".to_string())).unwrap();
    assert!(parser.match_parse(TokenKind::OPE_STAR).is_err());
    let mut parser = Parser::new(Lexer::new("ab".to_string())).unwrap();
    assert!(parser.match_parse(TokenKind::CHACTER).is_ok());
    assert!(parser.match_parse(TokenKind::CHACTER).is_ok());
    assert!(parser.match_parse(TokenKind::EOF).is_ok());
    assert!(Parser::new(Lexer::new("\\".to_string())).is_err());
}

#[test]
fn parser_builds_automaton() {
    let mut parser = Parser::new(Lexer::new("a*".to_string())).unwrap();
    let nfa = parser.expression().unwrap();
    let dfa = nfa.nfa2dfa();
    assert!(dfa.get_runtime().does_accept(b"aaa"));
    assert!(!dfa.get_runtime().does_accept(b"ab"));
}

#[test]
fn context_issues_increasing_ids() {
    let mut c = Context::new();
    assert_eq!(c.new_state(), 2);
    assert_eq!(c.new_state(), 3);
    assert_eq!(c.new_state(), 4);
}

#[test]
fn character_fragment() {
    let mut c = Context::new();
    let frag = Node::character(b'x').assemble(&mut c);
    assert_eq!(frag.start, 2);
    assert_eq!(frag.accepts, vec![3]);
    let nfa = frag.build();
    assert_eq!(nfa.trans(2, Some(b'x')).unwrap(), vec![3]);
    assert!(nfa.trans(2, Some(b'y')).is_err());
    assert!(nfa.trans(3, None).is_err());
}

#[test]
fn union_fragment_wiring() {
    let mut c = Context::new();
    let frag = Node::union(Node::character(b'a'), Node::character(b'b')).assemble(&mut c);
    // a: 2 -> 3, b: 4 -> 5, new start 6
    assert_eq!(frag.start, 6);
    assert_eq!(sorted(frag.accepts.clone()), vec![3, 5]);
    let nfa = frag.build();
    assert_eq!(sorted(nfa.trans(6, None).unwrap()), vec![2, 4]);
}

#[test]
fn concat_fragment_wiring() {
    let mut c = Context::new();
    let frag = Node::concat(Node::character(b'a'), Node::character(b'b')).assemble(&mut c);
    assert_eq!(frag.start, 2);
    assert_eq!(frag.accepts, vec![5]);
    let nfa = frag.build();
    assert_eq!(nfa.trans(3, None).unwrap(), vec![4]);
}

#[test]
fn star_fragment_wiring() {
    let mut c = Context::new();
    let frag = Node::star(Node::character(b'a')).assemble(&mut c);
    assert_eq!(frag.start, 4);
    assert_eq!(sorted(frag.accepts.clone()), vec![3, 4]);
    let nfa = frag.build();
    assert_eq!(nfa.trans(4, None).unwrap(), vec![2]);
    assert_eq!(nfa.trans(3, None).unwrap(), vec![2]);
}

#[test]
fn epsilon_fragment() {
    let mut c = Context::new();
    let frag = Node::Epsilon.assemble(&mut c);
    assert_eq!(frag.start, 2);
    assert_eq!(frag.accepts, vec![2]);
    assert_eq!(Node::Epsilon.state_count(), Some(1));
}

#[test]
fn state_count_of_tree() {
    let n = Node::union(Node::star(Node::character(b'a')), Node::concat(Node::character(b'b'), Node::Epsilon));
    assert_eq!(n.state_count(), Some(7));
    let mut c = Context::new();
    let _ = n.assemble(&mut c);
    assert_eq!(c.new_state(), 9);
}

#[test]
fn merge_keeps_every_transition() {
    let mut f1 = NFAFragment::new(1, vec![2]);
    f1.connect(1, Some(b'a'), 2);
    f1.connect(1, None, 3);
    let mut f2 = NFAFragment::new(1, vec![2]);
    f2.connect(1, Some(b'a'), 5);
    f2.connect(7, None, 8);
    let merged = f1.or(&f2);
    assert_eq!(merged.start, 0);
    assert!(merged.accepts.is_empty());
    let nfa = merged.build();
    assert_eq!(sorted(nfa.trans(1, Some(b'a')).unwrap()), vec![2, 5]);
    assert_eq!(nfa.trans(1, None).unwrap(), vec![3]);
    assert_eq!(nfa.trans(7, None).unwrap(), vec![8]);
}

#[test]
fn skeleton_keeps_transitions_only() {
    let mut f = NFAFragment::new(4, vec![5]);
    f.connect(4, Some(b'z'), 5);
    let s = f.new_skelton();
    assert_eq!(s.start, 0);
    assert!(s.accepts.is_empty());
    assert_eq!(s.build().trans(4, Some(b'z')).unwrap(), vec![5]);
}

#[test]
fn closure_of_closed_set_is_itself() {
    let nfa = NondeterministicFiniteAutomaton::new(1, vec![3], vec![(1, None, 2), (2, None, 1), (2, Some(b'a'), 3)]);
    let once = sorted(nfa.epsilon_expnad(vec![2]));
    assert_eq!(once, vec![1, 2]);
    assert_eq!(sorted(nfa.epsilon_expnad(once.clone())), once);
    assert_eq!(sorted(nfa.epsilon_expnad(vec![2, 1])), sorted(nfa.epsilon_expnad(vec![1, 2])));
}

#[test]
fn dfa_transitions_and_dead_state() {
    let nfa = NondeterministicFiniteAutomaton::new(1, vec![3], vec![(1, None, 2), (2, Some(b'a'), 3), (3, None, 1)]);
    let dfa = nfa.nfa2dfa();
    assert_eq!(sorted(dfa.trans(vec![1, 2], b'a')), vec![1, 2, 3]);
    assert_eq!(sorted(dfa.trans(vec![1, 2], b'b')), Vec::<u64>::new());
    assert_eq!(sorted(dfa.trans(vec![], b'a')), Vec::<u64>::new());
    let mut rt = dfa.get_runtime();
    assert!(!rt.is_accept_state());
    rt.do_trantision(b'a');
    assert!(rt.is_accept_state());
    rt.do_trantision(b'b');
    assert!(!rt.is_accept_state());
    rt.do_trantision(b'a');
    assert!(!rt.is_accept_state());
}

#[test]
fn dfa_built_directly() {
    let nfa = NondeterministicFiniteAutomaton::new(1, vec![2], vec![(1, Some(b'a'), 2), (2, Some(b'b'), 1)]);
    let dfa = DeterministicFiniteAutomaton::new(vec![1], vec![2], nfa);
    assert!(dfa.get_runtime().does_accept(b"aba"));
    assert!(!dfa.get_runtime().does_accept(b"ab"));
}

#[test]
fn non_ascii_input_is_matched_by_bytes() {
    let r = compile("\u{e9}");
    assert!(r.matches("\u{e9}".to_string()));
    assert!(!r.matches("e".to_string()));
}

#[test]
fn empty_group_matches_empty_input() {
    let r = compile("()");
    assert!(r.matches("".to_string()));
    assert!(!r.matches("a".to_string()));
    let r = compile("a()b");
    assert!(r.matches("ab".to_string()));
}
