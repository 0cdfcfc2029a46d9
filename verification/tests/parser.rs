use atom_lang::atom::AtomError;
use atom_lang::lexer::{Span, TokenKind};
use atom_lang::parser::{unescape, Builtin, Node, Parser, Program};

fn parse(src: &str) -> Program {
    Program::parse(src).unwrap()
}

fn syntax_error(src: &str) -> (String, usize, usize) {
    match Program::parse(src) {
        Err(AtomError::SyntaxError { message, line, column }) => (message, line, column),
        other => panic!("expected a syntax error, got {:?}", other.map(|p| p.nodes.len())),
    }
}

#[test]
fn parses_a_flat_program() {
    let p = parse("1 2 +");
    assert_eq!(p.nodes.len(), 3);
    assert!(matches!(&p.nodes[0].node, Node::Number(n) if n == "1"));
    assert!(matches!(&p.nodes[1].node, Node::Number(n) if n == "2"));
    assert!(matches!(p.nodes[2].node, Node::Builtin(Builtin::Add)));
    assert_eq!(p.nodes[0].span, Span { start: 0, end: 2 });
    assert_eq!(p.nodes[2].span, Span { start: 4, end: 5 });
}

#[test]
fn parses_names() {
    let p = parse("#w >b <f");
    assert!(matches!(&p.nodes[0].node, Node::WordRef(n) if n == "w"));
    assert!(matches!(&p.nodes[1].node, Node::BindVar(n) if n == "b"));
    assert!(matches!(&p.nodes[2].node, Node::FetchVar(n) if n == "f"));
}

#[test]
fn parses_blocks_lists_and_definitions() {
    let p = parse("$sq [dup *] (1 nil)");
    assert_eq!(p.nodes.len(), 2);
    match &p.nodes[0].node {
        Node::Define { name, body } => {
            assert_eq!(name, "sq");
            match &body.node {
                Node::Block(items) => {
                    assert_eq!(items.len(), 2);
                    assert!(matches!(items[0].node, Node::Builtin(Builtin::Dup)));
                    assert!(matches!(items[1].node, Node::Builtin(Builtin::Mult)));
                }
                other => panic!("unexpected {:?}", other),
            }
        }
        other => panic!("unexpected {:?}", other),
    }
    match &p.nodes[1].node {
        Node::List(items) => {
            assert_eq!(items.len(), 2);
            assert!(matches!(items[1].node, Node::Nil));
        }
        other => panic!("unexpected {:?}", other),
    }
}

#[test]
fn if_without_else_gets_an_empty_block() {
    let p = parse("if [1]");
    match &p.nodes[0].node {
        Node::If { then_br, else_br } => {
            assert!(matches!(&then_br.node, Node::Block(v) if v.len() == 1));
            assert!(matches!(&else_br.node, Node::Block(v) if v.is_empty()));
            assert_eq!(else_br.span, Span { start: 0, end: 2 });
        }
        other => panic!("unexpected {:?}", other),
    }
}

#[test]
fn if_with_else() {
    let p = parse("if [1] else [2]");
    assert_eq!(p.nodes.len(), 1);
    assert!(matches!(&p.nodes[0].node, Node::If { .. }));
}

#[test]
fn comments_are_skipped() {
    let p = parse("1 -- note\n2");
    assert_eq!(p.nodes.len(), 2);
}

#[test]
fn builtins_map_to_their_words() {
    let p = parse("out dup over lt lte eq not nip drop this string head tail swap - * / % ! :: ++ whiledo times ift ifte");
    let expected = [
        Builtin::Out,
        Builtin::Dup,
        Builtin::Over,
        Builtin::Lt,
        Builtin::Lte,
        Builtin::Eq,
        Builtin::Not,
        Builtin::Nip,
        Builtin::Drop,
        Builtin::This,
        Builtin::StringCast,
        Builtin::Head,
        Builtin::Tail,
        Builtin::Swap,
        Builtin::Sub,
        Builtin::Mult,
        Builtin::Div,
        Builtin::Mod,
        Builtin::Eval,
        Builtin::Cons,
        Builtin::Join,
        Builtin::WhileDo,
        Builtin::Times,
        Builtin::IfThen,
        Builtin::IfThenElse,
    ];
    assert_eq!(p.nodes.len(), expected.len());
    for (n, b) in p.nodes.iter().zip(expected.iter()) {
        assert!(matches!(&n.node, Node::Builtin(x) if x == b));
    }
}

#[test]
fn strings_are_unescaped() {
    let p = parse("\"a\\nb\\t\\\"c\\\"\"");
    assert!(matches!(&p.nodes[0].node, Node::String(s) if s == "a\nb\t\"c\""));
}

#[test]
fn unrecognized_primitive_is_an_error() {
    let (m, l, c) = syntax_error("1\n foo");
    assert_eq!(m, "Unrecognized primitive: Invalid");
    assert_eq!((l, c), (2, 2));
    let (m, _, _) = syntax_error("else");
    assert_eq!(m, "Unrecognized primitive: Else");
}

#[test]
fn unclosed_block_is_an_error() {
    assert_eq!(syntax_error("[1 2"), ("Unclosed block: expected closing RQuote".to_string(), 0, 0));
    assert_eq!(syntax_error("(1"), ("Unclosed block: expected closing RList".to_string(), 0, 0));
}

#[test]
fn missing_definition_body_is_an_error() {
    assert_eq!(syntax_error("$x"), ("Unexpected EOF: missing definition body".to_string(), 0, 0));
    assert_eq!(syntax_error("if"), ("Unexpected EOF: missing `then` branch".to_string(), 0, 0));
    assert_eq!(syntax_error("if [1] else"), ("Unexpected EOF: missing `else` branch".to_string(), 0, 0));
}

#[test]
fn stray_closer_is_unrecognized() {
    let (m, l, c) = syntax_error("]");
    assert_eq!(m, "Unrecognized primitive: RQuote");
    assert_eq!((l, c), (1, 1));
}

#[test]
fn parse_stream_stops_at_delimiter() {
    let mut p = Parser::new("1 2 ] 3");
    let nodes = p.parse_stream(Some(TokenKind::RQuote)).unwrap();
    assert_eq!(nodes.len(), 2);
}

#[test]
fn unescape_known_escapes() {
    let input: Vec<char> = "\\n\\r\\t\\0\\\\\\'\\\"\\a\\b\\f\\v".chars().collect();
    assert_eq!(unescape(&input).unwrap(), "\n\r\t\0\\'\"\x07\x08\x0c\x0b");
}

#[test]
fn unescape_invalid_escape() {
    let input: Vec<char> = "é\\q".chars().collect();
    match unescape(&input) {
        Err(AtomError::InvalidEscape { index, ch }) => {
            assert_eq!(index, 2);
            assert_eq!(ch, 'q');
        }
        other => panic!("unexpected {:?}", other),
    }
}

#[test]
fn unescape_trailing_backslash() {
    let input: Vec<char> = "abc\\".chars().collect();
    assert!(matches!(unescape(&input), Err(AtomError::TrailingBackslash)));
}

#[test]
fn invalid_escape_in_source_is_reported() {
    assert!(matches!(Program::parse("\"\\q\""), Err(AtomError::InvalidEscape { index: 0, ch: 'q' })));
}

#[test]
fn empty_and_comment_only_programs_have_no_nodes() {
    assert!(Program::parse("").unwrap().nodes.is_empty());
    assert!(Program::parse("-- only a comment").unwrap().nodes.is_empty());
}
