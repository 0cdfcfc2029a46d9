use atom_lang::lexer::{Lexer, Span, TokenKind};

fn kinds(src: &str) -> Vec<TokenKind> {
    let mut lx = Lexer::new(src);
    let mut out = Vec::new();
    while let Some(t) = lx.next_token() {
        out.push(t.kind);
    }
    out
}

#[test]
fn lexes_literals_and_idents() {
    assert_eq!(
        kinds("1 2.5 3e4 \"s\" $def #ref >b <f"),
        vec![
            TokenKind::NumberLiteral,
            TokenKind::NumberLiteral,
            TokenKind::NumberLiteral,
            TokenKind::StringLiteral,
            TokenKind::DollarIdent,
            TokenKind::HashIdent,
            TokenKind::GreaterIdent,
            TokenKind::LessIdent,
        ]
    );
}

#[test]
fn lexes_symbols() {
    assert_eq!(
        kinds("+ ++ :: : ! - * / % [ ] ( )"),
        vec![
            TokenKind::Plus,
            TokenKind::Join,
            TokenKind::Cons,
            TokenKind::Invalid,
            TokenKind::Bang,
            TokenKind::Minus,
            TokenKind::Asterisk,
            TokenKind::Slash,
            TokenKind::Percent,
            TokenKind::LQuote,
            TokenKind::RQuote,
            TokenKind::LList,
            TokenKind::RList,
        ]
    );
}

#[test]
fn lexes_keywords() {
    assert_eq!(
        kinds("out over times dup string if else ift ifte lt lte nip drop this nil eq head tail swap while whiledo not foo"),
        vec![
            TokenKind::Out,
            TokenKind::Over,
            TokenKind::Times,
            TokenKind::Dup,
            TokenKind::String,
            TokenKind::If,
            TokenKind::Else,
            TokenKind::Ift,
            TokenKind::Ifte,
            TokenKind::Lt,
            TokenKind::Lte,
            TokenKind::Nip,
            TokenKind::Drop,
            TokenKind::This,
            TokenKind::Nil,
            TokenKind::Eq,
            TokenKind::Head,
            TokenKind::Tail,
            TokenKind::Swap,
            TokenKind::While,
            TokenKind::WhileDo,
            TokenKind::Not,
            TokenKind::Invalid,
        ]
    );
}

#[test]
fn comments_run_to_end_of_line() {
    assert_eq!(
        kinds("1 -- a comment\n2"),
        vec![TokenKind::NumberLiteral, TokenKind::Comment, TokenKind::NumberLiteral]
    );
}

#[test]
fn unterminated_string_is_invalid() {
    assert_eq!(kinds("\"abc"), vec![TokenKind::Invalid]);
    assert_eq!(kinds("\"a\\\"b\""), vec![TokenKind::StringLiteral]);
}

#[test]
fn tagged_ident_without_name_is_invalid() {
    assert_eq!(kinds("$ 1"), vec![TokenKind::Invalid, TokenKind::NumberLiteral]);
}

#[test]
fn number_dot_without_digit_stops() {
    let mut lx = Lexer::new("1.x");
    let t = lx.next_token().unwrap();
    assert_eq!(t.kind, TokenKind::NumberLiteral);
    assert_eq!(t.span, Span { start: 0, end: 1 });
}

#[test]
fn spans_are_byte_offsets() {
    let mut lx = Lexer::new("é dup");
    let t = lx.next_token().unwrap();
    assert_eq!(t.kind, TokenKind::Invalid);
    let t = lx.next_token().unwrap();
    assert_eq!(t.kind, TokenKind::Dup);
    assert_eq!(t.span, Span { start: 3, end: 6 });
    assert!(lx.next_token().is_none());
}

#[test]
fn empty_source_has_no_tokens() {
    assert!(kinds("   \n\t ").is_empty());
}

#[test]
fn to_location_counts_lines_and_columns() {
    assert_eq!(Span { start: 3, end: 4 }.to_location("ab\ncd"), (2, 1));
    assert_eq!(Span { start: 4, end: 5 }.to_location("ab\ncd"), (2, 2));
    assert_eq!(Span { start: 3, end: 4 }.to_location("a\r\nb"), (2, 1));
    assert_eq!(Span { start: 0, end: 1 }.to_location("x"), (1, 1));
    assert_eq!(Span { start: 9, end: 9 }.to_location("ab"), (1, 3));
}

#[test]
fn token_display_renders_kind_lexeme_and_place() {
    let src = "1\n  dup";
    let mut lx = Lexer::new(src);
    let first = lx.next_token().unwrap();
    assert_eq!(first.display(src).render(), "NumberLiteral(\"1\") @ 1:1");
    let second = lx.next_token().unwrap();
    assert_eq!(second.display(src).render(), "Dup(\"dup\") @ 2:3");
}

#[test]
fn law_token_progress_concrete() {
    let src = "1 [dup] \"x\" -- c\n$a 2";
    let mut lx = Lexer::new(src);
    let mut last_end = 0;
    let mut count = 0;
    while let Some(t) = lx.next_token() {
        assert!(t.span.start >= last_end);
        assert!(t.span.end > t.span.start);
        last_end = t.span.end;
        count += 1;
    }
    assert_eq!(count, 8);
    assert_eq!(last_end, src.len());
}

#[test]
fn kind_names_are_variant_names() {
    assert_eq!(TokenKind::RQuote.name(), "RQuote");
    assert_eq!(TokenKind::WhileDo.name(), "WhileDo");
    assert_eq!(TokenKind::StringLiteral.name(), "StringLiteral");
}

#[test]
fn token_display_of_a_constructed_token() {
    let t = atom_lang::lexer::Token { kind: TokenKind::Dup, span: Span { start: 4, end: 7 } };
    assert_eq!(t.display("1 2 dup").render(), "Dup(\"dup\") @ 1:5");
}

#[test]
fn unicode_white_space_separates_tokens() {
    assert_eq!(kinds("1\u{3000}2\u{85}3\u{a0}dup"), vec![
        TokenKind::NumberLiteral,
        TokenKind::NumberLiteral,
        TokenKind::NumberLiteral,
        TokenKind::Dup,
    ]);
}

#[test]
fn law_token_run_concrete() {
    let src = " 1\t[dup]  -- c\n $a ";
    let mut lx = Lexer::new(src);
    let mut spans = Vec::new();
    while let Some(t) = lx.next_token() {
        spans.push(t.span);
    }
    assert!(lx.next_token().is_none());
    assert!(lx.next_token().is_none());
    assert!(spans.len() <= src.len());
    for (i, c) in src.char_indices() {
        if !spans.iter().any(|s| s.start <= i && i < s.end) {
            assert!(c.is_whitespace(), "byte {} is outside every token", i);
        }
    }
    for w in spans.windows(2) {
        assert!(w[0].end <= w[1].start);
    }
}
