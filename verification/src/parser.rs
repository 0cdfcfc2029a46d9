//! The parser: from tokens to a tree of nodes.
use vstd::math::min;
use vstd::prelude::*;

use crate::atom::{AtomError, AtomResult, ErrorModel};
use crate::lexer::{
    byte_at, law_token_progress, lemma_ws_end_idempotent, location_after,
    sig_tokens, spec_next, token_kind_name, token_of, Lexer, Span, TokSpec, Token, TokenKind,
};
use crate::text::{
    len_utf8, lemma_utf8_len_mono, lemma_utf8_len_subrange, lemma_utf8_len_take, string_push,
    utf8_len,
};

verus! {

/// A value together with the bytes of source it came from.
#[derive(Debug, Clone)]
pub struct Spanned<T> {
    pub node: T,
    pub span: Span,
}

/// A node together with its span.
pub type SpannedNode = Spanned<Node>;

/// A parsed program: its top-level nodes in order.
#[derive(Debug)]
pub struct Program {
    pub nodes: Vec<SpannedNode>,
}

/// A node of the syntax tree. A number keeps the text of its literal; the
/// float it denotes is worked out where numbers are given values.
#[derive(Debug)]
pub enum Node {
    Number(String),
    String(String),
    Nil,
    Builtin(Builtin),
    WordRef(String),
    BindVar(String),
    FetchVar(String),
    Block(Vec<SpannedNode>),
    List(Vec<SpannedNode>),
    Define { name: String, body: Box<SpannedNode> },
    If { then_br: Box<SpannedNode>, else_br: Box<SpannedNode> },
}

/// The words the language provides; each compiles to one opcode.
#[derive(Clone, Copy, Debug, PartialEq, Eq, Structural)]
pub enum Builtin {
    Out,
    Dup,
    Over,
    Lt,
    Lte,
    Gt,
    Gte,
    Eq,
    Not,
    Nip,
    Drop,
    This,
    StringCast,
    Head,
    Tail,
    Swap,
    Add,
    Sub,
    Mult,
    Div,
    Mod,
    Eval,
    Cons,
    Join,
    Times,
    WhileDo,
    IfThen,
    IfThenElse,
}

/// The name of a builtin, as its derived `Debug` prints it.
pub open spec fn builtin_name(b: Builtin) -> Seq<char> {
    match b {
        Builtin::Out => "Out"@,
        Builtin::Dup => "Dup"@,
        Builtin::Over => "Over"@,
        Builtin::Lt => "Lt"@,
        Builtin::Lte => "Lte"@,
        Builtin::Gt => "Gt"@,
        Builtin::Gte => "Gte"@,
        Builtin::Eq => "Eq"@,
        Builtin::Not => "Not"@,
        Builtin::Nip => "Nip"@,
        Builtin::Drop => "Drop"@,
        Builtin::This => "This"@,
        Builtin::StringCast => "StringCast"@,
        Builtin::Head => "Head"@,
        Builtin::Tail => "Tail"@,
        Builtin::Swap => "Swap"@,
        Builtin::Add => "Add"@,
        Builtin::Sub => "Sub"@,
        Builtin::Mult => "Mult"@,
        Builtin::Div => "Div"@,
        Builtin::Mod => "Mod"@,
        Builtin::Eval => "Eval"@,
        Builtin::Cons => "Cons"@,
        Builtin::Join => "Join"@,
        Builtin::Times => "Times"@,
        Builtin::WhileDo => "WhileDo"@,
        Builtin::IfThen => "IfThen"@,
        Builtin::IfThenElse => "IfThenElse"@,
    }
}

impl Builtin {
    /// The name of the builtin.
    pub fn name(self) -> (r: &'static str)
        ensures
            r@ == builtin_name(self),
    {
        match self {
            Builtin::Out => "Out",
            Builtin::Dup => "Dup",
            Builtin::Over => "Over",
            Builtin::Lt => "Lt",
            Builtin::Lte => "Lte",
            Builtin::Gt => "Gt",
            Builtin::Gte => "Gte",
            Builtin::Eq => "Eq",
            Builtin::Not => "Not",
            Builtin::Nip => "Nip",
            Builtin::Drop => "Drop",
            Builtin::This => "This",
            Builtin::StringCast => "StringCast",
            Builtin::Head => "Head",
            Builtin::Tail => "Tail",
            Builtin::Swap => "Swap",
            Builtin::Add => "Add",
            Builtin::Sub => "Sub",
            Builtin::Mult => "Mult",
            Builtin::Div => "Div",
            Builtin::Mod => "Mod",
            Builtin::Eval => "Eval",
            Builtin::Cons => "Cons",
            Builtin::Join => "Join",
            Builtin::Times => "Times",
            Builtin::WhileDo => "WhileDo",
            Builtin::IfThen => "IfThen",
            Builtin::IfThenElse => "IfThenElse",
        }
    }
}

/// The mathematical value of a spanned node.
pub struct SpannedModel {
    pub node: NodeModel,
    pub span: Span,
}

/// The mathematical value of a node.
pub enum NodeModel {
    Number(Seq<char>),
    String(Seq<char>),
    Nil,
    Builtin(Builtin),
    WordRef(Seq<char>),
    BindVar(Seq<char>),
    FetchVar(Seq<char>),
    Block(Seq<SpannedModel>),
    List(Seq<SpannedModel>),
    Define { name: Seq<char>, body: Box<SpannedModel> },
    If { then_br: Box<SpannedModel>, else_br: Box<SpannedModel> },
}

pub open spec fn view_node(n: Node) -> NodeModel
    decreases n, 0nat,
{
    match n {
        Node::Number(s) => NodeModel::Number(s@),
        Node::String(s) => NodeModel::String(s@),
        Node::Nil => NodeModel::Nil,
        Node::Builtin(b) => NodeModel::Builtin(b),
        Node::WordRef(s) => NodeModel::WordRef(s@),
        Node::BindVar(s) => NodeModel::BindVar(s@),
        Node::FetchVar(s) => NodeModel::FetchVar(s@),
        Node::Block(v) => NodeModel::Block(view_nodes(v@)),
        Node::List(v) => NodeModel::List(view_nodes(v@)),
        Node::Define { name, body } => NodeModel::Define {
            name: name@,
            body: Box::new(view_spanned(*body)),
        },
        Node::If { then_br, else_br } => NodeModel::If {
            then_br: Box::new(view_spanned(*then_br)),
            else_br: Box::new(view_spanned(*else_br)),
        },
    }
}

pub open spec fn view_spanned(s: SpannedNode) -> SpannedModel
    decreases s, 1nat,
{
    SpannedModel { node: view_node(s.node), span: s.span }
}

pub open spec fn view_nodes(s: Seq<SpannedNode>) -> Seq<SpannedModel>
    decreases s, 2nat,
{
    if s.len() == 0 {
        Seq::empty()
    } else {
        view_nodes(s.drop_last()).push(view_spanned(s.last()))
    }
}

pub proof fn lemma_view_nodes_push(s: Seq<SpannedNode>, x: SpannedNode)
    ensures
        view_nodes(s.push(x)) == view_nodes(s).push(view_spanned(x)),
{
    assert(s.push(x).drop_last() =~= s);
}

/// The builtin a token kind stands for.
pub open spec fn spec_builtin_of(kind: TokenKind) -> Option<Builtin> {
    match kind {
        TokenKind::Out => Some(Builtin::Out),
        TokenKind::Dup => Some(Builtin::Dup),
        TokenKind::Over => Some(Builtin::Over),
        TokenKind::Lt => Some(Builtin::Lt),
        TokenKind::Lte => Some(Builtin::Lte),
        TokenKind::Eq => Some(Builtin::Eq),
        TokenKind::Not => Some(Builtin::Not),
        TokenKind::Nip => Some(Builtin::Nip),
        TokenKind::Drop => Some(Builtin::Drop),
        TokenKind::This => Some(Builtin::This),
        TokenKind::String => Some(Builtin::StringCast),
        TokenKind::Head => Some(Builtin::Head),
        TokenKind::Tail => Some(Builtin::Tail),
        TokenKind::Swap => Some(Builtin::Swap),
        TokenKind::Plus => Some(Builtin::Add),
        TokenKind::Asterisk => Some(Builtin::Mult),
        TokenKind::Slash => Some(Builtin::Div),
        TokenKind::Percent => Some(Builtin::Mod),
        TokenKind::Minus => Some(Builtin::Sub),
        TokenKind::Bang => Some(Builtin::Eval),
        TokenKind::Cons => Some(Builtin::Cons),
        TokenKind::Join => Some(Builtin::Join),
        TokenKind::WhileDo => Some(Builtin::WhileDo),
        TokenKind::Times => Some(Builtin::Times),
        TokenKind::Ift => Some(Builtin::IfThen),
        TokenKind::Ifte => Some(Builtin::IfThenElse),
        _ => None,
    }
}

/// The character an escape letter stands for.
pub open spec fn escape_char(c: char) -> Option<char> {
    if c == 'n' {
        Some('\n')
    } else if c == 'r' {
        Some('\r')
    } else if c == 't' {
        Some('\t')
    } else if c == '0' {
        Some('\0')
    } else if c == '\\' {
        Some('\\')
    } else if c == '\'' {
        Some('\'')
    } else if c == '"' {
        Some('"')
    } else if c == 'a' {
        Some('\x07')
    } else if c == 'b' {
        Some('\x08')
    } else if c == 'f' {
        Some('\x0c')
    } else if c == 'v' {
        Some('\x0b')
    } else {
        None
    }
}

pub open spec fn prepend(p: Seq<char>, r: Result<Seq<char>, ErrorModel>) -> Result<Seq<char>, ErrorModel> {
    match r {
        Ok(x) => Ok(p + x),
        Err(e) => Err(e),
    }
}

/// The string that the body of a literal denotes from character `k` on:
/// each backslash and the letter after it stand for one character; a
/// backslash at the end, or before any other character, is an error whose
/// index is the backslash's byte offset.
pub open spec fn unescape_from(cs: Seq<char>, k: int) -> Result<Seq<char>, ErrorModel>
    decreases cs.len() - k,
{
    if k < 0 || k >= cs.len() {
        Ok(seq![])
    } else if cs[k] != '\\' {
        prepend(seq![cs[k]], unescape_from(cs, k + 1))
    } else if k + 1 >= cs.len() {
        Err(ErrorModel::TrailingBackslash)
    } else {
        match escape_char(cs[k + 1]) {
            Some(e) => prepend(seq![e], unescape_from(cs, k + 2)),
            None => Err(ErrorModel::InvalidEscape { index: byte_at(cs, k) as usize, ch: cs[k + 1] }),
        }
    }
}

/// The characters of a token.
pub open spec fn lexeme_of(cs: Seq<char>, t: TokSpec) -> Seq<char> {
    cs.subrange(t.start, t.end)
}

/// The body of a string literal: the characters between its quotes.
pub open spec fn literal_body(raw: Seq<char>) -> Seq<char> {
    if raw.len() >= 2 && raw[0] == '"' && raw.last() == '"' {
        raw.subrange(1, raw.len() - 1)
    } else {
        raw
    }
}

/// A syntax error located at a token: its line and column are those of the
/// character whose index equals the token's byte offset.
pub open spec fn error_at(cs: Seq<char>, t: TokSpec, message: Seq<char>) -> ErrorModel {
    let at = cs.take(min(byte_at(cs, t.start), cs.len() as int));
    ErrorModel::SyntaxError {
        message,
        line: location_after(at).0 as usize,
        column: location_after(at).1 as usize,
    }
}

pub open spec fn unexpected_eof(context: Seq<char>) -> ErrorModel {
    ErrorModel::SyntaxError {
        message: "Unexpected EOF: missing "@ + context,
        line: 0,
        column: 0,
    }
}

pub open spec fn unclosed(delim: TokenKind) -> ErrorModel {
    ErrorModel::SyntaxError {
        message: "Unclosed block: expected closing "@ + token_kind_name(delim),
        line: 0,
        column: 0,
    }
}

pub open spec fn unrecognized(kind: TokenKind) -> Seq<char> {
    "Unrecognized primitive: "@ + token_kind_name(kind)
}

/// Span of a node that starts at token `t` when `rest` follows it: up to
/// the next token, or to the end of `t` when none follows.
pub open spec fn node_span(cs: Seq<char>, t: TokSpec, rest: Seq<TokSpec>) -> Span {
    Span {
        start: byte_at(cs, t.start) as usize,
        end: if rest.len() > 0 {
            byte_at(cs, rest[0].start) as usize
        } else {
            byte_at(cs, t.end) as usize
        },
    }
}

pub type ParseOut<T> = Result<(T, Seq<TokSpec>), ErrorModel>;

/// Nodes up to the delimiter `until` (not read), or to the end of the
/// tokens when there is none; a missing delimiter is an error.
pub open spec fn p_stream(
    cs: Seq<char>,
    toks: Seq<TokSpec>,
    until: Option<TokenKind>,
    acc: Seq<SpannedModel>,
) -> ParseOut<Seq<SpannedModel>>
    decreases toks.len(), 1nat,
{
    if toks.len() == 0 {
        match until {
            Some(d) => Err(unclosed(d)),
            None => Ok((acc, toks)),
        }
    } else if until == Some(toks[0].kind) {
        Ok((acc, toks))
    } else {
        match p_token(cs, toks[0], toks.drop_first()) {
            Err(e) => Err(e),
            Ok((n, r)) => if r.len() < toks.len() {
                p_stream(cs, r, until, acc.push(n))
            } else {
                Err(ErrorModel::UnmappableNode)
            },
        }
    }
}

/// The node that the next token starts; running out of tokens is an error
/// that names what was missing.
pub open spec fn p_single(cs: Seq<char>, toks: Seq<TokSpec>, context: Seq<char>) -> ParseOut<
    SpannedModel,
>
    decreases toks.len(), 1nat,
{
    if toks.len() == 0 {
        Err(unexpected_eof(context))
    } else {
        p_token(cs, toks[0], toks.drop_first())
    }
}

/// The node that token `t` starts, `after` being the tokens after it,
/// spanning up to the token that follows it.
pub open spec fn p_token(cs: Seq<char>, t: TokSpec, after: Seq<TokSpec>) -> ParseOut<SpannedModel>
    decreases after.len(), 4nat,
{
    match p_node(cs, t, after) {
        Ok((node, r)) => Ok((SpannedModel { node, span: node_span(cs, t, r) }, r)),
        Err(e) => Err(e),
    }
}

/// The nodes of a group up to `delim`, and the tokens after the delimiter.
pub open spec fn p_group(cs: Seq<char>, after: Seq<TokSpec>, delim: TokenKind) -> ParseOut<
    Seq<SpannedModel>,
>
    decreases after.len(), 2nat,
{
    match p_stream(cs, after, Some(delim), seq![]) {
        Ok((nodes, r)) => Ok((nodes, r.drop_first())),
        Err(e) => Err(e),
    }
}

/// An `if` node: a `then` branch, and an `else` branch when the word
/// `else` follows, else an empty block spanning the `if` token.
pub open spec fn p_if(cs: Seq<char>, t: TokSpec, after: Seq<TokSpec>) -> ParseOut<NodeModel>
    decreases after.len(), 2nat,
{
    match p_single(cs, after, "`then` branch"@) {
        Err(e) => Err(e),
        Ok((then_br, r1)) => if r1.len() > after.len() {
            Err(ErrorModel::UnmappableNode)
        } else if r1.len() > 0 && r1[0].kind == TokenKind::Else {
            match p_single(cs, r1.drop_first(), "`else` branch"@) {
                Err(e) => Err(e),
                Ok((else_br, r2)) => Ok(
                    (NodeModel::If { then_br: Box::new(then_br), else_br: Box::new(else_br) }, r2),
                ),
            }
        } else {
            let empty = SpannedModel {
                node: NodeModel::Block(seq![]),
                span: Span {
                    start: byte_at(cs, t.start) as usize,
                    end: byte_at(cs, t.end) as usize,
                },
            };
            Ok((NodeModel::If { then_br: Box::new(then_br), else_br: Box::new(empty) }, r1))
        },
    }
}

/// The node that token `t` starts, and the tokens after it.
pub open spec fn p_node(cs: Seq<char>, t: TokSpec, after: Seq<TokSpec>) -> ParseOut<NodeModel>
    decreases after.len(), 3nat,
{
    let lex = lexeme_of(cs, t);
    match t.kind {
        TokenKind::StringLiteral => match unescape_from(literal_body(lex), 0) {
            Ok(s) => Ok((NodeModel::String(s), after)),
            Err(e) => Err(e),
        },
        TokenKind::NumberLiteral => Ok((NodeModel::Number(lex), after)),
        TokenKind::Nil => Ok((NodeModel::Nil, after)),
        TokenKind::DollarIdent => match p_single(cs, after, "definition body"@) {
            Err(e) => Err(e),
            Ok((body, r)) => Ok(
                (NodeModel::Define { name: lex.drop_first(), body: Box::new(body) }, r),
            ),
        },
        TokenKind::HashIdent => Ok((NodeModel::WordRef(lex.drop_first()), after)),
        TokenKind::GreaterIdent => Ok((NodeModel::BindVar(lex.drop_first()), after)),
        TokenKind::LessIdent => Ok((NodeModel::FetchVar(lex.drop_first()), after)),
        TokenKind::LQuote => match p_group(cs, after, TokenKind::RQuote) {
            Err(e) => Err(e),
            Ok((nodes, r)) => Ok((NodeModel::Block(nodes), r)),
        },
        TokenKind::LList => match p_group(cs, after, TokenKind::RList) {
            Err(e) => Err(e),
            Ok((nodes, r)) => Ok((NodeModel::List(nodes), r)),
        },
        TokenKind::If => p_if(cs, t, after),
        other => match spec_builtin_of(other) {
            Some(b) => Ok((NodeModel::Builtin(b), after)),
            None => Err(error_at(cs, t, unrecognized(other))),
        },
    }
}

/// A group that parses ends at its delimiter.
pub proof fn lemma_stream_ends_at_delim(
    cs: Seq<char>,
    toks: Seq<TokSpec>,
    delim: TokenKind,
    acc: Seq<SpannedModel>,
)
    ensures
        p_stream(cs, toks, Some(delim), acc) matches Ok((_, r)) ==> r.len() > 0 && r[0].kind
            == delim,
    decreases toks.len(),
{
    if toks.len() > 0 && Some(delim) != Some(toks[0].kind) {
        match p_token(cs, toks[0], toks.drop_first()) {
            Err(_) => {},
            Ok((n, r)) => {
                if r.len() < toks.len() {
                    lemma_stream_ends_at_delim(cs, r, delim, acc.push(n));
                }
            },
        }
    }
}

/// What parsing a whole source text gives.
pub open spec fn spec_parse_program(cs: Seq<char>) -> Result<Seq<SpannedModel>, ErrorModel> {
    match p_stream(cs, sig_tokens(cs, 0), None, seq![]) {
        Ok((nodes, _)) => Ok(nodes),
        Err(e) => Err(e),
    }
}

} // verus!

verus! {

/// Every token of `sig_tokens(cs, i)` lies within the text after `i`, is
/// not empty, and is not a comment.
pub proof fn lemma_sig_tokens_valid(cs: Seq<char>, i: int)
    requires
        0 <= i <= cs.len(),
    ensures
        forall|k: int|
            0 <= k < sig_tokens(cs, i).len() ==> i <= #[trigger] sig_tokens(cs, i)[k].start
                < sig_tokens(cs, i)[k].end <= cs.len() && sig_tokens(cs, i)[k].kind
                != TokenKind::Comment,
    decreases cs.len() - i,
{
    law_token_progress(cs, i);
    match spec_next(cs, i) {
        None => {},
        Some(t) => {
            lemma_sig_tokens_valid(cs, t.end);
            if t.kind != TokenKind::Comment {
                let s = sig_tokens(cs, i);
                assert forall|k: int| 0 <= k < s.len() implies i <= #[trigger] s[k].start
                    < s[k].end <= cs.len() && s[k].kind != TokenKind::Comment by {
                    if k > 0 {
                        assert(s[k] == sig_tokens(cs, t.end)[k - 1]);
                    }
                }
            }
        },
    }
}

/// One step of the lexer, as seen in the tokens left to parse.
pub proof fn lemma_sig_tokens_step(cs: Seq<char>, i: int)
    requires
        0 <= i <= cs.len(),
    ensures
        match spec_next(cs, i) {
            None => sig_tokens(cs, i) == Seq::<TokSpec>::empty() && sig_tokens(
                cs,
                crate::lexer::ws_end(cs, i),
            ) == Seq::<TokSpec>::empty(),
            Some(t) => if t.kind == TokenKind::Comment {
                sig_tokens(cs, i) == sig_tokens(cs, t.end)
            } else {
                sig_tokens(cs, i) == seq![t] + sig_tokens(cs, t.end)
            },
        },
{
    law_token_progress(cs, i);
    if spec_next(cs, i) is None {
        let w = crate::lexer::ws_end(cs, i);
        lemma_ws_end_idempotent(cs, i);
        law_token_progress(cs, w);
    }
}

/// Reads nodes from the tokens of a source text.
pub struct Parser<'a> {
    lexer: Lexer<'a>,
    peeked: Option<(Token, usize, usize)>,
    src: &'a str,
    chars: Vec<char>,
}

impl<'a> Parser<'a> {
    pub closed spec fn text(&self) -> Seq<char> {
        self.chars@
    }

    /// The tokens not yet read, comments left out.
    pub closed spec fn rest(&self) -> Seq<TokSpec> {
        match self.peeked {
            Some((tok, s, e)) => seq![TokSpec { kind: tok.kind, start: s as int, end: e as int }]
                + sig_tokens(self.lexer.text(), self.lexer.index()),
            None => sig_tokens(self.lexer.text(), self.lexer.index()),
        }
    }

    pub closed spec fn wf(&self) -> bool {
        &&& self.lexer.wf()
        &&& self.lexer.text() == self.src@
        &&& self.chars@ == self.src@
        &&& utf8_len(self.src@) < usize::MAX
        &&& self.src@.len() < usize::MAX
        &&& 0 <= self.lexer.index() <= self.chars@.len()
        &&& forall|k: int|
            0 <= k < self.rest().len() ==> 0 <= #[trigger] self.rest()[k].start
                < self.rest()[k].end <= self.chars@.len() && self.rest()[k].kind
                != TokenKind::Comment
        &&& match self.peeked {
            Some((tok, s, e)) => tok == token_of(
                self.chars@,
                TokSpec { kind: tok.kind, start: s as int, end: e as int },
            ),
            None => true,
        }
    }

    pub fn new(src: &'a str) -> (p: Self)
        requires
            utf8_len(src@) < usize::MAX,
        ensures
            p.wf(),
            p.text() == src@,
            p.rest() == sig_tokens(src@, 0),
    {
        let lexer = Lexer::new(src);
        let chars = crate::text::chars_of(src);
        proof {
            lemma_utf8_len_mono(src@, 0, src@.len() as int);
            assert(src@.take(src@.len() as int) =~= src@);
            assert(src@.take(0) =~= Seq::<char>::empty());
            lemma_sig_tokens_valid(src@, 0);
        }
        Self { lexer, peeked: None, src, chars }
    }

    fn peek_token(&mut self) -> (r: Option<Token>)
        requires
            old(self).wf(),
        ensures
            final(self).wf(),
            final(self).text() == old(self).text(),
            final(self).rest() == old(self).rest(),
            old(self).rest().len() == 0 ==> r is None,
            old(self).rest().len() > 0 ==> r == Some(
                token_of(old(self).text(), old(self).rest()[0]),
            ) && final(self).peeked is Some,
    {
        match self.peeked {
            Some((tok, s, e)) => {
                return Some(tok);
            },
            None => {},
        }
        loop
            invariant
                self.wf(),
                self.text() == old(self).text(),
                self.rest() == old(self).rest(),
                self.peeked is None,
            decreases self.chars@.len() - self.lexer.index(),
        {
            let ghost cs = self.chars@;
            let ghost i = self.lexer.index();
            proof {
                lemma_sig_tokens_step(cs, i);
                law_token_progress(cs, i);
            }
            match self.lexer.next_indexed() {
                None => {
                    return None;
                },
                Some((tok, s, e)) => {
                    if tok.kind == TokenKind::Comment {
                        proof {
                            lemma_sig_tokens_valid(cs, e as int);
                        }
                    } else {
                        self.peeked = Some((tok, s, e));
                        return Some(tok);
                    }
                },
            }
        }
    }

    fn next_token(&mut self) -> (r: Option<(Token, usize, usize)>)
        requires
            old(self).wf(),
        ensures
            final(self).wf(),
            final(self).text() == old(self).text(),
            old(self).rest().len() == 0 ==> r is None && final(self).rest() == old(self).rest(),
            old(self).rest().len() > 0 ==> (r matches Some((tok, s, e)) && s
                == old(self).rest()[0].start && e == old(self).rest()[0].end && tok.kind
                == old(self).rest()[0].kind && tok == token_of(old(self).text(), old(self).rest()[0])
                && final(self).rest() == old(self).rest().drop_first()),
    {
        self.peek_token();
        let p = self.peeked;
        self.peeked = None;
        proof {
            if p is Some {
                assert(self.rest() =~= old(self).rest().drop_first());
            }
        }
        p
    }

    fn lexeme(&self, s: usize, e: usize) -> (r: String)
        requires
            self.wf(),
            s <= e <= self.text().len(),
        ensures
            r@ == self.text().subrange(s as int, e as int),
    {
        let mut v: Vec<char> = Vec::new();
        let mut i = s;
        while i < e
            invariant
                s <= i <= e <= self.chars@.len(),
                v@ == self.chars@.subrange(s as int, i as int),
            decreases e - i,
        {
            v.push(self.chars[i]);
            assert(self.chars@.subrange(s as int, i + 1) =~= self.chars@.subrange(
                s as int,
                i as int,
            ).push(self.chars@[i as int]));
            i = i + 1;
        }
        crate::text::string_from_chars(&v)
    }

    fn match_builtin(&self, kind: TokenKind) -> (r: Option<Builtin>)
        ensures
            r == spec_builtin_of(kind),
    {
        match kind {
            TokenKind::Out => Some(Builtin::Out),
            TokenKind::Dup => Some(Builtin::Dup),
            TokenKind::Over => Some(Builtin::Over),
            TokenKind::Lt => Some(Builtin::Lt),
            TokenKind::Lte => Some(Builtin::Lte),
            TokenKind::Eq => Some(Builtin::Eq),
            TokenKind::Not => Some(Builtin::Not),
            TokenKind::Nip => Some(Builtin::Nip),
            TokenKind::Drop => Some(Builtin::Drop),
            TokenKind::This => Some(Builtin::This),
            TokenKind::String => Some(Builtin::StringCast),
            TokenKind::Head => Some(Builtin::Head),
            TokenKind::Tail => Some(Builtin::Tail),
            TokenKind::Swap => Some(Builtin::Swap),
            TokenKind::Plus => Some(Builtin::Add),
            TokenKind::Asterisk => Some(Builtin::Mult),
            TokenKind::Slash => Some(Builtin::Div),
            TokenKind::Percent => Some(Builtin::Mod),
            TokenKind::Minus => Some(Builtin::Sub),
            TokenKind::Bang => Some(Builtin::Eval),
            TokenKind::Cons => Some(Builtin::Cons),
            TokenKind::Join => Some(Builtin::Join),
            TokenKind::WhileDo => Some(Builtin::WhileDo),
            TokenKind::Times => Some(Builtin::Times),
            TokenKind::Ift => Some(Builtin::IfThen),
            TokenKind::Ifte => Some(Builtin::IfThenElse),
            _ => None,
        }
    }

    fn error(&self, span: Span, message: String) -> (e: AtomError)
        requires
            self.wf(),
        ensures
            ({
                let cs = self.text();
                let at = cs.take(min(span.start as int, cs.len() as int));
                e@ == ErrorModel::SyntaxError {
                    message: message@,
                    line: location_after(at).0 as usize,
                    column: location_after(at).1 as usize,
                }
            }),
    {
        let (line, column) = span.to_location(self.src);
        AtomError::SyntaxError { message, line, column }
    }
}

} // verus!

verus! {

fn escape_char_exec(c: char) -> (r: Option<char>)
    ensures
        r == escape_char(c),
{
    if c == 'n' {
        Some('\n')
    } else if c == 'r' {
        Some('\r')
    } else if c == 't' {
        Some('\t')
    } else if c == '0' {
        Some('\0')
    } else if c == '\\' {
        Some('\\')
    } else if c == '\'' {
        Some('\'')
    } else if c == '"' {
        Some('"')
    } else if c == 'a' {
        Some('\x07')
    } else if c == 'b' {
        Some('\x08')
    } else if c == 'f' {
        Some('\x0c')
    } else if c == 'v' {
        Some('\x0b')
    } else {
        None
    }
}

proof fn lemma_prepend_assoc(a: Seq<char>, b: Seq<char>, r: Result<Seq<char>, ErrorModel>)
    ensures
        prepend(a, prepend(b, r)) == prepend(a + b, r),
{
    match r {
        Ok(x) => {
            assert(a + (b + x) =~= (a + b) + x);
        },
        Err(_) => {},
    }
}

/// The string that the body of a string literal denotes.
pub fn unescape(input: &Vec<char>) -> (r: AtomResult<String>)
    requires
        utf8_len(input@) <= usize::MAX,
    ensures
        match unescape_from(input@, 0) {
            Ok(s) => r matches Ok(t) && t@ == s,
            Err(m) => r matches Err(e) && e@ == m,
        },
{
    let ghost cs = input@;
    let mut out = String::new();
    let mut k: usize = 0;
    let mut bi: usize = 0;
    proof {
        assert(cs.take(0) =~= Seq::<char>::empty());
        assert(prepend(out@, unescape_from(cs, 0)) == unescape_from(cs, 0)) by {
            match unescape_from(cs, 0) {
                Ok(x) => {
                    assert(out@ + x =~= x);
                },
                Err(_) => {},
            }
        }
    }
    while k < input.len()
        invariant
            k <= cs.len(),
            cs == input@,
            utf8_len(cs) <= usize::MAX,
            bi == utf8_len(cs.take(k as int)),
            unescape_from(cs, 0) == prepend(out@, unescape_from(cs, k as int)),
        decreases cs.len() - k,
    {
        let c = input[k];
        proof {
            lemma_utf8_len_take(cs, k as int);
            lemma_utf8_len_subrange(cs, 0, k + 1);
            assert(cs.subrange(0, k + 1) =~= cs.take(k + 1));
        }
        if c != '\\' {
            proof {
                lemma_prepend_assoc(out@, seq![c], unescape_from(cs, k + 1));
            }
            let ghost before = out@;
            string_push(&mut out, c);
            assert(out@ =~= before + seq![c]);
            bi = bi + len_utf8(c);
            k = k + 1;
        } else {
            if k + 1 >= input.len() {
                return Err(AtomError::TrailingBackslash);
            }
            let esc = input[k + 1];
            match escape_char_exec(esc) {
                Some(e) => {
                    proof {
                        lemma_prepend_assoc(out@, seq![e], unescape_from(cs, k + 2));
                        lemma_utf8_len_take(cs, k + 1);
                        lemma_utf8_len_subrange(cs, 0, k + 2);
                        assert(cs.subrange(0, k + 2) =~= cs.take(k + 2));
                    }
                    let ghost before = out@;
                    string_push(&mut out, e);
                    assert(out@ =~= before + seq![e]);
                    bi = bi + 1 + len_utf8(esc);
                    k = k + 2;
                },
                None => {
                    return Err(AtomError::InvalidEscape { index: bi, ch: esc });
                },
            }
        }
    }
    proof {
        match unescape_from(cs, 0) {
            Ok(x) => {
                assert(out@ + seq![] =~= out@);
            },
            Err(_) => {},
        }
    }
    Ok(out)
}

} // verus!

verus! {

pub open spec fn tok_spec(tok: Token, s: usize, e: usize) -> TokSpec {
    TokSpec { kind: tok.kind, start: s as int, end: e as int }
}

impl<'a> Parser<'a> {
    /// Reads nodes up to the delimiter `until`, which is left unread, or to
    /// the end of the tokens when `until` is `None`.
    pub fn parse_stream(&mut self, until: Option<TokenKind>) -> (r: AtomResult<Vec<SpannedNode>>)
        requires
            old(self).wf(),
        ensures
            final(self).wf(),
            final(self).text() == old(self).text(),
            final(self).rest().len() <= old(self).rest().len(),
            match p_stream(old(self).text(), old(self).rest(), until, seq![]) {
                Ok((ns, rest)) => r matches Ok(v) && view_nodes(v@) == ns && final(self).rest()
                    == rest,
                Err(m) => r matches Err(e) && e@ == m,
            },
        decreases old(self).rest().len(), 1nat,
    {
        let ghost cs = self.text();
        let ghost start = self.rest();
        let mut nodes: Vec<SpannedNode> = Vec::new();
        loop
            invariant
                self.wf(),
                self.text() == cs,
                cs == old(self).text(),
                start == old(self).rest(),
                self.rest().len() <= start.len(),
                p_stream(cs, start, until, seq![]) == p_stream(
                    cs,
                    self.rest(),
                    until,
                    view_nodes(nodes@),
                ),
            ensures
                self.wf(),
                self.text() == cs,
                self.rest().len() <= start.len(),
                p_stream(cs, start, until, seq![]) == p_stream(
                    cs,
                    self.rest(),
                    until,
                    view_nodes(nodes@),
                ),
                self.rest().len() == 0 || until == Some(self.rest()[0].kind),
            decreases self.rest().len(),
        {
            let ghost cur = self.rest();
            let peeked = self.peek_token();
            match peeked {
                None => {
                    break ;
                },
                Some(tok) => {
                    if let Some(delim) = until {
                        if tok.kind == delim {
                            break ;
                        }
                    }
                },
            }
            let (token, ts, te) = match self.next_token() {
                Some(x) => x,
                None => {
                    assert(false);
                    break ;
                },
            };
            assert(self.rest().len() < start.len());
            let node = self.parse_token(token, ts, te)?;
            proof {
                lemma_view_nodes_push(nodes@, node);
            }
            nodes.push(node);
        }
        if let Some(delim) = until {
            if self.peek_token().is_none() {
                let mut message = "Unclosed block: expected closing ".to_owned();
                message.append(delim.name());
                return Err(AtomError::SyntaxError { message, line: 0, column: 0 });
            }
        }
        Ok(nodes)
    }

    fn parse_next_single_node(&mut self, context: &str) -> (r: AtomResult<SpannedNode>)
        requires
            old(self).wf(),
        ensures
            final(self).wf(),
            final(self).text() == old(self).text(),
            final(self).rest().len() <= old(self).rest().len(),
            match p_single(old(self).text(), old(self).rest(), context@) {
                Ok((n, rest)) => r matches Ok(x) && view_spanned(x) == n && final(self).rest() == rest,
                Err(m) => r matches Err(e) && e@ == m,
            },
        decreases old(self).rest().len(), 1nat,
    {
        match self.next_token() {
            None => {
                let mut message = "Unexpected EOF: missing ".to_owned();
                message.append(context);
                Err(AtomError::SyntaxError { message, line: 0, column: 0 })
            },
            Some((token, s, e)) => self.parse_token(token, s, e),
        }
    }

    fn parse_token(&mut self, token: Token, s: usize, e: usize) -> (r: AtomResult<SpannedNode>)
        requires
            old(self).wf(),
            s < e <= old(self).text().len(),
            token.kind != TokenKind::Comment,
            token == token_of(old(self).text(), tok_spec(token, s, e)),
        ensures
            final(self).wf(),
            final(self).text() == old(self).text(),
            final(self).rest().len() <= old(self).rest().len(),
            match p_token(old(self).text(), tok_spec(token, s, e), old(self).rest()) {
                Ok((n, rest)) => r matches Ok(x) && view_spanned(x) == n && final(self).rest() == rest,
                Err(m) => r matches Err(x) && x@ == m,
            },
        decreases old(self).rest().len(), 4nat,
    {
        let node = self.token_node(token, s, e)?;
        let end_pos = match self.peek_token() {
            Some(tk) => tk.span.start,
            None => token.span.end,
        };
        Ok(Spanned { node, span: Span { start: token.span.start, end: end_pos } })
    }

    #[verifier::rlimit(40)]
    fn token_node(&mut self, token: Token, s: usize, e: usize) -> (r: AtomResult<Node>)
        requires
            old(self).wf(),
            s < e <= old(self).text().len(),
            token.kind != TokenKind::Comment,
            token == token_of(old(self).text(), tok_spec(token, s, e)),
        ensures
            final(self).wf(),
            final(self).text() == old(self).text(),
            final(self).rest().len() <= old(self).rest().len(),
            match p_node(old(self).text(), tok_spec(token, s, e), old(self).rest()) {
                Ok((n, rest)) => r matches Ok(x) && view_node(x) == n && final(self).rest() == rest,
                Err(m) => r matches Err(x) && x@ == m,
            },
        decreases old(self).rest().len(), 3nat,
    {
        let ghost cs = self.text();
        let ghost t = tok_spec(token, s, e);
        match token.kind {
            TokenKind::StringLiteral => self.string_node(s, e),
            TokenKind::NumberLiteral => Ok(Node::Number(self.lexeme(s, e))),
            TokenKind::Nil => Ok(Node::Nil),
            TokenKind::DollarIdent => self.define_node(s, e),
            TokenKind::HashIdent => Ok(self.name_node(token.kind, s, e)),
            TokenKind::GreaterIdent => Ok(self.name_node(token.kind, s, e)),
            TokenKind::LessIdent => Ok(self.name_node(token.kind, s, e)),
            TokenKind::LQuote => {
                let block_nodes = self.group_nodes(TokenKind::RQuote)?;
                Ok(Node::Block(block_nodes))
            },
            TokenKind::LList => {
                let list_nodes = self.group_nodes(TokenKind::RList)?;
                Ok(Node::List(list_nodes))
            },
            TokenKind::If => self.if_node(token, s, e),
            other => {
                proof {
                    lemma_utf8_len_mono(cs, s as int, cs.len() as int);
                    assert(cs.take(cs.len() as int) =~= cs);
                }
                self.word_node(token)
            },
        }
    }

    fn define_node(&mut self, s: usize, e: usize) -> (r: AtomResult<Node>)
        requires
            old(self).wf(),
            s < e <= old(self).text().len(),
        ensures
            final(self).wf(),
            final(self).text() == old(self).text(),
            final(self).rest().len() <= old(self).rest().len(),
            match p_single(old(self).text(), old(self).rest(), "definition body"@) {
                Ok((body, rest)) => r matches Ok(x) && view_node(x) == NodeModel::Define {
                    name: old(self).text().subrange(s as int, e as int).drop_first(),
                    body: Box::new(body),
                } && final(self).rest() == rest,
                Err(m) => r matches Err(x) && x@ == m,
            },
        decreases old(self).rest().len(), 2nat,
    {
        let name = self.lexeme(s + 1, e);
        assert(name@ =~= self.text().subrange(s as int, e as int).drop_first());
        let body = self.parse_next_single_node("definition body")?;
        Ok(Node::Define { name, body: Box::new(body) })
    }

    fn name_node(&self, kind: TokenKind, s: usize, e: usize) -> (r: Node)
        requires
            self.wf(),
            s < e <= self.text().len(),
            kind == TokenKind::HashIdent || kind == TokenKind::GreaterIdent || kind
                == TokenKind::LessIdent,
        ensures
            ({
                let name = self.text().subrange(s as int, e as int).drop_first();
                view_node(r) == if kind == TokenKind::HashIdent {
                    NodeModel::WordRef(name)
                } else if kind == TokenKind::GreaterIdent {
                    NodeModel::BindVar(name)
                } else {
                    NodeModel::FetchVar(name)
                }
            }),
    {
        let name = self.lexeme(s + 1, e);
        assert(name@ =~= self.text().subrange(s as int, e as int).drop_first());
        match kind {
            TokenKind::HashIdent => Node::WordRef(name),
            TokenKind::GreaterIdent => Node::BindVar(name),
            _ => Node::FetchVar(name),
        }
    }

    fn word_node(&self, token: Token) -> (r: AtomResult<Node>)
        requires
            self.wf(),
        ensures
            match spec_builtin_of(token.kind) {
                Some(b) => r matches Ok(x) && view_node(x) == NodeModel::Builtin(b),
                None => r matches Err(x) && ({
                    let cs = self.text();
                    let at = cs.take(min(token.span.start as int, cs.len() as int));
                    x@ == ErrorModel::SyntaxError {
                        message: unrecognized(token.kind),
                        line: location_after(at).0 as usize,
                        column: location_after(at).1 as usize,
                    }
                }),
            },
    {
        match self.match_builtin(token.kind) {
            Some(b) => Ok(Node::Builtin(b)),
            None => {
                let mut message = "Unrecognized primitive: ".to_owned();
                message.append(token.kind.name());
                Err(self.error(token.span, message))
            },
        }
    }

    fn string_node(&self, s: usize, e: usize) -> (r: AtomResult<Node>)
        requires
            self.wf(),
            s < e <= self.text().len(),
        ensures
            match unescape_from(literal_body(self.text().subrange(s as int, e as int)), 0) {
                Ok(st) => r matches Ok(x) && view_node(x) == NodeModel::String(st),
                Err(m) => r matches Err(x) && x@ == m,
            },
    {
        let mut raw: Vec<char> = Vec::new();
        let n = e - s;
        let (from, to) = if n >= 2 && self.chars[s] == '"' && self.chars[e - 1] == '"' {
            (s + 1, e - 1)
        } else {
            (s, e)
        };
        let mut i = from;
        while i < to
            invariant
                from <= i <= to <= self.chars@.len(),
                raw@ == self.chars@.subrange(from as int, i as int),
            decreases to - i,
        {
            raw.push(self.chars[i]);
            assert(self.chars@.subrange(from as int, i + 1) =~= self.chars@.subrange(
                from as int,
                i as int,
            ).push(self.chars@[i as int]));
            i = i + 1;
        }
        proof {
            assert(raw@ =~= literal_body(self.text().subrange(s as int, e as int)));
            lemma_utf8_len_subrange(self.chars@, from as int, to as int);
        }
        match unescape(&raw) {
            Ok(st) => Ok(Node::String(st)),
            Err(x) => Err(x),
        }
    }

    fn group_nodes(&mut self, delim: TokenKind) -> (r: AtomResult<Vec<SpannedNode>>)
        requires
            old(self).wf(),
        ensures
            final(self).wf(),
            final(self).text() == old(self).text(),
            final(self).rest().len() <= old(self).rest().len(),
            match p_group(old(self).text(), old(self).rest(), delim) {
                Ok((ns, rest)) => r matches Ok(v) && view_nodes(v@) == ns && final(self).rest()
                    == rest,
                Err(m) => r matches Err(x) && x@ == m,
            },
        decreases old(self).rest().len(), 2nat,
    {
        let nodes = self.parse_stream(Some(delim))?;
        proof {
            lemma_stream_ends_at_delim(old(self).text(), old(self).rest(), delim, seq![]);
        }
        self.next_token();
        Ok(nodes)
    }

    fn if_node(&mut self, token: Token, s: usize, e: usize) -> (r: AtomResult<Node>)
        requires
            old(self).wf(),
            token == token_of(old(self).text(), tok_spec(token, s, e)),
        ensures
            final(self).wf(),
            final(self).text() == old(self).text(),
            final(self).rest().len() <= old(self).rest().len(),
            match p_if(old(self).text(), tok_spec(token, s, e), old(self).rest()) {
                Ok((n, rest)) => r matches Ok(x) && view_node(x) == n && final(self).rest() == rest,
                Err(m) => r matches Err(x) && x@ == m,
            },
        decreases old(self).rest().len(), 2nat,
    {
        let ghost cs = self.text();
        let ghost t = tok_spec(token, s, e);
        let ghost after = self.rest();
        let then_br = self.parse_next_single_node("`then` branch")?;
        let ghost r1 = self.rest();
        assert(p_single(cs, after, "`then` branch"@) == Ok::<(SpannedModel, Seq<TokSpec>), ErrorModel>((view_spanned(then_br), r1)));
        let has_else = match self.peek_token() {
            Some(tk) => tk.kind == TokenKind::Else,
            None => false,
        };
        assert(has_else == (r1.len() > 0 && r1[0].kind == TokenKind::Else));
        let else_br = if has_else {
            self.next_token();
            assert(self.rest() == r1.drop_first());
            let x = self.parse_next_single_node("`else` branch")?;
            assert(p_single(cs, r1.drop_first(), "`else` branch"@) == Ok::<(SpannedModel, Seq<TokSpec>), ErrorModel>((view_spanned(x), self.rest())));
            x
        } else {
            let empty: Vec<SpannedNode> = Vec::new();
            assert(view_nodes(empty@) =~= Seq::<SpannedModel>::empty());
            Spanned { node: Node::Block(empty), span: token.span }
        };
        let node = Node::If { then_br: Box::new(then_br), else_br: Box::new(else_br) };
        proof {
            if has_else {
                assert(p_if(cs, t, after) == Ok::<(NodeModel, Seq<TokSpec>), ErrorModel>((view_node(node), self.rest())));
            } else {
                let empty = SpannedModel {
                    node: NodeModel::Block(seq![]),
                    span: Span {
                        start: byte_at(cs, t.start) as usize,
                        end: byte_at(cs, t.end) as usize,
                    },
                };
                assert(view_spanned(else_br) == empty);
                assert(view_node(node) == NodeModel::If { then_br: Box::new(view_spanned(then_br)), else_br: Box::new(empty) });
                assert(p_if(cs, t, after) == Ok::<(NodeModel, Seq<TokSpec>), ErrorModel>((view_node(node), self.rest())));
            }
        }
        Ok(node)
    }
}

impl Program {
    /// Parses a whole source text.
    pub fn parse(buf: &str) -> (r: AtomResult<Self>)
        requires
            utf8_len(buf@) < usize::MAX,
        ensures
            match spec_parse_program(buf@) {
                Ok(ns) => r matches Ok(p) && view_nodes(p.nodes@) == ns,
                Err(m) => r matches Err(e) && e@ == m,
            },
    {
        let mut parser = Parser::new(buf);
        let nodes = parser.parse_stream(None)?;
        Ok(Self { nodes })
    }
}

} // verus!
