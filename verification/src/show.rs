//! Printing a syntax tree with the source positions of its nodes, one
//! node per line, children indented by two spaces a level.
use vstd::math::{max, min};
use vstd::prelude::*;

use crate::compiler::{
    bits_of_literal, key_of_bits, lemma_view_nodes_index, lookup_bits, lookup_key, node_covered,
    nodes_covered, NumberInfo,
};
use crate::lexer::{location_after, Span};
use crate::parser::{
    builtin_name, view_node, view_nodes, view_spanned, Node, NodeModel, Program, Spanned, SpannedModel,
};
use crate::text::{decimal, push_number, str_debug, str_debug_text};

verus! {

/// The text the float formatter writes for the number a literal denotes,
/// as the table of numbers gives it.
pub open spec fn number_text(tbl: Seq<NumberInfo>, lit: Seq<char>) -> Seq<char> {
    key_of_bits(tbl, bits_of_literal(tbl, lit))
}

/// Two spaces a level.
pub open spec fn pad(indent: nat) -> Seq<char>
    decreases indent,
{
    if indent == 0 {
        seq![]
    } else {
        pad((indent - 1) as nat) + "  "@
    }
}

/// The prefix `@line:column ` of the place where a span starts.
pub open spec fn position_text(span: Span, src: Seq<char>) -> Seq<char> {
    let l = location_after(src.take(min(span.start as int, src.len() as int)));
    "@"@ + decimal(l.0 as nat) + ":"@ + decimal(l.1 as nat) + " "@
}

/// The text of a node.
pub open spec fn node_text(n: NodeModel, src: Seq<char>, tbl: Seq<NumberInfo>, indent: nat) -> Seq<char>
    decreases n, 1nat,
{
    let p = pad(indent);
    match n {
        NodeModel::Number(s) => "Number("@ + number_text(tbl, s) + ")"@,
        NodeModel::String(s) => "String("@ + str_debug(s) + ")"@,
        NodeModel::Nil => "Nil"@,
        NodeModel::Builtin(b) => builtin_name(b),
        NodeModel::WordRef(s) => "WordRef("@ + s + ")"@,
        NodeModel::BindVar(s) => "BindVar(<"@ + s + ")"@,
        NodeModel::FetchVar(s) => "FetchVar($"@ + s + ")"@,
        NodeModel::Block(ns) => "Block"@ + " [\n"@ + items_text(ns, src, tbl, indent) + p + "]"@,
        NodeModel::List(ns) => "List"@ + " [\n"@ + items_text(ns, src, tbl, indent) + p + "]"@,
        NodeModel::Define { name, body } => "Define("@ + name + ") {\n"@ + p + "  body: "@
            + spanned_text(*body, src, tbl, indent + 1) + "\n"@ + p + "}"@,
        NodeModel::If { then_br, else_br } => "If {\n"@ + p + "  then: "@ + spanned_text(
            *then_br,
            src,
            tbl,
            indent + 1,) + "\n"@ + p + "  else: "@ + spanned_text(*else_br, src, tbl, indent + 1) + "\n"@ + p
            + "}"@,
    }
}

/// The text of a node with its position.
pub open spec fn spanned_text(s: SpannedModel, src: Seq<char>, tbl: Seq<NumberInfo>, indent: nat) -> Seq<char>
    decreases s, 2nat,
{
    position_text(s.span, src) + node_text(s.node, src, tbl, indent)
}

/// The lines of the children of a node at level `indent`.
pub open spec fn items_text(ns: Seq<SpannedModel>, src: Seq<char>, tbl: Seq<NumberInfo>, indent: nat) -> Seq<char>
    decreases ns, 0nat,
{
    if ns.len() == 0 {
        seq![]
    } else {
        items_text(ns.drop_last(), src, tbl, indent) + pad(indent) + "  "@ + spanned_text(
            ns.last(),
            src,
            tbl,
            indent + 1,) + "\n"@
    }
}

/// How deeply a node nests.
pub open spec fn node_depth(n: NodeModel) -> nat
    decreases n, 1nat,
{
    match n {
        NodeModel::Block(ns) => 1 + items_depth(ns),
        NodeModel::List(ns) => 1 + items_depth(ns),
        NodeModel::Define { body, .. } => 1 + node_depth(body.node),
        NodeModel::If { then_br, else_br } => 1 + max(
            node_depth(then_br.node) as int,
            node_depth(else_br.node) as int,
        ) as nat,
        _ => 0,
    }
}

/// How deeply the deepest of the nodes nests.
pub open spec fn items_depth(ns: Seq<SpannedModel>) -> nat
    decreases ns, 0nat,
{
    if ns.len() == 0 {
        0
    } else {
        max(items_depth(ns.drop_last()) as int, node_depth(ns.last().node) as int) as nat
    }
}

proof fn lemma_items_depth(ns: Seq<SpannedModel>, i: int)
    requires
        0 <= i < ns.len(),
    ensures
        node_depth(ns[i].node) <= items_depth(ns),
    decreases ns.len(),
{
    if i < ns.len() - 1 {
        lemma_items_depth(ns.drop_last(), i);
    }
}

/// A value that can be printed with the positions of its parts in the
/// source it was parsed from. A number is printed as the float formatter
/// writes it, which a table of the numbers of the source gives.
pub trait DisplayWithSrc {
    /// The printed text, nested `indent` levels.
    spec fn text_with_src(&self, src: Seq<char>, tbl: Seq<NumberInfo>, indent: nat) -> Seq<char>;

    /// How deeply the value nests.
    spec fn depth(&self) -> nat;

    /// Every number literal in the value has an entry in the table.
    spec fn covered(&self, tbl: Seq<NumberInfo>) -> bool;

    /// Appends the printed text.
    fn fmt_with_src(&self, out: &mut String, src: &str, numbers: &Vec<NumberInfo>, indent: usize)
        requires
            src@.len() < usize::MAX,
            indent + self.depth() < usize::MAX,
            self.covered(numbers@),
        ensures
            final(out)@ == old(out)@ + self.text_with_src(src@, numbers@, indent as nat),
    ;

    /// The value together with its source and the table of its numbers,
    /// ready to print.
    fn display<'a>(&'a self, src: &'a str, numbers: &'a Vec<NumberInfo>) -> (r: WithSrc<'a, Self>) where
        Self: Sized,

        ensures
            r.value() == self,
            r.src() == src,
            r.numbers() == numbers,
    {
        WithSrc { value: self, src, numbers }
    }
}

/// A value together with the source it was parsed from and the table of
/// its numbers.
pub struct WithSrc<'a, T> {
    value: &'a T,
    src: &'a str,
    numbers: &'a Vec<NumberInfo>,
}

impl<'a, T> WithSrc<'a, T> {
    pub closed spec fn value(&self) -> &'a T {
        self.value
    }

    pub closed spec fn src(&self) -> &'a str {
        self.src
    }

    pub closed spec fn numbers(&self) -> &'a Vec<NumberInfo> {
        self.numbers
    }
}

impl<'a, T: DisplayWithSrc> WithSrc<'a, T> {
    /// The printed text of the value.
    pub fn to_string(&self) -> (r: String)
        requires
            self.src()@.len() < usize::MAX,
            self.value().depth() < usize::MAX,
            self.value().covered(self.numbers()@),
        ensures
            r@ == self.value().text_with_src(self.src()@, self.numbers()@, 0),
    {
        let mut out = String::new();
        self.value.fmt_with_src(&mut out, self.src, self.numbers, 0);
        out
    }
}

/// Appends two spaces a level.
fn push_pad(out: &mut String, indent: usize)
    ensures
        final(out)@ == old(out)@ + pad(indent as nat),
{
    let mut i: usize = 0;
    assert(old(out)@ + pad(0) =~= old(out)@);
    while i < indent
        invariant
            i <= indent,
            out@ == old(out)@ + pad(i as nat),
        decreases indent - i,
    {
        out.append("  ");
        assert(out@ =~= old(out)@ + pad((i + 1) as nat));
        i = i + 1;
    }
}

/// Appends the position at which a span starts.
fn push_position(out: &mut String, span: &Span, src: &str)
    requires
        src@.len() < usize::MAX,
    ensures
        final(out)@ == old(out)@ + position_text(*span, src@),
{
    let (line, column) = span.to_location(src);
    out.append("@");
    push_number(out, line);
    out.append(":");
    push_number(out, column);
    out.append(" ");
    assert(out@ =~= old(out)@ + position_text(*span, src@));
}

/// Appends a line for each node, one level below `indent`.
fn push_items(out: &mut String, nodes: &Vec<Spanned<Node>>, src: &str, numbers: &Vec<NumberInfo>, indent: usize)
    requires
        src@.len() < usize::MAX,
        indent + 1 + items_depth(view_nodes(nodes@)) < usize::MAX,
        nodes_covered(numbers@, view_nodes(nodes@)),
    ensures
        final(out)@ == old(out)@ + items_text(view_nodes(nodes@), src@, numbers@, indent as nat),
    decreases nodes, 0nat,
{
    let ghost items = view_nodes(nodes@);
    proof {
        lemma_view_nodes_index(nodes@);
        assert(items.take(0) =~= Seq::<SpannedModel>::empty());
        assert(old(out)@ + items_text(items.take(0), src@, numbers@, indent as nat) =~= old(out)@);
    }
    let mut i: usize = 0;
    while i < nodes.len()
        invariant
            i <= nodes@.len(),
            src@.len() < usize::MAX,
            items == view_nodes(nodes@),
            items.len() == nodes@.len(),
            forall|k: int| 0 <= k < nodes@.len() ==> #[trigger] items[k] == view_spanned(nodes@[k]),
            indent + 1 + items_depth(items) < usize::MAX,
            nodes_covered(numbers@, items),
            out@ == old(out)@ + items_text(items.take(i as int), src@, numbers@, indent as nat),
        decreases nodes@.len() - i,
    {
        let ghost before = out@;
        proof {
            lemma_items_depth(items, i as int);
        }
        push_pad(out, indent);
        out.append("  ");
        push_position(out, &nodes[i].span, src);
        fmt_node(&nodes[i].node, out, src, numbers, indent + 1);
        out.append("\n");
        proof {
            let t = items.take(i + 1);
            assert(t.drop_last() =~= items.take(i as int));
            assert(t.last() == items[i as int]);
            assert(spanned_text(items[i as int], src@, numbers@, (indent + 1) as nat) == position_text(
                nodes@[i as int].span,
                src@,
            ) + node_text(view_node(nodes@[i as int].node), src@, numbers@, (indent + 1) as nat));
            assert(out@ =~= before + pad(indent as nat) + "  "@ + spanned_text(
                items[i as int],
                src@,
                numbers@,
                (indent + 1) as nat,) + "\n"@);
            assert(items_text(t, src@, numbers@, indent as nat) == items_text(
                items.take(i as int),
                src@,
                numbers@,
                indent as nat,) + pad(indent as nat) + "  "@ + spanned_text(items[i as int], src@, numbers@, (indent + 1) as nat)
                + "\n"@);
            assert(out@ =~= old(out)@ + items_text(t, src@, numbers@, indent as nat));
        }
        i = i + 1;
    }
    assert(items.take(nodes@.len() as int) =~= items);
}

/// Appends a label, then the lines of the nodes in brackets.
fn fmt_group(label: &str, nodes: &Vec<Spanned<Node>>, out: &mut String, src: &str, numbers: &Vec<NumberInfo>, indent: usize)
    requires
        src@.len() < usize::MAX,
        indent + 1 + items_depth(view_nodes(nodes@)) < usize::MAX,
        nodes_covered(numbers@, view_nodes(nodes@)),
    ensures
        final(out)@ == old(out)@ + label@ + " [\n"@ + items_text(
            view_nodes(nodes@),
            src@,
            numbers@,
            indent as nat,) + pad(indent as nat) + "]"@,
    decreases nodes, 1nat,
{
    out.append(label);
    out.append(" [\n");
    push_items(out, nodes, src, numbers, indent);
    push_pad(out, indent);
    out.append("]");
    assert(out@ =~= old(out)@ + label@ + " [\n"@ + items_text(
        view_nodes(nodes@),
        src@,
        numbers@,
        indent as nat,) + pad(indent as nat) + "]"@);
}

/// Appends the text of a definition.
#[verifier::rlimit(30)]
fn fmt_define(node: &Node, out: &mut String, src: &str, numbers: &Vec<NumberInfo>, indent: usize)
    requires
        *node is Define,
        src@.len() < usize::MAX,
        indent + node_depth(view_node(*node)) < usize::MAX,
        node_covered(numbers@, view_node(*node)),
    ensures
        final(out)@ == old(out)@ + node_text(view_node(*node), src@, numbers@, indent as nat),
    decreases node, 1nat,
{
    match node {
        Node::Define { name, body } => {
            let ghost p = pad(indent as nat);
            let ghost t = spanned_text(view_spanned(**body), src@, numbers@, (indent + 1) as nat);
            assert(node_text(view_node(*node), src@, numbers@, indent as nat) == "Define("@ + name@
                + ") {\n"@ + p + "  body: "@ + t + "\n"@ + p + "}"@);
            assert(indent + 1 + node_depth(view_node(body.node)) < usize::MAX);
            out.append("Define(");
            out.append(name.as_str());
            out.append(") {\n");
            push_pad(out, indent);
            out.append("  body: ");
            let ghost b = out@;
            push_position(out, &body.span, src);
            fmt_node(&body.node, out, src, numbers, indent + 1);
            assert(out@ =~= b + spanned_text(view_spanned(**body), src@, numbers@, (indent + 1) as nat));
            out.append("\n");
            push_pad(out, indent);
            out.append("}");
            assert(out@ =~= old(out)@ + node_text(view_node(*node), src@, numbers@, indent as nat));
        },
        _ => {},
    }
}

/// Appends the text of a conditional.
#[verifier::rlimit(30)]
fn fmt_if(node: &Node, out: &mut String, src: &str, numbers: &Vec<NumberInfo>, indent: usize)
    requires
        *node is If,
        src@.len() < usize::MAX,
        indent + node_depth(view_node(*node)) < usize::MAX,
        node_covered(numbers@, view_node(*node)),
    ensures
        final(out)@ == old(out)@ + node_text(view_node(*node), src@, numbers@, indent as nat),
    decreases node, 1nat,
{
    match node {
        Node::If { then_br, else_br } => {
            let ghost p = pad(indent as nat);
            let ghost t = spanned_text(view_spanned(**then_br), src@, numbers@, (indent + 1) as nat);
            let ghost e = spanned_text(view_spanned(**else_br), src@, numbers@, (indent + 1) as nat);
            assert(node_text(view_node(*node), src@, numbers@, indent as nat) == "If {\n"@ + p + "  then: "@
                + t + "\n"@ + p + "  else: "@ + e + "\n"@ + p + "}"@);
            assert(indent + 1 + node_depth(view_node(then_br.node)) < usize::MAX);
            assert(indent + 1 + node_depth(view_node(else_br.node)) < usize::MAX);
            out.append("If {\n");
            push_pad(out, indent);
            out.append("  then: ");
            let ghost b1 = out@;
            push_position(out, &then_br.span, src);
            fmt_node(&then_br.node, out, src, numbers, indent + 1);
            assert(out@ =~= b1 + t);
            out.append("\n");
            push_pad(out, indent);
            out.append("  else: ");
            let ghost b2 = out@;
            assert(b2 =~= old(out)@ + "If {\n"@ + p + "  then: "@ + t + "\n"@ + p + "  else: "@);
            push_position(out, &else_br.span, src);
            fmt_node(&else_br.node, out, src, numbers, indent + 1);
            assert(out@ =~= b2 + e);
            out.append("\n");
            push_pad(out, indent);
            out.append("}");
            assert(out@ =~= old(out)@ + node_text(view_node(*node), src@, numbers@, indent as nat));
        },
        _ => {},
    }
}

/// Appends the text of a node.
fn fmt_node(node: &Node, out: &mut String, src: &str, numbers: &Vec<NumberInfo>, indent: usize)
    requires
        src@.len() < usize::MAX,
        indent + node_depth(view_node(*node)) < usize::MAX,
        node_covered(numbers@, view_node(*node)),
    ensures
        final(out)@ == old(out)@ + node_text(view_node(*node), src@, numbers@, indent as nat),
    decreases node, 2nat,
{
    match node {
        Node::Number(n) => {
            let bits = lookup_bits(numbers, n.as_str());
            let text = lookup_key(numbers, bits);
            out.append("Number(");
            out.append(text.as_str());
            out.append(")");
            assert(out@ =~= old(out)@ + node_text(view_node(*node), src@, numbers@, indent as nat));
        },
        Node::String(s) => {
            out.append("String(");
            let q = str_debug_text(s.as_str());
            out.append(q.as_str());
            out.append(")");
            assert(out@ =~= old(out)@ + node_text(view_node(*node), src@, numbers@, indent as nat));
        },
        Node::Nil => {
            out.append("Nil");
        },
        Node::Builtin(b) => {
            out.append(b.name());
        },
        Node::WordRef(name) => {
            out.append("WordRef(");
            out.append(name.as_str());
            out.append(")");
            assert(out@ =~= old(out)@ + node_text(view_node(*node), src@, numbers@, indent as nat));
        },
        Node::BindVar(name) => {
            out.append("BindVar(<");
            out.append(name.as_str());
            out.append(")");
            assert(out@ =~= old(out)@ + node_text(view_node(*node), src@, numbers@, indent as nat));
        },
        Node::FetchVar(name) => {
            out.append("FetchVar($");
            out.append(name.as_str());
            out.append(")");
            assert(out@ =~= old(out)@ + node_text(view_node(*node), src@, numbers@, indent as nat));
        },
        Node::Block(nodes) => {
            fmt_group("Block", nodes, out, src, numbers, indent);
        },
        Node::List(nodes) => {
            fmt_group("List", nodes, out, src, numbers, indent);
        },
        Node::Define { .. } => {
            fmt_define(node, out, src, numbers, indent);
        },
        Node::If { .. } => {
            fmt_if(node, out, src, numbers, indent);
        },
    }
}

impl<T: DisplayWithSrc> DisplayWithSrc for Spanned<T> {
    open spec fn text_with_src(&self, src: Seq<char>, tbl: Seq<NumberInfo>, indent: nat) -> Seq<char> {
        position_text(self.span, src) + self.node.text_with_src(src, tbl, indent)
    }

    open spec fn depth(&self) -> nat {
        self.node.depth()
    }

    open spec fn covered(&self, tbl: Seq<NumberInfo>) -> bool {
        self.node.covered(tbl)
    }

    fn fmt_with_src(&self, out: &mut String, src: &str, numbers: &Vec<NumberInfo>, indent: usize) {
        push_position(out, &self.span, src);
        self.node.fmt_with_src(out, src, numbers, indent);
        assert(out@ =~= old(out)@ + self.text_with_src(src@, numbers@, indent as nat));
    }
}

impl DisplayWithSrc for Node {
    open spec fn text_with_src(&self, src: Seq<char>, tbl: Seq<NumberInfo>, indent: nat) -> Seq<char> {
        node_text(view_node(*self), src, tbl, indent)
    }

    open spec fn depth(&self) -> nat {
        node_depth(view_node(*self))
    }

    open spec fn covered(&self, tbl: Seq<NumberInfo>) -> bool {
        node_covered(tbl, view_node(*self))
    }

    fn fmt_with_src(&self, out: &mut String, src: &str, numbers: &Vec<NumberInfo>, indent: usize) {
        fmt_node(self, out, src, numbers, indent);
    }
}

/// The text of a program's nodes.
pub open spec fn program_text(ns: Seq<SpannedModel>, src: Seq<char>, tbl: Seq<NumberInfo>, indent: nat) -> Seq<char> {
    "Program [\n"@ + items_text(ns, src, tbl, indent) + pad(indent) + "]"@
}

impl DisplayWithSrc for Program {
    open spec fn text_with_src(&self, src: Seq<char>, tbl: Seq<NumberInfo>, indent: nat) -> Seq<char> {
        program_text(view_nodes(self.nodes@), src, tbl, indent)
    }

    open spec fn depth(&self) -> nat {
        1 + items_depth(view_nodes(self.nodes@))
    }

    open spec fn covered(&self, tbl: Seq<NumberInfo>) -> bool {
        nodes_covered(tbl, view_nodes(self.nodes@))
    }

    fn fmt_with_src(&self, out: &mut String, src: &str, numbers: &Vec<NumberInfo>, indent: usize) {
        out.append("Program [\n");
        push_items(out, &self.nodes, src, numbers, indent);
        push_pad(out, indent);
        out.append("]");
        assert(out@ =~= old(out)@ + self.text_with_src(src@, numbers@, indent as nat));
    }
}

} // verus!

verus! {

/// One line for each node, each indented `2 * k` spaces and shown at level
/// `k`.
pub open spec fn lines_at(ns: Seq<SpannedModel>, src: Seq<char>, tbl: Seq<NumberInfo>, k: nat) -> Seq<
    char,
>
    decreases ns.len(),
{
    if ns.len() == 0 {
        seq![]
    } else {
        lines_at(ns.drop_last(), src, tbl, k) + pad(k) + spanned_text(ns.last(), src, tbl, k)
            + "\n"@
    }
}

proof fn lemma_items_lines(ns: Seq<SpannedModel>, src: Seq<char>, tbl: Seq<NumberInfo>, n: nat)
    ensures
        items_text(ns, src, tbl, n) == lines_at(ns, src, tbl, n + 1),
    decreases ns.len(),
{
    if ns.len() > 0 {
        lemma_items_lines(ns.drop_last(), src, tbl, n);
        assert(pad(n + 1) == pad(n) + "  "@);
        assert(items_text(ns, src, tbl, n) =~= lines_at(ns, src, tbl, n + 1));
    }
}

/// A definition shown at level `n` shows its body one level deeper: when
/// the body is a block, each of the block's nodes is on a line of its own,
/// indented `2 * (n + 2)` spaces and shown at level `n + 2`, and the
/// block's closing bracket is indented `2 * (n + 1)` spaces.
pub proof fn law_define_body_indent(
    name: Seq<char>,
    span: Span,
    ns: Seq<SpannedModel>,
    src: Seq<char>,
    tbl: Seq<NumberInfo>,
    n: nat,
)
    ensures
        node_text(
            NodeModel::Define {
                name,
                body: Box::new(SpannedModel { node: NodeModel::Block(ns), span }),
            },
            src,
            tbl,
            n,
        ) == "Define("@ + name + ") {\n"@ + pad(n) + "  body: "@ + position_text(span, src)
            + "Block [\n"@ + lines_at(ns, src, tbl, n + 2) + pad(n + 1) + "]"@ + "\n"@ + pad(n)
            + "}"@,
{
    lemma_items_lines(ns, src, tbl, n + 1);
    let body = SpannedModel { node: NodeModel::Block(ns), span };
    assert(spanned_text(body, src, tbl, n + 1) == position_text(span, src) + ("Block"@ + " [\n"@
        + items_text(ns, src, tbl, n + 1) + pad(n + 1) + "]"@));
    assert("Block"@ + " [\n"@ =~= "Block [\n"@) by {
        reveal_strlit("Block");
        reveal_strlit(" [\n");
        reveal_strlit("Block [\n");
    }
    assert(node_text(
        NodeModel::Define { name, body: Box::new(body) },
        src,
        tbl,
        n,
    ) =~= "Define("@ + name + ") {\n"@ + pad(n) + "  body: "@ + position_text(span, src)
        + "Block [\n"@ + lines_at(ns, src, tbl, n + 2) + pad(n + 1) + "]"@ + "\n"@ + pad(n)
        + "}"@);
}

} // verus!
