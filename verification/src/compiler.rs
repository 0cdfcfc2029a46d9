//! The compiler: from nodes to atoms and bytecode blobs bound to names.
use vstd::prelude::*;

use crate::assembler::{op_with_u16, Assembler};
use crate::atom::{
    spec_builtin_opcode, Atom, AtomError, AtomModel, AtomRef, AtomResult, ErrorModel, Opcode,
};
use crate::bytecode::str_bytes;
use crate::env::Env;
use crate::parser::{view_nodes, view_node, view_spanned, Node, NodeModel, Spanned, SpannedModel};
use crate::text::{decimal, push_decimal, str_eq, string_from_chars};

verus! {

/// The float that a number literal denotes, given as its bits, and the
/// name under which the compiler files that number (its decimal form as
/// the float formatter writes it).
pub struct NumberInfo {
    pub literal: String,
    pub bits: u64,
    pub key: String,
}

/// Bits of the first entry for `lit`.
pub open spec fn bits_of_literal(tbl: Seq<NumberInfo>, lit: Seq<char>) -> u64
    decreases tbl.len(),
{
    if tbl.len() == 0 {
        0
    } else if tbl[0].literal@ == lit {
        tbl[0].bits
    } else {
        bits_of_literal(tbl.drop_first(), lit)
    }
}

/// Name of the first entry whose number has these bits.
pub open spec fn key_of_bits(tbl: Seq<NumberInfo>, bits: u64) -> Seq<char>
    decreases tbl.len(),
{
    if tbl.len() == 0 {
        seq![]
    } else if tbl[0].bits == bits {
        tbl[0].key@
    } else {
        key_of_bits(tbl.drop_first(), bits)
    }
}

pub open spec fn has_literal(tbl: Seq<NumberInfo>, lit: Seq<char>) -> bool {
    exists|i: int| 0 <= i < tbl.len() && #[trigger] tbl[i].literal@ == lit
}

/// Every number literal in the nodes has an entry in the table.
pub open spec fn node_covered(tbl: Seq<NumberInfo>, n: NodeModel) -> bool
    decreases n, 0nat,
{
    match n {
        NodeModel::Number(lit) => has_literal(tbl, lit),
        NodeModel::Block(v) => nodes_covered(tbl, v),
        NodeModel::List(v) => nodes_covered(tbl, v),
        NodeModel::Define { name, body } => node_covered(tbl, body.node),
        NodeModel::If { then_br, else_br } => node_covered(tbl, then_br.node) && node_covered(
            tbl,
            else_br.node,
        ),
        _ => true,
    }
}

pub open spec fn nodes_covered(tbl: Seq<NumberInfo>, v: Seq<SpannedModel>) -> bool
    decreases v, 1nat,
{
    forall|i: int| 0 <= i < v.len() ==> node_covered(tbl, #[trigger] v[i].node)
}

/// The compiler's state: what is defined, and the counter that names
/// anonymous atoms.
pub struct CState {
    pub defs: Map<Seq<char>, AtomModel>,
    pub counter: usize,
}

/// The name under which an atom is filed, and the state after filing it:
/// `nil` for nil, the table's name for a number (both kept when already
/// defined), and `$` and the counter for anything else, which is then
/// counted.
pub open spec fn env_key(tbl: Seq<NumberInfo>, a: AtomModel, st: CState) -> (Seq<char>, CState) {
    match a {
        AtomModel::Nil => {
            let key = seq!['n', 'i', 'l'];
            (key, if st.defs.contains_key(key) {
                st
            } else {
                CState { defs: st.defs.insert(key, a), ..st }
            })
        },
        AtomModel::Num(bits) => {
            let key = key_of_bits(tbl, bits);
            (key, if st.defs.contains_key(key) {
                st
            } else {
                CState { defs: st.defs.insert(key, a), ..st }
            })
        },
        _ => {
            let key = seq!['$'] + decimal(st.counter as nat);
            let next = if st.counter == usize::MAX {
                0usize
            } else {
                (st.counter + 1) as usize
            };
            (key, CState { defs: st.defs.insert(key, a), counter: next })
        },
    }
}

/// Largest index that holds `name`, or -1.
pub open spec fn last_index(v: Seq<Seq<char>>, name: Seq<char>) -> int
    decreases v.len(),
{
    if v.len() == 0 {
        -1
    } else if v.last() == name {
        v.len() - 1
    } else {
        last_index(v.drop_last(), name)
    }
}

/// Depth of `name` on the return stack: its distance from the most recent
/// binding of the innermost scope that binds it, counting the bindings of
/// the scopes inside that one, cut to 16 bits.
pub open spec fn resolve(chain: Seq<Seq<Seq<char>>>, name: Seq<char>, depth: int) -> Result<u16, ErrorModel>
    decreases chain.len(),
{
    if chain.len() == 0 {
        Err(ErrorModel::UnboundVariable(name))
    } else {
        let b = chain.last();
        let p = last_index(b, name);
        if p >= 0 {
            Ok(((b.len() - 1 - p + depth) % 65536) as u16)
        } else if chain.len() == 1 {
            Err(ErrorModel::UnboundVariable(name))
        } else {
            resolve(chain.drop_last(), name, depth + b.len())
        }
    }
}

pub open spec fn push_env_bytes(key: Seq<char>) -> Seq<u8> {
    seq![Opcode::PushEnv.spec_byte()] + str_bytes(key)
}

pub type CAtom = Result<(AtomModel, CState), ErrorModel>;

pub type CCode = Result<(Seq<u8>, Seq<Seq<Seq<char>>>, CState), ErrorModel>;

/// The atom a node stands for: nil, a number, a string, a list of the
/// atoms of its items, or a blob with the code of a block compiled in a
/// scope of its own.
pub open spec fn c_atom(
    tbl: Seq<NumberInfo>,
    n: NodeModel,
    chain: Seq<Seq<Seq<char>>>,
    st: CState,
) -> CAtom
    decreases n, 0nat,
{
    match n {
        NodeModel::Nil => Ok((AtomModel::Nil, st)),
        NodeModel::Number(lit) => Ok((AtomModel::Num(bits_of_literal(tbl, lit)), st)),
        NodeModel::String(s) => Ok((AtomModel::Str(s), st)),
        NodeModel::List(items) => c_list(tbl, items, chain, AtomModel::Nil, st),
        NodeModel::Block(items) => match c_block(tbl, items, chain.push(seq![]), seq![], st) {
            Err(e) => Err(e),
            Ok((code, ch, st2)) => {
                let nb = ch.last().len();
                let code2 = if nb > 0 {
                    code + op_with_u16(Opcode::DropRet, (nb % 65536) as u16)
                } else {
                    code
                };
                Ok((AtomModel::Blob(code2), st2))
            },
        },
        _ => Err(ErrorModel::UnmappableNode),
    }
}

/// A list built from its last item to its first onto `tail`.
pub open spec fn c_list(
    tbl: Seq<NumberInfo>,
    items: Seq<SpannedModel>,
    chain: Seq<Seq<Seq<char>>>,
    tail: AtomModel,
    st: CState,
) -> CAtom
    decreases items, 1nat,
{
    if items.len() == 0 {
        Ok((tail, st))
    } else {
        match c_atom(tbl, items.last().node, chain, st) {
            Err(e) => Err(e),
            Ok((el, st1)) => c_list(
                tbl,
                items.drop_last(),
                chain,
                AtomModel::Cons(Box::new(el), Box::new(tail)),
                st1,
            ),
        }
    }
}

/// Code of the items in order, appended to `code`.
pub open spec fn c_block(
    tbl: Seq<NumberInfo>,
    items: Seq<SpannedModel>,
    chain: Seq<Seq<Seq<char>>>,
    code: Seq<u8>,
    st: CState,
) -> CCode
    decreases items, 1nat,
{
    if items.len() == 0 {
        Ok((code, chain, st))
    } else {
        match c_node(tbl, items[0].node, chain, code, st) {
            Err(e) => Err(e),
            Ok((code1, chain1, st1)) => c_block(tbl, items.drop_first(), chain1, code1, st1),
        }
    }
}

/// Code of one node appended to `code`: a value is filed and pushed by
/// name; a builtin is its opcode; a definition is filed; a binding moves
/// the top of the stack to the return stack; a variable is fetched from
/// it; `if` pushes both branches and chooses.
pub open spec fn c_node(
    tbl: Seq<NumberInfo>,
    n: NodeModel,
    chain: Seq<Seq<Seq<char>>>,
    code: Seq<u8>,
    st: CState,
) -> CCode
    decreases n, 1nat,
{
    match n {
        NodeModel::Builtin(b) => Ok((code.push(spec_builtin_opcode(b).spec_byte()), chain, st)),
        NodeModel::Define { name, body } => match c_atom(tbl, body.node, chain, st) {
            Err(e) => Err(e),
            Ok((a, st1)) => Ok((code, chain, CState { defs: st1.defs.insert(name, a), ..st1 })),
        },
        NodeModel::WordRef(name) => Ok((code + push_env_bytes(name), chain, st)),
        NodeModel::BindVar(name) => Ok(
            (
                code + op_with_u16(Opcode::ToRet, 1),
                chain.update(chain.len() - 1, chain.last().push(name)),
                st,
            ),
        ),
        NodeModel::FetchVar(name) => match resolve(chain, name, 0) {
            Err(e) => Err(e),
            Ok(idx) => Ok((code + op_with_u16(Opcode::FetchRet, idx), chain, st)),
        },
        NodeModel::If { then_br, else_br } => match c_atom(tbl, then_br.node, chain, st) {
            Err(e) => Err(e),
            Ok((ta, s1)) => {
                let (tk, s2) = env_key(tbl, ta, s1);
                match c_atom(tbl, else_br.node, chain, s2) {
                    Err(e) => Err(e),
                    Ok((ea, s3)) => {
                        let (ek, s4) = env_key(tbl, ea, s3);
                        Ok(
                            (
                                (code + push_env_bytes(tk) + push_env_bytes(ek)).push(
                                    Opcode::IfThenElse.spec_byte(),
                                ),
                                chain,
                                s4,
                            ),
                        )
                    },
                }
            },
        },
        _ => match c_atom(tbl, n, chain, st) {
            Err(e) => Err(e),
            Ok((a, s1)) => {
                let (key, s2) = env_key(tbl, a, s1);
                Ok((code + push_env_bytes(key), chain, s2))
            },
        },
    }
}

/// The program's top level, in order: a definition is filed; any other
/// node is compiled into the code of `main`, in the outermost scope.
pub open spec fn c_program(
    tbl: Seq<NumberInfo>,
    items: Seq<SpannedModel>,
    chain: Seq<Seq<Seq<char>>>,
    code: Seq<u8>,
    st: CState,
    loose: bool,
) -> Result<Map<Seq<char>, AtomModel>, ErrorModel>
    decreases items.len(),
{
    if items.len() == 0 {
        Ok(
            if loose {
                st.defs.insert(seq!['m', 'a', 'i', 'n'], AtomModel::Blob(code))
            } else {
                st.defs
            },
        )
    } else {
        match items[0].node {
            NodeModel::Define { name, body } => match c_atom(tbl, body.node, chain, st) {
                Err(e) => Err(e),
                Ok((a, st1)) => c_program(
                    tbl,
                    items.drop_first(),
                    chain,
                    code,
                    CState { defs: st1.defs.insert(name, a), ..st1 },
                    loose,
                ),
            },
            other => match c_node(tbl, other, chain, code, st) {
                Err(e) => Err(e),
                Ok((code1, chain1, st1)) => c_program(
                    tbl,
                    items.drop_first(),
                    chain1,
                    code1,
                    st1,
                    true,
                ),
            },
        }
    }
}

/// What compiling a program gives, starting from the given definitions and
/// counter.
pub open spec fn spec_compile(tbl: Seq<NumberInfo>, items: Seq<SpannedModel>, st: CState) -> Result<
    Map<Seq<char>, AtomModel>,
    ErrorModel,
> {
    c_program(tbl, items, seq![seq![]], seq![], st, false)
}

} // verus!

verus! {

pub(crate) fn lookup_bits(tbl: &Vec<NumberInfo>, lit: &str) -> (r: u64)
    requires
        has_literal(tbl@, lit@),
    ensures
        r == bits_of_literal(tbl@, lit@),
{
    let mut i: usize = 0;
    assert(tbl@.skip(0) =~= tbl@);
    while i < tbl.len()
        invariant
            i <= tbl@.len(),
            has_literal(tbl@.skip(i as int), lit@),
            bits_of_literal(tbl@, lit@) == bits_of_literal(tbl@.skip(i as int), lit@),
        decreases tbl@.len() - i,
    {
        let ghost rest = tbl@.skip(i as int);
        if str_eq(tbl[i].literal.as_str(), lit) {
            return tbl[i].bits;
        }
        proof {
            assert(rest.drop_first() =~= tbl@.skip(i + 1));
            let j = choose|j: int| 0 <= j < rest.len() && #[trigger] rest[j].literal@ == lit@;
            assert(rest.drop_first()[j - 1].literal@ == lit@);
        }
        i = i + 1;
    }
    proof {
        let j = choose|j: int| 0 <= j < tbl@.skip(i as int).len() && #[trigger] tbl@.skip(i as int)[j].literal@ == lit@;
    }
    0
}

pub(crate) fn lookup_key(tbl: &Vec<NumberInfo>, bits: u64) -> (r: String)
    ensures
        r@ == key_of_bits(tbl@, bits),
{
    let mut i: usize = 0;
    assert(tbl@.skip(0) =~= tbl@);
    while i < tbl.len()
        invariant
            i <= tbl@.len(),
            key_of_bits(tbl@, bits) == key_of_bits(tbl@.skip(i as int), bits),
        decreases tbl@.len() - i,
    {
        if tbl[i].bits == bits {
            return tbl[i].key.clone();
        }
        assert(tbl@.skip(i as int).drop_first() =~= tbl@.skip(i + 1));
        i = i + 1;
    }
    String::new()
}

} // verus!

verus! {

/// A scope of variable bindings, inside its parent's.
pub struct Scope<'a> {
    pub parent: Option<&'a Scope<'a>>,
    pub bindings: Vec<String>,
}

pub open spec fn names(v: Seq<String>) -> Seq<Seq<char>> {
    v.map_values(|s: String| s@)
}

/// The bindings of the scopes from the outermost to this one.
pub open spec fn scope_chain(s: Scope) -> Seq<Seq<Seq<char>>>
    decreases s,
{
    match s.parent {
        None => seq![names(s.bindings@)],
        Some(p) => scope_chain(*p).push(names(s.bindings@)),
    }
}

proof fn lemma_resolve_mod(chain: Seq<Seq<Seq<char>>>, name: Seq<char>, d1: int, d2: int)
    requires
        d1 >= 0,
        d2 >= 0,
        d1 % 65536 == d2 % 65536,
    ensures
        resolve(chain, name, d1) == resolve(chain, name, d2),
    decreases chain.len(),
{
    if chain.len() > 0 {
        let b = chain.last();
        let p = last_index(b, name);
        if p >= 0 {
            let x = b.len() - 1 - p;
            vstd::arithmetic::div_mod::lemma_add_mod_noop_right(x, d1, 65536);
            vstd::arithmetic::div_mod::lemma_add_mod_noop_right(x, d2, 65536);
        } else if chain.len() > 1 {
            vstd::arithmetic::div_mod::lemma_add_mod_noop(d1, b.len() as int, 65536);
            vstd::arithmetic::div_mod::lemma_add_mod_noop(d2, b.len() as int, 65536);
            lemma_resolve_mod(chain.drop_last(), name, d1 + b.len(), d2 + b.len());
        }
    }
}

proof fn lemma_last_index(v: Seq<Seq<char>>, name: Seq<char>, i: int)
    requires
        0 <= i <= v.len(),
        forall|j: int| i <= j < v.len() ==> v[j] != name,
    ensures
        last_index(v, name) == last_index(v.take(i), name),
    decreases v.len() - i,
{
    if i < v.len() {
        assert(v.drop_last().take(i) =~= v.take(i));
        lemma_last_index(v.drop_last(), name, i);
    } else {
        assert(v.take(i) =~= v);
    }
}

pub proof fn lemma_view_nodes_index(s: Seq<Spanned<Node>>)
    ensures
        view_nodes(s).len() == s.len(),
        forall|k: int| 0 <= k < s.len() ==> #[trigger] view_nodes(s)[k] == view_spanned(s[k]),
    decreases s.len(),
{
    if s.len() > 0 {
        lemma_view_nodes_index(s.drop_last());
    }
}

/// Compiles nodes into atoms filed under names.
pub struct Compiler {
    pub definitions: Env,
    anon_counter: usize,
}

impl Compiler {
    pub closed spec fn state(&self) -> CState {
        CState { defs: self.definitions.contents(), counter: self.anon_counter }
    }

    pub fn new() -> (c: Self)
        ensures
            c.state() == (CState { defs: Map::empty(), counter: 0 }),
    {
        let c = Self { definitions: Env::new(), anon_counter: 0 };
        assert(c.state().defs =~= Map::<Seq<char>, AtomModel>::empty());
        c
    }

    fn get_or_create_env_key(&mut self, atom: &AtomRef, tbl: &Vec<NumberInfo>) -> (r: String)
        ensures
            (r@, final(self).state()) == env_key(tbl@, atom@, old(self).state()),
    {
        match &**atom {
            Atom::Nil => {
                let key = "nil".to_owned();
                proof {
                    reveal_strlit("nil");
                    assert(key@ =~= seq!['n', 'i', 'l']);
                }
                self.definitions.insert_if_absent(key.clone(), atom.clone());
                key
            },
            Atom::Num(n) => {
                let key = lookup_key(tbl, *n);
                self.definitions.insert_if_absent(key.clone(), atom.clone());
                key
            },
            _ => {
                let mut chars: Vec<char> = Vec::new();
                chars.push('$');
                push_decimal(self.anon_counter, &mut chars);
                let key = string_from_chars(&chars);
                assert(key@ =~= seq!['$'] + decimal(self.anon_counter as nat));
                self.anon_counter = if self.anon_counter == usize::MAX {
                    0
                } else {
                    self.anon_counter + 1
                };
                self.definitions.insert(key.clone(), atom.clone());
                key
            },
        }
    }

    fn resolve_variable(&self, scope: &Scope, name: &str, depth: usize) -> (r: AtomResult<u16>)
        ensures
            match resolve(scope_chain(*scope), name@, depth as int) {
                Ok(i) => r matches Ok(j) && j == i,
                Err(m) => r matches Err(e) && e@ == m,
            },
        decreases *scope,
    {
        let ghost b = names(scope.bindings@);
        let len = scope.bindings.len();
        let mut i = len;
        while i > 0
            invariant
                i <= len,
                len == scope.bindings@.len(),
                b == names(scope.bindings@),
                forall|j: int| i <= j < len ==> b[j] != name@,
            decreases i,
        {
            if str_eq(scope.bindings[i - 1].as_str(), name) {
                proof {
                    lemma_last_index(b, name@, i as int);
                    assert(b.take(i as int).drop_last() =~= b.take(i - 1));
                }
                let pos = i - 1;
                let x = ((len - 1 - pos) % 65536 + depth % 65536) % 65536;
                proof {
                    vstd::arithmetic::div_mod::lemma_add_mod_noop(
                        (len - 1 - pos) as int,
                        depth as int,
                        65536,
                    );
                }
                return Ok(x as u16);
            }
            i = i - 1;
        }
        proof {
            lemma_last_index(b, name@, 0);
            assert(b.take(0) =~= Seq::<Seq<char>>::empty());
        }
        match scope.parent {
            Some(parent) => {
                let d = (depth % 65536 + len % 65536) % 65536;
                proof {
                    vstd::arithmetic::div_mod::lemma_add_mod_noop(depth as int, len as int, 65536);
                    assert(d % 65536 == (depth + len) % 65536);
                    lemma_resolve_mod(scope_chain(*parent), name@, d as int, depth + len);
                    let c = scope_chain(*scope);
                    assert(c == scope_chain(*parent).push(b));
                    assert(c.drop_last() =~= scope_chain(*parent));
                    assert(c.last() == b);
                    assert(scope_chain(*parent).len() >= 1);
                    assert(last_index(b, name@) == -1);
                }
                self.resolve_variable(parent, name, d)
            },
            None => {
                let mut n = String::new();
                n.append(name);
                assert(n@ =~= name@);
                Err(AtomError::UnboundVariable(n))
            },
        }
    }
}


impl Compiler {
    fn node_to_atom(&mut self, node: &Node, scope: &Scope, tbl: &Vec<NumberInfo>) -> (r: AtomResult<
        AtomRef,
    >)
        requires
            node_covered(tbl@, view_node(*node)),
        ensures
            match c_atom(tbl@, view_node(*node), scope_chain(*scope), old(self).state()) {
                Ok((a, st)) => r matches Ok(x) && x@ == a && final(self).state() == st,
                Err(m) => r matches Err(e) && e@ == m,
            },
        decreases node, 0nat,
    {
        match node {
            Node::Nil => Ok(Atom::nil()),
            Node::Number(lit) => Ok(Atom::num(lookup_bits(tbl, lit.as_str()))),
            Node::String(s) => Ok(Atom::string(s.clone())),
            Node::List(nodes) => {
                let ghost items = view_nodes(nodes@);
                let ghost chain = scope_chain(*scope);
                proof {
                    lemma_view_nodes_index(nodes@);
                    assert(items.take(items.len() as int) =~= items);
                }
                let mut current = Atom::nil();
                let mut i = nodes.len();
                while i > 0
                    invariant
                        i <= nodes@.len(),
                        *node == Node::List(*nodes),
                        items == view_nodes(nodes@),
                        items.len() == nodes@.len(),
                        chain == scope_chain(*scope),
                        nodes_covered(tbl@, items),
                        forall|k: int| 0 <= k < nodes@.len() ==> #[trigger] items[k] == view_spanned(nodes@[k]),
                        c_list(tbl@, items, chain, AtomModel::Nil, old(self).state()) == c_list(
                            tbl@,
                            items.take(i as int),
                            chain,
                            current@,
                            self.state(),
                        ),
                    decreases i,
                {
                    let ghost t = items.take(i as int);
                    assert(t.last() == items[i - 1]);
                    assert(t.drop_last() =~= items.take(i - 1));
                    assert(node_covered(tbl@, items[i - 1].node));
                    let element = self.node_to_atom(&nodes[i - 1].node, scope, tbl)?;
                    current = Atom::cons(element, current);
                    i = i - 1;
                }
                assert(items.take(0) =~= Seq::<SpannedModel>::empty());
                Ok(current)
            },
            Node::Block(nodes) => {
                let ghost items = view_nodes(nodes@);
                let ghost chain0 = scope_chain(*scope);
                let ghost st0 = self.state();
                proof {
                    lemma_view_nodes_index(nodes@);
                    assert(items.skip(0) =~= items);
                }
                let mut block_asm = Assembler::new();
                let mut block_scope = Scope { parent: Some(scope), bindings: Vec::new() };
                assert(names(block_scope.bindings@) =~= Seq::<Seq<char>>::empty());
                assert(scope_chain(block_scope) =~= chain0.push(seq![]));
                let mut i: usize = 0;
                while i < nodes.len()
                    invariant
                        i <= nodes@.len(),
                        *node == Node::Block(*nodes),
                        st0 == old(self).state(),
                        chain0 == scope_chain(*scope),
                        items == view_nodes(nodes@),
                        items.len() == nodes@.len(),
                        nodes_covered(tbl@, items),
                        forall|k: int| 0 <= k < nodes@.len() ==> #[trigger] items[k] == view_spanned(nodes@[k]),
                        block_scope.parent == Some(scope),
                        c_block(tbl@, items, chain0.push(seq![]), seq![], st0) == c_block(
                            tbl@,
                            items.skip(i as int),
                            scope_chain(block_scope),
                            block_asm@,
                            self.state(),
                        ),
                    decreases nodes@.len() - i,
                {
                    assert(items.skip(i as int)[0] == items[i as int]);
                    assert(items.skip(i as int).drop_first() =~= items.skip(i + 1));
                    assert(node_covered(tbl@, items[i as int].node));
                    block_asm = self.compile_node(&nodes[i].node, block_asm, &mut block_scope, tbl)?;
                    i = i + 1;
                }
                let ghost ch = scope_chain(block_scope);
                assert(ch.last() == names(block_scope.bindings@));
                let nb = block_scope.bindings.len();
                if nb != 0 {
                    block_asm = block_asm.drop_ret((nb % 65536) as u16);
                }
                Ok(block_asm.block())
            },
            _ => Err(AtomError::UnmappableNode),
        }
    }

    fn compile_node(
        &mut self,
        node: &Node,
        code: Assembler,
        scope: &mut Scope,
        tbl: &Vec<NumberInfo>,
    ) -> (r: AtomResult<Assembler>)
        requires
            node_covered(tbl@, view_node(*node)),
        ensures
            final(scope).parent == old(scope).parent,
            match c_node(tbl@, view_node(*node), scope_chain(*old(scope)), code@, old(self).state()) {
                Ok((c, ch, st)) => r matches Ok(a) && a@ == c && scope_chain(*final(scope)) == ch
                    && final(self).state() == st,
                Err(m) => r matches Err(e) && e@ == m,
            },
        decreases node, 1nat,
    {
        let ghost chain = scope_chain(*scope);
        match node {
            Node::Nil | Node::Number(_) | Node::String(_) | Node::List(_) | Node::Block(_) => {
                let atom = self.node_to_atom(node, scope, tbl)?;
                let key = self.get_or_create_env_key(&atom, tbl);
                Ok(code.push_env(key.as_str()))
            },
            Node::Builtin(builtin) => Ok(code.op(Opcode::from(*builtin))),
            Node::Define { name, body } => {
                let atom = self.node_to_atom(&body.node, scope, tbl)?;
                self.definitions.insert(name.clone(), atom);
                Ok(code)
            },
            Node::WordRef(name) => Ok(code.push_env(name.as_str())),
            Node::BindVar(name) => {
                let ghost old_b = scope.bindings@;
                scope.bindings.push(name.clone());
                proof {
                    assert(names(scope.bindings@) =~= names(old_b).push(name@));
                    match scope.parent {
                        Some(p) => {
                            assert(scope_chain(*scope) =~= chain.update(
                                chain.len() - 1,
                                chain.last().push(name@),
                            ));
                        },
                        None => {
                            assert(scope_chain(*scope) =~= chain.update(
                                chain.len() - 1,
                                chain.last().push(name@),
                            ));
                        },
                    }
                }
                Ok(code.to_ret(1))
            },
            Node::FetchVar(name) => {
                let index = self.resolve_variable(scope, name.as_str(), 0)?;
                Ok(code.fetch_ret(index))
            },
            Node::If { then_br, else_br } => {
                let then_atom = self.node_to_atom(&then_br.node, scope, tbl)?;
                let then_key = self.get_or_create_env_key(&then_atom, tbl);
                let else_atom = self.node_to_atom(&else_br.node, scope, tbl)?;
                let else_key = self.get_or_create_env_key(&else_atom, tbl);
                let out = code.push_env(then_key.as_str()).push_env(else_key.as_str()).if_then_else();
                proof {
                    assert(out@ =~= (code@ + push_env_bytes(then_key@) + push_env_bytes(else_key@)).push(
                        Opcode::IfThenElse.spec_byte(),
                    ));
                }
                Ok(out)
            },
        }
    }
}


impl Compiler {
    /// Compiles a program: top-level definitions are filed under their
    /// names, and the other top-level nodes become the blob `main`.
    pub fn compile(self, program: &[Spanned<Node>], numbers: &Vec<NumberInfo>) -> (r: AtomResult<Env>)
        requires
            nodes_covered(numbers@, view_nodes(program@)),
        ensures
            match spec_compile(numbers@, view_nodes(program@), self.state()) {
                Ok(m) => r matches Ok(e) && e.contents() == m,
                Err(x) => r matches Err(e) && e@ == x,
            },
    {
        let ghost items = view_nodes(program@);
        let ghost goal = spec_compile(numbers@, items, self.state());
        let mut this = self;
        let mut main_asm = Assembler::new();
        let mut root_scope = Scope { parent: None, bindings: Vec::new() };
        let mut has_loose_code = false;
        proof {
            lemma_view_nodes_index(program@);
            assert(items.skip(0) =~= items);
            assert(names(root_scope.bindings@) =~= Seq::<Seq<char>>::empty());
            assert(scope_chain(root_scope) =~= seq![seq![]]);
        }
        let mut i: usize = 0;
        while i < program.len()
            invariant
                i <= program@.len(),
                items == view_nodes(program@),
                items.len() == program@.len(),
                nodes_covered(numbers@, items),
                forall|k: int| 0 <= k < program@.len() ==> #[trigger] items[k] == view_spanned(program@[k]),
                root_scope.parent is None,
                goal == spec_compile(numbers@, view_nodes(program@), self.state()),
                goal == c_program(
                    numbers@,
                    items.skip(i as int),
                    scope_chain(root_scope),
                    main_asm@,
                    this.state(),
                    has_loose_code,
                ),
            decreases program@.len() - i,
        {
            assert(items.skip(i as int)[0] == items[i as int]);
            assert(items.skip(i as int).drop_first() =~= items.skip(i + 1));
            assert(node_covered(numbers@, items[i as int].node));
            match &program[i].node {
                Node::Define { name, body } => {
                    assert(view_node(program@[i as int].node) == items[i as int].node);
                    assert(node_covered(numbers@, view_node(body.node)));
                    let atom = this.node_to_atom(&body.node, &root_scope, numbers)?;
                    this.definitions.insert(name.clone(), atom);
                },
                _ => {
                    has_loose_code = true;
                    main_asm = this.compile_node(&program[i].node, main_asm, &mut root_scope, numbers)?;
                },
            }
            i = i + 1;
        }
        if has_loose_code {
            let key = "main".to_owned();
            proof {
                reveal_strlit("main");
                assert(key@ =~= seq!['m', 'a', 'i', 'n']);
            }
            this.definitions.insert(key, main_asm.block());
        }
        Ok(this.definitions)
    }
}

fn table_has(tbl: &Vec<NumberInfo>, lit: &str) -> (r: bool)
    ensures
        r == has_literal(tbl@, lit@),
{
    let mut i: usize = 0;
    while i < tbl.len()
        invariant
            i <= tbl@.len(),
            forall|j: int| 0 <= j < i ==> tbl@[j].literal@ != lit@,
        decreases tbl@.len() - i,
    {
        if str_eq(tbl[i].literal.as_str(), lit) {
            return true;
        }
        i = i + 1;
    }
    false
}

/// Whether the table has an entry for every number literal of the node.
pub fn node_is_covered(tbl: &Vec<NumberInfo>, node: &Node) -> (r: bool)
    ensures
        r == node_covered(tbl@, view_node(*node)),
    decreases node, 1nat,
{
    match node {
        Node::Number(lit) => table_has(tbl, lit.as_str()),
        Node::Block(nodes) => nodes_are_covered(tbl, nodes),
        Node::List(nodes) => nodes_are_covered(tbl, nodes),
        Node::Define { name, body } => node_is_covered(tbl, &body.node),
        Node::If { then_br, else_br } => node_is_covered(tbl, &then_br.node) && node_is_covered(
            tbl,
            &else_br.node,
        ),
        _ => true,
    }
}

/// Whether the table has an entry for every number literal of the nodes.
pub fn nodes_are_covered(tbl: &Vec<NumberInfo>, nodes: &Vec<Spanned<Node>>) -> (r: bool)
    ensures
        r == nodes_covered(tbl@, view_nodes(nodes@)),
    decreases nodes, 0nat,
{
    let ghost items = view_nodes(nodes@);
    proof {
        lemma_view_nodes_index(nodes@);
    }
    let mut i: usize = 0;
    while i < nodes.len()
        invariant
            i <= nodes@.len(),
            items == view_nodes(nodes@),
            items.len() == nodes@.len(),
            forall|k: int| 0 <= k < nodes@.len() ==> #[trigger] items[k] == view_spanned(nodes@[k]),
            forall|k: int| 0 <= k < i ==> node_covered(tbl@, #[trigger] items[k].node),
        decreases nodes@.len() - i,
    {
        if !node_is_covered(tbl, &nodes[i].node) {
            assert(!node_covered(tbl@, items[i as int].node));
            return false;
        }
        i = i + 1;
    }
    true
}

/// Whether the table has an entry for every number literal of a program.
pub fn program_is_covered(tbl: &Vec<NumberInfo>, program: &[Spanned<Node>]) -> (r: bool)
    ensures
        r == nodes_covered(tbl@, view_nodes(program@)),
{
    let ghost items = view_nodes(program@);
    proof {
        lemma_view_nodes_index(program@);
    }
    let mut i: usize = 0;
    while i < program.len()
        invariant
            i <= program@.len(),
            items == view_nodes(program@),
            items.len() == program@.len(),
            forall|k: int| 0 <= k < program@.len() ==> #[trigger] items[k] == view_spanned(program@[k]),
            forall|k: int| 0 <= k < i ==> node_covered(tbl@, #[trigger] items[k].node),
        decreases program@.len() - i,
    {
        if !node_is_covered(tbl, &program[i].node) {
            assert(!node_covered(tbl@, items[i as int].node));
            return false;
        }
        i = i + 1;
    }
    true
}


/// The number literals of a node, in the order they are written.
pub open spec fn node_literals(n: NodeModel) -> Seq<Seq<char>>
    decreases n, 0nat,
{
    match n {
        NodeModel::Number(lit) => seq![lit],
        NodeModel::Block(v) => nodes_literals(v),
        NodeModel::List(v) => nodes_literals(v),
        NodeModel::Define { name, body } => node_literals(body.node),
        NodeModel::If { then_br, else_br } => node_literals(then_br.node) + node_literals(
            else_br.node,
        ),
        _ => seq![],
    }
}

pub open spec fn nodes_literals(v: Seq<SpannedModel>) -> Seq<Seq<char>>
    decreases v, 1nat,
{
    if v.len() == 0 {
        seq![]
    } else {
        nodes_literals(v.drop_last()) + node_literals(v.last().node)
    }
}

pub open spec fn strings_view(v: Seq<String>) -> Seq<Seq<char>> {
    v.map_values(|s: String| s@)
}

fn push_node_literals(node: &Node, out: &mut Vec<String>)
    ensures
        strings_view(final(out)@) == strings_view(old(out)@) + node_literals(view_node(*node)),
    decreases node, 1nat,
{
    let ghost before = strings_view(out@);
    match node {
        Node::Number(lit) => {
            out.push(lit.clone());
            assert(strings_view(out@) =~= before + seq![lit@]);
        },
        Node::Block(nodes) => push_nodes_literals(nodes, out),
        Node::List(nodes) => push_nodes_literals(nodes, out),
        Node::Define { name, body } => push_node_literals(&body.node, out),
        Node::If { then_br, else_br } => {
            push_node_literals(&then_br.node, out);
            push_node_literals(&else_br.node, out);
            assert(strings_view(out@) =~= before + node_literals(view_node(*node)));
        },
        _ => {
            assert(strings_view(out@) =~= before + node_literals(view_node(*node)));
        },
    }
}

fn push_nodes_literals(nodes: &Vec<Spanned<Node>>, out: &mut Vec<String>)
    ensures
        strings_view(final(out)@) == strings_view(old(out)@) + nodes_literals(view_nodes(nodes@)),
    decreases nodes, 0nat,
{
    let ghost before = strings_view(out@);
    let mut i: usize = 0;
    assert(nodes@.take(0) =~= Seq::<Spanned<Node>>::empty());
    assert(before + nodes_literals(view_nodes(nodes@.take(0))) =~= before);
    while i < nodes.len()
        invariant
            i <= nodes@.len(),
            strings_view(out@) == before + nodes_literals(view_nodes(nodes@.take(i as int))),
        decreases nodes@.len() - i,
    {
        push_node_literals(&nodes[i].node, out);
        proof {
            let t = nodes@.take(i + 1);
            assert(t.drop_last() =~= nodes@.take(i as int));
            assert(t.last() == nodes@[i as int]);
            assert(view_nodes(t).drop_last() == view_nodes(t.drop_last()));
            assert(view_nodes(t).last() == view_spanned(nodes@[i as int]));
            assert(strings_view(out@) =~= before + nodes_literals(view_nodes(t)));
        }
        i = i + 1;
    }
    assert(nodes@.take(i as int) =~= nodes@);
}

/// The number literals of a program, in the order they are written.
pub fn number_literals(program: &Vec<Spanned<Node>>) -> (r: Vec<String>)
    ensures
        strings_view(r@) == nodes_literals(view_nodes(program@)),
{
    let mut out: Vec<String> = Vec::new();
    push_nodes_literals(program, &mut out);
    assert(strings_view(out@) =~= Seq::<Seq<char>>::empty() + nodes_literals(view_nodes(program@)));
    out
}

} // verus!

verus! {

/// Depth of a variable on the return stack: the bindings of all scopes,
/// outermost first, are the return stack's values from the bottom up, so a
/// name's depth is the number of bindings made after its latest binding,
/// in its own scope and in every scope inside it; it is unbound when no
/// scope binds it.
pub proof fn law_resolve_depth(chain: Seq<Seq<Seq<char>>>, name: Seq<char>, depth: int)
    requires
        depth >= 0,
    ensures
        ({
            let flat = chain.flatten_alt();
            let li = last_index(flat, name);
            &&& li < 0 ==> resolve(chain, name, depth) == Err::<u16, ErrorModel>(
                ErrorModel::UnboundVariable(name),
            )
            &&& li >= 0 ==> resolve(chain, name, depth) == Ok::<u16, ErrorModel>(
                ((flat.len() - 1 - li + depth) % 65536) as u16,
            )
        }),
    decreases chain.len(),
{
    if chain.len() > 0 {
        let b = chain.last();
        let inner = chain.drop_last();
        let fi = inner.flatten_alt();
        let flat = chain.flatten_alt();
        assert(flat == fi + b);
        let p = last_index(b, name);
        lemma_last_index_concat(fi, b, name);
        if p < 0 {
            if chain.len() == 1 {
                assert(fi =~= Seq::<Seq<char>>::empty());
            } else {
                law_resolve_depth(inner, name, depth + b.len());
            }
        }
    }
}

/// The latest place of a name in two sequences one after the other.
proof fn lemma_last_index_concat(x: Seq<Seq<char>>, y: Seq<Seq<char>>, name: Seq<char>)
    ensures
        last_index(y, name) >= 0 ==> last_index(x + y, name) == x.len() + last_index(y, name),
        last_index(y, name) < 0 ==> last_index(x + y, name) == last_index(x, name),
        -1 <= last_index(x + y, name) < (x + y).len(),
        -1 <= last_index(y, name) < y.len(),
    decreases y.len(),
{
    if y.len() == 0 {
        assert(x + y =~= x);
        lemma_last_index_bounds(x, name);
    } else {
        assert((x + y).drop_last() =~= x + y.drop_last());
        lemma_last_index_concat(x, y.drop_last(), name);
    }
}

proof fn lemma_last_index_bounds(v: Seq<Seq<char>>, name: Seq<char>)
    ensures
        -1 <= last_index(v, name) < v.len(),
    decreases v.len(),
{
    if v.len() > 0 {
        lemma_last_index_bounds(v.drop_last(), name);
    }
}

} // verus!
