//! Statement and expression code generation, with operand-stack bookkeeping
//! and overload dispatch.
use vstd::prelude::*;
use crate::ast::{Expr, Node};
use crate::codegen::{
    call_deltas, copy_texts, effect, net_effect, same_texts, sig_view, table_wf,
    CompileError, FunctionEntry, Instr, ADD_ROOT_FUNC, DRAW_RECT_FUNC,
    DRAW_TEXT_FUNC, FIRST_USER_FUNC, GC_ALLOC_FUNC, GROUP_PAYLOAD, MARK_USED_FUNC, TAG_BOX,
    TAG_GROUP, TAG_TEXT,
};
use crate::layout::{
    anchor_of, byte_len, dims_view, intrinsic_size, measure, parse_anchor, place, position,
};
use vstd::utf8::encode_utf8;
use crate::parser::{is_word, text_of};
use crate::ast::{expr_view, exprs_view, node_view, nodes_view, ExprView, NodeView};
use crate::gen::{
    binary_instr, box_code, box_step, byte_stores, entry, first_match, gen_args, gen_children,
    extents_v, gen_expr, gen_items, gen_node, gen_stmts, gen_text, group_head, infer_v, lookup_v,
    size_v,
    string_code, text_code, with_code, with_entry, EmView, EntryView, PropView, TableView,
};

verus! {

broadcast use vstd::std_specs::vec::group_vec_axioms;

/// A property value of a semantic map entry.
#[derive(Debug)]
pub enum PropValue {
    Int(i32),
    Text(String),
}

/// One entry of the semantic map: a compiled visual element.
#[derive(Debug)]
pub struct ElementMap {
    /// `"box"`, `"text"`, `"group"` or `"list"`.
    pub kind: String,
    /// Where the element's code starts: while generating, the number of
    /// instructions of the body before it; in the map that `compile_to_wasm`
    /// returns, the byte offset in the encoded body.
    pub wasm_offset: usize,
    /// Heap pointer of the element, where known.
    pub pointer: Option<i32>,
    /// Where the element comes from in the source, where known.
    pub source: Option<String>,
    /// The element's literal properties, in a fixed order.
    pub props: Vec<(String, PropValue)>,
}

/// The semantic map of a module: its elements in emission order.
#[derive(Debug)]
pub struct SemanticMap {
    pub elements: Vec<ElementMap>,
}

/// A name in scope: a parameter or a `let` binding.
#[derive(Debug)]
pub struct LocalBinding {
    pub name: String,
    pub slot: u32,
    pub ty: String,
}

/// The state of the generator inside one function body.
pub struct Emitter {
    pub instrs: Vec<Instr>,
    pub map: Vec<ElementMap>,
    pub locals: Vec<LocalBinding>,
    /// The slot that holds the last allocated pointer.
    pub scratch: u32,
    /// The next free local slot.
    pub next_local: u32,
}

pub open spec fn prop_view(p: (String, PropValue)) -> (Seq<char>, PropView) {
    (
        p.0@,
        match p.1 {
            PropValue::Int(n) => PropView::Int(n),
            PropValue::Text(t) => PropView::Text(t@),
        },
    )
}

pub open spec fn entry_view(e: ElementMap) -> EntryView {
    EntryView {
        kind: e.kind@,
        offset: e.wasm_offset as int,
        pointer: e.pointer,
        source: match e.source {
            Some(t) => Some(t@),
            None => None,
        },
        props: e.props@.map_values(|p: (String, PropValue)| prop_view(p)),
    }
}

pub open spec fn local_view(b: LocalBinding) -> (Seq<char>, u32, Seq<char>) {
    (b.name@, b.slot, b.ty@)
}

pub open spec fn locals_view(ls: Seq<LocalBinding>) -> Seq<(Seq<char>, u32, Seq<char>)> {
    ls.map_values(|b: LocalBinding| local_view(b))
}

/// The generator's state as plain values.
pub open spec fn em_view(em: Emitter) -> EmView {
    EmView {
        instrs: em.instrs@,
        map: em.map@.map_values(|e: ElementMap| entry_view(e)),
        locals: locals_view(em.locals@),
        scratch: em.scratch,
        next_local: em.next_local,
    }
}

/// The function table as plain values.
pub open spec fn table_view(tb: Seq<FunctionEntry>) -> TableView {
    tb.map_values(|e: FunctionEntry| (sig_view(e.0), e.1.returns))
}

proof fn lemma_lookup_view(ls: Seq<LocalBinding>, name: Seq<char>)
    ensures
        lookup_spec(ls, name) == lookup_v(locals_view(ls), name),
        lookup_spec(ls, name) matches Some(i) ==> 0 <= i < ls.len() && ls[i].name@ == name,
    decreases ls.len(),
{
    if ls.len() > 0 {
        assert(locals_view(ls).drop_last() =~= locals_view(ls.drop_last()));
        lemma_lookup_view(ls.drop_last(), name);
    }
}

proof fn lemma_infer_view(e: Expr, ls: Seq<LocalBinding>)
    ensures
        infer_type_spec(e, ls) == infer_v(expr_view(e), locals_view(ls)),
{
    if let Expr::Identifier(n) = e {
        lemma_lookup_view(ls, n@);
        if let Some(i) = lookup_spec(ls, n@) {
            assert(locals_view(ls)[i] == local_view(ls[i]));
        }
    }
}

proof fn lemma_exprs_view_index(s: Seq<Expr>)
    ensures
        exprs_view(s).len() == s.len(),
        forall|k: int| 0 <= k < s.len() ==> #[trigger] exprs_view(s)[k] == expr_view(s[k]),
    decreases s.len(),
{
    if s.len() > 0 {
        lemma_exprs_view_index(s.subrange(0, s.len() - 1));
        assert forall|k: int| 0 <= k < s.len() implies #[trigger] exprs_view(s)[k] == expr_view(s[k]) by {
            if k < s.len() - 1 {
                assert(s.subrange(0, s.len() - 1)[k] == s[k]);
            }
        }
    }
}

pub(crate) proof fn lemma_nodes_view_index(s: Seq<Node>)
    ensures
        nodes_view(s).len() == s.len(),
        forall|k: int| 0 <= k < s.len() ==> #[trigger] nodes_view(s)[k] == node_view(s[k]),
    decreases s.len(),
{
    if s.len() > 0 {
        lemma_nodes_view_index(s.subrange(0, s.len() - 1));
        assert forall|k: int| 0 <= k < s.len() implies #[trigger] nodes_view(s)[k] == node_view(s[k]) by {
            if k < s.len() - 1 {
                assert(s.subrange(0, s.len() - 1)[k] == s[k]);
            }
        }
    }
}

proof fn lemma_size_view(c: Node)
    ensures
        intrinsic_size(c) == size_v(node_view(c)),
{
}

proof fn lemma_code_twice(st: EmView, a: Seq<Instr>, b: Seq<Instr>)
    ensures
        with_code(with_code(st, a), b) == with_code(st, a + b),
{
    assert(st.instrs + a + b =~= st.instrs + (a + b));
}

/// The latest binding of `name`, if any.
pub open spec fn lookup_spec(locals: Seq<LocalBinding>, name: Seq<char>) -> Option<int>
    decreases locals.len(),
{
    if locals.len() == 0 {
        None
    } else if locals.last().name@ == name {
        Some(locals.len() - 1)
    } else {
        lookup_spec(locals.drop_last(), name)
    }
}

/// The type name that dispatch gives an argument: a string literal is a
/// `string`; a name has its binding's type, and an unbound name is a
/// `string` when it starts with `s`; everything else is an `int`.
pub open spec fn infer_type_spec(e: Expr, locals: Seq<LocalBinding>) -> Seq<char> {
    match e {
        Expr::StringLiteral(_) => "string"@,
        Expr::Identifier(n) => match lookup_spec(locals, n@) {
            Some(i) => locals[i].ty@,
            None => if n@.len() > 0 && n@[0] == 's' {
                "string"@
            } else {
                "int"@
            },
        },
        _ => "int"@,
    }
}

/// The dispatch key of a call.
pub open spec fn call_key(name: Seq<char>, args: Seq<Expr>, locals: Seq<LocalBinding>) -> (Seq<char>, Seq<Seq<char>>) {
    (name, args.map_values(|a: Expr| infer_type_spec(a, locals)))
}

/// Some declaration matches the key.
pub open spec fn has_match(table: Seq<FunctionEntry>, key: (Seq<char>, Seq<Seq<char>>)) -> bool {
    exists|i: int| 0 <= i < table.len() && sig_view((#[trigger] table[i]).0) == key
}


/// The latest binding of `name`.
pub fn lookup_local(locals: &Vec<LocalBinding>, name: &String) -> (r: Option<usize>)
    ensures
        r matches Some(i) ==> lookup_spec(locals@, name@) == Some(i as int) && i < locals@.len(),
        r is None ==> lookup_spec(locals@, name@) is None,
{
    let mut i: usize = locals.len();
    assert(locals@.subrange(0, i as int) =~= locals@);
    while i > 0
        invariant
            i <= locals@.len(),
            lookup_spec(locals@, name@) == lookup_spec(locals@.subrange(0, i as int), name@),
        decreases i,
    {
        proof {
            assert(locals@.subrange(0, i as int).drop_last() =~= locals@.subrange(0, i - 1));
        }
        if locals[i - 1].name.eq(name) {
            return Some(i - 1);
        }
        i -= 1;
    }
    None
}

/// Infers the dispatch type of an argument.
pub fn infer_type(e: &Expr, locals: &Vec<LocalBinding>) -> (r: String)
    ensures
        r@ == infer_type_spec(*e, locals@),
{
    match e {
        Expr::StringLiteral(_) => text_of("string"),
        Expr::Identifier(n) => match lookup_local(locals, n) {
            Some(i) => locals[i].ty.clone(),
            None => {
                if n.as_str().unicode_len() > 0 && n.as_str().get_char(0) == 's' {
                    text_of("string")
                } else {
                    text_of("int")
                }
            },
        },
        _ => text_of("int"),
    }
}

/// The texts of a list of strings.
pub open spec fn texts_view(v: Seq<String>) -> Seq<Seq<char>> {
    v.map_values(|t: String| t@)
}

/// The texts of each of a list of string lists.
pub open spec fn lists_view(v: Seq<Vec<String>>) -> Seq<Seq<Seq<char>>> {
    v.map_values(|l: Vec<String>| texts_view(l@))
}

/// The parameter types of the declarations named `name`, in table order.
pub open spec fn candidates_of(table: Seq<FunctionEntry>, name: Seq<char>) -> Seq<Seq<Seq<char>>>
    decreases table.len(),
{
    if table.len() == 0 {
        Seq::empty()
    } else if table.last().0.name@ == name {
        candidates_of(table.drop_last(), name).push(texts_view(table.last().0.param_types@))
    } else {
        candidates_of(table.drop_last(), name)
    }
}

/// The error for a call that no declaration matches: the call's name, its
/// argument types, and the parameter types declared under that name.
pub open spec fn no_match_error(e: CompileError, table: Seq<FunctionEntry>, name: Seq<char>, types: Seq<Seq<char>>) -> bool {
    match e {
        CompileError::NoMatchingOverload { name: n, arg_types, candidates } => n@ == name && texts_view(arg_types@)
            == types && lists_view(candidates@) == candidates_of(table, name),
        _ => false,
    }
}

/// Resolves a call by name and argument types. Fails, naming the overloads
/// declared under that name, exactly when no declaration matches.
pub fn resolve_call(table: &Vec<FunctionEntry>, name: &String, arg_types: &Vec<String>) -> (r: Result<usize, CompileError>)
    ensures
        r matches Ok(i) ==> i < table@.len() && sig_view(table@[i as int].0) == (name@, arg_types@.map_values(|t: String| t@)),
        r is Err <==> !has_match(table@, (name@, arg_types@.map_values(|t: String| t@))),
        r is Err ==> r->Err_0 is NoMatchingOverload,
        r matches Err(e) ==> no_match_error(e, table@, name@, texts_view(arg_types@)),
        r matches Ok(i) ==> first_match(table_view(table@), (name@, arg_types@.map_values(|t: String| t@)), 0)
            == Some(i as int),
        r is Err <==> first_match(table_view(table@), (name@, arg_types@.map_values(|t: String| t@)), 0) is None,
{
    let ghost key = (name@, arg_types@.map_values(|t: String| t@));
    let ghost tv = table_view(table@);
    let mut i: usize = 0;
    while i < table.len()
        invariant
            i <= table@.len(),
            key == (name@, arg_types@.map_values(|t: String| t@)),
            tv == table_view(table@),
            forall|j: int| 0 <= j < i ==> sig_view((#[trigger] table@[j]).0) != key,
            first_match(tv, key, 0) == first_match(tv, key, i as int),
        decreases table@.len() - i,
    {
        if table[i].0.name.eq(name) && same_texts(&table[i].0.param_types, arg_types) {
            return Ok(i);
        }
        i += 1;
    }
    let mut candidates: Vec<Vec<String>> = Vec::new();
    assert(lists_view(candidates@) =~= candidates_of(table@.subrange(0, 0), name@));
    let mut j: usize = 0;
    while j < table.len()
        invariant
            j <= table@.len(),
            lists_view(candidates@) == candidates_of(table@.subrange(0, j as int), name@),
        decreases table@.len() - j,
    {
        let ghost before = candidates@;
        if table[j].0.name.eq(name) {
            candidates.push(copy_texts(&table[j].0.param_types));
            assert(lists_view(candidates@) =~= lists_view(before).push(texts_view(table@[j as int].0.param_types@)));
        }
        assert(table@.subrange(0, j + 1).drop_last() =~= table@.subrange(0, j as int));
        j += 1;
    }
    assert(table@.subrange(0, j as int) =~= table@);
    let types = copy_texts(arg_types);
    Err(CompileError::NoMatchingOverload { name: name.clone(), arg_types: types, candidates })
}

impl Emitter {
    /// The scratch slot and every bound slot lie below the next free slot.
    pub open spec fn wf(&self) -> bool {
        &&& self.scratch < self.next_local
        &&& forall|i: int| 0 <= i < self.locals@.len() ==> #[trigger] self.locals@[i].slot < self.next_local
    }

    /// A generator for a body whose parameters take the first slots.
    pub fn new(num_params: u32) -> (r: Emitter)
        requires
            num_params < u32::MAX,
        ensures
            r.instrs@.len() == 0,
            r.map@.len() == 0,
            r.locals@.len() == 0,
            r.scratch == num_params,
            r.next_local == num_params + 1,
            r.wf(),
    {
        Emitter { instrs: Vec::new(), map: Vec::new(), locals: Vec::new(), scratch: num_params, next_local: num_params + 1 }
    }

    /// Appends one instruction.
    fn emit(&mut self, i: Instr, Ghost(d): Ghost<Seq<int>>)
        requires
            old(self).wf(),
        ensures
            final(self).wf(),
            final(self).instrs@ == old(self).instrs@.push(i),
            em_view(*final(self)) == with_code(em_view(*old(self)), seq![i]),
            net_effect(final(self).instrs@, d) == net_effect(old(self).instrs@, d) + effect(i, d),
            final(self).map@ == old(self).map@,
            final(self).locals@ == old(self).locals@,
            final(self).scratch == old(self).scratch,
            final(self).next_local == old(self).next_local,
    {
        self.instrs.push(i);
        proof {
            assert(self.instrs@.drop_last() =~= old(self).instrs@);
            assert(self.instrs@ =~= old(self).instrs@ + seq![i]);
        }
    }
}

/// The net stack effect of everything emitted so far.
pub open spec fn depth(em: &Emitter, table: Seq<FunctionEntry>) -> int {
    net_effect(em.instrs@, call_deltas(table))
}

fn prop_int(key: &str, v: i32) -> (r: (String, PropValue))
    ensures
        prop_view(r) == (key@, PropView::Int(v)),
{
    (text_of(key), PropValue::Int(v))
}

fn prop_text(key: &str, v: &String) -> (r: (String, PropValue))
    ensures
        prop_view(r) == (key@, PropView::Text(v@)),
{
    (text_of(key), PropValue::Text(v.clone()))
}





/// Allocates a box object, roots it, marks it used and draws the rectangle.
#[verifier::rlimit(40)]
fn compile_box(em: &mut Emitter, table: &Vec<FunctionEntry>, x: i32, y: i32, width: i32, height: i32)
    requires
        table_wf(table@),
        old(em).wf(),
    ensures
        final(em).instrs@ == old(em).instrs@ + box_code(old(em).scratch, x, y, width, height),
        em_view(*final(em)) == box_step(em_view(*old(em)), x, y, width, height),
        final(em).map@.len() == old(em).map@.len() + 1,
        final(em).map@.last().kind@ == "box"@,
        final(em).map@.last().wasm_offset == old(em).instrs@.len(),
        depth(final(em), table@) == depth(old(em), table@),
        final(em).scratch == old(em).scratch,
        final(em).wf(),
        final(em).next_local == old(em).next_local,
        final(em).locals@ == old(em).locals@,
{
    let ghost d = call_deltas(table@);
    let off = em.instrs.len();
    let t = em.scratch;
    em.emit(Instr::I32Const(0), Ghost(d));
    em.emit(Instr::I32Const(TAG_BOX), Ghost(d));
    em.emit(Instr::Call(GC_ALLOC_FUNC), Ghost(d));
    em.emit(Instr::LocalTee(t), Ghost(d));
    em.emit(Instr::LocalGet(t), Ghost(d));
    em.emit(Instr::Call(ADD_ROOT_FUNC), Ghost(d));
    em.emit(Instr::Drop, Ghost(d));
    em.emit(Instr::LocalGet(t), Ghost(d));
    em.emit(Instr::Call(MARK_USED_FUNC), Ghost(d));
    em.emit(Instr::I32Const(x), Ghost(d));
    em.emit(Instr::I32Const(y), Ghost(d));
    em.emit(Instr::I32Const(width), Ghost(d));
    em.emit(Instr::I32Const(height), Ghost(d));
    em.emit(Instr::Call(DRAW_RECT_FUNC), Ghost(d));
    assert(em.instrs@ =~= old(em).instrs@ + box_code(t, x, y, width, height));
    let props = vec![prop_int("x", x), prop_int("y", y), prop_int("width", width), prop_int("height", height)];
    let ghost before = em.map@;
    let e = ElementMap { kind: text_of("box"), wasm_offset: off, pointer: None, source: None, props };
    proof {
        assert(entry_view(e).props =~= seq![
            ("x"@, PropView::Int(x)),
            ("y"@, PropView::Int(y)),
            ("width"@, PropView::Int(width)),
            ("height"@, PropView::Int(height)),
        ]);
    }
    em.map.push(e);
    proof {
        assert(em.map@.map_values(|e: ElementMap| entry_view(e)) =~= before.map_values(|e: ElementMap| entry_view(e)).push(entry_view(e)));
        assert(em_view(*em) =~= box_step(em_view(*old(em)), x, y, width, height));
    }
}

/// Allocates a text buffer for `s`, roots it, marks it used and writes its
/// bytes. With `keep` the pointer is left on the stack as well.
fn emit_string(em: &mut Emitter, table: &Vec<FunctionEntry>, s: &String, keep: bool) -> (r: Result<i32, CompileError>)
    requires
        table_wf(table@),
        old(em).wf(),
    ensures
        r is Ok <==> byte_len(s@) <= i32::MAX,
        r matches Ok(len) ==> len == byte_len(s@) && final(em).instrs@ == old(em).instrs@ + string_code(
            old(em).scratch,
            encode_utf8(s@),
            keep,
        ),
        r is Ok ==> em_view(*final(em)) == with_code(em_view(*old(em)), string_code(old(em).scratch, encode_utf8(s@), keep)),
        final(em).map@ == old(em).map@,
        r is Ok ==> depth(final(em), table@) == depth(old(em), table@) + if keep { 1int } else { 0int },
        final(em).scratch == old(em).scratch,
        r matches Err(e) ==> !(e is DuplicateSignature),
        final(em).wf(),
        final(em).next_local == old(em).next_local,
        final(em).locals@ == old(em).locals@,
{
    let ghost d = call_deltas(table@);
    let bytes = s.as_str().as_bytes();
    let n = bytes.len();
    if n > 2147483647 {
        return Err(CompileError::Overflow);
    }
    let len = n as i32;
    let t = em.scratch;
    em.emit(Instr::I32Const(len), Ghost(d));
    em.emit(Instr::I32Const(TAG_TEXT), Ghost(d));
    em.emit(Instr::Call(GC_ALLOC_FUNC), Ghost(d));
    if keep {
        em.emit(Instr::LocalTee(t), Ghost(d));
    } else {
        em.emit(Instr::LocalSet(t), Ghost(d));
    }
    em.emit(Instr::LocalGet(t), Ghost(d));
    em.emit(Instr::Call(ADD_ROOT_FUNC), Ghost(d));
    em.emit(Instr::LocalGet(t), Ghost(d));
    em.emit(Instr::Call(MARK_USED_FUNC), Ghost(d));
    let ghost base = depth(em, table@);
    let ghost head = em.instrs@;
    assert(head =~= old(em).instrs@ + string_code(t, bytes@, keep).subrange(0, 8));
    let mut i: usize = 0;
    while i < n
        invariant
            n == bytes@.len(),
            em.instrs@ == head + byte_stores(t, bytes@, i as int),
            n <= 2147483647,
            i <= n,
            t == em.scratch,
            em.scratch == old(em).scratch,
            em.wf(),
            em.next_local == old(em).next_local,
            em.locals@ == old(em).locals@,
            em.map@ == old(em).map@,
            d == call_deltas(table@),
            depth(em, table@) == base,
        decreases n - i,
    {
        em.emit(Instr::LocalGet(t), Ghost(d));
        em.emit(Instr::I32Const(i as i32), Ghost(d));
        em.emit(Instr::I32Add, Ghost(d));
        em.emit(Instr::I32Const(bytes[i] as i32), Ghost(d));
        em.emit(Instr::I32Store8, Ghost(d));
        proof {
            assert(byte_stores(t, bytes@, i + 1) == byte_stores(t, bytes@, i as int) + seq![
                Instr::LocalGet(t),
                Instr::I32Const(i as i32),
                Instr::I32Add,
                Instr::I32Const(bytes@[i as int] as i32),
                Instr::I32Store8,
            ]);
            assert(em.instrs@ =~= head + byte_stores(t, bytes@, i + 1));
        }
        i += 1;
    }
    assert(string_code(t, bytes@, keep) =~= string_code(t, bytes@, keep).subrange(0, 8) + byte_stores(t, bytes@, n as int));
    assert(em.instrs@ =~= old(em).instrs@ + string_code(t, bytes@, keep));
    assert(em_view(*em) =~= with_code(em_view(*old(em)), string_code(t, bytes@, keep)));
    Ok(len)
}

/// A text element at (x, y): a literal is copied into a fresh buffer and
/// drawn with its byte length; any other value must leave a pointer, drawn
/// Appends a semantic map entry.
fn push_entry(em: &mut Emitter, e: ElementMap)
    requires
        old(em).wf(),
    ensures
        final(em).wf(),
        em_view(*final(em)) == with_entry(em_view(*old(em)), entry_view(e)),
        final(em).instrs@ == old(em).instrs@,
        final(em).map@ == old(em).map@.push(e),
        final(em).locals@ == old(em).locals@,
        final(em).scratch == old(em).scratch,
        final(em).wf(),
        final(em).next_local == old(em).next_local,
{
    em.map.push(e);
    proof {
        assert(em.map@.map_values(|x: ElementMap| entry_view(x)) =~= old(em).map@.map_values(
            |x: ElementMap| entry_view(x),
        ).push(entry_view(e)));
        assert(em_view(*em) =~= with_entry(em_view(*old(em)), entry_view(e)));
    }
}

/// A text element at (x, y): a literal is copied into a fresh buffer and
/// drawn with its byte length; any other value must leave a pointer, drawn
/// with an unknown length.
fn compile_text(n: &Node, em: &mut Emitter, table: &Vec<FunctionEntry>, x: i32, y: i32) -> (r: Result<(), CompileError>)
    requires
        table_wf(table@),
        old(em).wf(),
        n is Text,
    ensures
        r is Ok ==> depth(final(em), table@) == depth(old(em), table@),
        final(em).scratch == old(em).scratch,
        r matches Err(e) ==> !(e is DuplicateSignature),
        final(em).wf(),
        final(em).next_local >= old(em).next_local,
        n->Text_value matches Expr::StringLiteral(s) ==> (r is Ok <==> byte_len(s@) <= i32::MAX) && (r is Ok
            ==> final(em).instrs@ == old(em).instrs@ + text_code(old(em).scratch, x, y, encode_utf8(s@))),
        r is Ok ==> final(em).map@.len() > 0 && final(em).map@.last().kind@ == "text"@
            && final(em).map@.last().wasm_offset == old(em).instrs@.len(),
        match gen_text(x, y, expr_view(n->Text_value), em_view(*old(em)), table_view(table@)) {
            Some(st) => r is Ok && em_view(*final(em)) == st,
            None => r is Err,
        },
    decreases n, 0nat,
{
    let ghost d = call_deltas(table@);
    let ghost st0 = em_view(*em);
    let off = em.instrs.len();
    match n {
        Node::Text { value, .. } => {
            match value {
                Expr::StringLiteral(s) => {
                    let len = emit_string(em, table, s, false)?;
                    let t = em.scratch;
                    em.emit(Instr::I32Const(x), Ghost(d));
                    em.emit(Instr::I32Const(y), Ghost(d));
                    em.emit(Instr::LocalGet(t), Ghost(d));
                    em.emit(Instr::I32Const(len), Ghost(d));
                    em.emit(Instr::Call(DRAW_TEXT_FUNC), Ghost(d));
                    assert(em.instrs@ =~= old(em).instrs@ + text_code(t, x, y, encode_utf8(s@)));
                    assert(em_view(*em) =~= with_code(st0, text_code(t, x, y, encode_utf8(s@))));
                    let props = vec![prop_int("x", x), prop_int("y", y), prop_text("value", s)];
                    let e = ElementMap { kind: text_of("text"), wasm_offset: off, pointer: None, source: None, props };
                    proof {
                        assert(entry_view(e).props =~= seq![
                            ("x"@, PropView::Int(x)),
                            ("y"@, PropView::Int(y)),
                            ("value"@, PropView::Text(s@)),
                        ]);
                        assert(entry_view(e) == entry("text"@, st0.instrs.len() as int, entry_view(e).props));
                    }
                    push_entry(em, e);
                },
                _ => {
                    em.emit(Instr::I32Const(x), Ghost(d));
                    em.emit(Instr::I32Const(y), Ghost(d));
                    proof {
                        lemma_code_twice(st0, seq![Instr::I32Const(x)], seq![Instr::I32Const(y)]);
                        assert(seq![Instr::I32Const(x)] + seq![Instr::I32Const(y)] =~= seq![Instr::I32Const(x), Instr::I32Const(y)]);
                    }
                    let k = compile_expr(value, em, table)?;
                    if k != 1 {
                        return Err(CompileError::MissingValue);
                    }
                    let ghost s1 = em_view(*em);
                    em.emit(Instr::I32Const(999), Ghost(d));
                    em.emit(Instr::Call(DRAW_TEXT_FUNC), Ghost(d));
                    proof {
                        lemma_code_twice(s1, seq![Instr::I32Const(999)], seq![Instr::Call(DRAW_TEXT_FUNC)]);
                        assert(seq![Instr::I32Const(999)] + seq![Instr::Call(DRAW_TEXT_FUNC)] =~= seq![Instr::I32Const(999), Instr::Call(DRAW_TEXT_FUNC)]);
                    }
                    let props = vec![prop_int("x", x), prop_int("y", y)];
                    let e = ElementMap { kind: text_of("text"), wasm_offset: off, pointer: None, source: None, props };
                    proof {
                        assert(entry_view(e).props =~= seq![("x"@, PropView::Int(x)), ("y"@, PropView::Int(y))]);
                        assert(entry_view(e) == entry("text"@, st0.instrs.len() as int, entry_view(e).props));
                    }
                    push_entry(em, e);
                },
            }
            Ok(())
        },
        _ => Err(CompileError::UnsupportedNode),
    }
}


/// Emits an expression and returns how many values it leaves on the stack:
/// one for a literal, a name, a string or an operation, none for a layout
/// element, and the callee's result count for a call.
pub fn compile_expr(e: &Expr, em: &mut Emitter, table: &Vec<FunctionEntry>) -> (r: Result<usize, CompileError>)
    requires
        table_wf(table@),
        old(em).wf(),
    ensures
        r matches Ok(k) ==> k <= 1 && depth(final(em), table@) == depth(old(em), table@) + k,
        final(em).scratch == old(em).scratch,
        r matches Err(e) ==> !(e is DuplicateSignature),
        final(em).wf(),
        final(em).next_local >= old(em).next_local,
        *e matches Expr::Literal(v) ==> r == Ok::<usize, CompileError>(1)
            && final(em).instrs@ == old(em).instrs@.push(Instr::I32Const(v)),
        *e matches Expr::StringLiteral(s) ==> (r is Ok <==> byte_len(s@) <= i32::MAX) && (r is Ok
            ==> final(em).instrs@ == old(em).instrs@ + string_code(old(em).scratch, encode_utf8(s@), true)),
        *e matches Expr::Identifier(name) ==> match lookup_spec(old(em).locals@, name@) {
            Some(i) => r == Ok::<usize, CompileError>(1) && final(em).instrs@ == old(em).instrs@.push(
                Instr::LocalGet(old(em).locals@[i].slot),
            ),
            None => r matches Err(CompileError::UndefinedVariable(n2)) && n2@ == name@,
        },
        *e matches Expr::Binary { op, .. } ==> (r is Ok ==> binary_instr(op@) is Some
            && final(em).instrs@.last() == binary_instr(op@)->0),
        *e matches Expr::Call { name, args } ==> (!has_match(table@, call_key(name@, args@, old(em).locals@))
            ==> (r matches Err(err) && no_match_error(err, table@, name@, call_key(name@, args@, old(em).locals@).1))),
        match gen_expr(expr_view(*e), em_view(*old(em)), table_view(table@)) {
            Some((st, k)) => r == Ok::<usize, CompileError>(k) && em_view(*final(em)) == st,
            None => r is Err,
        },
    decreases e, 0nat,
{
    let ghost d = call_deltas(table@);
    match e {
        Expr::Literal(n) => {
            em.emit(Instr::I32Const(*n), Ghost(d));
            Ok(1)
        },
        Expr::StringLiteral(s) => {
            emit_string(em, table, s, true)?;
            Ok(1)
        },
        Expr::Identifier(name) => match lookup_local(&em.locals, name) {
            Some(i) => {
                proof {
                    lemma_lookup_view(em.locals@, name@);
                    assert(locals_view(em.locals@)[i as int] == local_view(em.locals@[i as int]));
                }
                let slot = em.locals[i].slot;
                em.emit(Instr::LocalGet(slot), Ghost(d));
                Ok(1)
            },
            None => {
                proof {
                    lemma_lookup_view(em.locals@, name@);
                }
                Err(CompileError::UndefinedVariable(name.clone()))
            },
        },
        Expr::Binary { left, op, right } => {
            let kl = compile_expr(&**left, em, table)?;
            if kl != 1 {
                return Err(CompileError::MissingValue);
            }
            let kr = compile_expr(&**right, em, table)?;
            if kr != 1 {
                return Err(CompileError::MissingValue);
            }
            let instr = if is_word(op, "+") {
                Instr::I32Add
            } else if is_word(op, "-") {
                Instr::I32Sub
            } else if is_word(op, "*") {
                Instr::I32Mul
            } else if is_word(op, "/") {
                Instr::I32DivS
            } else if is_word(op, "==") {
                Instr::I32Eq
            } else if is_word(op, ">") {
                Instr::I32GtS
            } else if is_word(op, "<") {
                Instr::I32LtS
            } else {
                return Err(CompileError::UnsupportedOperator(op.clone()));
            };
            em.emit(instr, Ghost(d));
            Ok(1)
        },
        Expr::Layout(inner) => {
            compile_node(&**inner, em, table)?;
            Ok(0)
        },
        Expr::Call { name, args } => compile_call(name, args, em, table),
    }
}

/// Emits a call: the arguments' types pick the declaration, each argument
/// leaves one value, and the call instruction names the declaration's index.
/// Fails with the candidates exactly when no declaration matches.
pub fn compile_call(name: &String, args: &Vec<Expr>, em: &mut Emitter, table: &Vec<FunctionEntry>) -> (r: Result<usize, CompileError>)
    requires
        table_wf(table@),
        old(em).wf(),
    ensures
        r matches Ok(k) ==> k <= 1 && depth(final(em), table@) == depth(old(em), table@) + k,
        r is Ok ==> exists|i: int|
            0 <= i < table@.len() && sig_view((#[trigger] table@[i]).0) == call_key(name@, args@, old(em).locals@)
                && final(em).instrs@.last() == Instr::Call((FIRST_USER_FUNC + i) as u32) && r->Ok_0 == table@[i].1.returns,
        !has_match(table@, call_key(name@, args@, old(em).locals@)) ==> (r matches Err(err) && no_match_error(
            err,
            table@,
            name@,
            call_key(name@, args@, old(em).locals@).1,
        )),
        final(em).scratch == old(em).scratch,
        r matches Err(e) ==> !(e is DuplicateSignature),
        final(em).wf(),
        final(em).next_local >= old(em).next_local,
        match gen_expr(ExprView::Call(name@, exprs_view(args@)), em_view(*old(em)), table_view(table@)) {
            Some((st, k)) => r == Ok::<usize, CompileError>(k) && em_view(*final(em)) == st,
            None => r is Err,
        },
    decreases args, 0nat,
{
    let ghost d = call_deltas(table@);
    let mut types: Vec<String> = Vec::new();
    let mut j: usize = 0;
    while j < args.len()
        invariant
            j <= args@.len(),
            types@.len() == j,
            forall|x: int| 0 <= x < j ==> (#[trigger] types@[x])@ == infer_type_spec(args@[x], em.locals@),
        decreases args@.len() - j,
    {
        types.push(infer_type(&args[j], &em.locals));
        j += 1;
    }
    assert(types@.map_values(|t: String| t@) =~= args@.map_values(|a: Expr| infer_type_spec(a, em.locals@)));
    let ghost st0 = em_view(*em);
    let ghost tv = table_view(table@);
    let ghost ev = exprs_view(args@);
    proof {
        lemma_exprs_view_index(args@);
        assert forall|x: int| 0 <= x < args@.len() implies infer_type_spec(args@[x], em.locals@) == infer_v(
            #[trigger] ev[x],
            st0.locals,
        ) by {
            lemma_infer_view(args@[x], em.locals@);
        }
        assert(types@.map_values(|t: String| t@) =~= ev.map_values(|a: ExprView| infer_v(a, st0.locals)));
    }
    let i = resolve_call(table, name, &types)?;
    let ghost full = gen_expr(ExprView::Call(name@, ev), st0, tv);
    assert(full == match gen_args(ev, 0, st0, tv) {
        Some(s1) => Some((with_code(s1, seq![Instr::Call((FIRST_USER_FUNC + i) as u32)]), tv[i as int].1)),
        None => None,
    });
    let ghost start = depth(em, table@);
    let ghost key = call_key(name@, args@, old(em).locals@);
    assert(sig_view(table@[i as int].0) == key);
    let mut j: usize = 0;
    while j < args.len()
        invariant
            table_wf(table@),
            d == call_deltas(table@),
            j <= args@.len(),
            depth(em, table@) == start + j,
            em.scratch == old(em).scratch,
            em.wf(),
            em.next_local >= old(em).next_local,
            i < table@.len(),
            sig_view(table@[i as int].0) == key,
            key == call_key(name@, args@, old(em).locals@),
            tv == table_view(table@),
            ev == exprs_view(args@),
            ev.len() == args@.len(),
            forall|x: int| 0 <= x < args@.len() ==> #[trigger] ev[x] == expr_view(args@[x]),
            gen_args(ev, 0, st0, tv) == gen_args(ev, j as int, em_view(*em), tv),
            full == gen_expr(ExprView::Call(name@, ev), st0, tv),
            st0 == em_view(*old(em)),
            full == match gen_args(ev, 0, st0, tv) {
                Some(s1) => Some((with_code(s1, seq![Instr::Call((FIRST_USER_FUNC + i) as u32)]), tv[i as int].1)),
                None => None,
            },
        decreases args@.len() - j,
    {
        proof {
            assert(decreases_to!(args => args@[j as int]));
        }
        let k = compile_expr(&args[j], em, table)?;
        if k != 1 {
            return Err(CompileError::MissingValue);
        }
        j += 1;
    }
    let f = FIRST_USER_FUNC + i as u32;
    em.emit(Instr::Call(f), Ghost(d));
    proof {
        assert(table@[i as int].1.returns <= 1);
        assert(table@[i as int].0.param_types@.len() == types@.len()) by {
            assert(table@[i as int].0.param_types@.map_values(|t: String| t@).len() == types@.map_values(|t: String| t@).len());
        }
        assert(d[i as int] == table@[i as int].1.returns as int - table@[i as int].0.param_types@.len());
        assert(tv[i as int].1 == table@[i as int].1.returns);
    }
    Ok(table[i].1.returns)
}

/// A group: its object, its children at their resolved positions, and its
/// entry after theirs.
#[verifier::rlimit(60)]
fn compile_group(n: &Node, em: &mut Emitter, table: &Vec<FunctionEntry>) -> (r: Result<(), CompileError>)
    requires
        table_wf(table@),
        old(em).wf(),
        n is Group,
    ensures
        r is Ok ==> depth(final(em), table@) == depth(old(em), table@),
        final(em).scratch == old(em).scratch,
        r matches Err(e) ==> !(e is DuplicateSignature),
        final(em).wf(),
        final(em).next_local >= old(em).next_local,
        match gen_node(node_view(*n), em_view(*old(em)), table_view(table@)) {
            Some(st) => r is Ok && em_view(*final(em)) == st,
            None => r is Err,
        },
        r is Ok ==> final(em).map@.len() > 0 && final(em).map@.last().wasm_offset == old(em).instrs@.len()
            && final(em).map@.last().kind@ == "group"@,
    decreases n, 0nat,
{
    let ghost d = call_deltas(table@);
    let ghost tv = table_view(table@);
    let ghost st0 = em_view(*em);
    match n {
        Node::Group { direction, gap, align, justify, padding, children } => {
            let off = em.instrs.len();
            let t = em.scratch;
            em.emit(Instr::I32Const(GROUP_PAYLOAD), Ghost(d));
            em.emit(Instr::I32Const(TAG_GROUP), Ghost(d));
            em.emit(Instr::Call(GC_ALLOC_FUNC), Ghost(d));
            em.emit(Instr::LocalTee(t), Ghost(d));
            em.emit(Instr::LocalGet(t), Ghost(d));
            em.emit(Instr::Call(ADD_ROOT_FUNC), Ghost(d));
            em.emit(Instr::Drop, Ghost(d));
            assert(em.instrs@ =~= st0.instrs + group_head(t));
            assert(em_view(*em) =~= with_code(st0, group_head(t)));
            let ghost head = em_view(*em);
            let ghost chv = nodes_view(children@);
            proof {
                lemma_nodes_view_index(children@);
            }
            let horizontal = is_word(direction, "horizontal");
            let mut dims: Vec<(i128, i128)> = Vec::new();
            let mut k: usize = 0;
            while k < children.len()
                invariant
                    k <= children@.len(),
                    dims@.len() == k,
                    chv == nodes_view(children@),
                    chv.len() == children@.len(),
                    forall|x: int| 0 <= x < children@.len() ==> #[trigger] chv[x] == node_view(children@[x]),
                    forall|x: int| 0 <= x < k ==> dims_view(dims@)[x] == #[trigger] extents_v(chv, horizontal)[x],
                decreases children@.len() - k,
            {
                let m = measure(&children[k], horizontal);
                proof {
                    lemma_size_view(children@[k as int]);
                }
                dims.push(m);
                k += 1;
            }
            assert(dims_view(dims@) =~= extents_v(chv, horizontal));
            let al = parse_anchor(align);
            let ju = parse_anchor(justify);
            let positions = match place(&dims, horizontal, *gap, *padding, al, ju) {
                Ok(p) => p,
                Err(_) => {
                    return Err(CompileError::Overflow);
                },
            };
            let ghost start = depth(em, table@);
            let ghost dv = dims_view(dims@);
            let mut k: usize = 0;
            while k < children.len()
                invariant
                    table_wf(table@),
                    d == call_deltas(table@),
                    tv == table_view(table@),
                    chv == nodes_view(children@),
                    chv.len() == children@.len(),
                    forall|x: int| 0 <= x < children@.len() ==> #[trigger] chv[x] == node_view(children@[x]),
                    dv == dims_view(dims@),
                    dv == extents_v(chv, horizontal),
                    horizontal == (direction@ == "horizontal"@),
                    al == anchor_of(align@),
                    ju == anchor_of(justify@),
                    forall|x: int|
                        0 <= x < positions@.len() ==> (#[trigger] positions@[x].0 as int, positions@[x].1 as int)
                            == position(dv, x, horizontal, *gap as int, *padding as int, al, ju),
                    gen_children(chv, 0, dv, horizontal, *gap as int, *padding as int, al, ju, head, tv)
                        == gen_children(chv, k as int, dv, horizontal, *gap as int, *padding as int, al, ju, em_view(*em), tv),
                    st0 == em_view(*old(em)),
                    off == st0.instrs.len(),
                    gen_node(node_view(*n), st0, tv) == match gen_children(chv, 0, dv, horizontal, *gap as int, *padding as int, al, ju, head, tv) {
                        Some(s2) => Some(with_entry(s2, entry("group"@, off as int, seq![
                            ("direction"@, PropView::Text(direction@)),
                            ("gap"@, PropView::Int(*gap)),
                            ("padding"@, PropView::Int(*padding)),
                            ("align"@, PropView::Text(align@)),
                            ("justify"@, PropView::Text(justify@)),
                        ]))),
                        None => None,
                    },
                    positions@.len() == dims@.len(),
                    dims@.len() == children@.len(),
                    *n is Group,
                    n->children == *children,
                    k <= children@.len(),
                    depth(em, table@) == start,
                    em.scratch == old(em).scratch,
                    em.wf(),
                    em.next_local >= old(em).next_local,
                decreases children@.len() - k,
            {
                let (px, py) = positions[k];
                let child = &children[k];
                proof {
                    assert(decreases_to!(children => children@[k as int]));
                    assert(decreases_to!(*n => n->children));
                    assert(decreases_to!(*n => children@[k as int]));
                }
                proof {
                    let p = position(dv, k as int, horizontal, *gap as int, *padding as int, al, ju);
                    assert((positions@[k as int].0 as int, positions@[k as int].1 as int) == p);
                    assert(p.0 as i32 == px && p.1 as i32 == py);
                    assert(chv[k as int] == node_view(*child));
                }
                match child {
                    Node::Box { width, height, .. } => {
                        compile_box(em, table, px, py, *width, *height);
                    },
                    Node::Text { .. } => {
                        compile_text(child, em, table, px, py)?;
                    },
                    _ => {
                        compile_node(child, em, table)?;
                    },
                }
                k += 1;
            }
            let props = vec![
                prop_text("direction", direction),
                prop_int("gap", *gap),
                prop_int("padding", *padding),
                prop_text("align", align),
                prop_text("justify", justify),
            ];
            let e = ElementMap { kind: text_of("group"), wasm_offset: off, pointer: None, source: None, props };
            proof {
                assert(entry_view(e).props =~= seq![
                    ("direction"@, PropView::Text(direction@)),
                    ("gap"@, PropView::Int(*gap)),
                    ("padding"@, PropView::Int(*padding)),
                    ("align"@, PropView::Text(align@)),
                    ("justify"@, PropView::Text(justify@)),
                ]);
                assert(entry_view(e) == entry("group"@, st0.instrs.len() as int, entry_view(e).props));
            }
            push_entry(em, e);
            Ok(())
        },
        _ => Err(CompileError::UnsupportedNode),
    }
}

/// A list: each item as a text, one after the other along the main axis,
/// then the list's entry.
fn compile_list(n: &Node, em: &mut Emitter, table: &Vec<FunctionEntry>) -> (r: Result<(), CompileError>)
    requires
        table_wf(table@),
        old(em).wf(),
        n is List,
    ensures
        r is Ok ==> depth(final(em), table@) == depth(old(em), table@),
        final(em).scratch == old(em).scratch,
        r matches Err(e) ==> !(e is DuplicateSignature),
        final(em).wf(),
        final(em).next_local >= old(em).next_local,
        match gen_node(node_view(*n), em_view(*old(em)), table_view(table@)) {
            Some(st) => r is Ok && em_view(*final(em)) == st,
            None => r is Err,
        },
        r is Ok ==> final(em).map@.len() > 0 && final(em).map@.last().wasm_offset == old(em).instrs@.len()
            && final(em).map@.last().kind@ == "list"@,
    decreases n, 0nat,
{
    let ghost d = call_deltas(table@);
    let ghost tv = table_view(table@);
    let ghost st0 = em_view(*em);
    match n {
        Node::List { direction, gap, padding, items } => {
            let off = em.instrs.len();
            let horizontal = is_word(direction, "horizontal");
            let mut cursor: i32 = *padding;
            let ghost start = depth(em, table@);
            let ghost itv = nodes_view(items@);
            proof {
                lemma_nodes_view_index(items@);
            }
            let mut k: usize = 0;
            while k < items.len()
                invariant
                    table_wf(table@),
                    d == call_deltas(table@),
                    k <= items@.len(),
                    *n is List,
                    itv == nodes_view(items@),
                    itv.len() == items@.len(),
                    forall|x: int| 0 <= x < items@.len() ==> #[trigger] itv[x] == node_view(items@[x]),
                    horizontal == (direction@ == "horizontal"@),
                    off == st0.instrs.len(),
                    st0 == em_view(*old(em)),
                    tv == table_view(table@),
                    gen_node(node_view(*n), st0, tv) == match gen_items(itv, 0, *padding, horizontal, *gap, *padding, st0) {
                        Some(s2) => Some(with_entry(s2, entry("list"@, off as int, seq![
                            ("direction"@, PropView::Text(direction@)),
                            ("gap"@, PropView::Int(*gap)),
                            ("padding"@, PropView::Int(*padding)),
                        ]))),
                        None => None,
                    },
                    gen_items(itv, 0, *padding, horizontal, *gap, *padding, st0) == gen_items(
                        itv,
                        k as int,
                        cursor,
                        horizontal,
                        *gap,
                        *padding,
                        em_view(*em),
                    ),
                    depth(em, table@) == start,
                    em.scratch == old(em).scratch,
                    em.wf(),
                    em.next_local >= old(em).next_local,
                decreases items@.len() - k,
            {
                match &items[k] {
                    Node::Item { value } => {
                        let (x, y) = if horizontal {
                            (cursor, *padding)
                        } else {
                            (*padding, cursor)
                        };
                        let ghost sk = em_view(*em);
                        let item_off = em.instrs.len();
                        assert(itv[k as int] == NodeView::Item(value@));
                        let len = emit_string(em, table, value, false)?;
                        let t = em.scratch;
                        em.emit(Instr::I32Const(x), Ghost(d));
                        em.emit(Instr::I32Const(y), Ghost(d));
                        em.emit(Instr::LocalGet(t), Ghost(d));
                        em.emit(Instr::I32Const(len), Ghost(d));
                        em.emit(Instr::Call(DRAW_TEXT_FUNC), Ghost(d));
                        assert(em.instrs@ =~= sk.instrs + text_code(t, x, y, encode_utf8(value@)));
                        assert(em_view(*em) =~= with_code(sk, text_code(t, x, y, encode_utf8(value@))));
                        let props = vec![prop_int("x", x), prop_int("y", y), prop_text("value", value)];
                        let e = ElementMap { kind: text_of("text"), wasm_offset: item_off, pointer: None, source: None, props };
                        proof {
                            assert(entry_view(e).props =~= seq![
                                ("x"@, PropView::Int(x)),
                                ("y"@, PropView::Int(y)),
                                ("value"@, PropView::Text(value@)),
                            ]);
                            assert(entry_view(e) == entry("text"@, sk.instrs.len() as int, entry_view(e).props));
                        }
                        push_entry(em, e);
                        let main: i64 = if horizontal {
                            len as i64 * 8
                        } else {
                            16
                        };
                        let next: i64 = cursor as i64 + main + *gap as i64;
                        if next < -2147483648 || next > 2147483647 {
                            return Err(CompileError::Overflow);
                        }
                        cursor = next as i32;
                    },
                    _ => {
                        return Err(CompileError::UnsupportedNode);
                    },
                }
                k += 1;
            }
            let props = vec![prop_text("direction", direction), prop_int("gap", *gap), prop_int("padding", *padding)];
            let e = ElementMap { kind: text_of("list"), wasm_offset: off, pointer: None, source: None, props };
            proof {
                assert(entry_view(e).props =~= seq![
                    ("direction"@, PropView::Text(direction@)),
                    ("gap"@, PropView::Int(*gap)),
                    ("padding"@, PropView::Int(*padding)),
                ]);
                assert(entry_view(e) == entry("list"@, st0.instrs.len() as int, entry_view(e).props));
            }
            push_entry(em, e);
            Ok(())
        },
        _ => Err(CompileError::UnsupportedNode),
    }
}

/// A conditional: the condition, then each branch's statements.
fn compile_if(n: &Node, em: &mut Emitter, table: &Vec<FunctionEntry>) -> (r: Result<(), CompileError>)
    requires
        table_wf(table@),
        old(em).wf(),
        n is If,
    ensures
        r is Ok ==> depth(final(em), table@) == depth(old(em), table@),
        final(em).scratch == old(em).scratch,
        r matches Err(e) ==> !(e is DuplicateSignature),
        final(em).wf(),
        final(em).next_local >= old(em).next_local,
        match gen_node(node_view(*n), em_view(*old(em)), table_view(table@)) {
            Some(st) => r is Ok && em_view(*final(em)) == st,
            None => r is Err,
        },
        r is Ok ==> final(em).instrs@.len() > 0 && final(em).instrs@.last() == Instr::End,
    decreases n, 0nat,
{
    let ghost d = call_deltas(table@);
    let ghost tv = table_view(table@);
    let ghost st0 = em_view(*em);
    match n {
        Node::If { condition, then_body, else_body } => {
            let k = compile_expr(condition, em, table)?;
            if k != 1 {
                return Err(CompileError::MissingValue);
            }
            em.emit(Instr::If, Ghost(d));
            let ghost start = depth(em, table@);
            let ghost s_then = em_view(*em);
            let ghost thv = nodes_view(then_body@);
            proof {
                lemma_nodes_view_index(then_body@);
            }
            let mut j: usize = 0;
            while j < then_body.len()
                invariant
                    table_wf(table@),
                    d == call_deltas(table@),
                    tv == table_view(table@),
                    thv == nodes_view(then_body@),
                    thv.len() == then_body@.len(),
                    forall|x: int| 0 <= x < then_body@.len() ==> #[trigger] thv[x] == node_view(then_body@[x]),
                    gen_stmts(thv, 0, s_then, tv) == gen_stmts(thv, j as int, em_view(*em), tv),
                    st0 == em_view(*old(em)),
                    gen_node(node_view(*n), st0, tv) == match gen_stmts(thv, 0, s_then, tv) {
                        Some(s2) => match node_view(*n)->else_body {
                            Some(b) => match gen_stmts(b, 0, with_code(s2, seq![Instr::Else]), tv) {
                                Some(s3) => Some(with_code(s3, seq![Instr::End])),
                                None => None,
                            },
                            None => Some(with_code(s2, seq![Instr::End])),
                        },
                        None => None,
                    },
                    j <= then_body@.len(),
                    *n is If,
                    n->then_body == *then_body,
                    depth(em, table@) == start,
                    em.scratch == old(em).scratch,
                    em.wf(),
                    em.next_local >= old(em).next_local,
                decreases then_body@.len() - j,
            {
                proof {
                    assert(decreases_to!(then_body => then_body@[j as int]));
                    assert(decreases_to!(*n => n->then_body));
                    assert(decreases_to!(*n => then_body@[j as int]));
                }
                compile_node(&then_body[j], em, table)?;
                j += 1;
            }
            match else_body {
                Some(body) => {
                    em.emit(Instr::Else, Ghost(d));
                    let ghost s_else = em_view(*em);
                    let ghost bv = nodes_view(body@);
                    proof {
                        lemma_nodes_view_index(body@);
                    }
                    let mut j: usize = 0;
                    while j < body.len()
                        invariant
                            table_wf(table@),
                            d == call_deltas(table@),
                            tv == table_view(table@),
                            bv == nodes_view(body@),
                            bv.len() == body@.len(),
                            forall|x: int| 0 <= x < body@.len() ==> #[trigger] bv[x] == node_view(body@[x]),
                            gen_stmts(bv, 0, s_else, tv) == gen_stmts(bv, j as int, em_view(*em), tv),
                            st0 == em_view(*old(em)),
                            gen_node(node_view(*n), st0, tv) == match gen_stmts(bv, 0, s_else, tv) {
                                Some(s3) => Some(with_code(s3, seq![Instr::End])),
                                None => None,
                            },
                            j <= body@.len(),
                            *n is If,
                            n->else_body == Some(*body),
                            depth(em, table@) == start,
                            em.scratch == old(em).scratch,
                            em.wf(),
                            em.next_local >= old(em).next_local,
                        decreases body@.len() - j,
                    {
                        proof {
                            assert(decreases_to!(body => body@[j as int]));
                            assert(decreases_to!(*n => n->else_body));
                            assert(decreases_to!(n->else_body => n->else_body->0));
                            assert(decreases_to!(*n => body@[j as int]));
                        }
                        compile_node(&body[j], em, table)?;
                        j += 1;
                    }
                },
                None => {},
            }
            em.emit(Instr::End, Ghost(d));
            Ok(())
        },
        _ => Err(CompileError::UnsupportedNode),
    }
}

/// Emits a statement. Every statement leaves the stack as it found it,
/// dropping what its expression leaves.
pub fn compile_node(n: &Node, em: &mut Emitter, table: &Vec<FunctionEntry>) -> (r: Result<(), CompileError>)
    requires
        table_wf(table@),
        old(em).wf(),
    ensures
        r is Ok ==> depth(final(em), table@) == depth(old(em), table@),
        final(em).scratch == old(em).scratch,
        r matches Err(e) ==> !(e is DuplicateSignature),
        final(em).wf(),
        final(em).next_local >= old(em).next_local,
        *n matches Node::Box { x, y, width, height } ==> r is Ok && final(em).instrs@ == old(em).instrs@
            + box_code(old(em).scratch, x, y, width, height),
        *n is Item || *n is Function ==> r matches Err(CompileError::UnsupportedNode),
        *n matches Node::Text { x, y, value: Expr::StringLiteral(s) } ==> (r is Ok <==> byte_len(s@)
            <= i32::MAX) && (r is Ok ==> final(em).instrs@ == old(em).instrs@ + text_code(
            old(em).scratch,
            x,
            y,
            encode_utf8(s@),
        )),
        *n matches Node::Let { name, .. } ==> (r is Ok ==> final(em).locals@.len() > 0
            && final(em).locals@.last().name@ == name@),
        *n is Let && r is Ok ==> final(em).locals@.len() > 0 && final(em).locals@.last().slot >= old(em).next_local
            && final(em).locals@.last().slot != old(em).scratch && forall|i: int|
            0 <= i < old(em).locals@.len() ==> #[trigger] old(em).locals@[i].slot != final(em).locals@.last().slot,
        *n is If && r is Ok ==> final(em).instrs@.len() > 0 && final(em).instrs@.last() == Instr::End,
        (*n is Group || *n is List) && r is Ok ==> final(em).map@.len() > 0
            && final(em).map@.last().wasm_offset == old(em).instrs@.len() && final(em).map@.last().kind@
            == if *n is Group {
            "group"@
        } else {
            "list"@
        },
        match gen_node(node_view(*n), em_view(*old(em)), table_view(table@)) {
            Some(st) => r is Ok && em_view(*final(em)) == st,
            None => r is Err,
        },
    decreases n, 1nat,
{
    let ghost d = call_deltas(table@);
    let ghost tv = table_view(table@);
    let ghost st0 = em_view(*em);
    match n {
        Node::Box { x, y, width, height } => {
            compile_box(em, table, *x, *y, *width, *height);
            Ok(())
        },
        Node::Text { x, y, .. } => compile_text(n, em, table, *x, *y),
        Node::Group { .. } => compile_group(n, em, table),
        Node::List { .. } => compile_list(n, em, table),
        Node::Item { .. } => Err(CompileError::UnsupportedNode),
        Node::If { .. } => compile_if(n, em, table),
        Node::Let { name, value } => {
            let ty = infer_type(value, &em.locals);
            proof {
                lemma_infer_view(*value, em.locals@);
            }
            let k = compile_expr(value, em, table)?;
            let ghost s1 = em_view(*em);
            if em.next_local == u32::MAX {
                return Err(CompileError::Overflow);
            }
            let slot = em.next_local;
            if k == 0 {
                let t = em.scratch;
                em.emit(Instr::LocalGet(t), Ghost(d));
            }
            em.emit(Instr::LocalSet(slot), Ghost(d));
            let ghost s2 = em_view(*em);
            proof {
                if k == 0 {
                    assert(s2.instrs =~= s1.instrs + seq![Instr::LocalGet(s1.scratch), Instr::LocalSet(slot)]);
                } else {
                    assert(s2.instrs =~= s1.instrs + seq![Instr::LocalSet(slot)]);
                }
            }
            let b = LocalBinding { name: name.clone(), slot, ty };
            em.locals.push(b);
            em.next_local = slot + 1;
            proof {
                assert(locals_view(em.locals@) =~= s2.locals.push((name@, slot, ty@)));
            }
            Ok(())
        },
        Node::Function { .. } => Err(CompileError::UnsupportedNode),
        Node::Expr(e) => {
            let k = compile_expr(e, em, table)?;
            if k == 1 {
                em.emit(Instr::Drop, Ghost(d));
            }
            Ok(())
        },
    }
}

} // verus!
