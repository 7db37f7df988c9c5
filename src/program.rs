//! Whole-program generation: the signature pre-pass, one body per function,
//! and the stack verifier's gate on each body.
use vstd::prelude::*;
use crate::ast::Node;
use crate::codegen::{
    node_sig, sig_view, call_deltas, collect_signatures, effect, has_duplicate, net_effect, net_stack_effect, table_of,
    table_wf, too_large, CompileError, FunctionEntry, Instr, GC_TICK_FUNC,
    GC_TICK_IMPORT, MAX_BODY_LEN, RUN_FUNC,
};
use crate::compile::{
    compile_node, depth, em_view, lemma_nodes_view_index, entry_view, local_view, locals_view, table_view, ElementMap, Emitter,
    LocalBinding,
};
use crate::ast::{node_view, nodes_view, NodeView};
use crate::gen::{gen_node, gen_stmts, EmView, EntryView, TableView};
use crate::codegen::{dup_error, fn_positions, param_count, FIRST_USER_FUNC, MAX_DECLS};
use crate::parser::is_word;

verus! {

/// A generated function body.
#[derive(Debug)]
pub struct CompiledFunction {
    /// The function's index in the module.
    pub index: u32,
    /// Number of parameters, all 32-bit integers.
    pub num_params: u32,
    /// Number of further 32-bit locals.
    pub num_locals: u32,
    /// The instructions, ending with `End`.
    pub body: Vec<Instr>,
}

/// Everything the binary module is made from.
#[derive(Debug)]
pub struct CompiledModule {
    /// The user functions' signatures and metadata, in index order.
    pub table: Vec<FunctionEntry>,
    /// The user functions' bodies, in the same order.
    pub functions: Vec<CompiledFunction>,
    /// The `run` entry point.
    pub run: CompiledFunction,
    /// The `gc_tick` entry point.
    pub gc_tick: CompiledFunction,
    /// The semantic map of `run`.
    pub elements: Vec<ElementMap>,
}

/// A generated function as plain values: index, parameter count, count of
/// further locals, code.
pub type FunctionView = (u32, u32, u32, Seq<Instr>);

/// A compiled program as plain values.
pub struct ModuleView {
    pub table: TableView,
    pub functions: Seq<FunctionView>,
    pub run: FunctionView,
    pub gc_tick: FunctionView,
    pub elements: Seq<EntryView>,
}

pub open spec fn function_view(f: CompiledFunction) -> FunctionView {
    (f.index, f.num_params, f.num_locals, f.body@)
}

pub open spec fn module_view(m: CompiledModule) -> ModuleView {
    ModuleView {
        table: table_view(m.table@),
        functions: m.functions@.map_values(|f: CompiledFunction| function_view(f)),
        run: function_view(m.run),
        gc_tick: function_view(m.gc_tick),
        elements: m.elements@.map_values(|e: ElementMap| entry_view(e)),
    }
}

/// The dispatch key of a declaration.
pub open spec fn sig_v(n: NodeView) -> (Seq<char>, Seq<Seq<char>>) {
    match n {
        NodeView::Function(name, params, _) => (name, params.map_values(|p: (Seq<char>, Seq<char>)| p.1)),
        _ => (Seq::empty(), Seq::empty()),
    }
}

/// The positions of the declarations.
pub open spec fn fn_positions_v(av: Seq<NodeView>) -> Seq<int>
    decreases av.len(),
{
    if av.len() == 0 {
        Seq::empty()
    } else if av.last() is Function {
        fn_positions_v(av.drop_last()).push(av.len() - 1)
    } else {
        fn_positions_v(av.drop_last())
    }
}

/// The function table of a program.
pub open spec fn table_v(av: Seq<NodeView>) -> TableView {
    fn_positions_v(av).map_values(|k: int| (sig_v(av[k]), 0usize))
}

/// The stack effect of calling each user function.
pub open spec fn deltas_v(tv: TableView) -> Seq<int> {
    tv.map_values(|e: ((Seq<char>, Seq<Seq<char>>), usize)| e.1 as int - e.0.1.len())
}

/// The program is beyond the generator's limits.
pub open spec fn too_large_v(av: Seq<NodeView>) -> bool {
    av.len() > MAX_DECLS || exists|k: int|
        0 <= k < av.len() && (#[trigger] av[k]) is Function && av[k]->Function_1.len() > MAX_DECLS
}

/// Two declarations share a dispatch key.
pub open spec fn has_dup_v(av: Seq<NodeView>) -> bool {
    exists|i: int, j: int|
        0 <= i < j < av.len() && (#[trigger] av[i]) is Function && (#[trigger] av[j]) is Function
            && sig_v(av[i]) == sig_v(av[j])
}

/// The body of a user function with the given parameters.
pub open spec fn gen_function(params: Seq<(Seq<char>, Seq<char>)>, body: Seq<NodeView>, index: u32, tv: TableView) -> Option<FunctionView> {
    let n = params.len();
    if n >= 4294967295 {
        None
    } else if exists|q: int| 0 <= q < n && !(#[trigger] params[q].1 == "int"@ || params[q].1 == "string"@) {
        None
    } else {
        let st0 = EmView {
            instrs: Seq::empty(),
            map: Seq::empty(),
            locals: Seq::new(n, |q: int| (params[q].0, q as u32, params[q].1)),
            scratch: n as u32,
            next_local: (n + 1) as u32,
        };
        match gen_stmts(body, 0, st0, tv) {
            Some(st) => if st.instrs.len() <= MAX_BODY_LEN && net_effect(st.instrs, deltas_v(tv)) == 0 {
                Some((index, n as u32, (st.next_local - n) as u32, st.instrs.push(Instr::End)))
            } else {
                None
            },
            None => None,
        }
    }
}

/// The user functions from the `f`th declaration on.
pub open spec fn gen_functions(av: Seq<NodeView>, tv: TableView, f: int) -> Option<Seq<FunctionView>>
    decreases tv.len() - f,
{
    if f < 0 || f >= tv.len() || f >= fn_positions_v(av).len() {
        Some(Seq::empty())
    } else {
        let k = fn_positions_v(av)[f];
        match av[k] {
            NodeView::Function(_, params, body) => match gen_function(params, body, (FIRST_USER_FUNC + f) as u32, tv) {
                Some(fv) => match gen_functions(av, tv, f + 1) {
                    Some(rest) => Some(seq![fv] + rest),
                    None => None,
                },
                None => None,
            },
            _ => None,
        }
    }
}

/// The top-level statements from `k` on, other than declarations.
pub open spec fn gen_top(av: Seq<NodeView>, k: int, st: EmView, tv: TableView) -> Option<EmView>
    decreases av.len() - k,
{
    if k < 0 || k >= av.len() {
        Some(st)
    } else if av[k] is Function {
        gen_top(av, k + 1, st, tv)
    } else {
        match gen_node(av[k], st, tv) {
            Some(s1) => gen_top(av, k + 1, s1, tv),
            None => None,
        }
    }
}

/// The compiled form of a program, `None` where compilation fails.
pub open spec fn gen_program(av: Seq<NodeView>) -> Option<ModuleView> {
    if too_large_v(av) || has_dup_v(av) {
        None
    } else {
        let tv = table_v(av);
        match gen_functions(av, tv, 0) {
            None => None,
            Some(fs) => {
                let run0 = EmView { instrs: Seq::empty(), map: Seq::empty(), locals: Seq::empty(), scratch: 0, next_local: 1 };
                match gen_top(av, 0, run0, tv) {
                    None => None,
                    Some(st) => if st.instrs.len() <= MAX_BODY_LEN && net_effect(st.instrs, deltas_v(tv)) == 0 {
                        Some(
                            ModuleView {
                                table: tv,
                                functions: fs,
                                run: (RUN_FUNC, 0, st.next_local, st.instrs.push(Instr::End)),
                                gc_tick: (GC_TICK_FUNC, 0, 0, seq![Instr::Call(GC_TICK_IMPORT), Instr::End]),
                                elements: st.map,
                            },
                        )
                    } else {
                        None
                    },
                }
            },
        }
    }
}

proof fn lemma_positions_view(ast: Seq<Node>)
    ensures
        fn_positions(ast) == fn_positions_v(nodes_view(ast)),
    decreases ast.len(),
{
    if ast.len() > 0 {
        assert(ast.drop_last() =~= ast.subrange(0, ast.len() - 1));
        lemma_positions_view(ast.drop_last());
        lemma_nodes_view_index(ast);
        assert(nodes_view(ast).drop_last() =~= nodes_view(ast.drop_last()));
        assert(nodes_view(ast).last() == node_view(ast.last()));
    }
}

proof fn lemma_limits_view(ast: Seq<Node>)
    ensures
        too_large(ast) == too_large_v(nodes_view(ast)),
        has_duplicate(ast) == has_dup_v(nodes_view(ast)),
{
    let av = nodes_view(ast);
    lemma_nodes_view_index(ast);
    assert forall|k: int| 0 <= k < ast.len() implies #[trigger] av[k] == node_view(ast[k]) && node_sig(ast[k]) == sig_v(av[k])
        && param_count(ast[k]) == (if av[k] is Function { av[k]->Function_1.len() as int } else { 0 }) by {
        lemma_sig_view(ast[k]);
    }
    if too_large(ast) {
        if ast.len() <= MAX_DECLS {
            let k = choose|k: int| 0 <= k < ast.len() && #[trigger] param_count(ast[k]) > MAX_DECLS;
            assert(av[k] is Function);
        }
    }
    if too_large_v(av) {
        if av.len() <= MAX_DECLS {
            let k = choose|k: int| 0 <= k < av.len() && (#[trigger] av[k]) is Function && av[k]->Function_1.len() > MAX_DECLS;
            assert(param_count(ast[k]) > MAX_DECLS);
        }
    }
    if has_duplicate(ast) {
        let (i, j) = choose|i: int, j: int|
            0 <= i < j < ast.len() && (#[trigger] ast[i]) is Function && (#[trigger] ast[j]) is Function
                && node_sig(ast[i]) == node_sig(ast[j]);
        assert(av[i] is Function && av[j] is Function);
    }
    if has_dup_v(av) {
        let (i, j) = choose|i: int, j: int|
            0 <= i < j < av.len() && (#[trigger] av[i]) is Function && (#[trigger] av[j]) is Function
                && sig_v(av[i]) == sig_v(av[j]);
        assert(ast[i] is Function && ast[j] is Function);
    }
}

proof fn lemma_sig_view(n: Node)
    ensures
        node_sig(n) == sig_v(node_view(n)),
        param_count(n) == if node_view(n) is Function {
            node_view(n)->Function_1.len() as int
        } else {
            0
        },
{
    if let Node::Function { name, params, body } = n {
        assert(params@.map_values(|p: (String, String)| p.1@) =~= params@.map_values(
            |p: (String, String)| (p.0@, p.1@),
        ).map_values(|p: (Seq<char>, Seq<char>)| p.1));
    }
}

/// Each body of the module ends at the depth its function declares: zero for
/// `run` and `gc_tick`, the recorded result count for a user function.
pub open spec fn stack_balanced(m: CompiledModule) -> bool {
    let d = call_deltas(m.table@);
    &&& net_effect(m.run.body@, d) == 0
    &&& net_effect(m.gc_tick.body@, d) == 0
    &&& m.functions@.len() == m.table@.len()
    &&& forall|i: int|
        0 <= i < m.functions@.len() ==> net_effect((#[trigger] m.functions@[i]).body@, d)
            == m.table@[i].1.returns as int
}

/// The stack verifier's gate: replays a body and fails unless it ends at the
/// expected depth.
pub fn verify_stack(body: &Vec<Instr>, table: &Vec<FunctionEntry>, expected: i64, function_index: u32) -> (r: Result<(), CompileError>)
    requires
        table_wf(table@),
    ensures
        r is Ok <==> body@.len() <= MAX_BODY_LEN && net_effect(body@, call_deltas(table@)) == expected,
        r matches Err(e) ==> !(e is DuplicateSignature),
{
    match net_stack_effect(body, table) {
        Some(depth) => {
            if depth == expected {
                Ok(())
            } else {
                Err(CompileError::UnbalancedStack { function_index, depth, expected })
            }
        },
        None => Err(CompileError::Overflow),
    }
}

fn finish_body(mut body: Vec<Instr>, Ghost(d): Ghost<Seq<int>>) -> (r: Vec<Instr>)
    ensures
        net_effect(r@, d) == net_effect(body@, d),
        r@ == body@.push(Instr::End),
{
    let ghost before = body@;
    body.push(Instr::End);
    proof {
        assert(body@.drop_last() =~= before);
    }
    body
}

/// Whether a parameter type is one the module can pass.
fn supported_type(t: &String) -> (r: bool)
    ensures
        r == (t@ == "int"@ || t@ == "string"@),
{
    is_word(t, "int") || is_word(t, "string")
}

/// One user function: its parameters take the first slots, its body is
/// generated and passes the stack verifier, and it ends with `End`.
fn compile_function(params: &Vec<(String, String)>, body: &Vec<Node>, table: &Vec<FunctionEntry>, index: u32) -> (r: Result<CompiledFunction, CompileError>)
    requires
        table_wf(table@),
        forall|i: int| 0 <= i < table@.len() ==> (#[trigger] table@[i]).1.returns == 0,
    ensures
        match gen_function(
            params@.map_values(|q: (String, String)| (q.0@, q.1@)),
            nodes_view(body@),
            index,
            table_view(table@),
        ) {
            Some(fv) => r matches Ok(c) && function_view(c) == fv,
            None => r is Err,
        },
        r matches Ok(c) ==> c.index == index && c.num_params == params@.len() && c.body@.last() == Instr::End
            && net_effect(c.body@, call_deltas(table@)) == 0,
        r matches Err(e) ==> !(e is DuplicateSignature),
{
    let ghost d = call_deltas(table@);
    let ghost tv = table_view(table@);
    let ghost pv = params@.map_values(|q: (String, String)| (q.0@, q.1@));
    proof {
        assert(d =~= deltas_v(tv));
    }
    let n_params = params.len();
    if n_params >= 4294967295 {
        return Err(CompileError::Overflow);
    }
    let mut em = Emitter::new(n_params as u32);
    let mut p: usize = 0;
    while p < n_params
        invariant
            pv == params@.map_values(|q: (String, String)| (q.0@, q.1@)),
            forall|q: int| 0 <= q < p ==> (#[trigger] pv[q]).1 == "int"@ || pv[q].1 == "string"@,
            locals_view(em.locals@) == Seq::new(p as nat, |q: int| (pv[q].0, q as u32, pv[q].1)),
            em.map@.len() == 0,
            em.scratch == n_params,
            em.next_local == n_params + 1,
            em.locals@.len() == p,
            em.wf(),
            n_params == params@.len(),
            n_params < 4294967295,
            p <= n_params,
            em.instrs@.len() == 0,
        decreases n_params - p,
    {
        if !supported_type(&params[p].1) {
            assert(!(pv[p as int].1 == "int"@ || pv[p as int].1 == "string"@));
            return Err(CompileError::UnsupportedType(params[p].1.clone()));
        }
        let ghost lb = em.locals@;
        em.locals.push(LocalBinding { name: params[p].0.clone(), slot: p as u32, ty: params[p].1.clone() });
        proof {
            assert(em.locals@[p as int].slot == p as u32);
            assert(locals_view(em.locals@) =~= locals_view(lb).push(local_view(em.locals@[p as int])));
            assert(locals_view(em.locals@) =~= Seq::new((p + 1) as nat, |q: int| (pv[q].0, q as u32, pv[q].1)));
        }
        p += 1;
    }
    assert(depth(&em, table@) == 0) by {
        assert(em.instrs@ =~= Seq::<Instr>::empty());
    }
    let ghost st0 = em_view(em);
    let ghost bv = nodes_view(body@);
    proof {
        lemma_nodes_view_index(body@);
        assert(st0.instrs =~= Seq::<Instr>::empty());
        assert(st0.map =~= Seq::<EntryView>::empty());
        assert(st0.locals =~= Seq::new(pv.len(), |q: int| (pv[q].0, q as u32, pv[q].1)));
    }
    let mut s: usize = 0;
    while s < body.len()
        invariant
            table_wf(table@),
            em.wf(),
            em.next_local > n_params,
            s <= body@.len(),
            depth(&em, table@) == 0,
            tv == table_view(table@),
            bv == nodes_view(body@),
            bv.len() == body@.len(),
            forall|x: int| 0 <= x < body@.len() ==> #[trigger] bv[x] == node_view(body@[x]),
            gen_stmts(bv, 0, st0, tv) == gen_stmts(bv, s as int, em_view(em), tv),
            pv == params@.map_values(|q: (String, String)| (q.0@, q.1@)),
            pv.len() == n_params,
            n_params < 4294967295,
            forall|q: int| 0 <= q < n_params ==> (#[trigger] pv[q]).1 == "int"@ || pv[q].1 == "string"@,
            st0 == (EmView {
                instrs: Seq::empty(),
                map: Seq::empty(),
                locals: Seq::new(pv.len(), |q: int| (pv[q].0, q as u32, pv[q].1)),
                scratch: pv.len() as u32,
                next_local: (pv.len() + 1) as u32,
            }),
        decreases body@.len() - s,
    {
        compile_node(&body[s], &mut em, table)?;
        s += 1;
    }
    verify_stack(&em.instrs, table, 0, index)?;
    let num_locals = em.next_local - n_params as u32;
    let code = finish_body(em.instrs, Ghost(d));
    Ok(CompiledFunction { index, num_params: n_params as u32, num_locals, body: code })
}

/// Generates every body of a program: the user functions in declaration
/// order, then `run` from the top-level statements other than declarations,
/// then `gc_tick`, which asks the host to collect. Each body passes the
/// stack verifier.
#[verifier::rlimit(60)]
pub fn compile_program(ast: &Vec<Node>) -> (r: Result<CompiledModule, CompileError>)
    ensures
        r matches Ok(m) ==> stack_balanced(m) && table_of(m.table@, ast@),
        r matches Ok(m) ==> m.run.index == RUN_FUNC && m.gc_tick.index == GC_TICK_FUNC && m.gc_tick.body@
            == seq![Instr::Call(GC_TICK_IMPORT), Instr::End] && m.run.body@.last() == Instr::End,
        r matches Ok(m) ==> forall|i: int|
            0 <= i < m.functions@.len() ==> (#[trigger] m.functions@[i]).index == m.table@[i].1.wasm_index
                && m.functions@[i].num_params == m.table@[i].0.param_types@.len() && m.functions@[i].body@.last()
                == Instr::End,
        !too_large(ast@) && has_duplicate(ast@) ==> r matches Err(CompileError::DuplicateSignature { .. }),
        r matches Err(e) ==> (e is DuplicateSignature ==> dup_error(e, ast@)),
        match gen_program(nodes_view(ast@)) {
            Some(mv) => r matches Ok(m) && module_view(m) == mv,
            None => r is Err,
        },
{
    let ghost av = nodes_view(ast@);
    proof {
        lemma_limits_view(ast@);
    }
    let table = collect_signatures(ast)?;
    let ghost d = call_deltas(table@);
    let ghost tv = table_view(table@);
    let ghost fpos = fn_positions_v(av);
    proof {
        lemma_positions_view(ast@);
        lemma_nodes_view_index(ast@);
        assert(table@.map_values(|e: FunctionEntry| e.1.node_index as int)[0] == 0 || true);
        assert forall|i: int| 0 <= i < table@.len() implies #[trigger] table@[i].1.node_index == fpos[i] by {
            assert(table@.map_values(|e: FunctionEntry| e.1.node_index as int)[i] == table@[i].1.node_index);
        }
        assert forall|i: int| 0 <= i < table@.len() implies #[trigger] tv[i] == table_v(av)[i] by {
            let k = table@[i].1.node_index as int;
            lemma_sig_view(ast@[k]);
        }
        assert(tv =~= table_v(av));
        assert(d =~= deltas_v(tv));
    }
    let mut functions: Vec<CompiledFunction> = Vec::new();
    let mut f: usize = 0;
    while f < table.len()
        invariant
            table_of(table@, ast@),
            !(!too_large(ast@) && has_duplicate(ast@)),
            d == call_deltas(table@),
            f <= table@.len(),
            functions@.len() == f,
            forall|i: int| 0 <= i < f ==> net_effect((#[trigger] functions@[i]).body@, d) == table@[i].1.returns as int,
            forall|i: int|
                0 <= i < f ==> (#[trigger] functions@[i]).index == table@[i].1.wasm_index
                    && functions@[i].num_params == table@[i].0.param_types@.len() && functions@[i].body@.last()
                    == Instr::End,
            av == nodes_view(ast@),
            av.len() == ast@.len(),
            forall|k: int| 0 <= k < ast@.len() ==> #[trigger] av[k] == node_view(ast@[k]),
            !too_large_v(av) && !has_dup_v(av),
            tv == table_view(table@),
            tv == table_v(av),
            d == deltas_v(tv),
            fpos == fn_positions_v(av),
            fpos.len() == table@.len(),
            forall|i: int| 0 <= i < table@.len() ==> #[trigger] table@[i].1.node_index == fpos[i],
            gen_functions(av, tv, 0) == match gen_functions(av, tv, f as int) {
                Some(rest) => Some(functions@.map_values(|c: CompiledFunction| function_view(c)) + rest),
                None => None,
            },
        decreases table@.len() - f,
    {
        let idx = table[f].1.node_index;
        match &ast[idx] {
            Node::Function { name, params, body } => {
                let ghost pv = params@.map_values(|q: (String, String)| (q.0@, q.1@));
                assert(av[idx as int] == NodeView::Function(name@, pv, nodes_view(body@)));
                let cf = compile_function(params, body, &table, table[f].1.wasm_index)?;
                let ghost before = functions@;
                proof {
                    assert(table@[f as int].1.wasm_index == (FIRST_USER_FUNC + f) as u32);
                    let sv = sig_view(table@[f as int].0);
                    assert(sv.1.len() == table@[f as int].0.param_types@.len());
                    assert(node_sig(ast@[idx as int]).1.len() == params@.len());
                }
                functions.push(cf);
                proof {
                    assert(functions@.map_values(|c: CompiledFunction| function_view(c)) =~= before.map_values(
                        |c: CompiledFunction| function_view(c),
                    ).push(function_view(cf)));
                    if let Some(rest) = gen_functions(av, tv, f + 1) {
                        assert(before.map_values(|c: CompiledFunction| function_view(c)) + (seq![function_view(cf)] + rest)
                            =~= functions@.map_values(|c: CompiledFunction| function_view(c)) + rest);
                    }
                    assert forall|i: int| 0 <= i < f + 1 implies (#[trigger] functions@[i]).index == table@[i].1.wasm_index
                        && functions@[i].num_params == table@[i].0.param_types@.len() && functions@[i].body@.last()
                        == Instr::End && net_effect(functions@[i].body@, d) == table@[i].1.returns as int by {
                        if i < f {
                            assert(functions@[i] == before[i]);
                        }
                    }
                }
            },
            _ => {
                return Err(CompileError::UnsupportedNode);
            },
        }
        f += 1;
    }
    let mut em = Emitter::new(0);
    assert(depth(&em, table@) == 0);
    let ghost run0 = em_view(em);
    proof {
        assert(gen_functions(av, tv, f as int) == Some(Seq::<FunctionView>::empty()));
        assert(functions@.map_values(|c: CompiledFunction| function_view(c)) + Seq::<FunctionView>::empty()
            =~= functions@.map_values(|c: CompiledFunction| function_view(c)));
        assert(run0 == EmView { instrs: Seq::empty(), map: Seq::empty(), locals: Seq::empty(), scratch: 0, next_local: 1 }) by {
            assert(run0.instrs =~= Seq::<Instr>::empty());
            assert(run0.map =~= Seq::<EntryView>::empty());
            assert(run0.locals =~= Seq::<(Seq<char>, u32, Seq<char>)>::empty());
        }
    }
    let mut k: usize = 0;
    while k < ast.len()
        invariant
            table_wf(table@),
            em.wf(),
            !(!too_large(ast@) && has_duplicate(ast@)),
            k <= ast@.len(),
            depth(&em, table@) == 0,
            av == nodes_view(ast@),
            av.len() == ast@.len(),
            forall|x: int| 0 <= x < ast@.len() ==> #[trigger] av[x] == node_view(ast@[x]),
            !too_large_v(av) && !has_dup_v(av),
            tv == table_view(table@),
            tv == table_v(av),
            d == deltas_v(tv),
            d == call_deltas(table@),
            gen_functions(av, tv, 0) == Some(functions@.map_values(|c: CompiledFunction| function_view(c))),
            run0 == (EmView { instrs: Seq::empty(), map: Seq::empty(), locals: Seq::empty(), scratch: 0, next_local: 1 }),
            gen_top(av, 0, run0, tv) == gen_top(av, k as int, em_view(em), tv),
        decreases ast@.len() - k,
    {
        match &ast[k] {
            Node::Function { .. } => {},
            node => {
                compile_node(node, &mut em, &table)?;
            },
        }
        k += 1;
    }
    verify_stack(&em.instrs, &table, 0, RUN_FUNC)?;
    let num_locals = em.next_local;
    let run_body = finish_body(em.instrs, Ghost(d));
    let run = CompiledFunction { index: RUN_FUNC, num_params: 0, num_locals, body: run_body };
    let mut tick: Vec<Instr> = Vec::new();
    tick.push(Instr::Call(GC_TICK_IMPORT));
    proof {
        assert(tick@.drop_last() =~= Seq::<Instr>::empty());
        assert(net_effect(Seq::<Instr>::empty(), d) == 0);
        assert(effect(Instr::Call(GC_TICK_IMPORT), d) == 0);
    }
    let tick_body = finish_body(tick, Ghost(d));
    let gc_tick = CompiledFunction { index: GC_TICK_FUNC, num_params: 0, num_locals: 0, body: tick_body };
    assert(net_effect(run.body@, d) == 0);
    assert(net_effect(gc_tick.body@, d) == 0);
    assert(tick_body@ =~= seq![Instr::Call(GC_TICK_IMPORT), Instr::End]);
    let m = CompiledModule { table, functions, run, gc_tick, elements: em.map };
    proof {
        assert(module_view(m) =~= gen_program(av)->0);
    }
    Ok(m)
}

} // verus!
