//! Code generation: instructions, the function table and overload dispatch,
//! and the stack verifier.
use vstd::prelude::*;
use crate::ast::Node;

verus! {

/// Index of the imported draw-rectangle function: (x, y, width, height) -> ().
pub const DRAW_RECT_FUNC: u32 = 0;

/// Index of the imported allocator: (size, type tag) -> pointer.
pub const GC_ALLOC_FUNC: u32 = 1;

/// Index of the imported draw-text function: (x, y, pointer, length) -> ().
pub const DRAW_TEXT_FUNC: u32 = 2;

/// Index of the imported add-root function: (pointer) -> ().
pub const ADD_ROOT_FUNC: u32 = 3;

/// Index of the imported mark-used function: (pointer) -> ().
pub const MARK_USED_FUNC: u32 = 4;

/// Index of the imported collection hook: () -> ().
pub const GC_TICK_IMPORT: u32 = 5;

/// Number of imported functions.
pub const IMPORTED_FUNCS: u32 = 6;

/// Index of the generated `run` entry point.
pub const RUN_FUNC: u32 = 6;

/// Index of the generated `gc_tick` body.
pub const GC_TICK_FUNC: u32 = 7;

/// Index of the first user function.
pub const FIRST_USER_FUNC: u32 = 8;

/// Type tag of a box object on the heap.
pub const TAG_BOX: i32 = 1;

/// Type tag of a text buffer on the heap.
pub const TAG_TEXT: i32 = 2;

/// Type tag of a group object on the heap.
pub const TAG_GROUP: i32 = 3;

/// Payload size of a group object.
pub const GROUP_PAYLOAD: i32 = 8;

/// An instruction of the stack machine.
#[derive(Debug, Clone, Copy, PartialEq, Eq, Structural)]
pub enum Instr {
    I32Const(i32),
    LocalGet(u32),
    LocalSet(u32),
    LocalTee(u32),
    Drop,
    I32Add,
    I32Sub,
    I32Mul,
    I32DivS,
    I32Eq,
    I32GtS,
    I32LtS,
    /// Stores the low byte of a value at an address; pops both.
    I32Store8,
    Call(u32),
    /// Starts a conditional block; pops the condition.
    If,
    Else,
    End,
}

/// The dispatch key of a function: its name and its parameter type names.
#[derive(Debug)]
pub struct FunctionSignature {
    pub name: String,
    pub param_types: Vec<String>,
}

/// What the generator records of a declared function.
#[derive(Debug, Clone, Copy, PartialEq, Eq, Structural)]
pub struct FunctionMetadata {
    /// Position of the declaration among the top-level statements.
    pub node_index: usize,
    /// The function's index in the module.
    pub wasm_index: u32,
    /// How many values the function leaves on the stack (0 or 1). Every
    /// statement leaves the stack as it found it, so a body of statements
    /// leaves nothing and this is 0.
    pub returns: usize,
}

/// A signature as plain values.
pub open spec fn sig_view(s: FunctionSignature) -> (Seq<char>, Seq<Seq<char>>) {
    (s.name@, s.param_types@.map_values(|t: String| t@))
}

/// One entry of the function table.
pub type FunctionEntry = (FunctionSignature, FunctionMetadata);

/// The net stack effect of calling each user function, in table order.
pub open spec fn call_deltas(table: Seq<FunctionEntry>) -> Seq<int> {
    table.map_values(|e: FunctionEntry| e.1.returns as int - e.0.param_types@.len())
}

/// The net stack effect of one instruction. Calls of imports have fixed
/// effects; a call of user function `i` pops its parameters and pushes its
/// results, as `deltas[i]` records.
pub open spec fn effect(i: Instr, deltas: Seq<int>) -> int {
    match i {
        Instr::I32Const(_) => 1,
        Instr::LocalGet(_) => 1,
        Instr::LocalSet(_) => -1,
        Instr::LocalTee(_) => 0,
        Instr::Drop => -1,
        Instr::I32Add => -1,
        Instr::I32Sub => -1,
        Instr::I32Mul => -1,
        Instr::I32DivS => -1,
        Instr::I32Eq => -1,
        Instr::I32GtS => -1,
        Instr::I32LtS => -1,
        Instr::I32Store8 => -2,
        Instr::If => -1,
        Instr::Else => 0,
        Instr::End => 0,
        Instr::Call(f) => {
            if f == DRAW_RECT_FUNC || f == DRAW_TEXT_FUNC {
                -4
            } else if f == GC_ALLOC_FUNC || f == ADD_ROOT_FUNC || f == MARK_USED_FUNC {
                -1
            } else if FIRST_USER_FUNC <= f < FIRST_USER_FUNC + deltas.len() {
                deltas[f - FIRST_USER_FUNC]
            } else {
                0
            }
        },
    }
}

/// The net stack effect of an instruction sequence.
pub open spec fn net_effect(s: Seq<Instr>, deltas: Seq<int>) -> int
    decreases s.len(),
{
    if s.len() == 0 {
        0
    } else {
        net_effect(s.drop_last(), deltas) + effect(s.last(), deltas)
    }
}

/// A table whose user functions have at most `u32::MAX` parameters and at
/// most one result, and whose indices follow the table order.
pub open spec fn table_wf(table: Seq<FunctionEntry>) -> bool {
    &&& table.len() + FIRST_USER_FUNC <= u32::MAX
    &&& forall|i: int|
        0 <= i < table.len() ==> (#[trigger] table[i]).1.returns <= 1 && table[i].0.param_types@.len()
            <= u32::MAX && table[i].1.wasm_index == FIRST_USER_FUNC + i
}

/// The net stack effect of one instruction.
pub fn stack_effect(instr: Instr, table: &Vec<FunctionEntry>) -> (r: i64)
    requires
        table_wf(table@),
    ensures
        r == effect(instr, call_deltas(table@)),
{
    match instr {
        Instr::I32Const(_) | Instr::LocalGet(_) => 1,
        Instr::LocalSet(_) | Instr::Drop => -1,
        Instr::LocalTee(_) | Instr::Else | Instr::End => 0,
        Instr::I32Add | Instr::I32Sub | Instr::I32Mul | Instr::I32DivS | Instr::I32Eq
        | Instr::I32GtS | Instr::I32LtS | Instr::If => -1,
        Instr::I32Store8 => -2,
        Instr::Call(f) => {
            if f == DRAW_RECT_FUNC || f == DRAW_TEXT_FUNC {
                -4
            } else if f == GC_ALLOC_FUNC || f == ADD_ROOT_FUNC || f == MARK_USED_FUNC {
                -1
            } else if FIRST_USER_FUNC <= f && ((f - FIRST_USER_FUNC) as usize) < table.len() {
                let e = &table[(f - FIRST_USER_FUNC) as usize];
                e.1.returns as i64 - e.0.param_types.len() as i64
            } else {
                0
            }
        },
    }
}

/// Errors of code generation.
#[derive(Debug)]
pub enum CompileError {
    /// Two top-level declarations share a name and parameter types.
    DuplicateSignature { name: String, param_types: Vec<String> },
    /// A parameter type other than `int` and `string`.
    UnsupportedType(String),
    /// No declaration matches a call; `candidates` lists the parameter types
    /// of the declarations of that name.
    NoMatchingOverload { name: String, arg_types: Vec<String>, candidates: Vec<Vec<String>> },
    /// A name that no parameter or binding in scope defines.
    UndefinedVariable(String),
    /// An operator that has no instruction.
    UnsupportedOperator(String),
    /// An expression that leaves no value where one is needed.
    MissingValue,
    /// A statement that cannot stand where it does.
    UnsupportedNode,
    /// A value, a size or a count beyond what the module can hold.
    Overflow,
    /// The stack does not end at the depth a function declares.
    UnbalancedStack { function_index: u32, depth: i64, expected: i64 },
}

proof fn lemma_net_push(s: Seq<Instr>, i: Instr, d: Seq<int>)
    ensures
        net_effect(s.push(i), d) == net_effect(s, d) + effect(i, d),
{
    assert(s.push(i).drop_last() =~= s);
}

/// Longest instruction sequence the verifier replays.
pub const MAX_BODY_LEN: usize = 1000000000;

/// The net stack effect of a whole instruction sequence, as the verifier
/// replays it; `None` for a sequence longer than `MAX_BODY_LEN`.
pub fn net_stack_effect(body: &Vec<Instr>, table: &Vec<FunctionEntry>) -> (r: Option<i64>)
    requires
        table_wf(table@),
    ensures
        r is Some ==> r->Some_0 == net_effect(body@, call_deltas(table@)),
        r is Some <==> body@.len() <= MAX_BODY_LEN,
{
    let mut depth: i64 = 0;
    let mut i: usize = 0;
    if body.len() > MAX_BODY_LEN {
        return None;
    }
    while i < body.len()
        invariant
            table_wf(table@),
            i <= body@.len(),
            body@.len() <= MAX_BODY_LEN,
            depth == net_effect(body@.subrange(0, i as int), call_deltas(table@)),
            -4294967296 * (i as int) <= depth <= i,
        decreases body@.len() - i,
    {
        let e = stack_effect(body[i], table);
        proof {
            assert(body@.subrange(0, i + 1) =~= body@.subrange(0, i as int).push(body@[i as int]));
            lemma_net_push(body@.subrange(0, i as int), body@[i as int], call_deltas(table@));
            lemma_effect_bound(body@[i as int], table@);
        }
        depth = depth + e;
        i += 1;
    }
    assert(body@.subrange(0, i as int) =~= body@);
    Some(depth)
}

proof fn lemma_effect_bound(i: Instr, table: Seq<FunctionEntry>)
    requires
        table_wf(table),
    ensures
        -4294967296 <= effect(i, call_deltas(table)) <= 1,
{
    if let Instr::Call(f) = i {
        if FIRST_USER_FUNC <= f < FIRST_USER_FUNC + table.len() {
            let k = f - FIRST_USER_FUNC;
            assert(table[k as int].1.returns <= 1);
            assert(call_deltas(table)[k as int] == table[k as int].1.returns as int - table[k as int].0.param_types@.len());
        }
    }
}

/// The dispatch key that a declaration defines.
pub open spec fn node_sig(n: Node) -> (Seq<char>, Seq<Seq<char>>) {
    match n {
        Node::Function { name, params, .. } => (
            name@,
            params@.map_values(|p: (String, String)| p.1@),
        ),
        _ => (Seq::empty(), Seq::empty()),
    }
}

/// The positions of the declarations among the statements.
pub open spec fn fn_positions(ast: Seq<Node>) -> Seq<int>
    decreases ast.len(),
{
    if ast.len() == 0 {
        Seq::empty()
    } else if ast.last() is Function {
        fn_positions(ast.drop_last()).push(ast.len() - 1)
    } else {
        fn_positions(ast.drop_last())
    }
}

/// The error names a signature that two top-level declarations share: that
/// of the later of the two.
pub open spec fn dup_error(e: CompileError, ast: Seq<Node>) -> bool {
    match e {
        CompileError::DuplicateSignature { name, param_types } => exists|i: int, j: int|
            0 <= i < j < ast.len() && (#[trigger] ast[i]) is Function && (#[trigger] ast[j]) is Function
                && node_sig(ast[i]) == node_sig(ast[j]) && node_sig(ast[j]) == (
                name@,
                param_types@.map_values(|t: String| t@),
            ),
        _ => false,
    }
}

/// A duplicate-signature error only ever names a signature that two
/// declarations share: a program whose signatures are pairwise distinct
/// never fails with it.
pub proof fn lemma_dup_error_needs_duplicate(e: CompileError, ast: Seq<Node>)
    requires
        dup_error(e, ast),
    ensures
        has_duplicate(ast),
{
}

/// Two top-level declarations share a name and parameter types.
pub open spec fn has_duplicate(ast: Seq<Node>) -> bool {
    exists|i: int, j: int|
        0 <= i < j < ast.len() && (#[trigger] ast[i]) is Function && (#[trigger] ast[j]) is Function
            && node_sig(ast[i]) == node_sig(ast[j])
}

/// The table lists the top-level declarations of `ast` in source order, with
/// their indices in the module and no result.
pub open spec fn table_of(table: Seq<FunctionEntry>, ast: Seq<Node>) -> bool {
    &&& table_wf(table)
    &&& forall|i: int|
        0 <= i < table.len() ==> {
            let k = (#[trigger] table[i]).1.node_index as int;
            &&& 0 <= k < ast.len()
            &&& ast[k] is Function
            &&& sig_view(table[i].0) == node_sig(ast[k])
            &&& table[i].1.returns == 0
        }
    &&& forall|i: int, j: int|
        0 <= i < j < table.len() ==> (#[trigger] table[i]).1.node_index < (#[trigger] table[j]).1.node_index
    &&& forall|k: int|
        0 <= k < ast.len() && (#[trigger] ast[k]) is Function ==> exists|i: int|
            0 <= i < table.len() && (#[trigger] table[i]).1.node_index == k
}

/// Whether two lists of strings hold the same texts.
pub(crate) fn same_texts(a: &Vec<String>, b: &Vec<String>) -> (r: bool)
    ensures
        r == (a@.map_values(|t: String| t@) == b@.map_values(|t: String| t@)),
{
    if a.len() != b.len() {
        proof {
            assert(a@.map_values(|t: String| t@).len() != b@.map_values(|t: String| t@).len());
        }
        return false;
    }
    let mut i: usize = 0;
    while i < a.len()
        invariant
            a@.len() == b@.len(),
            i <= a@.len(),
            forall|j: int| 0 <= j < i ==> (#[trigger] a@[j])@ == b@[j]@,
        decreases a@.len() - i,
    {
        if !a[i].eq(&b[i]) {
            proof {
                assert(a@.map_values(|t: String| t@)[i as int] != b@.map_values(|t: String| t@)[i as int]);
            }
            return false;
        }
        i += 1;
    }
    assert(a@.map_values(|t: String| t@) =~= b@.map_values(|t: String| t@));
    true
}

/// Whether two signatures are the same dispatch key.
pub fn same_signature(a: &FunctionSignature, b: &FunctionSignature) -> (r: bool)
    ensures
        r == (sig_view(*a) == sig_view(*b)),
{
    a.name.eq(&b.name) && same_texts(&a.param_types, &b.param_types)
}

/// Copies a list of strings.
pub(crate) fn copy_texts(v: &Vec<String>) -> (r: Vec<String>)
    ensures
        r@.map_values(|t: String| t@) == v@.map_values(|t: String| t@),
        r@.len() == v@.len(),
{
    let mut out: Vec<String> = Vec::new();
    let mut i: usize = 0;
    while i < v.len()
        invariant
            i <= v@.len(),
            out@.len() == i,
            forall|j: int| 0 <= j < i ==> (#[trigger] out@[j])@ == v@[j]@,
        decreases v@.len() - i,
    {
        out.push(v[i].clone());
        i += 1;
    }
    assert(out@.map_values(|t: String| t@) =~= v@.map_values(|t: String| t@));
    out
}

/// The signature that a declaration defines.
pub fn signature_of(name: &String, params: &Vec<(String, String)>) -> (r: FunctionSignature)
    ensures
        r.name@ == name@,
        r.param_types@.len() == params@.len(),
        r.param_types@.map_values(|t: String| t@) == params@.map_values(|p: (String, String)| p.1@),
{
    let mut types: Vec<String> = Vec::new();
    let mut i: usize = 0;
    while i < params.len()
        invariant
            i <= params@.len(),
            types@.len() == i,
            forall|j: int| 0 <= j < i ==> (#[trigger] types@[j])@ == params@[j].1@,
        decreases params@.len() - i,
    {
        types.push(params[i].1.clone());
        i += 1;
    }
    assert(types@.map_values(|t: String| t@) =~= params@.map_values(|p: (String, String)| p.1@));
    FunctionSignature { name: name.clone(), param_types: types }
}

/// Most top-level statements, and most parameters of one function, that the
/// generator takes.
pub const MAX_DECLS: usize = 1000000000;

/// A program beyond the generator's limits.
pub open spec fn too_large(ast: Seq<Node>) -> bool {
    ast.len() > MAX_DECLS || exists|k: int|
        0 <= k < ast.len() && #[trigger] param_count(ast[k]) > MAX_DECLS
}

/// The number of parameters of a declaration; 0 for other statements.
pub open spec fn param_count(n: Node) -> int {
    match n {
        Node::Function { params, .. } => params@.len() as int,
        _ => 0,
    }
}

/// Checks the generator's limits on a program.
fn check_limits(ast: &Vec<Node>) -> (r: bool)
    ensures
        r == !too_large(ast@),
{
    if ast.len() > MAX_DECLS {
        return false;
    }
    let mut k: usize = 0;
    while k < ast.len()
        invariant
            k <= ast@.len(),
            forall|j: int| 0 <= j < k ==> #[trigger] param_count(ast@[j]) <= MAX_DECLS,
        decreases ast@.len() - k,
    {
        match &ast[k] {
            Node::Function { params, .. } => {
                if params.len() > MAX_DECLS {
                    assert(param_count(ast@[k as int]) > MAX_DECLS);
                    return false;
                }
            },
            _ => {},
        }
        k += 1;
    }
    true
}

/// The signature pre-pass: one table entry per top-level declaration, in
/// source order, numbered from `FIRST_USER_FUNC`. Within the generator's
/// limits it fails exactly when two declarations share a name and parameter
/// types.
pub fn collect_signatures(ast: &Vec<Node>) -> (r: Result<Vec<FunctionEntry>, CompileError>)
    ensures
        r is Ok ==> table_of(r->Ok_0@, ast@),
        r matches Err(CompileError::Overflow) <==> too_large(ast@),
        !too_large(ast@) ==> (r is Err <==> has_duplicate(ast@)),
        r is Err ==> r->Err_0 is DuplicateSignature || r->Err_0 is Overflow,
        r matches Err(e) ==> (e is DuplicateSignature ==> dup_error(e, ast@)),
        r matches Ok(t) ==> t@.map_values(|e: FunctionEntry| e.1.node_index as int) == fn_positions(ast@),
{
    if !check_limits(ast) {
        return Err(CompileError::Overflow);
    }
    let mut table: Vec<FunctionEntry> = Vec::new();
    let mut k: usize = 0;
    assert(table@.map_values(|e: FunctionEntry| e.1.node_index as int) =~= fn_positions(ast@.subrange(0, 0)));
    while k < ast.len()
        invariant
            k <= ast@.len(),
            !too_large(ast@),
            table@.len() <= k,
            forall|i: int|
                0 <= i < table@.len() ==> {
                    let n = (#[trigger] table@[i]).1.node_index as int;
                    &&& 0 <= n < k
                    &&& ast@[n] is Function
                    &&& sig_view(table@[i].0) == node_sig(ast@[n])
                    &&& table@[i].1.returns == 0
                    &&& table@[i].1.wasm_index == FIRST_USER_FUNC + i
                    &&& table@[i].0.param_types@.len() <= u32::MAX
                },
            forall|i: int, j: int|
                0 <= i < j < table@.len() ==> (#[trigger] table@[i]).1.node_index < (#[trigger] table@[j]).1.node_index,
            forall|n: int|
                0 <= n < k && (#[trigger] ast@[n]) is Function ==> exists|i: int|
                    0 <= i < table@.len() && (#[trigger] table@[i]).1.node_index == n,
            forall|i: int, j: int|
                0 <= i < j < k && (#[trigger] ast@[i]) is Function && (#[trigger] ast@[j]) is Function
                    ==> node_sig(ast@[i]) != node_sig(ast@[j]),
            table@.map_values(|e: FunctionEntry| e.1.node_index as int) == fn_positions(ast@.subrange(0, k as int)),
        decreases ast@.len() - k,
    {
        match &ast[k] {
            Node::Function { name, params, .. } => {
                let sig = signature_of(name, params);
                assert(sig_view(sig) == node_sig(ast@[k as int]));
                let mut i: usize = 0;
                while i < table.len()
                    invariant
                        i <= table@.len(),
                        k < ast@.len(),
                        !too_large(ast@),
                        ast@[k as int] is Function,
                        sig_view(sig) == node_sig(ast@[k as int]),
                        forall|t: int|
                            0 <= t < table@.len() ==> {
                                let n = (#[trigger] table@[t]).1.node_index as int;
                                &&& 0 <= n < k
                                &&& ast@[n] is Function
                                &&& sig_view(table@[t].0) == node_sig(ast@[n])
                            },
                        forall|j: int| 0 <= j < i ==> sig_view((#[trigger] table@[j]).0) != sig_view(sig),
                    decreases table@.len() - i,
                {
                    if same_signature(&table[i].0, &sig) {
                        proof {
                            let n = table@[i as int].1.node_index as int;
                            assert(ast@[n] is Function && n < k);
                            assert(node_sig(ast@[n]) == node_sig(ast@[k as int]));
                            assert(has_duplicate(ast@));
                        }
                        return Err(
                            CompileError::DuplicateSignature { name: sig.name, param_types: sig.param_types },
                        );
                    }
                    i += 1;
                }
                assert(param_count(ast@[k as int]) <= MAX_DECLS);
                let ghost before = table@;
                let meta = FunctionMetadata { node_index: k, wasm_index: FIRST_USER_FUNC + table.len() as u32, returns: 0 };
                table.push((sig, meta));
                proof {
                    assert(table@.map_values(|e: FunctionEntry| e.1.node_index as int) =~= before.map_values(
                        |e: FunctionEntry| e.1.node_index as int,
                    ).push(k as int));
                }
                proof {
                    assert forall|n: int|
                        0 <= n <= k && (#[trigger] ast@[n]) is Function implies exists|i: int|
                            0 <= i < table@.len() && (#[trigger] table@[i]).1.node_index == n by {
                        if n < k {
                            let i = choose|i: int| 0 <= i < before.len() && (#[trigger] before[i]).1.node_index == n;
                            assert(table@[i] == before[i]);
                        } else {
                            assert(table@[table@.len() - 1].1.node_index == n);
                        }
                    }
                    assert forall|i: int, j: int|
                        0 <= i < j <= k && (#[trigger] ast@[i]) is Function && (#[trigger] ast@[j]) is Function
                            implies node_sig(ast@[i]) != node_sig(ast@[j]) by {
                        if j == k {
                            let t = choose|t: int| 0 <= t < before.len() && (#[trigger] before[t]).1.node_index == i;
                            assert(sig_view(before[t].0) != sig_view(sig));
                        }
                    }
                }
            },
            _ => {},
        }
        proof {
            assert(ast@.subrange(0, k + 1).drop_last() =~= ast@.subrange(0, k as int));
            assert(ast@.subrange(0, k + 1).last() == ast@[k as int]);
        }
        k += 1;
    }
    assert(ast@.subrange(0, k as int) =~= ast@);
    Ok(table)
}

} // verus!
