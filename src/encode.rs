//! Writing the binary module: the generated bodies and the fixed host
//! interface go through `wasm_encoder`.
use vstd::prelude::*;
use crate::ast::{nodes_view, Node};
use crate::codegen::{
    dup_error, has_duplicate, table_of, table_wf, too_large, CompileError, FunctionEntry, Instr, GC_TICK_FUNC,
    RUN_FUNC,
};
use crate::compile::{entry_view, ElementMap, SemanticMap};
use crate::gen::{EntryView, TableView};
use crate::grammar::g_program;
use crate::lexer::lex_from;
use crate::parser::{parse_wpp, SyntaxError};
use crate::program::{
    compile_program, function_view, gen_program, module_view, stack_balanced, CompiledFunction, CompiledModule,
    FunctionView, ModuleView,
};
use wasm_encoder::{
    BlockType, CodeSection, EntityType, ExportKind, ExportSection, Function, FunctionSection,
    ImportSection, MemArg, MemoryType, Module, TypeSection, ValType,
};

verus! {

#[verifier::external_type_specification]
#[verifier::external_body]
pub struct ExModule(Module);

#[verifier::external_type_specification]
#[verifier::external_body]
pub struct ExTypeSection(TypeSection);

#[verifier::external_type_specification]
#[verifier::external_body]
pub struct ExImportSection(ImportSection);

#[verifier::external_type_specification]
#[verifier::external_body]
pub struct ExFunctionSection(FunctionSection);

#[verifier::external_type_specification]
#[verifier::external_body]
pub struct ExExportSection(ExportSection);

#[verifier::external_type_specification]
#[verifier::external_body]
pub struct ExCodeSection(CodeSection);

#[verifier::external_type_specification]
#[verifier::external_body]
pub struct ExFunction(Function);

/// The instructions encoded into a function body so far.
pub uninterp spec fn body_code(f: Function) -> Seq<Instr>;

/// The number of 32-bit locals a function body declares.
pub uninterp spec fn body_locals(f: Function) -> nat;

/// The (locals, instructions) of each body in a code section.
pub uninterp spec fn code_bodies(s: CodeSection) -> Seq<(nat, Seq<Instr>)>;

/// The (parameter count, result count) of each function type, all of
/// 32-bit integers.
pub uninterp spec fn type_entries(s: TypeSection) -> Seq<(nat, nat)>;

/// One import: a memory of at least some pages, or a function of a type.
pub enum ImportView {
    Memory(Seq<char>, Seq<char>, u64),
    Func(Seq<char>, Seq<char>, u32),
}

/// The imports of an import section, in the order they were added.
pub uninterp spec fn import_entries(s: ImportSection) -> Seq<ImportView>;

/// The type index of each defined function.
pub uninterp spec fn function_types(s: FunctionSection) -> Seq<u32>;

/// The (name, function index) of each exported function.
pub uninterp spec fn export_entries(s: ExportSection) -> Seq<(Seq<char>, u32)>;

/// What one section of a module holds.
pub enum SectionView {
    Types(Seq<(nat, nat)>),
    Imports(Seq<ImportView>),
    Functions(Seq<u32>),
    Exports(Seq<(Seq<char>, u32)>),
    Code(Seq<(nat, Seq<Instr>)>),
}

/// The sections added to a module, in order.
pub uninterp spec fn module_sections(m: Module) -> Seq<SectionView>;

/// The length of the unsigned LEB128 encoding of `v`.
pub open spec fn uleb_len(v: int) -> nat {
    if v < 128 {
        1
    } else if v < 16384 {
        2
    } else if v < 2097152 {
        3
    } else if v < 268435456 {
        4
    } else {
        5
    }
}

/// The length of the signed LEB128 encoding of `v`.
pub open spec fn sleb_len(v: int) -> nat {
    if -64 <= v < 64 {
        1
    } else if -8192 <= v < 8192 {
        2
    } else if -1048576 <= v < 1048576 {
        3
    } else if -134217728 <= v < 134217728 {
        4
    } else {
        5
    }
}

/// The encoded length of one instruction: its opcode and immediates. A byte
/// store carries alignment and offset 0 on memory 0; `if` carries the empty
/// block type.
pub open spec fn instr_len(i: Instr) -> nat {
    match i {
        Instr::I32Const(v) => 1 + sleb_len(v as int),
        Instr::LocalGet(l) => 1 + uleb_len(l as int),
        Instr::LocalSet(l) => 1 + uleb_len(l as int),
        Instr::LocalTee(l) => 1 + uleb_len(l as int),
        Instr::Call(f) => 1 + uleb_len(f as int),
        Instr::I32Store8 => 3,
        Instr::If => 2,
        _ => 1,
    }
}

/// The encoded length of a sequence of instructions.
pub open spec fn code_len(code: Seq<Instr>) -> nat
    decreases code.len(),
{
    if code.len() == 0 {
        0
    } else {
        code_len(code.drop_last()) + instr_len(code.last())
    }
}

/// The encoded length of a body with `locals` 32-bit locals and the given
/// code: the one-group locals declaration (group count, local count, type),
/// then the instructions.
pub open spec fn encoded_len(locals: nat, code: Seq<Instr>) -> nat {
    2 + uleb_len(locals as int) + code_len(code)
}

/// The bytes of a module with the given sections.
pub uninterp spec fn module_image(sections: Seq<SectionView>) -> Seq<u8>;

/// Relies on `Function::byte_len`: the bytes encoded so far, that is the
/// locals declaration of `Function::new` and each instruction's opcode and
/// minimal LEB128 immediates.
#[verifier::external_body]
fn body_len(f: &Function) -> (r: usize)
    ensures
        r == encoded_len(body_locals(*f), body_code(*f)),
{
    f.byte_len()
}

/// Relies on `Function::new`: a body with `n` locals of type i32 and no code.
#[verifier::external_body]
fn new_body(n: u32) -> (r: Function)
    ensures
        body_code(r) == Seq::<Instr>::empty(),
        body_locals(r) == n,
{
    Function::new([(n, ValType::I32)])
}

/// Relies on `InstructionSink::i32_const`: appends `i32.const v`.
#[verifier::external_body]
fn put_i32_const(f: &mut Function, v: i32)
    ensures
        body_code(*final(f)) == body_code(*old(f)).push(Instr::I32Const(v)),
        body_locals(*final(f)) == body_locals(*old(f)),
{
    f.instructions().i32_const(v);
}

/// Relies on `InstructionSink::local_get`: appends `local.get l`.
#[verifier::external_body]
fn put_local_get(f: &mut Function, l: u32)
    ensures
        body_code(*final(f)) == body_code(*old(f)).push(Instr::LocalGet(l)),
        body_locals(*final(f)) == body_locals(*old(f)),
{
    f.instructions().local_get(l);
}

/// Relies on `InstructionSink::local_set`: appends `local.set l`.
#[verifier::external_body]
fn put_local_set(f: &mut Function, l: u32)
    ensures
        body_code(*final(f)) == body_code(*old(f)).push(Instr::LocalSet(l)),
        body_locals(*final(f)) == body_locals(*old(f)),
{
    f.instructions().local_set(l);
}

/// Relies on `InstructionSink::local_tee`: appends `local.tee l`.
#[verifier::external_body]
fn put_local_tee(f: &mut Function, l: u32)
    ensures
        body_code(*final(f)) == body_code(*old(f)).push(Instr::LocalTee(l)),
        body_locals(*final(f)) == body_locals(*old(f)),
{
    f.instructions().local_tee(l);
}

/// Relies on `InstructionSink::drop`: appends `drop`.
#[verifier::external_body]
fn put_drop(f: &mut Function)
    ensures
        body_code(*final(f)) == body_code(*old(f)).push(Instr::Drop),
        body_locals(*final(f)) == body_locals(*old(f)),
{
    f.instructions().drop();
}

/// Relies on `InstructionSink::i32_add`: appends `i32.add`.
#[verifier::external_body]
fn put_i32_add(f: &mut Function)
    ensures
        body_code(*final(f)) == body_code(*old(f)).push(Instr::I32Add),
        body_locals(*final(f)) == body_locals(*old(f)),
{
    f.instructions().i32_add();
}

/// Relies on `InstructionSink::i32_sub`: appends `i32.sub`.
#[verifier::external_body]
fn put_i32_sub(f: &mut Function)
    ensures
        body_code(*final(f)) == body_code(*old(f)).push(Instr::I32Sub),
        body_locals(*final(f)) == body_locals(*old(f)),
{
    f.instructions().i32_sub();
}

/// Relies on `InstructionSink::i32_mul`: appends `i32.mul`.
#[verifier::external_body]
fn put_i32_mul(f: &mut Function)
    ensures
        body_code(*final(f)) == body_code(*old(f)).push(Instr::I32Mul),
        body_locals(*final(f)) == body_locals(*old(f)),
{
    f.instructions().i32_mul();
}

/// Relies on `InstructionSink::i32_div_s`: appends `i32.div_s`.
#[verifier::external_body]
fn put_i32_div_s(f: &mut Function)
    ensures
        body_code(*final(f)) == body_code(*old(f)).push(Instr::I32DivS),
        body_locals(*final(f)) == body_locals(*old(f)),
{
    f.instructions().i32_div_s();
}

/// Relies on `InstructionSink::i32_eq`: appends `i32.eq`.
#[verifier::external_body]
fn put_i32_eq(f: &mut Function)
    ensures
        body_code(*final(f)) == body_code(*old(f)).push(Instr::I32Eq),
        body_locals(*final(f)) == body_locals(*old(f)),
{
    f.instructions().i32_eq();
}

/// Relies on `InstructionSink::i32_gt_s`: appends `i32.gt_s`.
#[verifier::external_body]
fn put_i32_gt_s(f: &mut Function)
    ensures
        body_code(*final(f)) == body_code(*old(f)).push(Instr::I32GtS),
        body_locals(*final(f)) == body_locals(*old(f)),
{
    f.instructions().i32_gt_s();
}

/// Relies on `InstructionSink::i32_lt_s`: appends `i32.lt_s`.
#[verifier::external_body]
fn put_i32_lt_s(f: &mut Function)
    ensures
        body_code(*final(f)) == body_code(*old(f)).push(Instr::I32LtS),
        body_locals(*final(f)) == body_locals(*old(f)),
{
    f.instructions().i32_lt_s();
}

/// Relies on `InstructionSink::i32_store8`: appends `i32.store8` with offset
/// 0, alignment 1, on memory 0.
#[verifier::external_body]
fn put_i32_store8(f: &mut Function)
    ensures
        body_code(*final(f)) == body_code(*old(f)).push(Instr::I32Store8),
        body_locals(*final(f)) == body_locals(*old(f)),
{
    f.instructions().i32_store8(MemArg { offset: 0, align: 0, memory_index: 0 });
}

/// Relies on `InstructionSink::call`: appends `call g`.
#[verifier::external_body]
fn put_call(f: &mut Function, g: u32)
    ensures
        body_code(*final(f)) == body_code(*old(f)).push(Instr::Call(g)),
        body_locals(*final(f)) == body_locals(*old(f)),
{
    f.instructions().call(g);
}

/// Relies on `InstructionSink::if_`: appends `if` with an empty block type.
#[verifier::external_body]
fn put_if(f: &mut Function)
    ensures
        body_code(*final(f)) == body_code(*old(f)).push(Instr::If),
        body_locals(*final(f)) == body_locals(*old(f)),
{
    f.instructions().if_(BlockType::Empty);
}

/// Relies on `InstructionSink::else_`: appends `else`.
#[verifier::external_body]
fn put_else(f: &mut Function)
    ensures
        body_code(*final(f)) == body_code(*old(f)).push(Instr::Else),
        body_locals(*final(f)) == body_locals(*old(f)),
{
    f.instructions().else_();
}

/// Relies on `InstructionSink::end`: appends `end`.
#[verifier::external_body]
fn put_end(f: &mut Function)
    ensures
        body_code(*final(f)) == body_code(*old(f)).push(Instr::End),
        body_locals(*final(f)) == body_locals(*old(f)),
{
    f.instructions().end();
}

/// Relies on `CodeSection::new`: an empty code section.
#[verifier::external_body]
fn new_code_section() -> (r: CodeSection)
    ensures
        code_bodies(r) == Seq::<(nat, Seq<Instr>)>::empty(),
{
    CodeSection::new()
}

/// Relies on `CodeSection::function`: appends a body.
#[verifier::external_body]
fn add_body(s: &mut CodeSection, f: &Function)
    requires
        encoded_len(body_locals(*f), body_code(*f)) <= u32::MAX,
        code_bodies(*old(s)).len() < u32::MAX,
    ensures
        code_bodies(*final(s)) == code_bodies(*old(s)).push((body_locals(*f), body_code(*f))),
{
    s.function(f);
}

/// Relies on `TypeSection::new`: an empty type section.
#[verifier::external_body]
fn new_type_section() -> (r: TypeSection)
    ensures
        type_entries(r) == Seq::<(nat, nat)>::empty(),
{
    TypeSection::new()
}

/// Relies on `CoreTypeEncoder::function`: appends the type of a function
/// from `params` to `results` 32-bit integers.
#[verifier::external_body]
fn add_func_type(s: &mut TypeSection, params: u32, results: u32)
    requires
        type_entries(*old(s)).len() < u32::MAX,
    ensures
        type_entries(*final(s)) == type_entries(*old(s)).push((params as nat, results as nat)),
{
    s.ty().function(vec![ValType::I32; params as usize], vec![ValType::I32; results as usize]);
}

/// Relies on `ImportSection::new`: an empty import section.
#[verifier::external_body]
fn new_import_section() -> (r: ImportSection)
    ensures
        import_entries(r) == Seq::<ImportView>::empty(),
{
    ImportSection::new()
}

/// Relies on `ImportSection::import` with a function entity: imports
/// `module.name` as a function of type `type_index`.
#[verifier::external_body]
fn add_func_import(s: &mut ImportSection, module: &str, name: &str, type_index: u32)
    requires
        import_entries(*old(s)).len() < MAX_IMPORTS,
        module@.len() <= MAX_NAME_CHARS,
        name@.len() <= MAX_NAME_CHARS,
    ensures
        import_entries(*final(s)) == import_entries(*old(s)).push(ImportView::Func(module@, name@, type_index)),
{
    s.import(module, name, EntityType::Function(type_index));
}

/// Relies on `ImportSection::import` with a memory entity: imports
/// `module.name` as a 32-bit, unshared, unbounded memory of at least
/// `minimum` pages.
#[verifier::external_body]
fn add_memory_import(s: &mut ImportSection, module: &str, name: &str, minimum: u64)
    requires
        import_entries(*old(s)).len() < MAX_IMPORTS,
        module@.len() <= MAX_NAME_CHARS,
        name@.len() <= MAX_NAME_CHARS,
    ensures
        import_entries(*final(s)) == import_entries(*old(s)).push(ImportView::Memory(module@, name@, minimum)),
{
    let ty = MemoryType { minimum, maximum: None, memory64: false, shared: false, page_size_log2: None };
    s.import(module, name, EntityType::Memory(ty));
}

/// Relies on `FunctionSection::new`: an empty function section.
#[verifier::external_body]
fn new_function_section() -> (r: FunctionSection)
    ensures
        function_types(r) == Seq::<u32>::empty(),
{
    FunctionSection::new()
}

/// Relies on `FunctionSection::function`: declares a function of type
/// `type_index`.
#[verifier::external_body]
fn add_function(s: &mut FunctionSection, type_index: u32)
    requires
        function_types(*old(s)).len() < u32::MAX,
    ensures
        function_types(*final(s)) == function_types(*old(s)).push(type_index),
{
    s.function(type_index);
}

/// Relies on `ExportSection::new`: an empty export section.
#[verifier::external_body]
fn new_export_section() -> (r: ExportSection)
    ensures
        export_entries(r) == Seq::<(Seq<char>, u32)>::empty(),
{
    ExportSection::new()
}

/// Relies on `ExportSection::export` with the function kind: exports
/// function `index` as `name`.
#[verifier::external_body]
fn add_func_export(s: &mut ExportSection, name: &str, index: u32)
    requires
        export_entries(*old(s)).len() < MAX_IMPORTS,
        name@.len() <= MAX_NAME_CHARS,
    ensures
        export_entries(*final(s)) == export_entries(*old(s)).push((name@, index)),
{
    s.export(name, ExportKind::Func, index);
}

/// Most imports, and most exports, in a section this library writes.
pub const MAX_IMPORTS: usize = 16;

/// Most characters in an import's or export's name.
pub const MAX_NAME_CHARS: usize = 1024;

/// An import whose names are short.
pub open spec fn short_import(e: ImportView) -> bool {
    match e {
        ImportView::Memory(m, n, _) => m.len() <= MAX_NAME_CHARS && n.len() <= MAX_NAME_CHARS,
        ImportView::Func(m, n, _) => m.len() <= MAX_NAME_CHARS && n.len() <= MAX_NAME_CHARS,
    }
}

/// A bound on the encoded size of function types: the form byte, each
/// count in at most five bytes, and one byte per 32-bit value type.
pub open spec fn types_budget(ts: Seq<(nat, nat)>) -> int
    decreases ts.len(),
{
    if ts.len() == 0 {
        0
    } else {
        types_budget(ts.drop_last()) + 11 + ts.last().0 + ts.last().1
    }
}

/// A bound on the encoded size of function bodies in a code section: each
/// body with its length in at most five bytes.
pub open spec fn code_budget(bs: Seq<(nat, Seq<Instr>)>) -> int
    decreases bs.len(),
{
    if bs.len() == 0 {
        0
    } else {
        code_budget(bs.drop_last()) + 5 + encoded_len(bs.last().0, bs.last().1)
    }
}

/// Relies on `Module::new`: a module with no sections.
#[verifier::external_body]
fn new_module() -> (r: Module)
    ensures
        module_sections(r) == Seq::<SectionView>::empty(),
{
    Module::new()
}

/// Relies on `Module::section`: appends the type section.
#[verifier::external_body]
fn put_types(m: &mut Module, s: &TypeSection)
    requires
        types_budget(type_entries(*s)) + 5 <= u32::MAX,
    ensures
        module_sections(*final(m)) == module_sections(*old(m)).push(SectionView::Types(type_entries(*s))),
{
    m.section(s);
}

/// Relies on `Module::section`: appends the import section.
#[verifier::external_body]
fn put_imports(m: &mut Module, s: &ImportSection)
    requires
        import_entries(*s).len() <= MAX_IMPORTS,
        forall|i: int| 0 <= i < import_entries(*s).len() ==> #[trigger] short_import(import_entries(*s)[i]),
    ensures
        module_sections(*final(m)) == module_sections(*old(m)).push(
            SectionView::Imports(import_entries(*s)),
        ),
{
    m.section(s);
}

/// Relies on `Module::section`: appends the function section.
#[verifier::external_body]
fn put_functions(m: &mut Module, s: &FunctionSection)
    requires
        5 * function_types(*s).len() + 5 <= u32::MAX,
    ensures
        module_sections(*final(m)) == module_sections(*old(m)).push(SectionView::Functions(function_types(*s))),
{
    m.section(s);
}

/// Relies on `Module::section`: appends the export section.
#[verifier::external_body]
fn put_exports(m: &mut Module, s: &ExportSection)
    requires
        export_entries(*s).len() <= MAX_IMPORTS,
        forall|i: int| 0 <= i < export_entries(*s).len() ==> (#[trigger] export_entries(*s)[i]).0.len() <= MAX_NAME_CHARS,
    ensures
        module_sections(*final(m)) == module_sections(*old(m)).push(SectionView::Exports(export_entries(*s))),
{
    m.section(s);
}

/// Relies on `Module::section`: appends the code section.
#[verifier::external_body]
fn put_code(m: &mut Module, s: &CodeSection)
    requires
        code_budget(code_bodies(*s)) + 5 <= u32::MAX,
    ensures
        module_sections(*final(m)) == module_sections(*old(m)).push(SectionView::Code(code_bodies(*s))),
{
    m.section(s);
}

/// Relies on `Module::finish`: the encoding depends on the sections alone.
#[verifier::external_body]
fn finish_module(m: Module) -> (r: Vec<u8>)
    ensures
        r@ == module_image(module_sections(m)),
{
    m.finish()
}

/// Type index of `run` and `gc_tick`, and of the host's collection hook.
pub const VOID_TYPE: u32 = 0;

/// Index of the first user function's type.
pub const FIRST_USER_TYPE: u32 = 7;

/// The fixed function types: `() -> ()`, draw-rectangle, allocate,
/// draw-text, add-root, mark-used, and the collection hook.
pub open spec fn host_types() -> Seq<(nat, nat)> {
    seq![(0nat, 0nat), (4nat, 0nat), (2nat, 1nat), (4nat, 0nat), (1nat, 0nat), (1nat, 0nat), (0nat, 0nat)]
}

/// The types of the user functions, in table order.
pub open spec fn user_types(table: Seq<FunctionEntry>) -> Seq<(nat, nat)> {
    table.map_values(|e: FunctionEntry| (e.0.param_types@.len(), e.1.returns as nat))
}

/// The imports: the memory, then the host functions with their types.
pub open spec fn host_imports() -> Seq<ImportView> {
    seq![
        ImportView::Memory("env"@, "memory"@, 1u64),
        ImportView::Func("env"@, "drawRect"@, 1u32),
        ImportView::Func("env"@, "gc_alloc"@, 2u32),
        ImportView::Func("env"@, "drawText"@, 3u32),
        ImportView::Func("env"@, "add_root"@, 4u32),
        ImportView::Func("env"@, "mark_used"@, 5u32),
        ImportView::Func("env"@, "gc_tick"@, 6u32),
    ]
}

/// The types of the defined functions: `run`, `gc_tick`, then one per user
/// function.
pub open spec fn defined_types(n: nat) -> Seq<u32> {
    seq![VOID_TYPE, VOID_TYPE].add(Seq::new(n, |i: int| (FIRST_USER_TYPE + i) as u32))
}

/// The (locals, code) of a generated body.
pub open spec fn body_view(f: CompiledFunction) -> (nat, Seq<Instr>) {
    (f.num_locals as nat, f.body@)
}

/// The sections of the binary module of a compiled program.
pub open spec fn module_layout(m: CompiledModule) -> Seq<SectionView> {
    seq![
        SectionView::Types(host_types().add(user_types(m.table@))),
        SectionView::Imports(host_imports()),
        SectionView::Functions(defined_types(m.functions@.len())),
        SectionView::Exports(seq![("run"@, RUN_FUNC), ("gc_tick"@, GC_TICK_FUNC)]),
        SectionView::Code(code_list(m)),
    ]
}

/// The bodies of the code section: `run`, `gc_tick`, then the user
/// functions.
pub open spec fn code_list(m: CompiledModule) -> Seq<(nat, Seq<Instr>)> {
    seq![body_view(m.run), body_view(m.gc_tick)].add(m.functions@.map_values(|f: CompiledFunction| body_view(f)))
}

/// Every section's encoded size fits the 32-bit length the format gives it.
pub open spec fn fits(types: Seq<(nat, nat)>, functions: nat, bodies: Seq<(nat, Seq<Instr>)>) -> bool {
    &&& types_budget(types) + 5 <= u32::MAX
    &&& 5 * (2 + functions) + 5 <= u32::MAX
    &&& code_budget(bodies) + 5 <= u32::MAX
}

/// The module of a compiled program can be encoded.
pub open spec fn module_fits(m: CompiledModule) -> bool {
    fits(host_types().add(user_types(m.table@)), m.functions@.len(), code_list(m))
}

proof fn lemma_types_prefix(ts: Seq<(nat, nat)>, i: int)
    requires
        0 <= i <= ts.len(),
    ensures
        types_budget(ts.subrange(0, i)) <= types_budget(ts),
    decreases ts.len(),
{
    if i < ts.len() {
        assert(ts.subrange(0, i) =~= ts.drop_last().subrange(0, i));
        lemma_types_prefix(ts.drop_last(), i);
    } else {
        assert(ts.subrange(0, i) =~= ts);
    }
}

proof fn lemma_code_prefix(bs: Seq<(nat, Seq<Instr>)>, i: int)
    requires
        0 <= i <= bs.len(),
    ensures
        code_budget(bs.subrange(0, i)) <= code_budget(bs),
    decreases bs.len(),
{
    if i < bs.len() {
        assert(bs.subrange(0, i) =~= bs.drop_last().subrange(0, i));
        lemma_code_prefix(bs.drop_last(), i);
    } else {
        assert(bs.subrange(0, i) =~= bs);
    }
}

/// Appends a body to the code section where the section stays within its
/// size bound; otherwise leaves it alone.
fn add_checked(code: &mut CodeSection, budget: u64, f: &CompiledFunction) -> (r: Option<u64>)
    requires
        budget == code_budget(code_bodies(*old(code))),
        budget + 5 <= u32::MAX,
        code_bodies(*old(code)).len() < u32::MAX,
    ensures
        r is Some <==> code_budget(code_bodies(*old(code)).push(body_view(*f))) + 5 <= u32::MAX,
        r matches Some(nb) ==> code_bodies(*final(code)) == code_bodies(*old(code)).push(body_view(*f)) && nb
            == code_budget(code_bodies(*final(code))),
        r is None ==> code_bodies(*final(code)) == code_bodies(*old(code)),
{
    let ghost old_bodies = code_bodies(*code);
    let b = encode_body(f);
    let len = body_len(&b);
    proof {
        assert(old_bodies.push(body_view(*f)).drop_last() =~= old_bodies);
    }
    if len > 4294967295 || budget + 5 + len as u64 + 5 > 4294967295 {
        return None;
    }
    add_body(code, &b);
    Some(budget + 5 + len as u64)
}

/// Appends one instruction to a body.
fn put_instr(out: &mut Function, i: Instr)
    ensures
        body_code(*final(out)) == body_code(*old(out)).push(i),
        body_locals(*final(out)) == body_locals(*old(out)),
{
    match i {
        Instr::I32Const(v) => put_i32_const(out, v),
        Instr::LocalGet(l) => put_local_get(out, l),
        Instr::LocalSet(l) => put_local_set(out, l),
        Instr::LocalTee(l) => put_local_tee(out, l),
        Instr::Drop => put_drop(out),
        Instr::I32Add => put_i32_add(out),
        Instr::I32Sub => put_i32_sub(out),
        Instr::I32Mul => put_i32_mul(out),
        Instr::I32DivS => put_i32_div_s(out),
        Instr::I32Eq => put_i32_eq(out),
        Instr::I32GtS => put_i32_gt_s(out),
        Instr::I32LtS => put_i32_lt_s(out),
        Instr::I32Store8 => put_i32_store8(out),
        Instr::Call(g) => put_call(out, g),
        Instr::If => put_if(out),
        Instr::Else => put_else(out),
        Instr::End => put_end(out),
    }
}

/// Encodes one generated body.
pub fn encode_body(f: &CompiledFunction) -> (r: Function)
    ensures
        body_code(r) == f.body@,
        body_locals(r) == f.num_locals,
{
    let mut out = new_body(f.num_locals);
    let mut i: usize = 0;
    while i < f.body.len()
        invariant
            i <= f.body@.len(),
            body_code(out) == f.body@.subrange(0, i as int),
            body_locals(out) == f.num_locals,
        decreases f.body@.len() - i,
    {
        put_instr(&mut out, f.body[i]);
        assert(f.body@.subrange(0, i + 1) =~= f.body@.subrange(0, i as int).push(f.body@[i as int]));
        i += 1;
    }
    assert(f.body@.subrange(0, i as int) =~= f.body@);
    out
}

/// The byte offset, within the encoded body, at which each instruction
/// starts, and last the body's encoded length.
pub fn byte_offsets(f: &CompiledFunction) -> (r: Vec<usize>)
    ensures
        r@.len() == f.body@.len() + 1,
        forall|i: int| 0 <= i <= f.body@.len() ==> #[trigger] r@[i] == encoded_len(
            f.num_locals as nat,
            f.body@.subrange(0, i),
        ),
{
    let mut out = new_body(f.num_locals);
    let mut offsets: Vec<usize> = Vec::new();
    offsets.push(body_len(&out));
    assert(f.body@.subrange(0, 0) =~= Seq::<Instr>::empty());
    let mut i: usize = 0;
    while i < f.body.len()
        invariant
            i <= f.body@.len(),
            body_code(out) == f.body@.subrange(0, i as int),
            body_locals(out) == f.num_locals,
            offsets@.len() == i + 1,
            forall|k: int| 0 <= k <= i ==> #[trigger] offsets@[k] == encoded_len(
                f.num_locals as nat,
                f.body@.subrange(0, k),
            ),
        decreases f.body@.len() - i,
    {
        put_instr(&mut out, f.body[i]);
        assert(f.body@.subrange(0, i + 1) =~= f.body@.subrange(0, i as int).push(f.body@[i as int]));
        offsets.push(body_len(&out));
        i += 1;
    }
    offsets
}

/// The entry with its instruction position turned into the byte offset of
/// that instruction in the encoded body; a position past the end counts as
/// the end.
pub open spec fn rebased(e: EntryView, locals: nat, code: Seq<Instr>) -> EntryView {
    let k = if e.offset < code.len() {
        e.offset
    } else {
        code.len() as int
    };
    EntryView {
        kind: e.kind,
        offset: encoded_len(locals, code.subrange(0, k)) as int,
        pointer: e.pointer,
        source: e.source,
        props: e.props,
    }
}

/// The entries of `run`, placed by byte offset in its encoded body.
pub open spec fn rebased_all(es: Seq<EntryView>, run: FunctionView) -> Seq<EntryView> {
    es.map_values(|e: EntryView| rebased(e, run.2 as nat, run.3))
}

/// Turns each entry's instruction position into a byte offset.
fn rebase_elements(elements: Vec<ElementMap>, run: &CompiledFunction) -> (r: Vec<ElementMap>)
    ensures
        r@.map_values(|e: ElementMap| entry_view(e)) == rebased_all(
            elements@.map_values(|e: ElementMap| entry_view(e)),
            function_view(*run),
        ),
{
    let offsets = byte_offsets(run);
    let n = run.body.len();
    let mut rest = elements;
    let ghost all = rest@.map_values(|e: ElementMap| entry_view(e));
    let ghost fv = function_view(*run);
    let mut out: Vec<ElementMap> = Vec::new();
    let ghost total = rest@.len();
    while rest.len() > 0
        invariant
            offsets@.len() == n + 1,
            n == run.body@.len(),
            forall|i: int| 0 <= i <= n ==> #[trigger] offsets@[i] == encoded_len(run.num_locals as nat, run.body@.subrange(0, i)),
            fv == function_view(*run),
            out@.len() + rest@.len() == total,
            all.len() == total,
            out@.map_values(|e: ElementMap| entry_view(e)) == rebased_all(all, fv).subrange(0, out@.len() as int),
            rest@.map_values(|e: ElementMap| entry_view(e)) == all.subrange(out@.len() as int, total as int),
        decreases rest@.len(),
    {
        let ghost k = out@.len();
        let ghost rb = rest@;
        let mut e = rest.remove(0);
        proof {
            let rbv = rb.map_values(|x: ElementMap| entry_view(x));
            assert(rbv =~= all.subrange(k as int, total as int));
            assert(rbv[0] == all[k as int]);
            assert(rest@ =~= rb.subrange(1, rb.len() as int));
            let rv = rest@.map_values(|y: ElementMap| entry_view(y));
            assert forall|x: int| 0 <= x < rest@.len() implies #[trigger] rv[x] == all.subrange(k as int + 1, total as int)[x] by {
                assert(rest@[x] == rb[x + 1]);
                assert(rbv[x + 1] == all[k + 1 + x]);
            }
            assert(rv =~= all.subrange(k as int + 1, total as int));
        }
        let at = if e.wasm_offset < n {
            e.wasm_offset
        } else {
            n
        };
        e.wasm_offset = offsets[at];
        let ghost before = out@;
        out.push(e);
        proof {
            assert(out@.map_values(|x: ElementMap| entry_view(x)) =~= before.map_values(|x: ElementMap| entry_view(x)).push(entry_view(e)));
            assert(rebased_all(all, fv).subrange(0, k as int + 1) =~= rebased_all(all, fv).subrange(0, k as int).push(rebased_all(all, fv)[k as int]));
            assert(entry_view(e).props =~= all[k as int].props);
        }
    }
    assert(rebased_all(all, fv).subrange(0, total as int) =~= rebased_all(all, fv));
    out
}

/// Encodes a compiled program as a binary module: types, imports (memory
/// and the six host functions), function declarations, the `run` and
/// `gc_tick` exports, and the bodies of `run`, `gc_tick` and the user
/// Encodes a compiled program as a binary module: types, imports (memory
/// and the six host functions), function declarations, the `run` and
/// `gc_tick` exports, and the bodies of `run`, `gc_tick` and the user
/// functions, in index order. Fails where a section would exceed the 32-bit
/// size the format allows.
pub fn encode_module(m: &CompiledModule) -> (r: Result<Vec<u8>, CompileError>)
    requires
        table_wf(m.table@),
        m.functions@.len() == m.table@.len(),
    ensures
        module_fits(*m) ==> (r matches Ok(b) && b@ == module_image(module_layout(*m))),
        !module_fits(*m) ==> r matches Err(CompileError::Overflow),
{
    let ghost all_types = host_types().add(user_types(m.table@));
    let ghost bodies = code_list(*m);
    proof {
        reveal_strlit("env");
        reveal_strlit("memory");
        reveal_strlit("drawRect");
        reveal_strlit("gc_alloc");
        reveal_strlit("drawText");
        reveal_strlit("add_root");
        reveal_strlit("mark_used");
        reveal_strlit("gc_tick");
        reveal_strlit("run");
        reveal_with_fuel(types_budget, 8);
        assert(all_types.subrange(0, 7) =~= host_types());
    }
    let mut types = new_type_section();
    add_func_type(&mut types, 0, 0);
    add_func_type(&mut types, 4, 0);
    add_func_type(&mut types, 2, 1);
    add_func_type(&mut types, 4, 0);
    add_func_type(&mut types, 1, 0);
    add_func_type(&mut types, 1, 0);
    add_func_type(&mut types, 0, 0);
    assert(type_entries(types) =~= host_types());
    assert(types_budget(host_types()) == 90);
    let mut tb: u64 = 90;
    let mut i: usize = 0;
    while i < m.table.len()
        invariant
            table_wf(m.table@),
            i <= m.table@.len(),
            all_types == host_types().add(user_types(m.table@)),
            type_entries(types) == host_types().add(user_types(m.table@.subrange(0, i as int))),
            type_entries(types) == all_types.subrange(0, 7 + i),
            tb == types_budget(type_entries(types)),
            tb + 5 <= u32::MAX,
        decreases m.table@.len() - i,
    {
        let e = &m.table[i];
        let p = e.0.param_types.len() as u32;
        let q = e.1.returns as u32;
        let ghost next = type_entries(types).push((p as nat, q as nat));
        assert(next.drop_last() =~= type_entries(types));
        assert(next =~= all_types.subrange(0, 7 + i + 1));
        if tb + 11 + p as u64 + q as u64 + 5 > 4294967295 {
            proof {
                lemma_types_prefix(all_types, 7 + i + 1);
            }
            return Err(CompileError::Overflow);
        }
        add_func_type(&mut types, p, q);
        tb = tb + 11 + p as u64 + q as u64;
        assert(user_types(m.table@.subrange(0, i + 1)) =~= user_types(m.table@.subrange(0, i as int)).push(
            (m.table@[i as int].0.param_types@.len(), m.table@[i as int].1.returns as nat),
        ));
        i += 1;
    }
    assert(m.table@.subrange(0, i as int) =~= m.table@);
    assert(all_types.subrange(0, 7 + i) =~= all_types);
    if m.functions.len() > 858993456 {
        return Err(CompileError::Overflow);
    }
    let mut imports = new_import_section();
    add_memory_import(&mut imports, "env", "memory", 1);
    add_func_import(&mut imports, "env", "drawRect", 1);
    add_func_import(&mut imports, "env", "gc_alloc", 2);
    add_func_import(&mut imports, "env", "drawText", 3);
    add_func_import(&mut imports, "env", "add_root", 4);
    add_func_import(&mut imports, "env", "mark_used", 5);
    add_func_import(&mut imports, "env", "gc_tick", 6);
    assert(import_entries(imports) =~= host_imports());
    let mut funcs = new_function_section();
    add_function(&mut funcs, VOID_TYPE);
    add_function(&mut funcs, VOID_TYPE);
    let mut i: usize = 0;
    while i < m.functions.len()
        invariant
            table_wf(m.table@),
            m.functions@.len() == m.table@.len(),
            m.functions@.len() <= 858993456,
            i <= m.functions@.len(),
            function_types(funcs) == defined_types(i as nat),
        decreases m.functions@.len() - i,
    {
        add_function(&mut funcs, FIRST_USER_TYPE + i as u32);
        assert(defined_types((i + 1) as nat) =~= defined_types(i as nat).push((FIRST_USER_TYPE + i) as u32));
        i += 1;
    }
    let mut exports = new_export_section();
    add_func_export(&mut exports, "run", RUN_FUNC);
    add_func_export(&mut exports, "gc_tick", GC_TICK_FUNC);
    assert(export_entries(exports) =~= seq![("run"@, RUN_FUNC), ("gc_tick"@, GC_TICK_FUNC)]);
    let mut code = new_code_section();
    let ghost fixed = seq![body_view(m.run), body_view(m.gc_tick)];
    assert(code_budget(code_bodies(code)) == 0);
    let cb = match add_checked(&mut code, 0, &m.run) {
        Some(c) => c,
        None => {
            proof {
                assert(bodies.subrange(0, 1) =~= code_bodies(code).push(body_view(m.run)));
                lemma_code_prefix(bodies, 1);
            }
            return Err(CompileError::Overflow);
        },
    };
    let cb = match add_checked(&mut code, cb, &m.gc_tick) {
        Some(c) => c,
        None => {
            proof {
                assert(bodies.subrange(0, 2) =~= code_bodies(code).push(body_view(m.gc_tick)));
                lemma_code_prefix(bodies, 2);
            }
            return Err(CompileError::Overflow);
        },
    };
    assert(code_bodies(code) =~= fixed);
    let mut cb = cb;
    let mut i: usize = 0;
    while i < m.functions.len()
        invariant
            i <= m.functions@.len(),
            m.functions@.len() <= 858993456,
            bodies == code_list(*m),
            code_bodies(code) == fixed.add(m.functions@.subrange(0, i as int).map_values(|f: CompiledFunction| body_view(f))),
            code_bodies(code) == bodies.subrange(0, 2 + i),
            fixed == seq![body_view(m.run), body_view(m.gc_tick)],
            cb == code_budget(code_bodies(code)),
            cb + 5 <= u32::MAX,
        decreases m.functions@.len() - i,
    {
        let ghost before = code_bodies(code);
        assert(bodies.subrange(0, 2 + i + 1) =~= before.push(body_view(m.functions@[i as int])));
        cb = match add_checked(&mut code, cb, &m.functions[i]) {
            Some(c) => c,
            None => {
                proof {
                    lemma_code_prefix(bodies, 2 + i + 1);
                }
                return Err(CompileError::Overflow);
            },
        };
        assert(m.functions@.subrange(0, i + 1).map_values(|f: CompiledFunction| body_view(f)) =~= m.functions@.subrange(
            0,
            i as int,
        ).map_values(|f: CompiledFunction| body_view(f)).push(body_view(m.functions@[i as int])));
        assert(fixed.add(m.functions@.subrange(0, i + 1).map_values(|f: CompiledFunction| body_view(f))) =~= fixed.add(
            m.functions@.subrange(0, i as int).map_values(|f: CompiledFunction| body_view(f)),
        ).push(body_view(m.functions@[i as int])));
        i += 1;
    }
    assert(m.functions@.subrange(0, i as int) =~= m.functions@);
    assert(code_bodies(code) =~= bodies);
    let mut module = new_module();
    put_types(&mut module, &types);
    put_imports(&mut module, &imports);
    put_functions(&mut module, &funcs);
    put_exports(&mut module, &exports);
    put_code(&mut module, &code);
    assert(module_sections(module) =~= module_layout(*m));
    Ok(finish_module(module))
}

/// The types of the user functions of a table view.
pub open spec fn user_types_v(tv: TableView) -> Seq<(nat, nat)> {
    tv.map_values(|e: ((Seq<char>, Seq<Seq<char>>), usize)| (e.0.1.len(), e.1 as nat))
}

/// The (locals, code) of a generated function view.
pub open spec fn body_view_v(f: FunctionView) -> (nat, Seq<Instr>) {
    (f.2 as nat, f.3)
}

/// The sections of the binary module of a compiled program view.
pub open spec fn layout_v(mv: ModuleView) -> Seq<SectionView> {
    seq![
        SectionView::Types(host_types().add(user_types_v(mv.table))),
        SectionView::Imports(host_imports()),
        SectionView::Functions(defined_types(mv.functions.len())),
        SectionView::Exports(seq![("run"@, RUN_FUNC), ("gc_tick"@, GC_TICK_FUNC)]),
        SectionView::Code(code_list_v(mv)),
    ]
}

/// The bodies of the code section of a compiled program view.
pub open spec fn code_list_v(mv: ModuleView) -> Seq<(nat, Seq<Instr>)> {
    seq![body_view_v(mv.run), body_view_v(mv.gc_tick)].add(mv.functions.map_values(|f: FunctionView| body_view_v(f)))
}

/// The module of a compiled program view can be encoded.
pub open spec fn module_fits_v(mv: ModuleView) -> bool {
    fits(host_types().add(user_types_v(mv.table)), mv.functions.len(), code_list_v(mv))
}

proof fn lemma_layout_view(m: CompiledModule)
    ensures
        module_layout(m) == layout_v(module_view(m)),
        module_fits(m) == module_fits_v(module_view(m)),
{
    let mv = module_view(m);
    assert(user_types(m.table@) =~= user_types_v(mv.table));
    assert(m.functions@.map_values(|f: CompiledFunction| body_view(f)) =~= mv.functions.map_values(
        |f: FunctionView| body_view_v(f),
    ));
    assert(code_list(m) =~= code_list_v(mv));
    assert(module_layout(m) =~= layout_v(mv));
}

/// The semantic map entries as plain values.
pub open spec fn elements_view(sm: SemanticMap) -> Seq<EntryView> {
    sm.elements@.map_values(|e: ElementMap| entry_view(e))
}

/// Compiles a program to a binary module and its semantic map. The module
/// is the encoding of a compiled program whose every body passes the stack
/// verifier.
pub fn compile_to_wasm(ast: &Vec<Node>) -> (r: Result<(Vec<u8>, SemanticMap), CompileError>)
    ensures
        r matches Ok((bytes, _)) ==> exists|m: CompiledModule|
            stack_balanced(m) && table_of(m.table@, ast@) && bytes@ == module_image(#[trigger] module_layout(m)),
        !too_large(ast@) && has_duplicate(ast@) ==> r matches Err(CompileError::DuplicateSignature { .. }),
        r matches Err(e) ==> (e is DuplicateSignature ==> dup_error(e, ast@)),
        match gen_program(nodes_view(ast@)) {
            Some(mv) => if module_fits_v(mv) {
                r matches Ok((bytes, sm)) && bytes@ == module_image(layout_v(mv)) && elements_view(sm)
                    == rebased_all(mv.elements, mv.run)
            } else {
                r matches Err(CompileError::Overflow)
            },
            None => r is Err,
        },
{
    let m = compile_program(ast)?;
    proof {
        lemma_layout_view(m);
    }
    let bytes = encode_module(&m)?;
    let elements = rebase_elements(m.elements, &m.run);
    Ok((bytes, SemanticMap { elements }))
}

/// What compiling a source text gives: the module's bytes and the semantic
/// map, or `None` where lexing, parsing or generation fails.
pub open spec fn compiled(src: Seq<char>) -> Option<(Seq<u8>, Seq<EntryView>)> {
    match lex_from(src, 0) {
        Err(_) => None,
        Ok(ts) => match g_program(ts, 0, Seq::empty()) {
            None => None,
            Some(av) => match gen_program(av) {
                None => None,
                Some(mv) => if module_fits_v(mv) {
                    Some((module_image(layout_v(mv)), rebased_all(mv.elements, mv.run)))
                } else {
                    None
                },
            },
        },
    }
}

/// Errors of compiling a source text.
#[derive(Debug)]
pub enum CompileFailure {
    Syntax(SyntaxError),
    Compile(CompileError),
}

/// Compiles a source text to a binary module and its semantic map.
pub fn compile_source(source: &str) -> (r: Result<(Vec<u8>, SemanticMap), CompileFailure>)
    ensures
        match compiled(source@) {
            Some((bytes, elements)) => r matches Ok((b, sm)) && b@ == bytes && elements_view(sm) == elements,
            None => r is Err,
        },
{
    let ast = match parse_wpp(source) {
        Ok(a) => a,
        Err(e) => {
            return Err(CompileFailure::Syntax(e));
        },
    };
    match compile_to_wasm(&ast) {
        Ok(out) => Ok(out),
        Err(e) => Err(CompileFailure::Compile(e)),
    }
}

/// Compiling the same source text twice gives byte-identical modules and
/// identical semantic maps: each result is the one that `compiled` names.
pub proof fn lemma_compilation_deterministic(
    src: Seq<char>,
    first: (Seq<u8>, Seq<EntryView>),
    second: (Seq<u8>, Seq<EntryView>),
)
    requires
        compiled(src) == Some(first),
        compiled(src) == Some(second),
    ensures
        first.0 == second.0,
        first.1 == second.1,
{
}

} // verus!
