use wpp::ast::{Expr, Node};
use wpp::codegen::{
    collect_signatures, net_stack_effect, CompileError, Instr, DRAW_RECT_FUNC, FIRST_USER_FUNC,
    GC_ALLOC_FUNC, TAG_BOX,
};
use wpp::compile::PropValue;
use wpp::encode::{compile_source, compile_to_wasm, CompileFailure};
use wpp::lexer::{tokenize, LexError, Token};
use wpp::parser::{parse_wpp, ParseError, SyntaxError};
use wpp::program::{compile_program, CompiledModule};

fn compile(src: &str) -> CompiledModule {
    let ast = parse_wpp(src).expect("parses");
    compile_program(&ast).expect("compiles")
}

fn compile_err(src: &str) -> CompileError {
    let ast = parse_wpp(src).expect("parses");
    match compile_program(&ast) {
        Ok(_) => panic!("expected a compile error"),
        Err(e) => e,
    }
}

fn contains_run(body: &[Instr], run: &[Instr]) -> bool {
    body.windows(run.len()).any(|w| w == run)
}

fn int_prop(props: &[(String, PropValue)], key: &str) -> Option<i32> {
    props.iter().find(|(k, _)| k == key).and_then(|(_, v)| match v {
        PropValue::Int(n) => Some(*n),
        _ => None,
    })
}

#[test]
fn lexes_punctuation_numbers_and_operators() {
    let toks = tokenize("box(x: 10) >= == < \"hi\"").unwrap();
    assert_eq!(
        toks,
        vec![
            Token::Ident("box".to_string()),
            Token::LParen,
            Token::Ident("x".to_string()),
            Token::Colon,
            Token::Number(10),
            Token::RParen,
            Token::Operator(">=".to_string()),
            Token::Operator("==".to_string()),
            Token::Operator("<".to_string()),
            Token::Str("hi".to_string()),
        ]
    );
}

#[test]
fn lexes_largest_number_and_rejects_overflow() {
    assert_eq!(tokenize("2147483647").unwrap(), vec![Token::Number(2147483647)]);
    assert_eq!(tokenize("  2147483648").unwrap_err(), LexError::NumberOverflow(2));
}

#[test]
fn lexer_rejects_unknown_and_unterminated() {
    assert_eq!(tokenize("box # x").unwrap_err(), LexError::UnexpectedChar('#', 4));
    assert_eq!(tokenize("\"open").unwrap_err(), LexError::UnterminatedString(0));
    assert_eq!(tokenize("").unwrap(), vec![]);
}

#[test]
fn parses_box_in_any_order() {
    let ast = parse_wpp("box(height: 4, width: 3, y: 2, x: 1)").unwrap();
    assert_eq!(ast.len(), 1);
    match &ast[0] {
        Node::Box { x, y, width, height } => assert_eq!((*x, *y, *width, *height), (1, 2, 3, 4)),
        other => panic!("unexpected {:?}", other),
    }
}

#[test]
fn parse_rejects_missing_box_argument() {
    match parse_wpp("box(x: 1, y: 2, width: 3)") {
        Err(SyntaxError::Parse(ParseError::MissingArgument { name, .. })) => assert_eq!(name, "height"),
        other => panic!("unexpected {:?}", other),
    }
}

#[test]
fn parse_rejects_unknown_parameter_and_stray_token() {
    match parse_wpp("box(x: 1, y: 2, width: 3, height: 4, depth: 5)") {
        Err(SyntaxError::Parse(ParseError::UnknownParameter { name, .. })) => assert_eq!(name, "depth"),
        other => panic!("unexpected {:?}", other),
    }
    match parse_wpp("}") {
        Err(SyntaxError::Parse(ParseError::Unexpected { found, position, remaining, .. })) => {
            assert_eq!(found, Token::RBrace);
            assert_eq!(position, 0);
            assert_eq!(remaining, vec![Token::RBrace]);
        },
        other => panic!("unexpected {:?}", other),
    }
}

#[test]
fn binary_expressions_associate_left_to_right() {
    let ast = parse_wpp("let a = 1 + 2 * 3").unwrap();
    match &ast[0] {
        Node::Let { value: Expr::Binary { left, op, right }, .. } => {
            assert_eq!(op, "*");
            assert!(matches!(**right, Expr::Literal(3)));
            assert!(matches!(**left, Expr::Binary { .. }));
        },
        other => panic!("unexpected {:?}", other),
    }
}

#[test]
fn single_box_program() {
    let m = compile("box(x: 10, y: 20, width: 30, height: 40)");
    let body = &m.run.body;
    assert!(contains_run(body, &[Instr::I32Const(TAG_BOX), Instr::Call(GC_ALLOC_FUNC)]));
    assert_eq!(body.iter().filter(|i| **i == Instr::Call(GC_ALLOC_FUNC)).count(), 1);
    assert!(contains_run(
        body,
        &[
            Instr::I32Const(10),
            Instr::I32Const(20),
            Instr::I32Const(30),
            Instr::I32Const(40),
            Instr::Call(DRAW_RECT_FUNC)
        ]
    ));
    assert_eq!(m.elements.len(), 1);
    let e = &m.elements[0];
    assert_eq!(e.kind, "box");
    assert_eq!(int_prop(&e.props, "x"), Some(10));
    assert_eq!(int_prop(&e.props, "y"), Some(20));
    assert_eq!(int_prop(&e.props, "width"), Some(30));
    assert_eq!(int_prop(&e.props, "height"), Some(40));
}

#[test]
fn if_else_program() {
    let m = compile("if (5 > 3) { box(x:0,y:0,width:1,height:1) } else { box(x:9,y:9,width:1,height:1) }");
    let body = &m.run.body;
    let if_at = body.iter().position(|i| *i == Instr::If).unwrap();
    let else_at = body.iter().position(|i| *i == Instr::Else).unwrap();
    let end_at = body.iter().rposition(|i| *i == Instr::End).unwrap();
    assert!(contains_run(body, &[Instr::I32Const(5), Instr::I32Const(3), Instr::I32GtS, Instr::If]));
    let then_part = body[if_at + 1..else_at].to_vec();
    let else_part = body[else_at + 1..end_at - 1].to_vec();
    assert_eq!(net_stack_effect(&then_part, &m.table), Some(0));
    assert_eq!(net_stack_effect(&else_part, &m.table), Some(0));
    assert_eq!(m.elements.iter().filter(|e| e.kind == "box").count(), 2);
}

#[test]
fn overloaded_functions() {
    let src = "function describe(s: string) { text(value: s) } function describe(n: int) { let m = n + 1 }";
    let m = compile(src);
    assert_eq!(m.table.len(), 2);
    assert_eq!(m.table[0].1.wasm_index, FIRST_USER_FUNC);
    assert_eq!(m.table[1].1.wasm_index, FIRST_USER_FUNC + 1);
    let dup = format!("{} function describe(k: int) {{ }}", src);
    assert!(matches!(compile_err(&dup), CompileError::DuplicateSignature { .. }));
}

#[test]
fn duplicate_signature_is_rejected_by_prepass() {
    let ast = parse_wpp("function f(a: int) { } function f(b: int) { }").unwrap();
    assert!(matches!(collect_signatures(&ast), Err(CompileError::DuplicateSignature { .. })));
    let ast = parse_wpp("function f(a: int) { } function f(b: string) { }").unwrap();
    assert_eq!(collect_signatures(&ast).unwrap().len(), 2);
}

#[test]
fn dispatch_picks_matching_overload() {
    let m = compile("function show(n: int) { } function show(s: string) { } show(\"hi\") show(4)");
    let body = &m.run.body;
    let calls: Vec<u32> = body
        .iter()
        .filter_map(|i| match i {
            Instr::Call(f) if *f >= FIRST_USER_FUNC => Some(*f),
            _ => None,
        })
        .collect();
    assert_eq!(calls, vec![FIRST_USER_FUNC + 1, FIRST_USER_FUNC]);
}

#[test]
fn dispatch_without_match_fails() {
    match compile_err("function show(n: int) { } show(\"hi\")") {
        CompileError::NoMatchingOverload { name, candidates, .. } => {
            assert_eq!(name, "show");
            assert_eq!(candidates, vec![vec!["int".to_string()]]);
        },
        other => panic!("unexpected {:?}", other),
    }
}

#[test]
fn undefined_variable_and_operator_errors() {
    assert!(matches!(compile_err("let a = b"), CompileError::UndefinedVariable(_)));
    assert!(matches!(compile_err("let a = 1 >= 2"), CompileError::UnsupportedOperator(_)));
}

#[test]
fn every_body_is_stack_balanced() {
    let m = compile(
        "function f(n: int) { let k = n * 2 } group(justify: center) { box(x:0,y:0,width:5,height:5) text(value: \"ab\") } \
         list(gap: 2) { \"one\" \"two\" } let s = \"str\" text(x: 1, y: 2, value: s) f(3)",
    );
    assert_eq!(net_stack_effect(&m.run.body, &m.table), Some(0));
    assert_eq!(net_stack_effect(&m.gc_tick.body, &m.table), Some(0));
    for (i, f) in m.functions.iter().enumerate() {
        assert_eq!(net_stack_effect(&f.body, &m.table), Some(m.table[i].1.returns as i64));
    }
}

#[test]
fn compilation_is_deterministic() {
    let src = "group(direction: horizontal, gap: 4) { box(x:0,y:0,width:10,height:10) text(value: \"hey\") }";
    let a = compile_to_wasm(&parse_wpp(src).unwrap()).unwrap();
    let b = compile_to_wasm(&parse_wpp(src).unwrap()).unwrap();
    assert_eq!(a.0, b.0);
    assert_eq!(format!("{:?}", a.1.elements), format!("{:?}", b.1.elements));
}

#[test]
fn module_bytes_have_header_and_exports() {
    let (bytes, _) = compile_to_wasm(&parse_wpp("box(x: 1, y: 2, width: 3, height: 4)").unwrap()).unwrap();
    assert_eq!(&bytes[0..8], &[0x00, 0x61, 0x73, 0x6d, 0x01, 0x00, 0x00, 0x00]);
    assert!(bytes.windows(3).any(|w| w == b"run"));
    assert!(bytes.windows(7).any(|w| w == b"gc_tick"));
    assert!(bytes.windows(8).any(|w| w == b"drawRect"));
}

#[test]
fn module_bytes_hold_the_generated_code() {
    let (bytes, map) = compile_to_wasm(&parse_wpp("box(x: 10, y: 20, width: 30, height: 40)").unwrap()).unwrap();
    let draw = [0x41, 10, 0x41, 20, 0x41, 30, 0x41, 40, 0x10, 0x00];
    assert!(bytes.windows(draw.len()).any(|w| w == draw));
    let alloc = [0x41, 0x00, 0x41, 0x01, 0x10, 0x01, 0x22, 0x00];
    assert!(bytes.windows(alloc.len()).any(|w| w == alloc));
    assert_eq!(map.elements.len(), 1);
}

#[test]
fn string_literal_bytes_are_stored() {
    let m = compile("let s = \"hi\"");
    let body = &m.run.body;
    assert!(contains_run(
        body,
        &[Instr::LocalGet(0), Instr::I32Const(1), Instr::I32Add, Instr::I32Const(b'i' as i32), Instr::I32Store8]
    ));
    assert!(contains_run(body, &[Instr::I32Const(2), Instr::I32Const(2), Instr::Call(GC_ALLOC_FUNC), Instr::LocalTee(0)]));
    assert!(contains_run(body, &[Instr::I32Store8, Instr::LocalSet(1)]));
}

#[test]
fn remaining_compile_errors() {
    assert!(matches!(compile_err("function f(a: float) { }"), CompileError::UnsupportedType(_)));
    assert!(matches!(
        compile_err("function f(a: int) { } let x = 1 + f(2)"),
        CompileError::MissingValue
    ));
    assert!(matches!(compile_err("if (1) { function g() { } }"), CompileError::UnsupportedNode));
    assert!(matches!(
        compile_err("group(gap: 2147483647) { box(x:0,y:0,width:2147483647,height:1) box(x:0,y:0,width:1,height:1) }"),
        CompileError::Overflow
    ));
}

#[test]
fn compile_source_is_deterministic() {
    let src = "let n = 4 text(x: 1, y: 2, value: \"abc\") list(direction: horizontal) { \"a\" \"bc\" }";
    let (b1, m1) = compile_source(src).unwrap();
    let (b2, m2) = compile_source(src).unwrap();
    assert_eq!(b1, b2);
    assert_eq!(format!("{:?}", m1.elements), format!("{:?}", m2.elements));
    assert_eq!(m1.elements.len(), 4);
    assert!(matches!(compile_source("box(x: 1)"), Err(CompileFailure::Syntax(_))));
    assert!(matches!(compile_source("let a = b"), Err(CompileFailure::Compile(_))));
}

#[test]
fn stray_token_after_statement_is_reported() {
    match parse_wpp("box(x: 1, y: 2, width: 3, height: 4) )") {
        Err(SyntaxError::Parse(ParseError::Unexpected { found, position, remaining, .. })) => {
            assert_eq!(found, Token::RParen);
            assert_eq!(position, 18);
            assert_eq!(remaining, vec![Token::RParen]);
        },
        other => panic!("unexpected {:?}", other),
    }
}

#[test]
fn duplicate_error_names_the_signature() {
    let src = "function describe(s: string) { } function describe(n: int) { } function describe(t: string) { }";
    match compile_err(src) {
        CompileError::DuplicateSignature { name, param_types } => {
            assert_eq!(name, "describe");
            assert_eq!(param_types, vec!["string".to_string()]);
        },
        other => panic!("unexpected {:?}", other),
    }
    match compile_err("let a = zz") {
        CompileError::UndefinedVariable(n) => assert_eq!(n, "zz"),
        other => panic!("unexpected {:?}", other),
    }
}

#[test]
fn list_items_carry_their_own_offsets() {
    let m = compile("list { \"a\" \"b\" }");
    assert_eq!(m.elements.len(), 3);
    assert_eq!(m.elements[0].kind, "text");
    assert!(m.elements[1].wasm_offset > m.elements[0].wasm_offset);
    assert_eq!(m.elements[2].kind, "list");
    assert_eq!(m.elements[2].wasm_offset, m.elements[0].wasm_offset);
}

#[test]
fn semantic_map_offsets_are_byte_offsets() {
    let src = "box(x: 10, y: 20, width: 30, height: 40) box(x: 10, y: 20, width: 30, height: 40)";
    let (_, map) = compile_source(src).unwrap();
    let offsets: Vec<usize> = map.elements.iter().map(|e| e.wasm_offset).collect();
    assert_eq!(offsets, vec![3, 30]);
}
