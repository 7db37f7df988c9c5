use wpp::script::{parse, transpile_to_rust, Statement};

#[test]
fn parses_print_lines_only() {
    let src = "print \"hello\"\n  other line\n\tprint world  \r\nprint\n";
    assert_eq!(
        parse(src),
        vec![Statement::Print("hello".to_string()), Statement::Print("world".to_string())]
    );
}

#[test]
fn strips_repeated_prefixes_and_quotes() {
    assert_eq!(parse("print print \"\"x\"\""), vec![Statement::Print("x".to_string())]);
    assert_eq!(parse("print \"\""), vec![Statement::Print(String::new())]);
    assert_eq!(parse(""), vec![]);
}

#[test]
fn renders_run_function() {
    let stmts = vec![Statement::Print("hi".to_string()), Statement::Print("there".to_string())];
    assert_eq!(
        transpile_to_rust(&stmts),
        "fn run() {\n    println!(\"hi\\n\");\n    println!(\"there\\n\");\n}\n"
    );
    assert_eq!(transpile_to_rust(&vec![]), "fn run() {\n}\n");
}
