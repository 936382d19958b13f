use monkey_rs::{Lex, Parser, Statement};

fn check_parser_errors(p: &Parser) {
    if p.errors.is_empty() {
        return;
    }
    println!("parser has {} errors", p.errors.len());
    for error in &p.errors {
        println!("{}", error);
    }
    panic!()
}

#[test]
fn let_statement() {
    let input = "
let x = 5;
let y = 10;
let foobar = 838383;
";

    let mut p = Parser::new(input.tokens());
    let program = p.parse_program();

    check_parser_errors(&p);

    assert_eq!(
        program.statements.len(),
        3,
        "program.statements does not contain 3 statements, got: {}",
        program.statements.len()
    );

    let expected_identifiers = ["x", "y", "foobar"];
    for (statement, expected_identifier) in program.statements.iter().zip(expected_identifiers) {
        let Statement::Let { identifier: name, .. } = statement else {
            panic!("The input should only contain let statements");
        };
        println!("{}", name);
        println!("{}", expected_identifier);
        assert_eq!(name, expected_identifier);
    }
}

#[test]
#[should_panic]
fn wrong_let_statement() {
    let input = "
let x 5;
let = 10;
let 838383;
";

    let mut p = Parser::new(input.tokens());
    let _program = p.parse_program();

    check_parser_errors(&p);
}

#[test]
fn return_statement() {
    let input = "
return 5;
return 10;
return 993322;
";

    let mut p = Parser::new(input.tokens());
    let program = p.parse_program();

    check_parser_errors(&p);

    assert_eq!(
        program.statements.len(),
        3,
        "program.statements does not contain 3 statements, got: {}",
        program.statements.len()
    );

    for statement in program.statements {
        if !matches!(statement, Statement::Return { .. }) {
            panic!("The input should only contain return statements");
        }
    }
}

fn parse(input: &str) -> (Vec<Statement>, Vec<String>) {
    let mut p = Parser::new(input.tokens());
    let program = p.parse_program();
    (program.statements, p.errors)
}

fn let_name(s: &Statement) -> Option<&str> {
    match s {
        Statement::Let { identifier, .. } => Some(identifier.as_str()),
        Statement::Return(_) => None,
    }
}

#[test]
fn three_let_statements_on_one_text() {
    let (statements, errors) = parse("let x = 5;\nlet y = 10;\nlet foobar = 838383;");
    assert!(errors.is_empty());
    let names: Vec<_> = statements.iter().map(let_name).collect();
    assert_eq!(names, vec![Some("x"), Some("y"), Some("foobar")]);
}

#[test]
fn three_return_statements_on_one_text() {
    let (statements, errors) = parse("return 5;\nreturn 10;\nreturn 993322;");
    assert!(errors.is_empty());
    assert_eq!(statements.len(), 3);
    assert!(statements.iter().all(|s| matches!(s, Statement::Return(_))));
}

#[test]
fn malformed_lets_give_diagnostics() {
    let (statements, errors) = parse("let x 5;\nlet = 10;\nlet 838383;");
    assert!(statements.len() < 3);
    assert_eq!(statements.len(), 0);
    assert_eq!(
        errors,
        vec![
            "expected next token to be Some(Assign), got Some(Int(5)) instead".to_string(),
            "expected next token to be Some(Ident(\"\")), got Some(Assign) instead".to_string(),
            "expected next token to be Some(Ident(\"\")), got Some(Int(838383)) instead"
                .to_string(),
        ]
    );
}

#[test]
fn empty_input_parses_to_nothing() {
    let (statements, errors) = parse("");
    assert!(statements.is_empty());
    assert!(errors.is_empty());
}

#[test]
fn missing_token_at_end_of_input() {
    let (statements, errors) = parse("let");
    assert!(statements.is_empty());
    assert_eq!(errors, vec!["expected next token to be Some(Ident(\"\")), got None instead"]);
    let (statements, errors) = parse("let x");
    assert!(statements.is_empty());
    assert_eq!(errors, vec!["expected next token to be Some(Assign), got None instead"]);
}

#[test]
fn missing_semicolon_at_end_is_accepted() {
    let (statements, errors) = parse("let a = 1 + 2");
    assert!(errors.is_empty());
    assert_eq!(statements.iter().map(let_name).collect::<Vec<_>>(), vec![Some("a")]);
    let (statements, errors) = parse("return");
    assert!(errors.is_empty());
    assert_eq!(statements.len(), 1);
}

#[test]
fn other_statements_are_skipped() {
    let (statements, errors) = parse("x + 1; if (a) { return b; } let c = d;");
    assert!(errors.is_empty());
    assert_eq!(
        statements.iter().map(let_name).collect::<Vec<_>>(),
        vec![None, Some("c")]
    );
}

#[test]
fn good_statement_after_a_bad_one() {
    let (statements, errors) = parse("let 5; let ok = 1;");
    assert_eq!(errors.len(), 1);
    let mut p = Parser::new("let 5;".tokens());
    p.parse_program();
    assert_eq!(p.errors(), &errors);
    assert_eq!(statements.iter().map(let_name).collect::<Vec<_>>(), vec![Some("ok")]);
}
