use khukuri::ast::ASTNode;
use khukuri::environment::Environment;
use khukuri::error::CompilerError;
use khukuri::imports::{ImportAction, ImportTracker};
use khukuri::lexer::Lexer;
use khukuri::parser::{parse_source, Parser};
use khukuri::token::{Token, TokenType};

fn lex(s: &str) -> Result<Vec<Token>, String> {
    Lexer::new(s.to_string()).tokenize()
}

fn program_statements(ast: ASTNode) -> Vec<Box<ASTNode>> {
    match ast {
        ASTNode::Program(stmts) => stmts,
        _ => panic!("Expected Program"),
    }
}

#[test]
fn lexer_error_names_character_and_position() {
    let err = lex("maanau x = 5\n  @").unwrap_err();
    assert_eq!(err, "Unexpected character '@' at line 2, column 3");
}

#[test]
fn lexer_unterminated_string_message() {
    assert_eq!(lex("\"abc").unwrap_err(), "Unterminated string literal");
    assert_eq!(lex("\"ab\ncd\"").unwrap_err(), "Unterminated string literal");
    assert_eq!(lex("\"ab\\").unwrap_err(), "Unterminated string literal");
}

#[test]
fn lexer_escaped_newline_continues_string_and_counts_line() {
    let tokens = lex("\"a\\\nb\" x").unwrap();
    assert_eq!(tokens[0].token_type, TokenType::String);
    assert_eq!(tokens[0].value, "a\nb");
    assert_eq!(tokens[1].value, "x");
    assert_eq!(tokens[1].line, 2);
    assert_eq!(tokens[1].column, 4);
}

#[test]
fn lexer_unknown_escape_passes_character_through() {
    let tokens = lex("\"a\\qb\"").unwrap();
    assert_eq!(tokens[0].value, "aqb");
}

#[test]
fn lexer_unicode_letters_and_digits_in_identifiers() {
    let tokens = lex("नाम१ = 1").unwrap();
    assert_eq!(tokens[0].token_type, TokenType::Identifier);
    assert_eq!(tokens[0].value, "नाम१");
    assert_eq!(tokens[1].value, "=");
    assert_eq!(tokens[1].column, 6);
}

#[test]
fn lexer_unicode_whitespace_after_blank_is_skipped() {
    let tokens = lex("a \u{a0}b").unwrap();
    assert_eq!(tokens.len(), 3);
    assert_eq!(tokens[1].value, "b");
    assert_eq!(tokens[1].column, 4);
}

#[test]
fn lexer_any_whitespace_but_newline_is_skipped() {
    let tokens = lex("\u{a0}x\u{b}\u{c}\u{3000}y").unwrap();
    assert_eq!(tokens.len(), 3);
    assert_eq!(tokens[0].value, "x");
    assert_eq!(tokens[0].column, 2);
    assert_eq!(tokens[1].value, "y");
    assert_eq!(tokens[1].column, 6);
}

#[test]
fn lexer_symbols_do_not_continue_identifiers() {
    assert_eq!(lex("_€").unwrap_err(), "Unexpected character '€' at line 1, column 2");
    assert_eq!(lex("a→b").unwrap_err(), "Unexpected character '→' at line 1, column 2");
}

#[test]
fn lexer_two_character_operators_are_greedy() {
    let tokens = lex("a>=b!=c<=d==e").unwrap();
    let ops: Vec<&str> = tokens
        .iter()
        .filter(|t| t.token_type == TokenType::Operator)
        .map(|t| t.value.as_str())
        .collect();
    assert_eq!(ops, vec![">=", "!=", "<=", "=="]);
}

#[test]
fn lexer_eof_position_after_last_line() {
    let tokens = lex("x\nyy").unwrap();
    let eof = tokens.last().unwrap();
    assert_eq!(eof.token_type, TokenType::EOF);
    assert_eq!(eof.line, 2);
    assert_eq!(eof.column, 3);
}

#[test]
fn parse_source_declaration_and_print() {
    let stmts = program_statements(parse_source("maanau x = 5\nmaanau y = 3\nbhan x + y".to_string()).unwrap());
    assert_eq!(stmts.len(), 3);
    match stmts[2].as_ref() {
        ASTNode::Print(e) => match e.as_ref() {
            ASTNode::BinaryOp { operator, .. } => assert_eq!(operator, "+"),
            _ => panic!("Expected BinaryOp"),
        },
        _ => panic!("Expected Print"),
    }
}

#[test]
fn parse_source_function_and_call() {
    let stmts = program_statements(parse_source("kaam add(a, b) { pathau a + b }\nbhan add(2,3)".to_string()).unwrap());
    match stmts[0].as_ref() {
        ASTNode::FunctionDeclaration { name, parameters, body } => {
            assert_eq!(name, "add");
            assert_eq!(parameters, &vec!["a".to_string(), "b".to_string()]);
            assert_eq!(body.len(), 1);
        }
        _ => panic!("Expected FunctionDeclaration"),
    }
    match stmts[1].as_ref() {
        ASTNode::Print(e) => match e.as_ref() {
            ASTNode::FunctionCall { name, arguments } => {
                assert_eq!(name, "add");
                assert_eq!(arguments.len(), 2);
            }
            _ => panic!("Expected FunctionCall"),
        },
        _ => panic!("Expected Print"),
    }
}

#[test]
fn parse_source_for_each_and_dictionary_assignment() {
    let stmts = program_statements(parse_source("pratyek c ma \"ab\" { bhan c }".to_string()).unwrap());
    assert!(matches!(stmts[0].as_ref(), ASTNode::ForEachLoop { .. }));
    let stmts = program_statements(parse_source("maanau d = {\"k\": 1}\nd[\"k\"] = 2\nbhan d[\"k\"]".to_string()).unwrap());
    assert_eq!(stmts.len(), 3);
    match stmts[1].as_ref() {
        ASTNode::IndexAssignment { object, index, value } => {
            assert_eq!(object.as_ref(), &ASTNode::Identifier("d".to_string()));
            assert_eq!(index.as_ref(), &ASTNode::String("k".to_string()));
            assert_eq!(value.as_ref(), &ASTNode::Number("2".to_string()));
        }
        _ => panic!("Expected IndexAssignment"),
    }
}

#[test]
fn parse_source_while_false() {
    let stmts = program_statements(parse_source("jaba samma galat { bhan \"x\" }".to_string()).unwrap());
    match stmts[0].as_ref() {
        ASTNode::WhileLoop { condition, body } => {
            assert_eq!(condition.as_ref(), &ASTNode::Boolean(false));
            assert_eq!(body.len(), 1);
        }
        _ => panic!("Expected WhileLoop"),
    }
}

#[test]
fn parse_source_reports_lexer_error() {
    assert_eq!(parse_source("bhan 1 $".to_string()).unwrap_err(), "Unexpected character '$' at line 1, column 8");
}

#[test]
fn parse_rejects_call_on_call_result() {
    assert_eq!(parse_source("f(1)(2)".to_string()).unwrap_err(), "Cannot call function on non-identifier");
    assert_eq!(parse_source("a[0](1)".to_string()).unwrap_err(), "Cannot call function on non-identifier");
}

#[test]
fn parse_rejects_assignment_to_non_index() {
    assert_eq!(parse_source("a[0] + 1 = 2".to_string()).unwrap_err(), "Invalid left-hand side in assignment");
}

#[test]
fn parse_reports_expected_and_found_token() {
    assert_eq!(
        parse_source("maanau x = (1\nbhan x".to_string()).unwrap_err(),
        "Expected RParen, found Newline at line 1"
    );
    assert_eq!(
        parse_source("yedi sahi {".to_string()).unwrap_err(),
        "Expected keyword 'bhane', found '{' at line 1"
    );
    assert_eq!(parse_source("kaam f(".to_string()).unwrap_err(), "Expected Identifier, found EOF at line 1");
    assert_eq!(parse_source("bhan".to_string()).unwrap_err(), "Unexpected token EOF '' in expression at line 1");
    assert_eq!(parse_source("\nbhan natra".to_string()).unwrap_err(), "Unexpected keyword 'natra' in expression at line 2");
}

#[test]
fn parse_rejects_unknown_statement_keyword() {
    assert!(parse_source("natra".to_string()).is_err());
}

#[test]
fn parse_chained_index_and_nested_literals() {
    let stmts = program_statements(parse_source("a[0][1]\n[1, [2], {\"x\": 3}]".to_string()).unwrap());
    match stmts[0].as_ref() {
        ASTNode::IndexAccess { object, .. } => assert!(matches!(object.as_ref(), ASTNode::IndexAccess { .. })),
        _ => panic!("Expected IndexAccess"),
    }
    match stmts[1].as_ref() {
        ASTNode::ListLiteral(items) => assert_eq!(items.len(), 3),
        _ => panic!("Expected ListLiteral"),
    }
}

#[test]
fn parse_type_hint_is_kept() {
    let stmts = program_statements(parse_source("maanau x: sankhya = 1".to_string()).unwrap());
    match stmts[0].as_ref() {
        ASTNode::VarDeclaration { name, type_hint, .. } => {
            assert_eq!(name, "x");
            assert_eq!(type_hint.as_deref(), Some("sankhya"));
        }
        _ => panic!("Expected VarDeclaration"),
    }
}

#[test]
fn parse_logical_operators_are_left_associative() {
    let stmts = program_statements(parse_source("a wa b wa c".to_string()).unwrap());
    match stmts[0].as_ref() {
        ASTNode::BinaryOp { left, operator, right } => {
            assert_eq!(operator, "wa");
            assert!(matches!(left.as_ref(), ASTNode::BinaryOp { .. }));
            assert_eq!(right.as_ref(), &ASTNode::Identifier("c".to_string()));
        }
        _ => panic!("Expected BinaryOp"),
    }
}

#[test]
fn parser_stops_at_first_eof_token() {
    let tokens = vec![
        Token::new(TokenType::EOF, String::new(), 1, 1),
        Token::new(TokenType::Operator, "+".to_string(), 1, 2),
    ];
    let ast = Parser::new(tokens).parse().unwrap();
    assert_eq!(ast, ASTNode::Program(vec![]));
}

#[test]
fn environment_scope_shadowing_law_example() {
    let mut env = Environment::<i64>::new();
    env.define("x".to_string(), 1);
    env.push_scope();
    env.define("x".to_string(), 2);
    env.define("y".to_string(), 3);
    assert_eq!(env.get("x").copied(), Some(2));
    env.pop_scope();
    assert_eq!(env.get("x").copied(), Some(1));
    assert_eq!(env.get("y"), None);
}

#[test]
fn environment_define_overwrites_in_innermost_scope() {
    let mut env = Environment::<i64>::new();
    env.define("x".to_string(), 1);
    env.define("x".to_string(), 5);
    assert_eq!(env.get("x").copied(), Some(5));
    assert_eq!(env.current_scope_size(), 1);
}

#[test]
fn environment_set_reports_undefined_name() {
    let mut env = Environment::<i64>::new();
    assert_eq!(env.set("zz", 1).unwrap_err(), "Undefined variable: zz");
    assert_eq!(env.get("zz"), None);
}

#[test]
fn import_twice_runs_once() {
    let mut imports = ImportTracker::new();
    assert_eq!(imports.begin("lib.nep"), Ok(ImportAction::Load));
    imports.finish(true);
    assert_eq!(imports.begin("lib.nep"), Ok(ImportAction::Skip));
}

#[test]
fn import_cycle_is_an_error() {
    let mut imports = ImportTracker::new();
    assert_eq!(imports.begin("a.nep"), Ok(ImportAction::Load));
    assert_eq!(imports.begin("b.nep"), Ok(ImportAction::Load));
    assert_eq!(imports.begin("a.nep").unwrap_err(), "Circular import bhettayo bro: a.nep");
    imports.finish(false);
    imports.finish(false);
    assert_eq!(imports.begin("a.nep"), Ok(ImportAction::Load));
}

#[test]
fn describe_each_error_kind() {
    let e = CompilerError::LexerError { message: "bad".to_string(), line: 3, column: 14 };
    assert_eq!(e.describe(), "Lexer Error line 3 ma, column 14: bad");
    let e = CompilerError::ParserError { message: "oops".to_string(), line: 10, column: 2 };
    assert_eq!(e.describe(), "Syntax Error line 10 ma, column 2: oops");
    let e = CompilerError::RuntimeError { message: "boom".to_string(), line: 0 };
    assert_eq!(e.describe(), "Runtime Error line 0 ma: boom");
}

#[test]
fn environment_list_assignment_keeps_other_list() {
    let mut env = Environment::<Vec<i64>>::new();
    env.define("a".to_string(), vec![1, 2, 3]);
    env.define("b".to_string(), vec![1, 2, 3]);
    let mut list = env.get("a").cloned().unwrap();
    list[1] = 9;
    env.set("a", list).unwrap();
    assert_eq!(env.get("a").map(|l| l[1]), Some(9));
    assert_eq!(env.get("b").cloned(), Some(vec![1, 2, 3]));
}

#[test]
fn number_after_second_dot_is_new_token() {
    let tokens = lex("1.2.3").unwrap();
    assert_eq!(tokens[0].value, "1.2");
    assert_eq!(tokens[1].token_type, TokenType::Number);
    assert_eq!(tokens[1].value, ".3");
    assert!(lex("a.b").is_err());
}

#[test]
fn trailing_dot_after_number_is_new_token() {
    assert_eq!(lex("1.2. @").unwrap_err(), "Unexpected character '@' at line 1, column 6");
    let tokens = lex("5..").unwrap();
    assert_eq!(tokens[0].value, "5.");
    assert_eq!(tokens[1].token_type, TokenType::Number);
    assert_eq!(tokens[1].value, ".");
    assert_eq!(tokens.len(), 3);
}

#[test]
fn declaration_and_assignment_require_equals() {
    assert_eq!(parse_source("maanau x + 5".to_string()).unwrap_err(), "Expected '=', found '+' at line 1");
    assert_eq!(parse_source("x = 1\nmaanau y".to_string()).unwrap_err(), "Expected '=', found '' at line 2");
}

#[test]
fn expression_keyword_starts_expression_statement() {
    let stmts = program_statements(parse_source("hoina sahi".to_string()).unwrap());
    assert!(matches!(stmts[0].as_ref(), ASTNode::UnaryOp { .. }));
}

#[test]
fn duplicate_copies_whole_tree() {
    let ast = parse_source("kaam f(a) { yedi a bhane { pathau [a, {\"k\": -a}] } natra { rok } }".to_string()).unwrap();
    let copy = ast.duplicate();
    assert_eq!(copy, ast);
}
