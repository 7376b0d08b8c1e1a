use compiler::atoms::{
    Arg, Assignment, Atom, AtomBody, AtomType, BinaryOp, Const, Function, FunctionCall, RefAtom,
    Return, Variable, VariableDec, VariableDef,
};
use compiler::grammar::ParseError;
use compiler::lexer::{lex, Operator, Token, Type};
use compiler::parser::Parser;
use std::rc::Rc;

fn parser_of(code: &str) -> Parser {
    Parser::new(lex(code.as_bytes()))
}

fn constant(value: isize) -> Atom {
    Atom::new(AtomType::Expression, AtomBody::Const(Const::new(Type::Isize, value)))
}

fn variable(id: &str, vtype: Type) -> Atom {
    Atom::new(AtomType::Variable, AtomBody::Variable(Variable::new(id.to_string(), vtype)))
}

fn argument(id: &str, vtype: Type) -> Atom {
    Atom::new(AtomType::Arg, AtomBody::Arg(Arg::new(id.to_string(), vtype)))
}

fn binary(operator: Operator, lhs: Atom, rhs: Atom) -> Atom {
    Atom::new(
        AtomType::Expression,
        AtomBody::BinaryOp(Box::new(BinaryOp::new(operator, lhs, rhs))),
    )
}

fn returning(expr: Atom) -> Atom {
    Atom::new(AtomType::Return, AtomBody::Return(Box::new(Return::new(expr))))
}

fn assignment(lhs: usize, rhs: Atom) -> Atom {
    Atom::new(
        AtomType::Assignment,
        AtomBody::Assignment(Box::new(Assignment::new(RefAtom::new(lhs), rhs))),
    )
}

fn declaration(id: &str, vtype: Type) -> Atom {
    Atom::new(
        AtomType::VariableDec,
        AtomBody::VariableDec(VariableDec::new(id.to_string(), vtype)),
    )
}

fn definition(dec: usize, rhs: Atom) -> Atom {
    Atom::new(
        AtomType::VariableDef,
        AtomBody::VariableDef(Box::new(VariableDef::new(RefAtom::new(dec), assignment(dec, rhs)))),
    )
}

fn call(id: usize, input: Vec<Atom>) -> Atom {
    Atom::new(
        AtomType::FunctionCall,
        AtomBody::FunctionCall(FunctionCall::new(RefAtom::new(id), input)),
    )
}

fn function(id: &str, arguments: Vec<Atom>, return_type: Type, statements: Vec<Atom>) -> Atom {
    Atom::new(
        AtomType::BoxFunction,
        AtomBody::Function(Rc::new(Function::new(
            id.to_string(),
            arguments,
            return_type,
            statements,
        ))),
    )
}

#[test]
fn empty_tokens_parse_to_nil() {
    let mut parser = Parser::new(lex(b""));
    let (atom, next) = parser.parse_next(0).unwrap();
    assert_eq!(atom.atype, AtomType::Nil);
    assert_eq!(atom, Atom::new(AtomType::Nil, AtomBody::Nil));
    assert_eq!(next, 0);
    assert!(parser.declarations().is_empty());
}

#[test]
fn nil_after_last_function() {
    let mut parser = parser_of("fn f() -> u64 { return 1; }");
    let (_, next) = parser.parse_next(0).unwrap();
    assert_eq!(next, parser.tokens().len());
    let (atom, last) = parser.parse_next(next).unwrap();
    assert_eq!(atom, Atom::new(AtomType::Nil, AtomBody::Nil));
    assert_eq!(last, next);
    let (atom, far) = parser.parse_next(next + 7).unwrap();
    assert_eq!(atom.atype, AtomType::Nil);
    assert_eq!(far, next + 7);
}

#[test]
fn function_source_parses_to_function_node() {
    let mut parser = parser_of("fn add(a: isize, b: isize) -> isize { return a; }");
    let (atom, next) = parser.parse_next(0).unwrap();
    assert_eq!(next, 18);
    assert_eq!(atom.atype, AtomType::BoxFunction);
    let expected = function(
        "add",
        vec![argument("a", Type::Isize), argument("b", Type::Isize)],
        Type::Isize,
        vec![returning(variable("a", Type::Isize))],
    );
    assert_eq!(atom, expected);
    match &atom.body {
        AtomBody::Function(f) => {
            assert_eq!(f.id, "add");
            assert_eq!(f.arguments.len(), 2);
            assert_eq!(f.arguments[0].atype, AtomType::Arg);
            assert_eq!(f.arguments[1].atype, AtomType::Arg);
            assert_eq!(f.return_type, Type::Isize);
            assert_eq!(f.statements.len(), 1);
            assert_eq!(f.statements[0].atype, AtomType::Return);
        }
        _ => panic!("not a function"),
    }
    // the parameters and then the function itself are declared
    let declared = parser.declarations();
    assert_eq!(declared.len(), 3);
    assert_eq!(declared[0], variable("a", Type::Isize));
    assert_eq!(declared[1], variable("b", Type::Isize));
    assert_eq!(declared[2], expected);
    assert_eq!(parser.scope(), 3);
}

#[test]
fn multiplication_binds_tighter_than_addition() {
    let parser = parser_of("1 + 2 * 3");
    let (atom, next) = parser.parse_expression(0).unwrap();
    assert_eq!(next, 5);
    assert_eq!(
        atom,
        binary(
            Operator::Add,
            constant(1),
            binary(Operator::Mul, constant(2), constant(3))
        )
    );
    let parser = parser_of("1 * 2 + 3");
    let (atom, next) = parser.parse_expression(0).unwrap();
    assert_eq!(next, 5);
    assert_eq!(
        atom,
        binary(
            Operator::Add,
            binary(Operator::Mul, constant(1), constant(2)),
            constant(3)
        )
    );
}

#[test]
fn operators_of_one_level_nest_to_the_right() {
    let parser = parser_of("1 - 2 - 3");
    let (atom, _) = parser.parse_expression(0).unwrap();
    assert_eq!(
        atom,
        binary(
            Operator::Sub,
            constant(1),
            binary(Operator::Sub, constant(2), constant(3))
        )
    );
}

#[test]
fn all_precedence_levels() {
    let parser = parser_of("1 == 2 < 3 << 4 + 5 * 6");
    let (atom, next) = parser.parse_expression(0).unwrap();
    assert_eq!(next, 11);
    assert_eq!(
        atom,
        binary(
            Operator::Equal,
            constant(1),
            binary(
                Operator::LT,
                constant(2),
                binary(
                    Operator::LShift,
                    constant(3),
                    binary(
                        Operator::Add,
                        constant(4),
                        binary(Operator::Mul, constant(5), constant(6))
                    )
                )
            )
        )
    );
    let parser = parser_of("1 / 2 - 3 >> 4 >= 5 == 6");
    let (atom, next) = parser.parse_expression(0).unwrap();
    assert_eq!(next, 11);
    assert_eq!(
        atom,
        binary(
            Operator::Equal,
            binary(
                Operator::GE,
                binary(
                    Operator::RShift,
                    binary(
                        Operator::Sub,
                        binary(Operator::Div, constant(1), constant(2)),
                        constant(3)
                    ),
                    constant(4)
                ),
                constant(5)
            ),
            constant(6)
        )
    );
}

#[test]
fn expression_stops_at_first_token_that_cannot_continue_it() {
    let parser = parser_of("1 + 2 ; 3");
    let (atom, next) = parser.parse_expression(0).unwrap();
    assert_eq!(next, 3);
    assert_eq!(atom, binary(Operator::Add, constant(1), constant(2)));
    let parser = parser_of("7 = 3");
    let (atom, next) = parser.parse_expression(0).unwrap();
    assert_eq!(next, 1);
    assert_eq!(atom, constant(7));
}

#[test]
fn malformed_expressions_fail() {
    assert_eq!(parser_of("").parse_expression(0), Err(ParseError::UnexpectedEndOfInput));
    assert_eq!(parser_of("1 +").parse_expression(0), Err(ParseError::UnexpectedEndOfInput));
    assert_eq!(parser_of("1 + ;").parse_expression(0), Err(ParseError::ParseExpectedToken));
    assert_eq!(parser_of("+ 1").parse_expression(0), Err(ParseError::ParseExpectedToken));
    assert_eq!(parser_of("1 + x").parse_expression(0), Err(ParseError::UnresolvedIdentifier));
    assert_eq!(parser_of("1 * 2 + ( 3").parse_expression(0), Err(ParseError::ParseExpectedToken));
}

#[test]
fn undeclared_assignment_fails_and_declared_one_parses() {
    let mut parser = parser_of("{ x = 1; }");
    assert_eq!(parser.parse_statements(0), Err(ParseError::UnresolvedIdentifier));
    assert!(parser.declarations().is_empty());

    let mut parser = parser_of("{ let x: isize; x = 1; }");
    let (statements, next) = parser.parse_statements(0).unwrap();
    assert_eq!(next, 11);
    assert_eq!(
        statements,
        vec![declaration("x", Type::Isize), assignment(0, constant(1))]
    );
    assert_eq!(parser.declarations().len(), 1);
    assert_eq!(parser.declarations()[0], variable("x", Type::Isize));
}

#[test]
fn undeclared_call_fails_and_declared_one_parses() {
    let mut parser = parser_of("{ f(1, 2); }");
    assert_eq!(parser.parse_statements(0), Err(ParseError::UnresolvedIdentifier));

    let mut parser = parser_of("fn f(a: u64) -> u64 { return a; } fn g() -> u64 { f(1, 2 + 3); return 4; }");
    let (first, next) = parser.parse_next(0).unwrap();
    assert_eq!(first.atype, AtomType::BoxFunction);
    let (second, last) = parser.parse_next(next).unwrap();
    assert_eq!(last, parser.tokens().len());
    assert_eq!(
        second,
        function(
            "g",
            vec![],
            Type::U64,
            vec![
                call(1, vec![constant(1), binary(Operator::Add, constant(2), constant(3))]),
                returning(constant(4)),
            ],
        )
    );
    assert_eq!(parser.declarations().len(), 3);
    assert_eq!(parser.declarations()[1], first);
    assert_eq!(parser.declarations()[2], second);
}

#[test]
fn use_before_declaration_fails() {
    let mut parser = parser_of("{ x = 1; let x: isize; }");
    assert_eq!(parser.parse_statements(0), Err(ParseError::UnresolvedIdentifier));
    let mut parser = parser_of("{ let x: isize = x; }");
    assert_eq!(parser.parse_statements(0), Err(ParseError::UnresolvedIdentifier));
    let mut parser = parser_of("{ return y; }");
    assert_eq!(parser.parse_statements(0), Err(ParseError::UnresolvedIdentifier));
}

#[test]
fn function_cannot_call_itself() {
    let mut parser = parser_of("fn f() -> u64 { f(); }");
    assert_eq!(parser.parse_next(0), Err(ParseError::UnresolvedIdentifier));
    assert!(parser.declarations().is_empty());
    assert_eq!(parser.scope(), 0);
}

#[test]
fn variables_of_one_function_are_not_seen_in_the_next() {
    let mut parser = parser_of("fn f(a: u64) -> u64 { let b: u64; return a; } fn g() -> u64 { return a; }");
    let (_, next) = parser.parse_next(0).unwrap();
    assert_eq!(parser.declarations().len(), 3);
    assert_eq!(parser.parse_next(next), Err(ParseError::UnresolvedIdentifier));
    assert_eq!(parser.declarations().len(), 3);
    assert_eq!(parser.scope(), 3);

    let mut parser = parser_of("fn f(a: u64) -> u64 { let b: u64; return a; } fn g() -> u64 { return b; }");
    let (_, next) = parser.parse_next(0).unwrap();
    assert_eq!(parser.parse_next(next), Err(ParseError::UnresolvedIdentifier));
}

#[test]
fn let_with_and_without_initializer() {
    let mut parser = parser_of("let x: u64; let y: i64 = 1 + 2; let x: usize = y;");
    let (first, next) = parser.parse_statement(0).unwrap();
    assert_eq!(next, 5);
    assert_eq!(first, declaration("x", Type::U64));
    let (second, next) = parser.parse_statement(next).unwrap();
    assert_eq!(next, 14);
    assert_eq!(second, definition(1, binary(Operator::Add, constant(1), constant(2))));
    let (third, next) = parser.parse_statement(next).unwrap();
    assert_eq!(next, 21);
    assert_eq!(third, definition(2, variable("y", Type::I64)));
    assert_eq!(
        parser.declarations(),
        &vec![
            variable("x", Type::U64),
            variable("y", Type::I64),
            variable("x", Type::Usize)
        ]
    );
    // the latest declaration of a name is the one that a use resolves to
    assert_eq!(parser.resolve(&"x".to_string()), Some(2));
    assert_eq!(parser.resolve(&"y".to_string()), Some(1));
    assert_eq!(parser.resolve(&"z".to_string()), None);
}

#[test]
fn decordef_reads_what_follows_let() {
    let mut parser = parser_of("x: u64;");
    let (atom, next) = parser.parse_decordef(0).unwrap();
    assert_eq!(next, 4);
    assert_eq!(atom, declaration("x", Type::U64));
    assert_eq!(parser_of("x: u64").parse_decordef(0), Err(ParseError::UnexpectedEndOfInput));
    assert_eq!(parser_of("x u64;").parse_decordef(0), Err(ParseError::ParseExpectedToken));
    assert_eq!(parser_of("x: y;").parse_decordef(0), Err(ParseError::ParseExpectedToken));
    assert_eq!(parser_of("1: u64;").parse_decordef(0), Err(ParseError::ParseExpectedToken));
    assert_eq!(parser_of("x: u64 + 1;").parse_decordef(0), Err(ParseError::ParseExpectedToken));
    assert_eq!(parser_of("x: u64 = 1").parse_decordef(0), Err(ParseError::UnexpectedEndOfInput));
    assert_eq!(parser_of("x: u64 = ;").parse_decordef(0), Err(ParseError::ParseExpectedToken));
}

#[test]
fn failed_block_takes_its_declarations_back() {
    let mut parser = parser_of("{ let x: u64; let y: u64; z = 1; }");
    assert_eq!(parser.parse_statements(0), Err(ParseError::UnresolvedIdentifier));
    assert!(parser.declarations().is_empty());
    let mut parser = parser_of("{ let x: u64; let y: u64; ");
    assert_eq!(parser.parse_statements(0), Err(ParseError::UnexpectedEndOfInput));
    assert!(parser.declarations().is_empty());
}

#[test]
fn failed_function_declares_nothing() {
    let mut parser = parser_of("fn f(a: u64, b: u64) -> u64 { let c: u64; return d; }");
    assert_eq!(parser.parse_next(0), Err(ParseError::UnresolvedIdentifier));
    assert!(parser.declarations().is_empty());
    assert_eq!(parser.scope(), 0);
}

#[test]
fn argument_lists() {
    let parser = parser_of("()");
    assert_eq!(parser.parse_args(0), Ok((vec![], 2)));
    let parser = parser_of("(a: u64)");
    assert_eq!(parser.parse_args(0), Ok((vec![argument("a", Type::U64)], 5)));
    let parser = parser_of("(,a: u64,, b: i64,)");
    assert_eq!(
        parser.parse_args(0),
        Ok((vec![argument("a", Type::U64), argument("b", Type::I64)], 12))
    );
    assert_eq!(parser_of("a: u64)").parse_args(0), Err(ParseError::ParseExpectedToken));
    assert_eq!(parser_of("").parse_args(0), Err(ParseError::UnexpectedEndOfInput));
    assert_eq!(parser_of("(a: u64").parse_args(0), Err(ParseError::UnexpectedEndOfInput));
    assert_eq!(parser_of("(a").parse_args(0), Err(ParseError::UnexpectedEndOfInput));
    assert_eq!(parser_of("(a:").parse_args(0), Err(ParseError::UnexpectedEndOfInput));
    assert_eq!(parser_of("(a u64)").parse_args(0), Err(ParseError::ParseExpectedToken));
    assert_eq!(parser_of("(a: b)").parse_args(0), Err(ParseError::ParseExpectedToken));
    assert_eq!(parser_of("(1: u64)").parse_args(0), Err(ParseError::ParseExpectedToken));
}

#[test]
fn call_arguments() {
    let parser = parser_of("()");
    assert_eq!(parser.parse_input(0), Ok((vec![], 2)));
    let parser = parser_of("(1, 2 * 3)");
    assert_eq!(
        parser.parse_input(0),
        Ok((vec![constant(1), binary(Operator::Mul, constant(2), constant(3))], 7))
    );
    assert_eq!(parser_of("1, 2)").parse_input(0), Err(ParseError::ParseExpectedToken));
    assert_eq!(parser_of("(1, 2").parse_input(0), Err(ParseError::UnexpectedEndOfInput));
    assert_eq!(parser_of("(1, x)").parse_input(0), Err(ParseError::UnresolvedIdentifier));
    assert_eq!(parser_of("(1; 2)").parse_input(0), Err(ParseError::ParseExpectedToken));
}

#[test]
fn top_level_needs_fn() {
    assert_eq!(parser_of("let x: u64;").parse_next(0), Err(ParseError::ParseExpectedToken));
    assert_eq!(parser_of("x").parse_next(0), Err(ParseError::ParseExpectedToken));
    assert_eq!(parser_of("}").parse_next(0), Err(ParseError::ParseExpectedToken));
}

#[test]
fn function_with_missing_pieces_fails() {
    assert_eq!(parser_of("fn").parse_next(0), Err(ParseError::UnexpectedEndOfInput));
    assert_eq!(parser_of("fn (").parse_next(0), Err(ParseError::ParseExpectedToken));
    assert_eq!(parser_of("fn f").parse_next(0), Err(ParseError::UnexpectedEndOfInput));
    assert_eq!(parser_of("fn f { }").parse_next(0), Err(ParseError::ParseExpectedToken));
    assert_eq!(parser_of("fn f() { }").parse_next(0), Err(ParseError::ParseExpectedToken));
    assert_eq!(parser_of("fn f() ->").parse_next(0), Err(ParseError::UnexpectedEndOfInput));
    assert_eq!(parser_of("fn f() -> { }").parse_next(0), Err(ParseError::ParseExpectedToken));
    assert_eq!(parser_of("fn f() -> u64").parse_next(0), Err(ParseError::UnexpectedEndOfInput));
    assert_eq!(parser_of("fn f() -> u64 ;").parse_next(0), Err(ParseError::ParseExpectedToken));
    assert_eq!(parser_of("fn f() -> u64 {").parse_next(0), Err(ParseError::UnexpectedEndOfInput));
    assert_eq!(parser_of("fn f() -> u64 { return 1 }").parse_next(0), Err(ParseError::ParseExpectedToken));
    assert_eq!(parser_of("fn f() -> u64 { 1; }").parse_next(0), Err(ParseError::ParseExpectedToken));
    assert_eq!(parser_of("fn f() -> u64 { if; }").parse_next(0), Err(ParseError::ParseExpectedToken));
}

#[test]
fn statements_of_each_kind() {
    let mut parser = parser_of(
        "fn f(a: u64) -> u64 { return a; } fn g(b: u64) -> u64 { let c: u64 = b; c = c + 1; f(c); return c; }",
    );
    let (_, next) = parser.parse_next(0).unwrap();
    let (second, last) = parser.parse_next(next).unwrap();
    assert_eq!(last, parser.tokens().len());
    assert_eq!(
        second,
        function(
            "g",
            vec![argument("b", Type::U64)],
            Type::U64,
            vec![
                definition(3, variable("b", Type::U64)),
                assignment(
                    3,
                    binary(Operator::Add, variable("c", Type::U64), constant(1))
                ),
                call(1, vec![variable("c", Type::U64)]),
                returning(variable("c", Type::U64)),
            ],
        )
    );
    assert_eq!(parser.declarations().len(), 5);
    assert_eq!(parser.scope(), 5);
}

#[test]
fn assignment_and_call_need_their_tokens() {
    let mut parser = parser_of("{ let x: u64; x + 1; }");
    assert_eq!(parser.parse_statements(0), Err(ParseError::ParseExpectedToken));
    let mut parser = parser_of("{ let x: u64; x = 1 }");
    assert_eq!(parser.parse_statements(0), Err(ParseError::ParseExpectedToken));
    let mut parser = parser_of("{ let x: u64; x");
    assert_eq!(parser.parse_statements(0), Err(ParseError::UnexpectedEndOfInput));
    let mut parser = parser_of("fn f() -> u64 { return 1; } fn g() -> u64 { f = 1; }");
    let (_, next) = parser.parse_next(0).unwrap();
    assert_eq!(parser.parse_next(next), Err(ParseError::ParseExpectedToken));
    let mut parser = parser_of("fn f() -> u64 { return 1; } fn g() -> u64 { return f; }");
    let (_, next) = parser.parse_next(0).unwrap();
    assert_eq!(parser.parse_next(next), Err(ParseError::ParseExpectedToken));
    let mut parser = parser_of("fn f() -> u64 { return 1; } fn g() -> u64 { f() }");
    let (_, next) = parser.parse_next(0).unwrap();
    assert_eq!(parser.parse_next(next), Err(ParseError::ParseExpectedToken));
}

#[test]
fn missing_open_brace_fails() {
    let mut parser = parser_of("return 1; }");
    assert_eq!(parser.parse_statements(0), Err(ParseError::ParseExpectedToken));
    let mut parser = parser_of("");
    assert_eq!(parser.parse_statements(0), Err(ParseError::UnexpectedEndOfInput));
    let mut parser = parser_of("{ }");
    assert_eq!(parser.parse_statements(0), Ok((vec![], 2)));
}

#[test]
fn unrecognizable_token_does_not_parse() {
    let tokens = lex(b"fn f() -> u64 { return +-; }");
    assert!(tokens.contains(&Token::Unrecognizable));
    let mut parser = Parser::new(tokens);
    assert_eq!(parser.parse_next(0), Err(ParseError::ParseExpectedToken));
}

fn references_of(atom: &Atom, found: &mut Vec<usize>) {
    match &atom.body {
        AtomBody::Program(p) => found.push(p.start.atom),
        AtomBody::Function(f) => {
            for child in f.arguments.iter().chain(f.statements.iter()) {
                references_of(child, found);
            }
        }
        AtomBody::Return(r) => references_of(&r.expr, found),
        AtomBody::Statement(s) => found.push(s.body.atom),
        AtomBody::Assignment(a) => {
            found.push(a.lhs.atom);
            references_of(&a.rhs, found);
        }
        AtomBody::BinaryOp(b) => {
            references_of(&b.lhs, found);
            references_of(&b.rhs, found);
        }
        AtomBody::Expression(e) => found.push(e.body.atom),
        AtomBody::VariableDef(d) => {
            found.push(d.dec.atom);
            references_of(&d.assign, found);
        }
        AtomBody::FunctionCall(c) => {
            found.push(c.id.atom);
            for child in &c.input {
                references_of(child, found);
            }
        }
        AtomBody::RefAtom(r) => found.push(r.atom),
        AtomBody::Const(_)
        | AtomBody::Variable(_)
        | AtomBody::Arg(_)
        | AtomBody::VariableDec(_)
        | AtomBody::Nil => {}
    }
}

#[test]
fn every_reference_points_to_an_earlier_declaration() {
    let mut parser = parser_of(
        "fn f(a: u64) -> u64 { let b: u64 = a; b = b + a; return b; } \
         fn g(c: u64) -> u64 { let d: u64 = c; d = d * 2; f(d, c); let e: i64; e = 1; return d; }",
    );
    let mut pos = 0;
    loop {
        let (atom, next) = parser.parse_next(pos).unwrap();
        if atom.atype == AtomType::Nil {
            break;
        }
        pos = next;
    }
    let declared = parser.declarations();
    assert_eq!(declared.len(), 7);
    let mut seen = 0;
    for (index, entry) in declared.iter().enumerate() {
        let mut found = Vec::new();
        references_of(entry, &mut found);
        seen += found.len();
        for reference in found {
            assert!(reference < index);
        }
    }
    assert_eq!(seen, 8);
    // the references name declarations of the right kind
    match &declared[6].body {
        AtomBody::Function(g) => match &g.statements[2].body {
            AtomBody::FunctionCall(call) => {
                assert_eq!(call.id, RefAtom::new(2));
                assert_eq!(declared[2].atype, AtomType::BoxFunction);
            }
            _ => panic!("not a call"),
        },
        _ => panic!("not a function"),
    }
}
