use virtual_exec::ast::{BinaryOperator, UnaryOperator};
use virtual_exec::compile::{compile, stmts_inst};
use virtual_exec::instructions::{offset, Instruction, InstructionBuilder};
use virtual_exec::lexer::{lex, Keyword, ParseError, Punct, Token};
use virtual_exec::parser::parse;
use virtual_exec::syntax::{infix_binding_power, map_assign_op_to_binary_op, prefix_binding_power, AssignOp};

fn name(s: &str) -> Instruction {
    Instruction::LoadName(s.to_string())
}

#[test]
fn lexes_operators_numbers_and_comments() {
    let ts = lex("a += 12; // note\n b <<= 0.5 != None").unwrap();
    assert_eq!(
        ts,
        vec![
            Token::Ident("a".to_string()),
            Token::Punct(Punct::PlusEq),
            Token::Int(12),
            Token::Punct(Punct::Semi),
            Token::Ident("b".to_string()),
            Token::Punct(Punct::ShlEq),
            Token::Float("0.5".to_string()),
            Token::Punct(Punct::Ne),
            Token::Keyword(Keyword::NoneLit),
        ]
    );
}

#[test]
fn lexes_strings_with_escapes() {
    let ts = lex("\"a\\nb\"").unwrap();
    assert_eq!(ts, vec![Token::Str("a\nb".to_string())]);
}

#[test]
fn unterminated_string_is_a_syntax_error() {
    assert!(matches!(lex("a = \"abc"), Err(ParseError::SyntaxError(_))));
}

#[test]
fn missing_operand_is_a_syntax_error() {
    assert!(matches!(parse("a = ;"), Err(ParseError::SyntaxError(_))));
}

#[test]
fn literal_cannot_be_assigned() {
    assert_eq!(parse("1 = 2;").err(), Some(ParseError::InvalidAssignmentTarget));
}

#[test]
fn missing_semicolon_is_a_syntax_error() {
    assert!(matches!(parse("a = 1"), Err(ParseError::SyntaxError(_))));
    assert!(parse("a = 1;").is_ok());
}

#[test]
fn return_outside_function_is_refused() {
    assert!(parse("return 1;").is_err());
    assert!(parse("fn f() { return 1; }").is_ok());
}

#[test]
fn compound_assignment_desugars() {
    let m = parse("a -= 1;").unwrap();
    assert_eq!(
        compile(&m),
        vec![name("a"), name("a"), Instruction::LoadLitInt(1), Instruction::Sub, Instruction::Assign]
    );
}

#[test]
fn precedence_of_operators() {
    let m = parse("x = 1 + 2 * 3;").unwrap();
    assert_eq!(
        compile(&m),
        vec![
            name("x"),
            Instruction::LoadLitInt(1),
            Instruction::LoadLitInt(2),
            Instruction::LoadLitInt(3),
            Instruction::Mul,
            Instruction::Add,
            Instruction::Assign
        ]
    );
}

#[test]
fn function_definition_layout() {
    let m = parse("fn f(x) { return x; }").unwrap();
    assert_eq!(
        compile(&m),
        vec![
            name("f"),
            Instruction::LoadDPtr(4, 1),
            Instruction::Assign,
            Instruction::Jmp(11),
            name("x"),
            Instruction::Swap,
            Instruction::Assign,
            name("x"),
            Instruction::Ret,
            Instruction::LoadNone,
            Instruction::Ret
        ]
    );
}

#[test]
fn while_loop_layout() {
    let m = parse("while a { a = 0; }").unwrap();
    assert_eq!(
        compile(&m),
        vec![
            name("a"),
            Instruction::JmpZ(6),
            name("a"),
            Instruction::LoadLitInt(0),
            Instruction::Assign,
            Instruction::Jmp(0)
        ]
    );
}

#[test]
fn call_pushes_arguments_last_first() {
    let m = parse("f(1, 2);").unwrap();
    assert_eq!(
        compile(&m),
        vec![
            Instruction::LoadLitInt(2),
            Instruction::LoadLitInt(1),
            Instruction::LoadLitInt(2),
            name("f"),
            Instruction::Call,
            Instruction::Pop
        ]
    );
}

#[test]
fn compiling_at_an_offset_equals_offsetting_compiled_code() {
    let m = parse("a = 1; if a == 1 { b = 2; } else { b = 3; } while b > 0 { b -= 1; } fn g(x) { return x && 1; }").unwrap();
    let at_zero = compile(&m);
    let at_seven = stmts_inst(&m.body, 7);
    assert_eq!(at_seven, offset(at_zero.clone(), 7));
    assert_ne!(at_seven, at_zero);
}

#[test]
fn jump_targets_stay_inside_the_code() {
    let m = parse("if 1 { a = 2; } else { a = 3; } while 0 { } fn h() { }").unwrap();
    let code = compile(&m);
    for inst in &code {
        match inst {
            Instruction::Jmp(t) | Instruction::JmpZ(t) | Instruction::JmpNz(t) | Instruction::LoadDPtr(t, _) => {
                assert!(*t as usize <= code.len())
            }
            _ => {}
        }
    }
}

#[test]
fn assign_operators_map_to_binary_operators() {
    assert_eq!(map_assign_op_to_binary_op(AssignOp::Assign), None);
    assert_eq!(map_assign_op_to_binary_op(AssignOp::Add), Some(BinaryOperator::Add));
    assert_eq!(map_assign_op_to_binary_op(AssignOp::Shl), Some(BinaryOperator::LeftShift));
}

#[test]
fn binding_powers() {
    assert_eq!(prefix_binding_power(&UnaryOperator::Not), 21);
    assert_eq!(prefix_binding_power(&UnaryOperator::Negative), 21);
    let (mul_l2, _) = infix_binding_power(&BinaryOperator::Multiply);
    assert!(prefix_binding_power(&UnaryOperator::Negative) > mul_l2);
    assert_eq!(infix_binding_power(&BinaryOperator::Or), (1, 2));
    assert_eq!(infix_binding_power(&BinaryOperator::And), (3, 4));
    let (_, add_r) = infix_binding_power(&BinaryOperator::Add);
    let (mul_l, _) = infix_binding_power(&BinaryOperator::Multiply);
    assert!(mul_l > add_r - 1);
}

#[test]
fn compile_at_places_code_and_refuses_overflow() {
    let m = parse("while a { a = 0; }").unwrap();
    let placed = virtual_exec::compile::compile_at(&m, 10).unwrap();
    assert_eq!(placed, offset(compile(&m), 10));
    assert_eq!(placed[1], Instruction::JmpZ(16));
    assert!(virtual_exec::compile::compile_at(&m, u64::MAX - 3).is_none());
    assert!(virtual_exec::compile::compile_at(&m, u64::MAX - 6).is_some());
}

#[test]
fn code_lengths() {
    let m = parse("if a { b = 1; } else { b = 2; } fn f(x, y) { return x; }").unwrap();
    assert_eq!(virtual_exec::compile::stmts_len(&m.body), Some(compile(&m).len() as u64));
}

#[test]
fn echo_code_matches_the_compiled_print() {
    let m = parse("if _r != None {print(_r);}").unwrap();
    assert_eq!(virtual_exec::repl::echo_code(5), offset(compile(&m), 5));
}

#[test]
fn input_as_program_is_placed_after_loaded_code() {
    let r = virtual_exec::repl::input_code("a = 1; if a { a = 2; }", 4).unwrap().unwrap();
    let m = parse("a = 1; if a { a = 2; }").unwrap();
    assert_eq!(r, stmts_inst(&m.body, 4));
}

#[test]
fn trailing_expression_is_echoed() {
    let r = virtual_exec::repl::input_code("a = 1; a + 1", 4).unwrap().unwrap();
    let pre = compile(&parse("a = 1; a + 1;").unwrap());
    let n = pre.len();
    assert_eq!(r[..n - 1], pre[..n - 1]);
    assert_eq!(
        r[n - 1..n + 2],
        [name("_r"), Instruction::Swap, Instruction::Assign]
    );
    assert_eq!(r[n + 2..].to_vec(), virtual_exec::repl::echo_code(4 + n as u64 + 2));
}

#[test]
fn unreadable_input_reports_the_error() {
    assert!(virtual_exec::repl::input_code("a = ", 0).is_err());
}

#[test]
fn builders_place_relative_jumps() {
    assert_eq!(InstructionBuilder::JmpR(3).convert(10), Instruction::Jmp(13));
    assert_eq!(InstructionBuilder::JmpZR(0).convert(7), Instruction::JmpZ(7));
    assert_eq!(InstructionBuilder::JmpNzR(5).convert(1), Instruction::JmpNz(6));
    assert_eq!(InstructionBuilder::Jmp(3).convert(10), Instruction::Jmp(3));
    assert_eq!(InstructionBuilder::Add.convert(99), Instruction::Add);
    let back: InstructionBuilder = Instruction::JmpZ(4).into();
    assert_eq!(back.convert(100), Instruction::JmpZ(4));
    let name: InstructionBuilder = Instruction::LoadName("x".to_string()).into();
    assert_eq!(name.convert(0), Instruction::LoadName("x".to_string()));
}
