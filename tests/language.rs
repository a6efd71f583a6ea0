use interp::interpreter::{divide_integers, interpret, visit_node, EvalError, InterpretError, State};
use interp::lex::{lex, LexError, TokenKind};
use interp::parser::{parse, Node, ParseError};
use interp::stack::Stack;
use interp::value::{Dec, ValueKind};

fn chars(s: &str) -> Vec<char> {
    s.chars().collect()
}

fn dec_value(d: &Dec) -> f64 {
    match d {
        Dec::Literal(t) => t.iter().collect::<String>().parse().unwrap(),
        Dec::FromInteger(n) => *n as f64,
        Dec::Add(a, b) => dec_value(a) + dec_value(b),
        Dec::Sub(a, b) => dec_value(a) - dec_value(b),
        Dec::Mul(a, b) => dec_value(a) * dec_value(b),
        Dec::Div(a, b) => dec_value(a) / dec_value(b),
    }
}

fn run(src: &str) -> Result<ValueKind, InterpretError> {
    let mut state = State::new();
    interpret(src, &mut state)
}

fn run_decimal(src: &str) -> f64 {
    match run(src) {
        Ok(ValueKind::Decimal(d)) => dec_value(&d),
        other => panic!("expected a decimal, got {:?}", other),
    }
}

#[test]
fn exact_integer_division_stays_integer() {
    assert_eq!(run("6 / 3"), Ok(ValueKind::Integer(2)));
    assert_eq!(run("-6 / 3"), Ok(ValueKind::Integer(-2)));
    assert_eq!(run("0 / 7"), Ok(ValueKind::Integer(0)));
}

#[test]
fn inexact_integer_division_gives_decimal() {
    let r = run("7 / 2");
    assert_eq!(
        r,
        Ok(ValueKind::Decimal(Dec::Div(
            Box::new(Dec::FromInteger(7)),
            Box::new(Dec::FromInteger(2))
        )))
    );
    assert_eq!(run_decimal("7 / 2"), 3.5);
    assert_eq!(run_decimal("1 / 3"), 1.0 / 3.0);
}

#[test]
fn division_by_zero_fails() {
    let zero = Err(InterpretError::Eval(EvalError::DivisionByZero));
    assert_eq!(run("5 / 0"), zero);
    assert_eq!(run("2.5 / 0"), zero);
    assert_eq!(run("1 / 0.0"), zero);
    assert_eq!(run("0 / 0"), zero);
}

#[test]
fn undefined_name_fails() {
    assert_eq!(
        run("n"),
        Err(InterpretError::Eval(EvalError::UndefinedVariable(chars("n"))))
    );
    assert_eq!(
        run("1 + missing"),
        Err(InterpretError::Eval(EvalError::UndefinedVariable(chars("missing"))))
    );
}

#[test]
fn chained_assignment_binds_both() {
    let mut state = State::new();
    assert_eq!(interpret("a = b = 5", &mut state), Ok(ValueKind::Integer(5)));
    assert_eq!(state.get_var(&chars("a")), Some(ValueKind::Integer(5)));
    assert_eq!(state.get_var(&chars("b")), Some(ValueKind::Integer(5)));
    assert_eq!(interpret("a + b", &mut state), Ok(ValueKind::Integer(10)));
}

#[test]
fn reassignment_overwrites() {
    let mut state = State::new();
    assert_eq!(interpret("x = 1", &mut state), Ok(ValueKind::Integer(1)));
    assert_eq!(interpret("x = x + 41", &mut state), Ok(ValueKind::Integer(42)));
    assert_eq!(state.get_var(&chars("x")), Some(ValueKind::Integer(42)));
    assert_eq!(state.variable_count(), 2);
}

#[test]
fn mixed_operands_promote_to_decimal() {
    assert_eq!(run_decimal("1 + 2.5"), 3.5);
    assert_eq!(run_decimal("2.5 + 1"), 3.5);
    assert_eq!(run_decimal("0.1 + 0.2"), 0.1 + 0.2);
    assert_eq!(run_decimal("3 * 1.5"), 4.5);
}

#[test]
fn subtraction_groups_right() {
    assert_eq!(run("10 - 3 - 2"), Ok(ValueKind::Integer(9)));
    assert_eq!(run("1 - 2 - 3"), Ok(ValueKind::Integer(2)));
}

#[test]
fn parentheses_keep_the_value() {
    for e in ["10 - 3 - 2", "7 / 2", "2 * 3 + 4", "-5 * 2", "1 + 2.5"] {
        let plain = run(e);
        let wrapped = run(&format!("({})", e));
        assert_eq!(plain, wrapped);
    }
    assert_eq!(run("(10 - 3) - 2"), Ok(ValueKind::Integer(5)));
}

#[test]
fn unary_minus_negates() {
    assert_eq!(run("-5 * 2"), Ok(ValueKind::Integer(-10)));
    assert_eq!(run("+5"), Ok(ValueKind::Integer(5)));
}

#[test]
fn missing_paren_is_a_parse_error() {
    assert_eq!(
        run("(1 + 2"),
        Err(InterpretError::Parse(ParseError::MissingRparen { found: None, position: 4 }))
    );
}

#[test]
fn trailing_tokens_are_a_parse_error() {
    assert_eq!(
        run("1 2"),
        Err(InterpretError::Parse(ParseError::TrailingTokens {
            found: TokenKind::Integer(2),
            position: 1
        }))
    );
}

#[test]
fn empty_input_is_a_parse_error() {
    assert_eq!(
        run(""),
        Err(InterpretError::Parse(ParseError::UnexpectedToken { found: None, position: 0 }))
    );
    assert_eq!(
        run("if"),
        Err(InterpretError::Parse(ParseError::UnexpectedToken {
            found: Some(TokenKind::If),
            position: 0
        }))
    );
}

#[test]
fn precedence_of_products() {
    assert_eq!(run("2 + 3 * 4"), Ok(ValueKind::Integer(14)));
    assert_eq!(run("(2 + 3) * 4"), Ok(ValueKind::Integer(20)));
}

#[test]
fn integer_overflow_is_reported() {
    assert_eq!(
        run("9223372036854775807 + 1"),
        Err(InterpretError::Eval(EvalError::Overflow))
    );
}

#[test]
fn arithmetic_on_strings_is_a_type_mismatch() {
    assert_eq!(run("\"a\" + 1"), Err(InterpretError::Eval(EvalError::TypeMismatch)));
    assert_eq!(run("1 * \"a\""), Err(InterpretError::Eval(EvalError::TypeMismatch)));
}

#[test]
fn assigning_to_a_number_fails() {
    assert_eq!(
        run("1 = 2"),
        Err(InterpretError::Eval(EvalError::AssignToNonIdentifier))
    );
}

#[test]
fn strings_evaluate_to_themselves() {
    assert_eq!(run("\"hi there\""), Ok(ValueKind::Str(chars("hi there"))));
    let mut state = State::new();
    assert_eq!(interpret("s = \"x\"", &mut state), Ok(ValueKind::Str(chars("x"))));
    assert_eq!(interpret("s", &mut state), Ok(ValueKind::Str(chars("x"))));
}

#[test]
fn null_is_seeded() {
    assert_eq!(run("NULL"), Ok(ValueKind::Integer(0)));
    let state = State::new();
    assert_eq!(state.variable_count(), 1);
    let (name, value) = state.variable(0);
    assert_eq!(name, &chars("NULL"));
    assert_eq!(value, &ValueKind::Integer(0));
}

#[test]
fn lexer_reads_operators_and_keywords() {
    assert_eq!(
        lex("a == b != !c < > . if while true false\n"),
        Ok(vec![
            TokenKind::Identifier(chars("a")),
            TokenKind::IsEquals,
            TokenKind::Identifier(chars("b")),
            TokenKind::NotEquals,
            TokenKind::Not,
            TokenKind::Identifier(chars("c")),
            TokenKind::Less,
            TokenKind::Greater,
            TokenKind::Dot,
            TokenKind::If,
            TokenKind::While,
            TokenKind::Boolean(true),
            TokenKind::Boolean(false),
            TokenKind::NewLine,
        ])
    );
}

#[test]
fn lexer_reads_numbers() {
    assert_eq!(
        lex("12 3.25 1.2.3"),
        Ok(vec![
            TokenKind::Integer(12),
            TokenKind::Decimal(chars("3.25")),
            TokenKind::Decimal(chars("1.2")),
            TokenKind::Dot,
            TokenKind::Integer(3),
        ])
    );
    assert_eq!(lex("99999999999999999999"), Err(LexError::NumberFormat));
    assert_eq!(
        lex("9223372036854775807"),
        Ok(vec![TokenKind::Integer(i64::MAX)])
    );
}

#[test]
fn lexer_skips_comments_and_blanks() {
    assert_eq!(
        lex("  1 // note\n\t/* block */ + 2 /* open"),
        Ok(vec![TokenKind::Integer(1), TokenKind::Plus, TokenKind::Integer(2)])
    );
}

#[test]
fn lexer_errors() {
    assert_eq!(lex("\"abc"), Err(LexError::UnterminatedString));
    assert_eq!(lex("1 # 2"), Err(LexError::UnexpectedChar('#')));
    assert_eq!(
        lex("\"a b\""),
        Ok(vec![TokenKind::QuotedString(chars("a b"))])
    );
}

#[test]
fn lexer_reads_unicode_words() {
    assert_eq!(
        lex("été_2 _x"),
        Ok(vec![
            TokenKind::Identifier(chars("été_2")),
            TokenKind::Identifier(chars("_x")),
        ])
    );
    assert_eq!(lex("\u{3000}7"), Ok(vec![TokenKind::Integer(7)]));
}

#[test]
fn parser_builds_right_leaning_trees() {
    let tree = parse("1 - 2 - 3").unwrap();
    assert_eq!(tree.entry, TokenKind::Minus);
    assert_eq!(tree.children.len(), 2);
    assert_eq!(tree.children[0].entry, TokenKind::Integer(1));
    assert_eq!(tree.children[1].entry, TokenKind::Minus);
    assert_eq!(tree.children[1].children[0].entry, TokenKind::Integer(2));
    assert_eq!(tree.children[1].children[1].entry, TokenKind::Integer(3));
}

#[test]
fn parser_desugars_unary_operators() {
    let tree = parse("-x").unwrap();
    assert_eq!(tree.entry, TokenKind::Minus);
    assert_eq!(tree.children[0].entry, TokenKind::Integer(0));
    assert_eq!(tree.children[1].entry, TokenKind::Identifier(chars("x")));
}

#[test]
fn unary_node_with_minus_negates() {
    let mut state = State::new();
    let node = Node {
        children: vec![Node { children: vec![], entry: TokenKind::Integer(4) }],
        entry: TokenKind::Minus,
    };
    assert_eq!(visit_node(&node, &mut state), Ok(ValueKind::Integer(-4)));
    let plus = Node {
        children: vec![Node { children: vec![], entry: TokenKind::Integer(4) }],
        entry: TokenKind::Plus,
    };
    assert_eq!(visit_node(&plus, &mut state), Ok(ValueKind::Integer(4)));
}

#[test]
fn malformed_nodes_fail() {
    let mut state = State::new();
    let leaf = || Node { children: vec![], entry: TokenKind::Integer(1) };
    let three = Node { children: vec![leaf(), leaf(), leaf()], entry: TokenKind::Plus };
    assert_eq!(
        visit_node(&three, &mut state),
        Err(EvalError::MalformedNode)
    );
    let not_op = Node { children: vec![leaf()], entry: TokenKind::Dot };
    assert_eq!(
        visit_node(&not_op, &mut state),
        Err(EvalError::UnexpectedNode)
    );
    let neq = Node { children: vec![leaf(), leaf()], entry: TokenKind::NotEquals };
    assert_eq!(
        visit_node(&neq, &mut state),
        Err(EvalError::UnexpectedOperation)
    );
    let eq = Node { children: vec![leaf(), leaf()], entry: TokenKind::IsEquals };
    assert_eq!(
        visit_node(&eq, &mut state),
        Ok(ValueKind::Boolean(true))
    );
}

#[test]
fn divide_integers_rounds_toward_zero_only_when_exact() {
    assert_eq!(divide_integers(-9, 3), Ok(ValueKind::Integer(-3)));
    assert_eq!(divide_integers(9, -3), Ok(ValueKind::Integer(-3)));
    assert_eq!(divide_integers(i64::MIN, -1), Err(EvalError::Overflow));
    assert_eq!(divide_integers(i64::MIN, 1), Ok(ValueKind::Integer(i64::MIN)));
    assert_eq!(
        divide_integers(-7, 2),
        Ok(ValueKind::Decimal(Dec::Div(
            Box::new(Dec::FromInteger(-7)),
            Box::new(Dec::FromInteger(2))
        )))
    );
}

#[test]
fn stack_respects_its_capacity() {
    let mut s: Stack<u32> = Stack::with_capacity(2);
    assert_eq!(s.peek(), None);
    assert!(s.push(1));
    assert!(s.push(2));
    assert!(!s.push(3));
    assert_eq!(s.size(), 2);
    assert_eq!(s.peek(), Some(&2));
    assert_eq!(s.pop(), Some(2));
    assert_eq!(s.pop(), Some(1));
    assert_eq!(s.pop(), None);
    assert_eq!(s.size(), 0);
}

#[test]
fn state_stack_operations() {
    let mut state = State::new();
    assert_eq!(state.size_stack(), 0);
    state.push_stack(ValueKind::Integer(3));
    assert_eq!(state.peek_stack(), Some(&ValueKind::Integer(3)));
    state.pop_stack();
    assert_eq!(state.size_stack(), 0);
    state.pop_stack();
    assert_eq!(state.size_stack(), 0);
}
