use calculator_parser::compile;
use calculator_parser::tokenize;
use calculator_parser::CalculationErrorKind;
use calculator_parser::Operator;
use calculator_parser::Program;
use calculator_parser::Token;

// Executes a compiled reduction program over 64-bit floats: parse each
// literal into its slot, apply each step in order, read the result slot.
fn run_program(program: &Program) -> f64 {
    let mut slots: Vec<f64> = Vec::new();
    for lit in &program.literals {
        let text: String = lit.iter().collect();
        slots.push(text.parse::<f64>().unwrap());
    }
    for step in &program.steps {
        let a = slots[step.lhs];
        let b = slots[step.rhs];
        slots.push(match step.op {
            Operator::Add => a + b,
            Operator::Subtract => a - b,
            Operator::Multiply => a * b,
            Operator::Divide => a / b,
            Operator::Exponent => f64::powf(a, b),
        });
    }
    slots[program.result]
}

fn run(input: &str) -> Result<f64, CalculationErrorKind> {
    match compile(input) {
        Ok(program) => Ok(run_program(&program)),
        Err(error) => Err(error.kind),
    }
}

#[test]
fn test_basic() {
    match run("2+2") {
        Ok(value) => assert_eq!(value, 4.0),
        Err(error) => panic!("unexpected error: {:?}", error),
    }
}

#[test]
fn test_all() {
    match run("2+7*4^2-5") {
        Ok(value) => assert_eq!(value, 109.0),
        Err(error) => panic!("unexpected error: {:?}", error),
    }
}

#[test]
fn test_decimal() {
    match run("2.1*2+5.35") {
        Ok(value) => assert_eq!(value, 9.55),
        Err(error) => panic!("unexpected error: {:?}", error),
    }
}

#[test]
fn test_invalid() {
    match run("invalid") {
        Ok(value) => panic!("Invalid character returned number: {}", value),
        Err(_) => {}
    }
}

#[test]
fn test_invalid_character_is_first_offender() {
    assert_eq!(run("invalid"), Err(CalculationErrorKind::InvalidCharacter('i')));
    assert_eq!(run("2+a*b"), Err(CalculationErrorKind::InvalidCharacter('a')));
}

#[test]
fn test_whitespace_tolerated() {
    assert_eq!(run(" 2 + 2 "), Ok(4.0));
}

#[test]
fn test_whitespace_joins_digits() {
    // whitespace is ignored outright, so split digits fuse into one number
    assert_eq!(run("1 2+3"), Ok(15.0));
}

#[test]
fn test_single_number() {
    assert_eq!(run("5"), Ok(5.0));
}

#[test]
fn test_division_left_to_right() {
    assert_eq!(run("8/4/2"), Ok(1.0));
}

#[test]
fn test_exponent_left_to_right() {
    assert_eq!(run("2^3^2"), Ok(64.0));
}

#[test]
fn test_fractional_exponent() {
    assert_eq!(run("4^0.5"), Ok(2.0));
}

#[test]
fn test_negative_result() {
    assert_eq!(run("2-5"), Ok(-3.0));
}

#[test]
fn test_decimal_forms() {
    assert_eq!(run("2."), Ok(2.0));
    assert_eq!(run(".5*2"), Ok(1.0));
}

#[test]
fn test_division_by_zero_is_infinite() {
    let value = run("1/0").unwrap();
    assert!(value.is_infinite() && value > 0.0);
}

#[test]
fn test_malformed_number_errors() {
    assert_eq!(run("+2"), Err(CalculationErrorKind::MalformedNumber));
    assert_eq!(run("2++3"), Err(CalculationErrorKind::MalformedNumber));
    assert_eq!(run("2..3*1"), Err(CalculationErrorKind::MalformedNumber));
    assert_eq!(run("."), Err(CalculationErrorKind::MalformedNumber));
}

#[test]
fn test_trailing_operator_error() {
    assert_eq!(run("2+"), Err(CalculationErrorKind::UnexpectedEndOfInput));
    assert_eq!(run("8/4/"), Err(CalculationErrorKind::UnexpectedEndOfInput));
}

#[test]
fn test_empty_expression_error() {
    assert_eq!(run(""), Err(CalculationErrorKind::EmptyExpression));
    assert_eq!(run("   "), Err(CalculationErrorKind::EmptyExpression));
}

#[test]
fn test_pure_same_input_same_output() {
    assert_eq!(run("2+7*4^2-5"), run("2+7*4^2-5"));
    assert_eq!(compile("2.1*2+5.35").unwrap(), compile("2.1*2+5.35").unwrap());
}

#[test]
fn test_tokenize_structure() {
    let (literals, tokens) = tokenize("12+3.5").unwrap();
    assert_eq!(literals, vec![vec!['1', '2'], vec!['3', '.', '5']]);
    assert_eq!(
        tokens,
        vec![Token::Number(0), Token::Operator(Operator::Add), Token::Number(1)]
    );
}

#[test]
fn test_compile_program_shape() {
    // 2+7*4^2-5: steps come out in tier order, operands by slot
    let program = compile("2+7*4^2-5").unwrap();
    assert_eq!(program.literals.len(), 5);
    assert_eq!(program.steps.len(), 4);
    // tier 1: 4^2 -> slot 5; tier 2: 7*(4^2) -> slot 6;
    // tier 3: 2+... -> slot 7, then ...-5 -> slot 8
    assert_eq!(program.steps[0].op, Operator::Exponent);
    assert_eq!((program.steps[0].lhs, program.steps[0].rhs), (2, 3));
    assert_eq!(program.steps[1].op, Operator::Multiply);
    assert_eq!((program.steps[1].lhs, program.steps[1].rhs), (1, 5));
    assert_eq!(program.steps[2].op, Operator::Add);
    assert_eq!((program.steps[2].lhs, program.steps[2].rhs), (0, 6));
    assert_eq!(program.steps[3].op, Operator::Subtract);
    assert_eq!((program.steps[3].lhs, program.steps[3].rhs), (7, 4));
    assert_eq!(program.result, 8);
}
