use calculator::interpreter::{compile, ArithmeticError, Instruction};
use calculator::lexer::{lex, LexError, Token};
use calculator::parser::{Node, Parser, SyntaxError};

/// Runs a compiled evaluation program over a stack of numbers, exactly
/// as the instruction documentation prescribes.  The stack never
/// underflows on a compiled program (the library proves that), so the
/// `expect`s play the role of an internal-invariant check.
fn execute(program: &[Instruction]) -> Result<f64, EvalError> {
    let mut stack: Vec<f64> = Vec::new();
    for instruction in program {
        match instruction {
            Instruction::PushNumber(text) => match text.parse::<f64>() {
                Ok(value) => stack.push(value),
                Err(e) => return Err(EvalError::Number(format!("Error parsing number: {}", e))),
            },
            Instruction::UnaryPlus => {
                let v = stack.pop().expect("stack underflow");
                stack.push(v);
            }
            Instruction::UnaryMinus => {
                let v = stack.pop().expect("stack underflow");
                stack.push(-v);
            }
            Instruction::SquareRoot => {
                let v = stack.pop().expect("stack underflow");
                stack.push(v.sqrt());
            }
            Instruction::Add => {
                let b = stack.pop().expect("stack underflow");
                let a = stack.pop().expect("stack underflow");
                stack.push(a + b);
            }
            Instruction::Subtract => {
                let b = stack.pop().expect("stack underflow");
                let a = stack.pop().expect("stack underflow");
                stack.push(a - b);
            }
            Instruction::Multiply => {
                let b = stack.pop().expect("stack underflow");
                let a = stack.pop().expect("stack underflow");
                stack.push(a * b);
            }
            Instruction::Power => {
                let b = stack.pop().expect("stack underflow");
                let a = stack.pop().expect("stack underflow");
                stack.push(a.powf(b));
            }
            Instruction::CheckDivisor => {
                let v = *stack.last().expect("stack underflow");
                if v == 0.0 {
                    return Err(EvalError::Arithmetic(ArithmeticError::DivisionByZero));
                }
            }
            Instruction::Divide => {
                let left = stack.pop().expect("stack underflow");
                let right = stack.pop().expect("stack underflow");
                stack.push(left / right);
            }
            Instruction::Modulo => {
                let left = stack.pop().expect("stack underflow");
                let right = stack.pop().expect("stack underflow");
                stack.push(left % right);
            }
        }
    }
    Ok(stack.pop().expect("stack underflow"))
}

#[derive(Debug)]
enum EvalError {
    Arithmetic(ArithmeticError),
    Number(String),
}

enum LineError {
    Lex(LexError),
    Syntax(SyntaxError),
    Eval(EvalError),
}

fn eval_line(text: &str) -> Result<Option<f64>, LineError> {
    let tokens = lex(text).map_err(LineError::Lex)?;
    let mut parser = Parser::new(&tokens);
    match parser.parse() {
        Ok(Some(node)) => match execute(&compile(&node)) {
            Ok(value) => Ok(Some(value)),
            Err(e) => Err(LineError::Eval(e)),
        },
        Ok(None) => Ok(None),
        Err(e) => Err(LineError::Syntax(e)),
    }
}

fn eval_value(text: &str) -> f64 {
    match eval_line(text) {
        Ok(Some(value)) => value,
        _ => panic!("expected {:?} to evaluate to a value", text),
    }
}

#[test]
fn lex_keeps_numeral_text() {
    // A line that is exactly one numeral lexes to one token carrying
    // the same text, so the value the numeral denotes is preserved.
    for s in ["0", "7", "42", "3.25", "10.5", "0.125", "1.", "987654321"] {
        let tokens = lex(s).unwrap();
        assert_eq!(tokens, vec![Token::Number(s.to_string())]);
        let rendered = match &tokens[0] {
            Token::Number(text) => text.parse::<f64>().unwrap(),
            _ => unreachable!(),
        };
        assert_eq!(rendered, s.parse::<f64>().unwrap());
    }
}

#[test]
fn lex_splits_tokens() {
    let tokens = lex("1+2*(3-4)").unwrap();
    assert_eq!(
        tokens,
        vec![
            Token::Number("1".to_string()),
            Token::Plus,
            Token::Number("2".to_string()),
            Token::Multiply,
            Token::LeftParenthesis,
            Token::Number("3".to_string()),
            Token::Minus,
            Token::Number("4".to_string()),
            Token::RightParenthesis,
        ]
    );
}

#[test]
fn lex_second_dot_ends_numeral() {
    // The character after the first dot ends the number when a dot
    // repeats; the stray dot then fails as an invalid character.
    assert_eq!(lex("1.2.3"), Err(LexError::InvalidCharacter('.')));
}

#[test]
fn lex_invalid_character() {
    assert_eq!(lex("2 $ 3"), Err(LexError::InvalidCharacter('$')));
}

#[test]
fn parenthesized_grouping_matches_reference() {
    // Fully parenthesized expressions over + - * / agree with the same
    // grouping written directly in the host language.
    assert_eq!(eval_value("((1.5 + 2.25) * (4 - 0.5)) / (2 + 2)"), ((1.5 + 2.25) * (4.0 - 0.5)) / (2.0 + 2.0));
    assert_eq!(eval_value("(10 - (4 / 8)) * (3 + 1)"), (10.0 - (4.0 / 8.0)) * (3.0 + 1.0));
    assert_eq!(eval_value("((7))"), 7.0);
}

#[test]
fn evaluation_is_idempotent() {
    // Evaluating the same tree twice yields the same result: there is
    // no hidden state anywhere in the pipeline.
    let tokens = lex("2 + 3 * 4 - 5 / 2").unwrap();
    let mut parser = Parser::new(&tokens);
    let node: Node = parser.parse().unwrap().unwrap();
    let first_program = compile(&node);
    let second_program = compile(&node);
    assert_eq!(first_program, second_program);
    assert_eq!(execute(&first_program).unwrap(), execute(&second_program).unwrap());
}

#[test]
fn precedence() {
    assert_eq!(eval_value("2 + 3 * 4"), 14.0);
    assert_eq!(eval_value("(2 + 3) * 4"), 20.0);
}

#[test]
fn power_is_left_associative() {
    assert_eq!(eval_value("2 ^ 3 ^ 2"), 64.0);
    assert_eq!(eval_value("2 ^ 10"), 1024.0);
}

#[test]
fn unary_stacking() {
    assert_eq!(eval_value("--5"), 5.0);
    assert_eq!(eval_value("-+5"), -5.0);
}

#[test]
fn square_root() {
    assert_eq!(eval_value("\u{221A}9"), 3.0);
    assert_eq!(eval_value("\u{221A}(16 + 9)"), 5.0);
    // Standard floating-point square-root semantics: a negative operand
    // yields not-a-number rather than an error.
    assert!(eval_value("\u{221A}-1").is_nan());
}

#[test]
fn division_and_modulo_by_zero() {
    assert!(matches!(
        eval_line("5 / 0"),
        Err(LineError::Eval(EvalError::Arithmetic(ArithmeticError::DivisionByZero)))
    ));
    assert!(matches!(
        eval_line("5 % 0"),
        Err(LineError::Eval(EvalError::Arithmetic(ArithmeticError::DivisionByZero)))
    ));
    assert_eq!(eval_value("0 / 5"), 0.0);
    assert_eq!(eval_value("7 % 3"), 1.0);
}

#[test]
fn zero_divisor_fails_before_left_operand() {
    // The divisor is evaluated and checked first; the compiled program
    // places the check directly after the divisor's instructions.
    let tokens = lex("1 / 0").unwrap();
    let mut parser = Parser::new(&tokens);
    let node = parser.parse().unwrap().unwrap();
    let program = compile(&node);
    assert_eq!(
        program,
        vec![
            Instruction::PushNumber("0".to_string()),
            Instruction::CheckDivisor,
            Instruction::PushNumber("1".to_string()),
            Instruction::Divide,
        ]
    );
}

#[test]
fn whitespace_insensitivity() {
    assert_eq!(eval_value("  2   +   3  "), 5.0);
    assert_eq!(eval_value("\t2+3\n"), 5.0);
}

#[test]
fn malformed_input() {
    assert!(matches!(
        eval_line("2 +"),
        Err(LineError::Syntax(SyntaxError::UnexpectedEnd))
    ));
    assert!(matches!(
        eval_line("2 3"),
        Err(LineError::Syntax(SyntaxError::TrailingTokens))
    ));
    assert!(matches!(
        eval_line("(2 + 3"),
        Err(LineError::Syntax(SyntaxError::ExpectedCloseParen))
    ));
    assert!(matches!(
        eval_line("2 * )"),
        Err(LineError::Syntax(SyntaxError::UnexpectedToken))
    ));
    assert!(matches!(
        eval_line("2 $ 3"),
        Err(LineError::Lex(LexError::InvalidCharacter('$')))
    ));
}

#[test]
fn empty_line_is_no_expression() {
    assert!(matches!(eval_line(""), Ok(None)));
    assert!(matches!(eval_line("   \t  "), Ok(None)));
}

#[test]
fn fractional_power() {
    assert_eq!(eval_value("9 ^ 0.5"), 3.0);
}

#[test]
fn left_associative_subtraction_and_division() {
    assert_eq!(eval_value("10 - 4 - 3"), 3.0);
    assert_eq!(eval_value("16 / 4 / 2"), 2.0);
}
