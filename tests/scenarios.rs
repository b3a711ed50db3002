use trinity::ast::AstNode;
use trinity::expression::parse_expression_from_string;
use trinity::name::MatrixName;
use trinity::value::{divide_kind, multiply_kind, power_plan, transpose_kind, EvaluationError, Kind, PowerPlan};

fn num(s: &str) -> AstNode {
    AstNode::Number(s.to_string())
}

fn b(a: AstNode) -> Box<AstNode> {
    Box::new(a)
}

fn anon2(es: [&str; 4]) -> AstNode {
    AstNode::Anonymous2dMatrix(es.map(|e| e.to_string()))
}

#[test]
fn a_lone_number_parses_to_a_number() {
    assert_eq!(parse_expression_from_string("10"), Ok(num("10")));
}

#[test]
fn scalar_products_parse_and_type_check() {
    assert_eq!(
        parse_expression_from_string("3.2 * 5"),
        Ok(AstNode::Multiply { left: b(num("3.2")), right: b(num("5")) })
    );
    assert_eq!(multiply_kind(Kind::Number, Kind::Number), Ok(Kind::Number));

    assert_eq!(
        parse_expression_from_string("3 * [2 -2.2; 1.5 10]"),
        Ok(AstNode::Multiply { left: b(num("3")), right: b(anon2(["2", "-2.2", "1.5", "10"])) })
    );
    assert_eq!(multiply_kind(Kind::Number, Kind::Matrix2), Ok(Kind::Matrix2));
}

#[test]
fn a_bracketed_power_parses_as_an_expression() {
    assert_eq!(
        parse_expression_from_string("[1 2; 3 2] ^ (1 + 2)"),
        Ok(AstNode::Exponent {
            base: b(anon2(["1", "2", "3", "2"])),
            power: b(AstNode::Add { left: b(num("1")), right: b(num("2")) })
        })
    );
    assert_eq!(
        power_plan(Kind::Matrix2, Kind::Number, Some((3, false))),
        Ok(PowerPlan::MatrixPower { steps: 3, invert: false })
    );
}

#[test]
fn a_rotation_parses_with_its_degrees() {
    assert_eq!(
        parse_expression_from_string("rot(45)"),
        Ok(AstNode::RotationMatrix { degrees: "45".to_string() })
    );
}

#[test]
fn power_t_is_a_transposition_and_reads_no_name() {
    let ast = parse_expression_from_string("[1 2; 3 4] ^ T").unwrap();
    assert_eq!(
        ast,
        AstNode::Exponent {
            base: b(anon2(["1", "2", "3", "4"])),
            power: b(AstNode::NamedMatrix(MatrixName::new("T")))
        }
    );
    assert_eq!(ast.named_matrices(), Vec::<MatrixName>::new());
    assert_eq!(transpose_kind(Kind::Matrix2), Ok(Kind::Matrix2));
}

#[test]
fn a_fractional_power_of_a_matrix_is_refused() {
    assert_eq!(
        parse_expression_from_string("[1 0; 0 1] ^ 1.5"),
        Ok(AstNode::Exponent { base: b(anon2(["1", "0", "0", "1"])), power: b(num("1.5")) })
    );
    assert_eq!(
        power_plan(Kind::Matrix2, Kind::Number, None),
        Err(EvaluationError::CannotRaiseMatrixToNonInteger)
    );
}

#[test]
fn a_negative_power_asks_for_an_inverse() {
    assert_eq!(
        parse_expression_from_string("[0 0; 0 0] ^ -1"),
        Ok(AstNode::Exponent {
            base: b(anon2(["0", "0", "0", "0"])),
            power: b(AstNode::Negate(b(num("1"))))
        })
    );
    assert_eq!(
        power_plan(Kind::Matrix2, Kind::Number, Some((1, true))),
        Ok(PowerPlan::MatrixPower { steps: 1, invert: true })
    );
}

#[test]
fn dividing_by_a_matrix_is_refused() {
    assert_eq!(
        parse_expression_from_string("2 / [1 2; 3 4]"),
        Ok(AstNode::Divide { left: b(num("2")), right: b(anon2(["1", "2", "3", "4"])) })
    );
    assert_eq!(divide_kind(Kind::Number, Kind::Matrix2), Err(EvaluationError::CannotDivideByMatrix));
}

#[test]
fn pretty_printing_parenthesises_inner_binary_nodes() {
    let ast = AstNode::Multiply {
        left: b(AstNode::NamedMatrix(MatrixName::new("M"))),
        right: b(AstNode::Add { left: b(num("1")), right: b(num("2")) }),
    };
    assert_eq!(ast.to_expression_string(), "M * (1 + 2)");
}
