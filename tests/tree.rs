use trinity::ast::AstNode;
use trinity::evaluation::Step;
use trinity::expression::parse_expression_from_string;
use trinity::name::MatrixName;

fn num(s: &str) -> AstNode {
    AstNode::Number(s.to_string())
}

fn named(s: &str) -> AstNode {
    AstNode::NamedMatrix(MatrixName::new(s))
}

fn b(a: AstNode) -> Box<AstNode> {
    Box::new(a)
}

fn entries<const N: usize>(es: [&str; N]) -> [String; N] {
    es.map(|e| e.to_string())
}

#[test]
fn ast_node_to_expression_string() {
    assert_eq!(
        AstNode::to_expression_string(&AstNode::Multiply {
            left: b(named("M")),
            right: b(AstNode::Add { left: b(num("1")), right: b(num("2")) })
        }),
        "M * (1 + 2)"
    );

    assert_eq!(
        AstNode::to_expression_string(&AstNode::Exponent { base: b(named("M")), power: b(num("2")) }),
        "M ^ {2}"
    );

    assert_eq!(
        AstNode::to_expression_string(&AstNode::Exponent {
            base: b(AstNode::RotationMatrix { degrees: "45".to_string() }),
            power: b(AstNode::Add {
                left: b(AstNode::Multiply { left: b(num("0")), right: b(named("X")) }),
                right: b(num("1"))
            })
        }),
        "rot(45) ^ {(0 * X) + 1}"
    );

    assert_eq!(
        AstNode::to_expression_string(&AstNode::Multiply {
            left: b(AstNode::Exponent {
                base: b(AstNode::Anonymous2dMatrix(entries(["1", "0", "0", "1"]))),
                power: b(AstNode::Negate(b(num("1"))))
            }),
            right: b(AstNode::Anonymous3dMatrix(entries(["1", "0", "0", "0", "1", "0", "0", "0", "1"])))
        }),
        "([1 0; 0 1] ^ {-1}) * [1 0 0; 0 1 0; 0 0 1]"
    );

    assert_eq!(
        AstNode::to_expression_string(&AstNode::Anonymous3dMatrix(entries([
            "1", "2", "3", "5", "3", "1", "-3", "4", "2"
        ]))),
        "[1 2 3; 5 3 1; -3 4 2]"
    );

    assert_eq!(
        AstNode::to_expression_string(&AstNode::Add {
            left: b(AstNode::Multiply {
                left: b(AstNode::Divide { left: b(num("2")), right: b(num("3")) }),
                right: b(named("M"))
            }),
            right: b(AstNode::Divide { left: b(named("X")), right: b(num("4")) })
        }),
        "((2 / 3) * M) + (X / 4)"
    );

    assert_eq!(
        AstNode::to_expression_string(&AstNode::Divide {
            left: b(num("1")),
            right: b(AstNode::Add { left: b(num("1")), right: b(num("1")) })
        }),
        "1 / (1 + 1)"
    );

    assert_eq!(AstNode::to_expression_string(&AstNode::Negate(b(named("M")))), "-M");

    assert_eq!(
        AstNode::to_expression_string(&AstNode::Add {
            left: b(num("2")),
            right: b(AstNode::Negate(b(num("3"))))
        }),
        "2 + (-3)"
    );
}

#[test]
fn ast_node_named_matrices() {
    assert_eq!(AstNode::named_matrices(&num("1")), vec![]);

    assert_eq!(
        AstNode::named_matrices(&AstNode::Add {
            left: b(named("A")),
            right: b(AstNode::Multiply {
                left: b(AstNode::Exponent {
                    base: b(AstNode::Anonymous2dMatrix(entries(["1", "0", "0", "1"]))),
                    power: b(named("T"))
                }),
                right: b(AstNode::Negate(b(AstNode::Anonymous3dMatrix(entries([
                    "1", "0", "0", "0", "1", "0", "0", "0", "1"
                ])))))
            })
        }),
        vec![MatrixName::new("A")]
    );

    assert_eq!(
        AstNode::named_matrices(&AstNode::Add { left: b(named("T")), right: b(named("A")) }),
        vec![MatrixName::new("T"), MatrixName::new("A")]
    );

    assert_eq!(
        AstNode::named_matrices(&AstNode::Exponent { base: b(named("M")), power: b(named("N")) }),
        vec![MatrixName::new("M"), MatrixName::new("N")]
    );
}

#[test]
fn pretty_print_then_parse_gives_the_tree_back() {
    let trees = vec![
        AstNode::Multiply {
            left: b(named("M")),
            right: b(AstNode::Add { left: b(num("1")), right: b(num("2")) }),
        },
        AstNode::Exponent {
            base: b(AstNode::RotationMatrix { degrees: "45".to_string() }),
            power: b(AstNode::Add {
                left: b(AstNode::Multiply { left: b(num("0")), right: b(named("X")) }),
                right: b(num("1")),
            }),
        },
        AstNode::Negate(b(AstNode::Divide {
            left: b(AstNode::Anonymous2dMatrix(entries(["1", "2.5", "3", "4"]))),
            right: b(AstNode::Negate(b(named("Abc")))),
        })),
        AstNode::Exponent { base: b(named("B")), power: b(named("T")) },
        AstNode::Anonymous3dMatrix(entries(["1", "2", "3", "5", "3", "1", "-3", "4", "2"])),
        AstNode::Add {
            left: b(AstNode::Anonymous2dMatrix(entries(["-1", ".5", "2e3", "-0.25"]))),
            right: b(AstNode::Negate(b(AstNode::RotationMatrix { degrees: "90".to_string() }))),
        },
    ];
    for tree in trees {
        let text = tree.to_expression_string();
        assert_eq!(parse_expression_from_string(&text), Ok(tree), "{text}");
    }
}

#[test]
fn evaluation_steps_are_postfix_and_skip_the_transpose_name() {
    let ast = parse_expression_from_string("A + B ^ T * M ^ 2").unwrap();
    assert_eq!(
        ast.evaluation_steps(),
        vec![
            Step::Lookup(MatrixName::new("A")),
            Step::Lookup(MatrixName::new("B")),
            Step::Transpose,
            Step::Lookup(MatrixName::new("M")),
            Step::PushNumber("2".to_string()),
            Step::Power,
            Step::Multiply,
            Step::Add,
        ]
    );
    let ast = parse_expression_from_string("-(rot(30) / [1 0; 0 1])").unwrap();
    assert_eq!(
        ast.evaluation_steps(),
        vec![
            Step::PushRotation("30".to_string()),
            Step::Push2(entries(["1", "0", "0", "1"])),
            Step::Divide,
            Step::Negate,
        ]
    );
}
