use allay::ast::{
    AddSub, AddSubOp, And, BlockShortCode, Command, Comparison, Control, Expression, Field, File,
    ForCommand, GetField, IfCommand, MulDiv, MulDivOp, Or, Primary, SetCommand, ShortCode,
    SingleShortCode, Substitution, Template, TopLevel, Unary,
};
use allay::error::CompileError;
use allay::parser::parse_template;

#[test]
fn test_parse_only_text() {
    let source = "This is a simple text.";
    let ast = parse_template(source);
    assert!(ast.is_ok());
    let ast = ast.unwrap();

    assert_eq!(
        ast,
        File(Template {
            controls: vec![Control::Text(source.to_string())],
        })
    )
}

#[test]
fn test_single_short_code() {
    let source = "This is a simple text. {< my_shortcode />}";
    let ast = parse_template(source);
    assert!(ast.is_ok());
    let ast = ast.unwrap();

    assert_eq!(
        ast,
        File(Template {
            controls: vec![
                Control::Text("This is a simple text.".to_string()),
                Control::ShortCode(ShortCode::Single(SingleShortCode {
                    name: "my_shortcode".to_string(),
                    parameters: vec![],
                })),
            ],
        })
    );
}

#[test]
fn test_block_short_code() {
    let source = "This is a simple text. {< my_shortcode >}Inner content{</ my_shortcode >}";
    let ast = parse_template(source);
    assert!(ast.is_ok());
    let ast = ast.unwrap();

    assert_eq!(
        ast,
        File(Template {
            controls: vec![
                Control::Text("This is a simple text.".to_string()),
                Control::ShortCode(ShortCode::Block(BlockShortCode {
                    name: "my_shortcode".to_string(),
                    parameters: vec![],
                    inner: Template {
                        controls: vec![Control::Text("Inner content".to_string()),],
                    },
                })),
            ],
        })
    );
}

#[test]
fn test_block_short_code_inconsistent() {
    let source = "{< my_shortcode >}Inner content{</ another_shortcode >}";
    let ast = parse_template(source);
    assert!(ast.is_err());

    let err = ast.err().unwrap();
    match err {
        CompileError::ShortCodeInconsistent(name) => {
            assert_eq!(name, "my_shortcode".to_string());
        }
        _ => panic!("Expected ShortCodeInconsistent error"),
    }
}

#[test]
fn test_set_command() {
    let source = "{- set $my_var = 42 -}";
    let ast = parse_template(source);
    assert!(ast.is_ok());
    let ast = ast.unwrap();

    assert_eq!(
        ast,
        File(Template {
            controls: vec![Control::Command(Command::SetVar(SetCommand {
                name: "my_var".to_string(),
                value: Expression(Or(vec![And(vec![Comparison {
                    left: AddSub {
                        left: MulDiv {
                            left: Unary::Primary(Primary::Number(42)),
                            rights: vec![],
                        },
                        rights: vec![],
                    },
                    right: None,
                }])]))
            })),],
        })
    );
}

#[test]
fn test_for_command() {
    let source = "{- for $item, $index : .ref -}Inner Text{- end -}";
    let ast = parse_template(source);
    assert!(ast.is_ok());
    let ast = ast.unwrap();

    assert_eq!(
        ast,
        File(Template {
            controls: vec![Control::Command(Command::For(ForCommand {
                item_name: "item".to_string(),
                index_name: Some("index".to_string()),
                list: Expression(Or(vec![And(vec![Comparison {
                    left: AddSub {
                        left: MulDiv {
                            left: Unary::Primary(Primary::Field(Field {
                                top_level: None,
                                parts: vec![GetField::Name("ref".to_string())],
                            })),
                            rights: vec![],
                        },
                        rights: vec![],
                    },
                    right: None,
                }])])),
                inner: Template {
                    controls: vec![Control::Text("Inner Text".to_string())],
                },
            }))],
        })
    );
}

#[test]
fn test_if_command_with_else() {
    let source = "{- if #t -}It's true!{- else -}It's false!{- end -}";
    let ast = parse_template(source);
    assert!(ast.is_ok());
    let ast = ast.unwrap();

    assert_eq!(
        ast,
        File(Template {
            controls: vec![Control::Command(Command::If(IfCommand {
                condition: Expression(Or(vec![And(vec![Comparison {
                    left: AddSub {
                        left: MulDiv {
                            left: Unary::Primary(Primary::Boolean(true)),
                            rights: vec![],
                        },
                        rights: vec![],
                    },
                    right: None,
                }])])),
                inner: Template {
                    controls: vec![Control::Text("It's true!".to_string())],
                },
                else_inner: Some(Template {
                    controls: vec![Control::Text("It's false!".to_string())],
                }),
            }))],
        })
    );
}

#[test]
fn test_substitution() {
    let source = "Value: {:$my_var.my_field + 1:}, Expression: {:(1 + 2) * 3:}";
    let ast = parse_template(source);
    assert!(ast.is_ok());
    let ast = ast.unwrap();

    assert_eq!(
        ast,
        File(Template {
            controls: vec![
                Control::Text("Value:".to_string()),
                Control::Substitution(Substitution {
                    expr: Expression(Or(vec![And(vec![Comparison {
                        left: AddSub {
                            left: MulDiv {
                                left: Unary::Primary(Primary::Field(Field {
                                    top_level: Some(TopLevel::Variable("my_var".to_string())),
                                    parts: vec![GetField::Name("my_field".to_string())],
                                })),
                                rights: vec![],
                            },
                            rights: vec![(
                                AddSubOp::Add,
                                MulDiv {
                                    left: Unary::Primary(Primary::Number(1)),
                                    rights: vec![],
                                },
                            )],
                        },
                        right: None,
                    }])])),
                }),
                Control::Text(", Expression:".to_string()),
                Control::Substitution(Substitution {
                    expr: Expression(Or(vec![And(vec![Comparison {
                        left: AddSub {
                            left: MulDiv {
                                left: Unary::Primary(Primary::Expression(Expression(Or(
                                    vec![And(vec![Comparison {
                                        left: AddSub {
                                            left: MulDiv {
                                                left: Unary::Primary(Primary::Number(1)),
                                                rights: vec![],
                                            },
                                            rights: vec![(
                                                AddSubOp::Add,
                                                MulDiv {
                                                    left: Unary::Primary(Primary::Number(2)),
                                                    rights: vec![],
                                                }
                                            )],
                                        },
                                        right: None,
                                    }])]
                                )))),
                                rights: vec![(
                                    MulDivOp::Multiply,
                                    Unary::Primary(Primary::Number(3)),
                                )],
                            },
                            rights: vec![],
                        },
                        right: None,
                    }])])),
                }),
            ],
        })
    );
}
