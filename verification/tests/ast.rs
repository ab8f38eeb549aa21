use monkey::ast::{Expression, Identifier, LetStatement, Program, Statement};
use monkey::ast_enum;
use monkey::token::{Token, TokenType, IDENT, LET};

#[test]
fn ast_test_display() {
    let program = Program {
        statements: vec![Statement::Let(LetStatement {
            token: Token {
                toke_type: TokenType::Let,
                literal: "let".to_string(),
            },
            name: Identifier {
                token: Token {
                    toke_type: TokenType::Ident,
                    literal: "myVar".to_string(),
                },
                value: "myVar".to_string(),
            },
            value: Expression::Identifier(Identifier {
                token: Token {
                    toke_type: TokenType::Ident,
                    literal: "anotherVar".to_string(),
                },
                value: "anotherVar".to_string(),
            }),
        })],
    };

    assert_eq!(program.string(), "let myVar = anotherVar;");
}

#[test]
fn ast_enum_test_display() {
    let program = ast_enum::Program {
        statements: vec![ast_enum::Statement::Let(ast_enum::LetStatement {
            token: Token {
                toke_type: LET,
                literal: "let".to_string(),
            },
            name: ast_enum::Identifier {
                token: Token {
                    toke_type: IDENT,
                    literal: "myVar".to_string(),
                },
                value: "myVar".to_string(),
            },
            value: Box::new(ast_enum::Expression::Identifier(ast_enum::Identifier {
                token: Token {
                    toke_type: IDENT,
                    literal: "anotherVar".to_string(),
                },
                value: "anotherVar".to_string(),
            })),
        })],
    };

    assert_eq!(program.string(), "let myVar = anotherVar;");
}
