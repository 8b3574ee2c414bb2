use minescript::command::{Command, Coordinate, ExecuteOption};
use minescript::decimal::{farey_approximation, Decimal};
use minescript::interpreter::test_interpret;
use minescript::lexer::tokenize;
use minescript::nbt::Nbt;
use minescript::parser::parse;
use minescript::strmap::StrMap;
use minescript::syntax::{BlockType, Operation, Selector, Syntax};
use minescript::token::Token;

fn ident(s: &str) -> Syntax {
    Syntax::Identifier(s.to_string())
}

fn binop(lhs: Syntax, operation: Operation, rhs: Syntax) -> Syntax {
    Syntax::BinaryOp { lhs: Box::new(lhs), operation, rhs: Box::new(rhs) }
}

#[test]
fn lexer_literals() {
    assert_eq!(tokenize("-20.02"), Ok(vec![Token::Tack, Token::Float(Decimal::normalized(2002, 2))]));
    assert_eq!(
        tokenize("0-lol -0"),
        Ok(vec![
            Token::Integer(0),
            Token::Tack,
            Token::Identifier(String::from("lol")),
            Token::Tack,
            Token::Integer(0)
        ])
    );
}

#[test]
fn lexer_for_loop() {
    assert_eq!(tokenize("1..10"), Ok(vec![Token::Range(Some(1), Some(10))]));
    assert_eq!(
        tokenize("for x in 1..10 {@function \"tick\"}"),
        Ok(vec![
            Token::Identifier("for".into()),
            Token::Identifier("x".into()),
            Token::Identifier("in".into()),
            Token::Range(Some(1), Some(10)),
            Token::LCurly,
            Token::At,
            Token::Identifier("function".into()),
            Token::String("tick".into()),
            Token::RCurly
        ])
    );
}

#[test]
fn lexer_get_xp() {
    assert_eq!(
        tokenize("@s::level += 1"),
        Ok(vec![
            Token::At,
            Token::Identifier("s".into()),
            Token::DoubleColon,
            Token::Identifier("level".into()),
            Token::PlusEq,
            Token::Integer(1)
        ])
    );
}

#[test]
fn parser_literals() {
    // -20
    assert_eq!(parse(vec![Token::Tack, Token::Integer(20)]), Ok(Syntax::Integer(-20)));
}

#[test]
fn parser_score_op() {
    // @a:x += 2
    assert_eq!(
        parse(vec![
            Token::At,
            Token::Identifier("a".into()),
            Token::Colon,
            Token::Identifier("x".into()),
            Token::PlusEq,
            Token::Integer(2)
        ]),
        Ok(binop(
            Syntax::SelectorColon(Selector::a(), "x".into()),
            Operation::AddEq,
            Syntax::Integer(2)
        ))
    );
}

#[test]
fn parser_in_range() {
    // x in 0..10
    assert_eq!(
        parse(vec![Token::Identifier("x".into()), Token::Identifier("in".into()), Token::Range(Some(0), Some(10))]),
        Ok(binop(ident("x"), Operation::In, Syntax::Range(Some(0), Some(10))))
    );
}

#[test]
fn parser_for_loop() {
    // for x in 0..10 {}
    assert_eq!(
        parse(vec![
            Token::Identifier("for".into()),
            Token::Identifier("x".into()),
            Token::Identifier("in".into()),
            Token::Range(Some(0), Some(10)),
            Token::LCurly,
            Token::RCurly
        ]),
        Ok(Syntax::Block(
            BlockType::For,
            Box::new(binop(ident("x"), Operation::In, Syntax::Range(Some(0), Some(10)))),
            Box::new(Syntax::Unit)
        ))
    );
}

#[test]
fn parser_coords() {
    // (^ ^2 ^1.5)
    assert_eq!(
        parse(vec![
            Token::LParen,
            Token::UCaret,
            Token::UCaret,
            Token::Integer(2),
            Token::UCaret,
            Token::Float(Decimal::normalized(15, 1)),
            Token::RParen,
        ]),
        Ok(Syntax::Array(vec![
            Syntax::CaretCoord(Decimal::from_int(0)),
            Syntax::CaretCoord(Decimal::from_int(2)),
            Syntax::CaretCoord(Decimal::normalized(15, 1))
        ]))
    );
    // (~ ~-2 ~1.05)
    assert_eq!(
        parse(vec![
            Token::LParen,
            Token::Woogly,
            Token::Woogly,
            Token::Tack,
            Token::Integer(2),
            Token::Woogly,
            Token::Float(Decimal::normalized(105, 2)),
            Token::RParen,
        ]),
        Ok(Syntax::Array(vec![
            Syntax::WooglyCoord(Decimal::from_int(0)),
            Syntax::WooglyCoord(Decimal::from_int(-2)),
            Syntax::WooglyCoord(Decimal::normalized(105, 2))
        ]))
    );
}

#[test]
fn parser_tp() {
    assert_eq!(
        parse(vec![
            Token::Identifier("as".into()),
            Token::At,
            Token::Identifier("s".into()),
            Token::LCurly,
            Token::RCurly
        ]),
        Ok(Syntax::Block(BlockType::As, Box::new(Syntax::Selector(Selector::s())), Box::new(Syntax::Unit)))
    );
}

#[test]
fn parser_xp_op() {
    assert_eq!(
        parse(vec![
            Token::At,
            Token::Identifier("s".into()),
            Token::DoubleColon,
            Token::Identifier("level".into()),
            Token::PlusEq,
            Token::Integer(1)
        ]),
        Ok(binop(
            Syntax::SelectorDoubleColon(Selector::s(), "level".into()),
            Operation::AddEq,
            Syntax::Integer(1)
        ))
    );
}

#[test]
fn parser_do_until() {
    assert_eq!(
        parse(vec![
            Token::Identifier("do".into()),
            Token::Identifier("until".into()),
            Token::Identifier("x".into()),
            Token::Equal,
            Token::Integer(10),
            Token::LCurly,
            Token::Identifier("x".into()),
            Token::PlusPlus,
            Token::RCurly
        ]),
        Ok(Syntax::Block(
            BlockType::DoUntil,
            Box::new(binop(ident("x"), Operation::Equal, Syntax::Integer(10))),
            Box::new(Syntax::Array(vec![binop(ident("x"), Operation::AddEq, Syntax::Integer(1))]))
        ))
    );
}

#[test]
fn interpreter_function() {
    assert_eq!(
        test_interpret(&Syntax::Annotation("function".into(), Box::new(Syntax::String("give/berry".into())))),
        Ok(vec![Command::Function("give/berry".into())])
    );
}

#[test]
fn interpreter_tp_s_up() {
    assert_eq!(
        test_interpret(&Syntax::Block(
            BlockType::AsAt,
            Box::new(Syntax::Selector(Selector::r())),
            Box::new(Syntax::Block(
                BlockType::Tp,
                Box::new(Syntax::Selector(Selector::s())),
                Box::new(Syntax::Array(vec![
                    Syntax::WooglyCoord(Decimal::from_int(0)),
                    Syntax::WooglyCoord(Decimal::from_int(10)),
                    Syntax::WooglyCoord(Decimal::from_int(0))
                ]))
            ))
        )),
        Ok(vec![Command::Execute {
            options: vec![ExecuteOption::As(Selector::r()), ExecuteOption::At(Selector::s())],
            cmd: Box::new(Command::Teleport {
                target: Selector::s(),
                destination: Coordinate::Linear(
                    true,
                    Decimal::from_int(0),
                    true,
                    Decimal::from_int(10),
                    true,
                    Decimal::from_int(0)
                )
            })
        }])
    );
}

#[test]
fn interpreter_as_s_if_score() {
    assert_eq!(
        test_interpret(&Syntax::Block(
            BlockType::As,
            Box::new(Syntax::Selector(Selector::r())),
            Box::new(Syntax::Block(
                BlockType::On,
                Box::new(ident("owner")),
                Box::new(Syntax::Block(
                    BlockType::If,
                    Box::new(binop(
                        Syntax::SelectorColon(Selector::s(), "count".into()),
                        Operation::RCaretEq,
                        Syntax::Integer(3)
                    )),
                    Box::new(Syntax::Annotation(
                        "function".into(),
                        Box::new(Syntax::String("give/my_item".into()))
                    ))
                ))
            ))
        )),
        Ok(vec![Command::Execute {
            options: vec![
                ExecuteOption::As(Selector::r()),
                ExecuteOption::On("owner".into()),
                ExecuteOption::IfScoreMatches {
                    invert: false,
                    target: "@s".into(),
                    objective: "count".into(),
                    lower: Some(3),
                    upper: None
                }
            ],
            cmd: Box::new(Command::Function("give/my_item".into()))
        }])
    );
}

#[test]
fn interpreter_tellraw() {
    // tellraw @a [{"text":"hello world","italic":true},{"text":"plain"}]
    let mut first = StrMap::new();
    first.insert("text".to_string(), Nbt::String("hello world".into()));
    first.insert("italic".to_string(), Nbt::Boolean(true));
    let mut second = StrMap::new();
    second.insert("text".to_string(), Nbt::String("plain".into()));
    assert_eq!(
        test_interpret(&Syntax::Block(
            BlockType::Tellraw,
            Box::new(Syntax::Selector(Selector::a())),
            Box::new(Syntax::Array(vec![
                Syntax::Array(vec![Syntax::String("hello world".into()), ident("italic")]),
                Syntax::String("plain".into())
            ]))
        )),
        Ok(vec![Command::TellRaw(
            Selector::a(),
            Nbt::Array(vec![Nbt::Object(first), Nbt::Object(second)]).to_json()
        )])
    );
}

#[test]
fn interpreter_xp_ops() {
    assert_eq!(
        test_interpret(&binop(
            Syntax::SelectorDoubleColon(Selector::s(), "level".into()),
            Operation::AddEq,
            Syntax::Integer(2)
        )),
        Ok(vec![Command::XpAdd { target: Selector::s(), amount: 2, levels: true }])
    );
    assert_eq!(
        test_interpret(&binop(
            ident("x"),
            Operation::MulEq,
            Syntax::SelectorDoubleColon(Selector::s(), "lvl".into())
        )),
        Ok(vec![
            Command::Execute {
                options: vec![ExecuteOption::StoreScore {
                    target: "%__xp__".into(),
                    objective: "dummy".into(),
                    is_success: false,
                }],
                cmd: Box::new(Command::XpGet { target: Selector::s(), levels: true })
            },
            Command::ScoreOperation {
                target: "%x".into(),
                target_objective: "dummy".into(),
                operation: Operation::MulEq,
                source: "%__xp__".into(),
                source_objective: "dummy".into()
            }
        ])
    );
}

#[test]
fn mod_rational_approximator() {
    assert_eq!(farey_approximation(5, 10, 10), (1, 2));
    assert_eq!(farey_approximation(25, 10, 10), (5, 2));
    assert_eq!(farey_approximation(2, 1, 10), (2, 1));
    assert_eq!(farey_approximation(1618, 1000, 10), (13, 8));
    assert_eq!(farey_approximation(1618, 1000, 100), (144, 89));
    // examples from https://www.johndcook.com/blog/2010/10/20/best-rational-approximation/
    assert_eq!(farey_approximation(367_879, 1_000_000, 10), (3, 8));
    assert_eq!(farey_approximation(367_879, 1_000_000, 100), (32, 87));
}

#[test]
fn farey_ties_take_the_smaller_denominator_then_numerator() {
    assert_eq!(farey_approximation(1, 4, 2), (0, 1));
    assert_eq!(farey_approximation(1, 2, 1), (0, 1));
    assert_eq!(farey_approximation(3, 4, 4), (3, 4));
}

#[test]
fn farey_without_denominators_rounds_up() {
    assert_eq!(farey_approximation(5, 2, 0), (3, 1));
    assert_eq!(farey_approximation(-5, 2, -4), (-2, 1));
    assert_eq!(farey_approximation(4, 2, 0), (2, 1));
}
