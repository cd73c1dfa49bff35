use pratt::engine::PrattParser;
use pratt::engine::parse_peekable;
use pratt::error::PrattError;
use pratt::expr::BinOpKind::{Add, Div, Mul, Pow, Sub};
use pratt::expr::BinOpKind;
use pratt::expr::Expr::{BinOp, Int, UnOp};
use pratt::expr::Expr;
use pratt::expr::ExprParser;
use pratt::expr::UnOpKind::{Neg, Not, Try};
use pratt::expr::{lower, Atom, ExprError, UnOpKind};
use pratt::grammar::TokenTreeParser;
use pratt::precedence::{Associativity, Precedence};
use pratt::stream::Tokens;
use pratt::token_tree::TokenTree;

fn parse(input: &str) -> Expr {
    let tt = TokenTreeParser::new().parse(input).unwrap();
    ExprParser.parse(tt).unwrap()
}

#[test]
fn test1() {
    assert_eq!(
        parse("1=2=3"),
        BinOp(Box::new(Int(1)), BinOpKind::Eq, Box::new(Int(2)))
    );
}

#[test]
fn test2() {
    assert_eq!(
        parse("1*2+3"),
        BinOp(
            Box::new(BinOp(Box::new(Int(1)), Mul, Box::new(Int(2)))),
            Add,
            Box::new(Int(3))
        )
    );
}

#[test]
fn test3() {
    assert_eq!(
        parse("1*!2^3"),
        BinOp(
            Box::new(Int(1)),
            Mul,
            Box::new(UnOp(
                Not,
                Box::new(BinOp(Box::new(Int(2)), Pow, Box::new(Int(3))))
            ))
        )
    );
}

#[test]
fn test4() {
    assert_eq!(
        parse("-1?*!2^3+3/2?-1"),
        BinOp(
            Box::new(BinOp(
                Box::new(BinOp(
                    Box::new(UnOp(Try, Box::new(UnOp(Neg, Box::new(Int(1)))))),
                    Mul,
                    Box::new(UnOp(
                        Not,
                        Box::new(BinOp(Box::new(Int(2)), Pow, Box::new(Int(3))))
                    ))
                )),
                Add,
                Box::new(BinOp(
                    Box::new(Int(3)),
                    Div,
                    Box::new(UnOp(Try, Box::new(Int(2))))
                ))
            )),
            Sub,
            Box::new(Int(1))
        )
    );
}

fn num(n: i32) -> Box<Expr> {
    Box::new(Int(n))
}

#[test]
fn subtraction_nests_to_the_left() {
    assert_eq!(
        parse("1 - 2 - 3"),
        BinOp(Box::new(BinOp(num(1), Sub, num(2))), Sub, num(3))
    );
}

#[test]
fn power_nests_to_the_right() {
    assert_eq!(
        parse("2 ^ 3 ^ 2"),
        BinOp(num(2), Pow, Box::new(BinOp(num(3), Pow, num(2))))
    );
}

#[test]
fn equality_does_not_chain() {
    let tt = TokenTreeParser::new().parse("1 = 2 = 3").unwrap();
    let mut tokens = Tokens::new(lower(tt));
    let r = parse_peekable(&ExprParser, &mut tokens);
    assert_eq!(r, Ok(BinOp(num(1), BinOpKind::Eq, num(2))));
    assert_eq!(
        tokens.into_vec(),
        vec![Atom::Infix('='), Atom::Primary(3)]
    );
}

#[test]
fn prefix_binds_before_postfix() {
    assert_eq!(
        parse("-1?"),
        UnOp(Try, Box::new(UnOp(Neg, num(1))))
    );
}

#[test]
fn precedence_interleaving() {
    assert_eq!(
        parse("1 * ! 2 ^ 3"),
        BinOp(
            num(1),
            Mul,
            Box::new(UnOp(Not, Box::new(BinOp(num(2), Pow, num(3)))))
        )
    );
}

#[test]
fn every_operator_at_its_level() {
    assert_eq!(
        parse("1 = 2 + 3"),
        BinOp(num(1), BinOpKind::Eq, Box::new(BinOp(num(2), Add, num(3))))
    );
    assert_eq!(
        parse("1 + 2 * 3"),
        BinOp(num(1), Add, Box::new(BinOp(num(2), Mul, num(3))))
    );
    assert_eq!(
        parse("1 / 2 - 3"),
        BinOp(Box::new(BinOp(num(1), Div, num(2))), Sub, num(3))
    );
    assert_eq!(
        parse("1 * 2 ?"),
        BinOp(num(1), Mul, Box::new(UnOp(Try, num(2))))
    );
    assert_eq!(
        parse("1 ^ 2 ?"),
        UnOp(Try, Box::new(BinOp(num(1), Pow, num(2))))
    );
    assert_eq!(
        parse("- 1 ^ 2"),
        UnOp(Neg, Box::new(BinOp(num(1), Pow, num(2))))
    );
    assert_eq!(
        parse("- 1 * 2"),
        BinOp(Box::new(UnOp(Neg, num(1))), Mul, num(2))
    );
    assert_eq!(parse("! - 1"), UnOp(Not, Box::new(UnOp(Neg, num(1)))));
    assert_eq!(parse("1 ? ?"), UnOp(Try, Box::new(UnOp(Try, num(1)))));
}

#[test]
fn brackets_override_levels() {
    assert_eq!(
        parse("(1 + 2) * 3"),
        BinOp(Box::new(BinOp(num(1), Add, num(2))), Mul, num(3))
    );
    assert_eq!(
        parse("2 ^ (3 ^ 2)"),
        BinOp(num(2), Pow, Box::new(BinOp(num(3), Pow, num(2))))
    );
    assert_eq!(
        parse("(2 ^ 3) ^ 2"),
        BinOp(Box::new(BinOp(num(2), Pow, num(3))), Pow, num(2))
    );
    assert_eq!(
        parse("(1 = 2) = 3"),
        BinOp(
            Box::new(BinOp(num(1), BinOpKind::Eq, num(2))),
            BinOpKind::Eq,
            num(3)
        )
    );
    assert_eq!(parse("((7))"), Int(7));
    assert_eq!(parse("-(1?)"), UnOp(Neg, Box::new(UnOp(Try, num(1)))));
}

#[test]
fn a_group_parses_as_its_tokens_do() {
    let texts = ["1", "1+2", "1*!2^3", "-1?*!2^3+3/2?-1", "(1+2)*3", "1=2=3"];
    for text in texts {
        let inner = TokenTreeParser::new().parse(text).unwrap();
        let direct = ExprParser.parse(inner).unwrap();
        let inner = TokenTreeParser::new().parse(text).unwrap();
        let grouped = ExprParser.parse(vec![TokenTree::Group(inner)]).unwrap();
        assert_eq!(grouped, direct);
        assert_eq!(parse(&format!("({})", text)), direct);
    }
}

#[test]
fn empty_token_stream_is_empty_input() {
    assert_eq!(ExprParser.parse(Vec::new()), Err(PrattError::EmptyInput));
    assert_eq!(
        pratt::engine::parse(&ExprParser, Vec::new()),
        Err(PrattError::EmptyInput)
    );
}

#[test]
fn written_out_and_parsed_again() {
    let texts = [
        "1",
        "1=2",
        "1*2+3",
        "1*!2^3",
        "-1?*!2^3+3/2?-1",
        "2^3^2",
        "1-2-3",
        "((1))",
        "-(1?)",
    ];
    for text in texts {
        let tree = parse(text);
        let again = ExprParser.parse(tree.to_tokens()).unwrap();
        assert_eq!(again, tree);
    }
    let odd = BinOp(
        Box::new(UnOp(Try, num(-5))),
        BinOpKind::Eq,
        Box::new(BinOp(num(i32::MIN), BinOpKind::Eq, num(i32::MAX))),
    );
    assert_eq!(ExprParser.parse(odd.to_tokens()).as_ref(), Ok(&odd));
}

#[test]
fn written_out_with_every_operand_in_brackets() {
    let tree = parse("-1 + 2?");
    assert_eq!(
        tree.to_tokens(),
        vec![
            TokenTree::Group(vec![
                TokenTree::Prefix('-'),
                TokenTree::Group(vec![TokenTree::Primary(1)]),
            ]),
            TokenTree::Infix('+'),
            TokenTree::Group(vec![
                TokenTree::Group(vec![TokenTree::Primary(2)]),
                TokenTree::Postfix('?'),
            ]),
        ]
    );
    assert_eq!(Int(3).to_tokens(), vec![TokenTree::Primary(3)]);
}

#[test]
fn lowering_parses_the_groups() {
    let tt = vec![
        TokenTree::Prefix('!'),
        TokenTree::Group(vec![
            TokenTree::Primary(1),
            TokenTree::Infix('+'),
            TokenTree::Primary(2),
        ]),
        TokenTree::Postfix('?'),
        TokenTree::Infix('/'),
        TokenTree::Group(vec![]),
        TokenTree::Group(vec![TokenTree::Infix('+')]),
    ];
    assert_eq!(
        lower(tt),
        vec![
            Atom::Prefix('!'),
            Atom::Group(Ok(BinOp(num(1), Add, num(2)))),
            Atom::Postfix('?'),
            Atom::Infix('/'),
            Atom::Group(Err(ExprError::InvalidGroup)),
            Atom::Group(Err(ExprError::InvalidGroup)),
        ]
    );
}

#[test]
fn a_group_that_is_no_expression() {
    assert_eq!(
        ExprParser.parse(vec![TokenTree::Group(vec![])]),
        Err(PrattError::UserError(ExprError::InvalidGroup))
    );
    assert_eq!(
        ExprParser.parse(vec![
            TokenTree::Primary(1),
            TokenTree::Infix('+'),
            TokenTree::Group(vec![TokenTree::Postfix('?')]),
        ]),
        Err(PrattError::UserError(ExprError::InvalidGroup))
    );
}

#[test]
fn a_group_that_is_never_reached_does_no_harm() {
    assert_eq!(
        ExprParser.parse(vec![
            TokenTree::Primary(1),
            TokenTree::Infix('='),
            TokenTree::Primary(2),
            TokenTree::Infix('='),
            TokenTree::Group(vec![]),
        ]),
        Ok(BinOp(num(1), BinOpKind::Eq, num(2)))
    );
}

#[test]
fn unknown_signs() {
    assert_eq!(
        ExprParser.parse(vec![
            TokenTree::Primary(1),
            TokenTree::Infix('%'),
            TokenTree::Primary(2),
        ]),
        Err(PrattError::UserError(ExprError::UnknownOperator))
    );
    assert_eq!(
        ExprParser.parse(vec![TokenTree::Prefix('+'), TokenTree::Primary(2)]),
        Err(PrattError::UserError(ExprError::UnknownOperator))
    );
    assert_eq!(
        ExprParser.parse(vec![TokenTree::Primary(2), TokenTree::Postfix('!')]),
        Err(PrattError::UserError(ExprError::UnknownOperator))
    );
}

#[test]
fn operators_out_of_place() {
    assert_eq!(
        ExprParser.parse(vec![TokenTree::Infix('+'), TokenTree::Primary(2)]),
        Err(PrattError::UnexpectedInfix(Atom::Infix('+')))
    );
    assert_eq!(
        ExprParser.parse(vec![TokenTree::Postfix('?')]),
        Err(PrattError::UnexpectedPostfix(Atom::Postfix('?')))
    );
    assert_eq!(
        ExprParser.parse(vec![TokenTree::Primary(1), TokenTree::Infix('+')]),
        Err(PrattError::EmptyInput)
    );
    assert_eq!(
        ExprParser.parse(vec![TokenTree::Prefix('-')]),
        Err(PrattError::EmptyInput)
    );
}

#[test]
fn the_builders_refuse_tokens_of_another_shape() {
    assert_eq!(
        ExprParser.nullary(Atom::Infix('+')),
        Err(ExprError::Misplaced)
    );
    assert_eq!(ExprParser.nullary(Atom::Primary(4)), Ok(Int(4)));
    assert_eq!(
        ExprParser.unary(Atom::Primary(1), Int(2)),
        Err(ExprError::Misplaced)
    );
    assert_eq!(
        ExprParser.unary(Atom::Infix('-'), Int(2)),
        Err(ExprError::Misplaced)
    );
    assert_eq!(
        ExprParser.unary(Atom::Prefix('-'), Int(2)),
        Ok(UnOp(Neg, num(2)))
    );
    assert_eq!(
        ExprParser.unary(Atom::Prefix('?'), Int(2)),
        Err(ExprError::UnknownOperator)
    );
    assert_eq!(
        ExprParser.binary(Atom::Prefix('-'), Int(1), Int(2)),
        Err(ExprError::Misplaced)
    );
    assert_eq!(
        ExprParser.binary(Atom::Infix('-'), Int(1), Int(2)),
        Ok(BinOp(num(1), Sub, num(2)))
    );
    assert_eq!(
        ExprParser.binary(Atom::Infix('!'), Int(1), Int(2)),
        Err(ExprError::UnknownOperator)
    );
    assert_eq!(
        ExprParser.ternary(Atom::Infix('-'), Int(1), Int(2), Int(3)),
        Err(ExprError::Misplaced)
    );
}

#[test]
fn the_operator_table() {
    let signs = [
        ('=', BinOpKind::Eq, 2, Associativity::Neither),
        ('+', Add, 3, Associativity::Left),
        ('-', Sub, 3, Associativity::Left),
        ('*', Mul, 4, Associativity::Left),
        ('/', Div, 4, Associativity::Left),
        ('^', Pow, 7, Associativity::Right),
    ];
    for (sign, kind, level, associativity) in signs {
        assert_eq!(BinOpKind::from_sign(sign), Some(kind));
        assert_eq!(kind.sign(), sign);
        assert_eq!(kind.level(), Precedence(level));
        assert_eq!(kind.associativity(), associativity);
    }
    assert_eq!(BinOpKind::from_sign('?'), None);
    assert_eq!(UnOpKind::from_prefix('-'), Some(Neg));
    assert_eq!(UnOpKind::from_prefix('!'), Some(Not));
    assert_eq!(UnOpKind::from_prefix('?'), None);
    assert_eq!(UnOpKind::from_postfix('?'), Some(Try));
    assert_eq!(UnOpKind::from_postfix('-'), None);
    assert_eq!(Neg.sign(), '-');
    assert_eq!(Not.sign(), '!');
    assert_eq!(Try.sign(), '?');
    assert!(Try.is_postfix());
    assert!(!Neg.is_postfix());
    assert!(!Not.is_postfix());
}
