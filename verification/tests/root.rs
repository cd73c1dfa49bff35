use pratt::{Affix, Arity, Associativity, NoError, Op, PrattError, PrattParser, Precedence, Tokens};

/// A client that never fails: numbers and `+`, summed up on the way.
struct Sum;

impl PrattParser for Sum {
    type Input = Option<u64>;
    type Output = u64;
    type Error = NoError;

    fn query(&self, input: &Option<u64>) -> Result<Op, NoError> {
        Ok(match input {
            Some(_) => Op::nilfix(),
            None => Op::infix(Precedence(1), Associativity::Left),
        })
    }

    fn nullary(&self, token: Option<u64>) -> Result<u64, NoError> {
        Ok(token.unwrap_or(0))
    }

    fn unary(&self, _: Option<u64>, operand: u64) -> Result<u64, NoError> {
        Ok(operand)
    }

    fn binary(&self, _: Option<u64>, lhs: u64, rhs: u64) -> Result<u64, NoError> {
        Ok(lhs + rhs)
    }

    fn ternary(&self, _: Option<u64>, a: u64, b: u64, c: u64) -> Result<u64, NoError> {
        Ok(a + b + c)
    }
}

#[test]
fn the_main_items_stand_at_the_root() {
    let tokens = vec![Some(1), None, Some(2), None, Some(39)];
    assert_eq!(pratt::parse(&Sum, tokens), Ok(42));
    let mut tokens = Tokens::new(vec![Some(1), Some(2)]);
    assert_eq!(pratt::parse_peekable(&Sum, &mut tokens), Ok(1));
    assert_eq!(pratt::parse_input(&Sum, &mut tokens, Precedence::min()), Ok(2));
    assert_eq!(
        pratt::parse_input(&Sum, &mut tokens, Precedence::min()),
        Err(PrattError::EmptyInput)
    );
    let op = Sum.query(&None).unwrap();
    assert_eq!((op.affix, op.arity), (Affix::Infix, Arity::Binary));
}
