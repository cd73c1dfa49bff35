use pratt::{Associativity, Op, PrattError, PrattParser, Precedence};

/// A token of a client that parses its groups from inside its own callback.
#[derive(Debug, PartialEq, Eq)]
enum Token {
    Number(i64),
    Plus,
    Times,
    Group(Vec<Token>),
}

/// A client that computes the value of the expression as it goes.
struct Calculator;

impl PrattParser for Calculator {
    type Input = Token;
    type Output = i64;
    type Error = String;

    fn query(&self, input: &Token) -> Result<Op, String> {
        Ok(match input {
            Token::Number(_) | Token::Group(_) => Op::nilfix(),
            Token::Plus => Op::infix(Precedence(1), Associativity::Left),
            Token::Times => Op::infix(Precedence(2), Associativity::Left),
        })
    }

    fn nullary(&self, token: Token) -> Result<i64, String> {
        match token {
            Token::Number(n) => Ok(n),
            Token::Group(inner) => {
                pratt::parse(self, inner).map_err(|e| format!("in a group: {}", e.describe()))
            }
            _ => Err("no operand".to_string()),
        }
    }

    fn unary(&self, _: Token, _: i64) -> Result<i64, String> {
        Err("no unary operator".to_string())
    }

    fn binary(&self, op: Token, lhs: i64, rhs: i64) -> Result<i64, String> {
        match op {
            Token::Plus => Ok(lhs + rhs),
            Token::Times => Ok(lhs * rhs),
            _ => Err("no binary operator".to_string()),
        }
    }

    fn ternary(&self, _: Token, _: i64, _: i64, _: i64) -> Result<i64, String> {
        Err("no ternary operator".to_string())
    }
}

fn sum_of_two_and_three() -> Vec<Token> {
    vec![Token::Number(2), Token::Plus, Token::Number(3)]
}

#[test]
fn a_callback_may_parse_a_group_with_the_engine() {
    // (2 + 3) * 4
    let tokens = vec![
        Token::Group(sum_of_two_and_three()),
        Token::Times,
        Token::Number(4),
    ];
    assert_eq!(pratt::parse(&Calculator, tokens), Ok(20));
    // 2 + 3 * 4
    let tokens = vec![
        Token::Number(2),
        Token::Plus,
        Token::Number(3),
        Token::Times,
        Token::Number(4),
    ];
    assert_eq!(pratt::parse(&Calculator, tokens), Ok(14));
}

#[test]
fn a_group_gives_what_its_tokens_give() {
    let direct = pratt::parse(&Calculator, sum_of_two_and_three());
    let grouped = pratt::parse(&Calculator, vec![Token::Group(sum_of_two_and_three())]);
    let twice = pratt::parse(
        &Calculator,
        vec![Token::Group(vec![Token::Group(sum_of_two_and_three())])],
    );
    assert_eq!(direct, Ok(5));
    assert_eq!(grouped, direct);
    assert_eq!(twice, direct);
}

#[test]
fn a_failure_inside_a_group_comes_out_as_the_client_words_it() {
    let tokens = vec![Token::Number(1), Token::Plus, Token::Group(vec![])];
    assert_eq!(
        pratt::parse(&Calculator, tokens),
        Err(PrattError::UserError(
            "in a group: Pratt parser was called with empty input.".to_string()
        ))
    );
    let tokens = vec![Token::Group(vec![Token::Times])];
    assert_eq!(
        pratt::parse(&Calculator, tokens),
        Err(PrattError::UserError(
            "in a group: Expected Nilfix or Prefix, found Infix Times".to_string()
        ))
    );
}
