//! The precedence-climbing engine.
//!
//! The specification functions of this module say what a parse yields: the
//! node that was built, or the first failure, and the tokens that were left
//! unread. The executable functions are proved to compute exactly that.
//!
//! A separator that a multi-part operator expects is optional: where the next
//! token is not that separator, it is left in place and the parse goes on.
//!
//! A token whose descriptor has a composite affix is taken as a leaf where an
//! expression begins and as an operator where one goes on.
//!
//! The first failure ends the parse. No failure ends the program: a token
//! that cannot stand where it does is reported as a value.
//!
//! The engine calls itself once for every operand that it parses, so the
//! depth of its calls grows with the nesting of the input and is bounded by
//! the number of tokens. It sets no limit of its own: a caller that reads
//! input of unknown origin bounds the length of the token run to what its
//! stack allows.

use crate::error::PrattError;
use crate::op::{Affix, Op, OpView, Symbol};
use crate::precedence::{Arity, Precedence};
use crate::stream::{holds_on, is_predicate, shown_len, Tokens};
use vstd::prelude::*;

verus! {

/// A client of the engine: it classifies tokens and builds output nodes.
///
/// Each method is a function of its arguments: it returns what the
/// specification function of the same name says. A verified client states
/// these five functions; left as they are, they say nothing, which is all
/// that can be known of a client that is not verified.
pub trait PrattParser {
    /// A token.
    type Input;

    /// A node of the tree that the parse builds.
    type Output;

    /// A failure of the client's own.
    type Error;

    /// What [`PrattParser::query`] returns for `input`.
    open spec fn query_spec(&self, input: Self::Input) -> Result<OpView, Self::Error> {
        arbitrary()
    }

    /// What [`PrattParser::nullary`] returns.
    open spec fn nullary_spec(&self, token: Self::Input) -> Result<Self::Output, Self::Error> {
        arbitrary()
    }

    /// What [`PrattParser::unary`] returns.
    open spec fn unary_spec(&self, op: Self::Input, operand: Self::Output) -> Result<
        Self::Output,
        Self::Error,
    > {
        arbitrary()
    }

    /// What [`PrattParser::binary`] returns.
    open spec fn binary_spec(
        &self,
        op: Self::Input,
        lhs: Self::Output,
        rhs: Self::Output,
    ) -> Result<Self::Output, Self::Error> {
        arbitrary()
    }

    /// What [`PrattParser::ternary`] returns.
    open spec fn ternary_spec(
        &self,
        op: Self::Input,
        a: Self::Output,
        b: Self::Output,
        c: Self::Output,
    ) -> Result<Self::Output, Self::Error> {
        arbitrary()
    }

    /// Classifies a token. The engine may ask about the same token more than
    /// once.
    fn query(&self, input: &Self::Input) -> (r: Result<Op, Self::Error>)
        ensures
            match r {
                Ok(op) => self.query_spec(*input) == Ok::<OpView, Self::Error>(op@),
                Err(e) => self.query_spec(*input) == Err::<OpView, Self::Error>(e),
            },
    ;

    /// Builds a leaf.
    fn nullary(&self, token: Self::Input) -> (r: Result<Self::Output, Self::Error>)
        ensures
            r == self.nullary_spec(token),
    ;

    /// Builds the node of a prefix, postfix or circumfix operator.
    fn unary(&self, op: Self::Input, operand: Self::Output) -> (r: Result<
        Self::Output,
        Self::Error,
    >)
        ensures
            r == self.unary_spec(op, operand),
    ;

    /// Builds the node of a binary infix operator.
    fn binary(&self, op: Self::Input, lhs: Self::Output, rhs: Self::Output) -> (r: Result<
        Self::Output,
        Self::Error,
    >)
        ensures
            r == self.binary_spec(op, lhs, rhs),
    ;

    /// Builds the node of a ternary operator.
    fn ternary(
        &self,
        op: Self::Input,
        a: Self::Output,
        b: Self::Output,
        c: Self::Output,
    ) -> (r: Result<Self::Output, Self::Error>)
        ensures
            r == self.ternary_spec(op, a, b, c),
    ;
}

/// What a step of the parse yields: its result and the tokens it left unread.
pub ghost struct Outcome<I, O, E> {
    pub result: Result<O, PrattError<I, E>>,
    pub rest: Seq<I>,
}

/// Whether `rest` is what is left of `tokens` after reading some of them.
pub open spec fn is_suffix<I>(rest: Seq<I>, tokens: Seq<I>) -> bool {
    rest.len() <= tokens.len() && rest == tokens.skip(tokens.len() - rest.len())
}

/// A client's result as a result of the engine.
pub open spec fn lift<I, O, E>(r: Result<O, E>) -> Result<O, PrattError<I, E>> {
    match r {
        Ok(node) => Ok(node),
        Err(e) => Err(PrattError::UserError(e)),
    }
}

/// The failure for a token whose shape cannot be used where it stands: the
/// variant is named after the token's affix, and after the operator in it
/// where the affix is a composite.
pub open spec fn unexpected<I, E>(affix: Affix, token: I) -> PrattError<I, E> {
    match affix {
        Affix::Nilfix => PrattError::UnexpectedNilfix(token),
        Affix::Prefix => PrattError::UnexpectedPrefix(token),
        Affix::Postfix => PrattError::UnexpectedPostfix(token),
        Affix::Infix => PrattError::UnexpectedInfix(token),
        Affix::Circumfix => PrattError::UnexpectedCircumfix(token),
        Affix::Interfix => PrattError::UnexpectedInterfix(token),
        Affix::NilfixPostfix => PrattError::UnexpectedPostfix(token),
        Affix::NilfixInfix => PrattError::UnexpectedInfix(token),
    }
}

/// The tokens after an optional separator: `tokens` without its first token
/// where `follow` has an entry at `index` and that token is this separator,
/// else `tokens` as they are. Fails where the client refuses the token that
/// is looked at.
pub open spec fn eat_from<P: PrattParser>(
    parser: &P,
    tokens: Seq<P::Input>,
    follow: Seq<Symbol>,
    index: int,
) -> Result<Seq<P::Input>, P::Error> {
    if 0 <= index < follow.len() && tokens.len() > 0 {
        match parser.query_spec(tokens[0]) {
            Err(e) => Err(e),
            Ok(op) => if op.is_separator(follow[index]) {
                Ok(tokens.skip(1))
            } else {
                Ok(tokens)
            },
        }
    } else {
        Ok(tokens)
    }
}

/// The parse of one expression from the front of `tokens` that stops before
/// the first continuation whose left binding power is not above `rbp`.
///
/// The tests on the length of what a step left are always true (see
/// [`lemma_rest_is_suffix`]); they are what makes the definition well founded.
pub open spec fn parse_from<P: PrattParser>(
    parser: &P,
    tokens: Seq<P::Input>,
    rbp: Precedence,
) -> Outcome<P::Input, P::Output, P::Error>
    decreases tokens.len(), 0nat,
{
    if tokens.len() == 0 {
        Outcome { result: Err(PrattError::EmptyInput), rest: tokens }
    } else {
        match parser.query_spec(tokens[0]) {
            Err(e) => Outcome { result: Err(PrattError::UserError(e)), rest: tokens.skip(1) },
            Ok(op) => {
                let first = nud_from(parser, tokens[0], op, tokens.skip(1));
                match first.result {
                    Err(_) => first,
                    Ok(node) => if first.rest.len() < tokens.len() {
                        continue_from(parser, node, first.rest, rbp, op.leading().nbp())
                    } else {
                        first
                    },
                }
            },
        }
    }
}

/// The loop of the parse: `node` has been built, `tokens` are unread, and the
/// next token continues the expression where its left binding power lies
/// strictly between `rbp` and `nbp`.
pub open spec fn continue_from<P: PrattParser>(
    parser: &P,
    node: P::Output,
    tokens: Seq<P::Input>,
    rbp: Precedence,
    nbp: Precedence,
) -> Outcome<P::Input, P::Output, P::Error>
    decreases tokens.len(), 0nat,
{
    if tokens.len() == 0 {
        Outcome { result: Ok(node), rest: tokens }
    } else {
        match parser.query_spec(tokens[0]) {
            Err(e) => Outcome { result: Err(PrattError::UserError(e)), rest: tokens },
            Ok(found) => {
                let op = found.continuing();
                if rbp.below(op.lbp()) && op.lbp().below(nbp) {
                    let next = led_from(parser, tokens[0], op, node, tokens.skip(1));
                    match next.result {
                        Err(_) => next,
                        Ok(grown) => if next.rest.len() < tokens.len() {
                            continue_from(parser, grown, next.rest, rbp, op.nbp())
                        } else {
                            next
                        },
                    }
                } else {
                    Outcome { result: Ok(node), rest: tokens }
                }
            },
        }
    }
}

/// An operand parsed above `rbp`, and after it the optional separator that
/// `follow` names at `index`.
pub open spec fn operand_from<P: PrattParser>(
    parser: &P,
    tokens: Seq<P::Input>,
    rbp: Precedence,
    follow: Seq<Symbol>,
    index: int,
) -> Outcome<P::Input, P::Output, P::Error>
    decreases tokens.len(), 1nat,
{
    let operand = parse_from(parser, tokens, rbp);
    match operand.result {
        Err(_) => operand,
        Ok(node) => match eat_from(parser, operand.rest, follow, index) {
            Err(e) => Outcome { result: Err(PrattError::UserError(e)), rest: operand.rest },
            Ok(rest) => Outcome { result: Ok(node), rest },
        },
    }
}

/// Null denotation: what the token `head`, classified as `op`, yields where
/// an expression begins, with `tokens` unread behind it.
pub open spec fn nud_from<P: PrattParser>(
    parser: &P,
    head: P::Input,
    op: OpView,
    tokens: Seq<P::Input>,
) -> Outcome<P::Input, P::Output, P::Error>
    decreases tokens.len(), 2nat,
{
    match (op.leading().affix, op.leading().arity) {
        (Affix::Nilfix, Arity::Nullary) => Outcome {
            result: lift(parser.nullary_spec(head)),
            rest: tokens,
        },
        (Affix::Prefix, Arity::Unary) => {
            let operand = parse_from(parser, tokens, op.rbp());
            match operand.result {
                Err(_) => operand,
                Ok(x) => Outcome { result: lift(parser.unary_spec(head, x)), rest: operand.rest },
            }
        },
        (Affix::Circumfix, Arity::Unary) => {
            let inner = operand_from(parser, tokens, op.rbp(), op.follow, 0);
            match inner.result {
                Err(_) => inner,
                Ok(x) => Outcome { result: lift(parser.unary_spec(head, x)), rest: inner.rest },
            }
        },
        (Affix::Prefix, Arity::Ternary) => {
            let first = operand_from(parser, tokens, Precedence::lowest(), op.follow, 0);
            match first.result {
                Err(_) => first,
                Ok(a) => if first.rest.len() <= tokens.len() {
                    let second = operand_from(
                        parser,
                        first.rest,
                        Precedence::lowest(),
                        op.follow,
                        1,
                    );
                    match second.result {
                        Err(_) => second,
                        Ok(b) => if second.rest.len() <= tokens.len() {
                            let third = parse_from(parser, second.rest, op.rbp());
                            match third.result {
                                Err(_) => third,
                                Ok(c) => Outcome {
                                    result: lift(parser.ternary_spec(head, a, b, c)),
                                    rest: third.rest,
                                },
                            }
                        } else {
                            second
                        },
                    }
                } else {
                    first
                },
            }
        },
        _ => Outcome { result: Err(unexpected(op.leading().affix, head)), rest: tokens },
    }
}

/// Left denotation: what the token `head`, classified as `op`, yields where
/// it continues the expression `lhs`, with `tokens` unread behind it.
pub open spec fn led_from<P: PrattParser>(
    parser: &P,
    head: P::Input,
    op: OpView,
    lhs: P::Output,
    tokens: Seq<P::Input>,
) -> Outcome<P::Input, P::Output, P::Error>
    decreases tokens.len(), 2nat,
{
    match (op.continuing().affix, op.continuing().arity) {
        (Affix::Postfix, Arity::Unary) => Outcome {
            result: lift(parser.unary_spec(head, lhs)),
            rest: tokens,
        },
        (Affix::Infix, Arity::Binary) => {
            let right = parse_from(parser, tokens, op.rbp());
            match right.result {
                Err(_) => right,
                Ok(rhs) => Outcome {
                    result: lift(parser.binary_spec(head, lhs, rhs)),
                    rest: right.rest,
                },
            }
        },
        (Affix::Postfix, Arity::Ternary) | (Affix::Infix, Arity::Ternary) => {
            let middle = operand_from(parser, tokens, Precedence::lowest(), op.follow, 0);
            match middle.result {
                Err(_) => middle,
                Ok(mid) => if middle.rest.len() <= tokens.len() {
                    let right = parse_from(parser, middle.rest, op.rbp());
                    match right.result {
                        Err(_) => right,
                        Ok(rhs) => Outcome {
                            result: lift(parser.ternary_spec(head, lhs, mid, rhs)),
                            rest: right.rest,
                        },
                    }
                } else {
                    middle
                },
            }
        },
        _ => Outcome { result: Err(unexpected(op.continuing().affix, head)), rest: tokens },
    }
}

/// What is left of what is left is left: reading on from a suffix gives a
/// suffix.
pub proof fn lemma_suffix_of_suffix<I>(a: Seq<I>, b: Seq<I>, c: Seq<I>)
    requires
        is_suffix(a, b),
        is_suffix(b, c),
    ensures
        is_suffix(a, c),
{
    assert(a =~= c.skip(c.len() - a.len()));
}

/// A sequence without its first token is a suffix of it, and every sequence
/// is a suffix of itself.
pub proof fn lemma_skip_is_suffix<I>(tokens: Seq<I>)
    ensures
        is_suffix(tokens, tokens),
        tokens.len() > 0 ==> is_suffix(tokens.skip(1), tokens),
{
    assert(tokens =~= tokens.skip(0));
}

/// Tokens are read from the front and never put back: what a parse leaves
/// is a suffix of what it was given, and a parse that builds a node has read
/// at least one token.
pub proof fn lemma_rest_is_suffix<P: PrattParser>(
    parser: &P,
    tokens: Seq<P::Input>,
    rbp: Precedence,
)
    ensures
        is_suffix(parse_from(parser, tokens, rbp).rest, tokens),
        parse_from(parser, tokens, rbp).result is Ok ==> parse_from(parser, tokens, rbp).rest.len()
            < tokens.len(),
    decreases tokens.len(), 0nat,
{
    lemma_skip_is_suffix(tokens);
    if tokens.len() > 0 {
        match parser.query_spec(tokens[0]) {
            Err(_) => {},
            Ok(op) => {
                let first = nud_from(parser, tokens[0], op, tokens.skip(1));
                lemma_nud_rest_is_suffix(parser, tokens[0], op, tokens.skip(1));
                lemma_suffix_of_suffix(first.rest, tokens.skip(1), tokens);
                match first.result {
                    Err(_) => {},
                    Ok(node) => {
                        lemma_continue_rest_is_suffix(
                            parser,
                            node,
                            first.rest,
                            rbp,
                            op.leading().nbp(),
                        );
                        lemma_suffix_of_suffix(
                            continue_from(parser, node, first.rest, rbp, op.leading().nbp()).rest,
                            first.rest,
                            tokens,
                        );
                    },
                }
            },
        }
    }
}

/// What the loop of a parse leaves is a suffix of what it was given.
pub proof fn lemma_continue_rest_is_suffix<P: PrattParser>(
    parser: &P,
    node: P::Output,
    tokens: Seq<P::Input>,
    rbp: Precedence,
    nbp: Precedence,
)
    ensures
        is_suffix(continue_from(parser, node, tokens, rbp, nbp).rest, tokens),
    decreases tokens.len(), 0nat,
{
    lemma_skip_is_suffix(tokens);
    if tokens.len() > 0 {
        match parser.query_spec(tokens[0]) {
            Err(_) => {},
            Ok(found) => {
                let op = found.continuing();
                if rbp.below(op.lbp()) && op.lbp().below(nbp) {
                    let next = led_from(parser, tokens[0], op, node, tokens.skip(1));
                    lemma_led_rest_is_suffix(parser, tokens[0], op, node, tokens.skip(1));
                    lemma_suffix_of_suffix(next.rest, tokens.skip(1), tokens);
                    match next.result {
                        Err(_) => {},
                        Ok(grown) => {
                            lemma_continue_rest_is_suffix(parser, grown, next.rest, rbp, op.nbp());
                            lemma_suffix_of_suffix(
                                continue_from(parser, grown, next.rest, rbp, op.nbp()).rest,
                                next.rest,
                                tokens,
                            );
                        },
                    }
                }
            },
        }
    }
}

/// What an operand and its separator leave is a suffix of what they were
/// given.
pub proof fn lemma_operand_rest_is_suffix<P: PrattParser>(
    parser: &P,
    tokens: Seq<P::Input>,
    rbp: Precedence,
    follow: Seq<Symbol>,
    index: int,
)
    ensures
        is_suffix(operand_from(parser, tokens, rbp, follow, index).rest, tokens),
    decreases tokens.len(), 1nat,
{
    let operand = parse_from(parser, tokens, rbp);
    lemma_rest_is_suffix(parser, tokens, rbp);
    lemma_skip_is_suffix(operand.rest);
    if operand.rest.len() > 0 {
        lemma_suffix_of_suffix(operand.rest.skip(1), operand.rest, tokens);
    }
}

/// What a null denotation leaves is a suffix of what it was given.
pub proof fn lemma_nud_rest_is_suffix<P: PrattParser>(
    parser: &P,
    head: P::Input,
    op: OpView,
    tokens: Seq<P::Input>,
)
    ensures
        is_suffix(nud_from(parser, head, op, tokens).rest, tokens),
    decreases tokens.len(), 2nat,
{
    lemma_skip_is_suffix(tokens);
    match (op.leading().affix, op.leading().arity) {
        (Affix::Prefix, Arity::Unary) => {
            lemma_rest_is_suffix(parser, tokens, op.rbp());
        },
        (Affix::Circumfix, Arity::Unary) => {
            lemma_operand_rest_is_suffix(parser, tokens, op.rbp(), op.follow, 0);
        },
        (Affix::Prefix, Arity::Ternary) => {
            let first = operand_from(parser, tokens, Precedence::lowest(), op.follow, 0);
            lemma_operand_rest_is_suffix(parser, tokens, Precedence::lowest(), op.follow, 0);
            if first.result is Ok {
                let second = operand_from(parser, first.rest, Precedence::lowest(), op.follow, 1);
                lemma_operand_rest_is_suffix(
                    parser,
                    first.rest,
                    Precedence::lowest(),
                    op.follow,
                    1,
                );
                lemma_suffix_of_suffix(second.rest, first.rest, tokens);
                if second.result is Ok {
                    lemma_rest_is_suffix(parser, second.rest, op.rbp());
                    lemma_suffix_of_suffix(
                        parse_from(parser, second.rest, op.rbp()).rest,
                        second.rest,
                        tokens,
                    );
                }
            }
        },
        _ => {},
    }
}

/// What a left denotation leaves is a suffix of what it was given.
pub proof fn lemma_led_rest_is_suffix<P: PrattParser>(
    parser: &P,
    head: P::Input,
    op: OpView,
    lhs: P::Output,
    tokens: Seq<P::Input>,
)
    ensures
        is_suffix(led_from(parser, head, op, lhs, tokens).rest, tokens),
    decreases tokens.len(), 2nat,
{
    lemma_skip_is_suffix(tokens);
    match (op.continuing().affix, op.continuing().arity) {
        (Affix::Infix, Arity::Binary) => {
            lemma_rest_is_suffix(parser, tokens, op.rbp());
        },
        (Affix::Postfix, Arity::Ternary) | (Affix::Infix, Arity::Ternary) => {
            let middle = operand_from(parser, tokens, Precedence::lowest(), op.follow, 0);
            lemma_operand_rest_is_suffix(parser, tokens, Precedence::lowest(), op.follow, 0);
            if middle.result is Ok {
                lemma_rest_is_suffix(parser, middle.rest, op.rbp());
                lemma_suffix_of_suffix(
                    parse_from(parser, middle.rest, op.rbp()).rest,
                    middle.rest,
                    tokens,
                );
            }
        },
        _ => {},
    }
}

/// Wraps a client's failure as the engine's.
pub fn user<I, O, E>(r: Result<O, E>) -> (out: Result<O, PrattError<I, E>>)
    ensures
        out == lift::<I, O, E>(r),
{
    match r {
        Ok(node) => Ok(node),
        Err(e) => Err(PrattError::UserError(e)),
    }
}

/// The failure for a token whose shape cannot be used where it stands.
pub fn reject<I, E>(affix: Affix, token: I) -> (e: PrattError<I, E>)
    ensures
        e == unexpected::<I, E>(affix, token),
{
    match affix {
        Affix::Nilfix => PrattError::UnexpectedNilfix(token),
        Affix::Prefix => PrattError::UnexpectedPrefix(token),
        Affix::Postfix => PrattError::UnexpectedPostfix(token),
        Affix::Infix => PrattError::UnexpectedInfix(token),
        Affix::Circumfix => PrattError::UnexpectedCircumfix(token),
        Affix::Interfix => PrattError::UnexpectedInterfix(token),
        Affix::NilfixPostfix => PrattError::UnexpectedPostfix(token),
        Affix::NilfixInfix => PrattError::UnexpectedInfix(token),
    }
}

/// Takes the next token where it is the separator that `follow` names at
/// `index`, and says whether it did. A token that is not this separator is
/// left in place, and so is every token where `follow` has no such entry.
pub fn eat_interfix<P: PrattParser>(
    parser: &P,
    tail: &mut Tokens<P::Input>,
    follow: &Vec<Symbol>,
    index: usize,
) -> (r: Result<bool, P::Error>)
    ensures
        match eat_from(parser, old(tail)@, follow@, index as int) {
            Ok(rest) => r == Ok::<bool, P::Error>(rest.len() < old(tail)@.len()) && final(tail)@
                == rest,
            Err(e) => r == Err::<bool, P::Error>(e) && final(tail)@ == old(tail)@,
        },
        is_suffix(final(tail)@, old(tail)@),
{
    proof {
        lemma_skip_is_suffix(tail@);
    }
    if index >= follow.len() {
        return Ok(false);
    }
    let expected = follow[index];
    let found = match tail.peek() {
        None => false,
        Some(next) => match parser.query(next) {
            Err(e) => {
                return Err(e);
            },
            Ok(op) => op.is_separator(expected),
        },
    };
    if found {
        let _ = tail.next();
    }
    Ok(found)
}

/// Parses one expression from the front of `tail` and stops before the first
/// continuation whose left binding power is not above `rbp`.
pub fn parse_input<P: PrattParser>(
    parser: &P,
    tail: &mut Tokens<P::Input>,
    rbp: Precedence,
) -> (r: Result<P::Output, PrattError<P::Input, P::Error>>)
    ensures
        r == parse_from(parser, old(tail)@, rbp).result,
        final(tail)@ == parse_from(parser, old(tail)@, rbp).rest,
        is_suffix(final(tail)@, old(tail)@),
        r is Ok ==> final(tail)@.len() < old(tail)@.len(),
        old(tail)@.len() == 0 ==> r == Err::<P::Output, PrattError<P::Input, P::Error>>(
            PrattError::EmptyInput,
        ),
    decreases old(tail)@.len(), 0nat,
{
    proof {
        lemma_skip_is_suffix(tail@);
    }
    let head = match tail.next() {
        Some(head) => head,
        None => {
            return Err(PrattError::EmptyInput);
        },
    };
    let info = match parser.query(&head) {
        Ok(info) => info.leading(),
        Err(e) => {
            return Err(PrattError::UserError(e));
        },
    };
    let mut nbp = info.nbp();
    let ghost behind = tail@;
    let mut node = match nud(parser, head, tail, &info) {
        Ok(node) => node,
        Err(e) => {
            proof {
                lemma_suffix_of_suffix(tail@, behind, old(tail)@);
            }
            return Err(e);
        },
    };
    proof {
        lemma_suffix_of_suffix(tail@, behind, old(tail)@);
    }
    loop
        invariant
            is_suffix(tail@, old(tail)@),
            tail@.len() < old(tail)@.len(),
            parse_from(parser, old(tail)@, rbp) == continue_from(parser, node, tail@, rbp, nbp),
        decreases tail@.len(),
    {
        let ghost before = tail@;
        let next = match tail.peek() {
            None => None,
            Some(next) => match parser.query(next) {
                Err(e) => {
                    return Err(PrattError::UserError(e));
                },
                Ok(info) => {
                    let lbp = info.lbp();
                    if rbp.is_below(lbp) && lbp.is_below(nbp) {
                        Some(info.continuing())
                    } else {
                        None
                    }
                },
            },
        };
        let info = match next {
            Some(info) => info,
            None => {
                return Ok(node);
            },
        };
        let head = match tail.next() {
            Some(head) => head,
            None => unreached(),
        };
        nbp = info.nbp();
        let ghost behind = tail@;
        proof {
            lemma_skip_is_suffix(before);
        }
        node = match led(parser, head, tail, &info, node) {
            Ok(node) => node,
            Err(e) => {
                proof {
                    lemma_suffix_of_suffix(tail@, behind, before);
                    lemma_suffix_of_suffix(tail@, before, old(tail)@);
                }
                return Err(e);
            },
        };
        proof {
            lemma_suffix_of_suffix(tail@, behind, before);
            lemma_suffix_of_suffix(tail@, before, old(tail)@);
        }
    }
}

/// Parses an operand above `rbp`, and after it takes the separator that
/// `follow` names at `index`, where it is there.
pub fn operand<P: PrattParser>(
    parser: &P,
    tail: &mut Tokens<P::Input>,
    rbp: Precedence,
    follow: &Vec<Symbol>,
    index: usize,
) -> (r: Result<P::Output, PrattError<P::Input, P::Error>>)
    ensures
        r == operand_from(parser, old(tail)@, rbp, follow@, index as int).result,
        final(tail)@ == operand_from(parser, old(tail)@, rbp, follow@, index as int).rest,
        is_suffix(final(tail)@, old(tail)@),
    decreases old(tail)@.len(), 1nat,
{
    let node = match parse_input(parser, tail, rbp) {
        Ok(node) => node,
        Err(e) => {
            return Err(e);
        },
    };
    let ghost behind = tail@;
    match eat_interfix(parser, tail, follow, index) {
        Ok(_) => {
            proof {
                lemma_suffix_of_suffix(tail@, behind, old(tail)@);
            }
            Ok(node)
        },
        Err(e) => Err(PrattError::UserError(e)),
    }
}

/// Null denotation: builds the node that begins with the token `head`,
/// classified as `info`, reading its operands from `tail`.
pub fn nud<P: PrattParser>(
    parser: &P,
    head: P::Input,
    tail: &mut Tokens<P::Input>,
    info: &Op,
) -> (r: Result<P::Output, PrattError<P::Input, P::Error>>)
    ensures
        r == nud_from(parser, head, info@, old(tail)@).result,
        final(tail)@ == nud_from(parser, head, info@, old(tail)@).rest,
        is_suffix(final(tail)@, old(tail)@),
    decreases old(tail)@.len(), 2nat,
{
    proof {
        lemma_skip_is_suffix(tail@);
    }
    let shape = info.leading_shape();
    match shape {
        (Affix::Nilfix, Arity::Nullary) => user(parser.nullary(head)),
        (Affix::Prefix, Arity::Unary) => {
            match parse_input(parser, tail, info.rbp()) {
                Ok(x) => user(parser.unary(head, x)),
                Err(e) => Err(e),
            }
        },
        (Affix::Circumfix, Arity::Unary) => {
            match operand(parser, tail, info.rbp(), &info.follow, 0) {
                Ok(x) => user(parser.unary(head, x)),
                Err(e) => Err(e),
            }
        },
        (Affix::Prefix, Arity::Ternary) => {
            let a = match operand(parser, tail, Precedence::min(), &info.follow, 0) {
                Ok(a) => a,
                Err(e) => {
                    return Err(e);
                },
            };
            let ghost after_first = tail@;
            let b = match operand(parser, tail, Precedence::min(), &info.follow, 1) {
                Ok(b) => b,
                Err(e) => {
                    proof {
                        lemma_suffix_of_suffix(tail@, after_first, old(tail)@);
                    }
                    return Err(e);
                },
            };
            let ghost after_second = tail@;
            proof {
                lemma_suffix_of_suffix(after_second, after_first, old(tail)@);
            }
            match parse_input(parser, tail, info.rbp()) {
                Ok(c) => {
                    proof {
                        lemma_suffix_of_suffix(tail@, after_second, old(tail)@);
                    }
                    user(parser.ternary(head, a, b, c))
                },
                Err(e) => {
                    proof {
                        lemma_suffix_of_suffix(tail@, after_second, old(tail)@);
                    }
                    Err(e)
                },
            }
        },
        _ => Err(reject(shape.0, head)),
    }
}

/// Left denotation: builds the node in which the token `head`, classified as
/// `info`, continues the expression `lhs`, reading its other operands from
/// `tail`.
pub fn led<P: PrattParser>(
    parser: &P,
    head: P::Input,
    tail: &mut Tokens<P::Input>,
    info: &Op,
    lhs: P::Output,
) -> (r: Result<P::Output, PrattError<P::Input, P::Error>>)
    ensures
        r == led_from(parser, head, info@, lhs, old(tail)@).result,
        final(tail)@ == led_from(parser, head, info@, lhs, old(tail)@).rest,
        is_suffix(final(tail)@, old(tail)@),
    decreases old(tail)@.len(), 2nat,
{
    proof {
        lemma_skip_is_suffix(tail@);
    }
    let shape = info.continuing_shape();
    match shape {
        (Affix::Postfix, Arity::Unary) => user(parser.unary(head, lhs)),
        (Affix::Infix, Arity::Binary) => {
            match parse_input(parser, tail, info.rbp()) {
                Ok(rhs) => user(parser.binary(head, lhs, rhs)),
                Err(e) => Err(e),
            }
        },
        (Affix::Postfix, Arity::Ternary) | (Affix::Infix, Arity::Ternary) => {
            let mid = match operand(parser, tail, Precedence::min(), &info.follow, 0) {
                Ok(mid) => mid,
                Err(e) => {
                    return Err(e);
                },
            };
            let ghost after_middle = tail@;
            match parse_input(parser, tail, info.rbp()) {
                Ok(rhs) => {
                    proof {
                        lemma_suffix_of_suffix(tail@, after_middle, old(tail)@);
                    }
                    user(parser.ternary(head, lhs, mid, rhs))
                },
                Err(e) => {
                    proof {
                        lemma_suffix_of_suffix(tail@, after_middle, old(tail)@);
                    }
                    Err(e)
                },
            }
        },
        _ => Err(reject(shape.0, head)),
    }
}

/// Parses one expression from the front of `inputs`, with every token free
/// to continue it. Tokens behind the expression are dropped unread.
pub fn parse<P: PrattParser>(parser: &P, inputs: Vec<P::Input>) -> (r: Result<
    P::Output,
    PrattError<P::Input, P::Error>,
>)
    ensures
        r == parse_from(parser, inputs@, Precedence::lowest()).result,
        inputs@.len() == 0 ==> r == Err::<P::Output, PrattError<P::Input, P::Error>>(
            PrattError::EmptyInput,
        ),
{
    let mut tail = Tokens::new(inputs);
    parse_input(parser, &mut tail, Precedence::min())
}

/// Parses one expression from the front of `inputs`, with every token free
/// to continue it, and leaves the tokens behind the expression in `inputs`.
pub fn parse_peekable<P: PrattParser>(parser: &P, inputs: &mut Tokens<P::Input>) -> (r: Result<
    P::Output,
    PrattError<P::Input, P::Error>,
>)
    ensures
        r == parse_from(parser, old(inputs)@, Precedence::lowest()).result,
        final(inputs)@ == parse_from(parser, old(inputs)@, Precedence::lowest()).rest,
        is_suffix(final(inputs)@, old(inputs)@),
        old(inputs)@.len() == 0 ==> r == Err::<P::Output, PrattError<P::Input, P::Error>>(
            PrattError::EmptyInput,
        ),
{
    parse_input(parser, inputs, Precedence::min())
}

/// Parses one expression above `rbp` from the tokens of `tail` that stand
/// before the first one on which `stop` holds, as if `tail` ended there.
/// That token and all behind it stay in `tail`, behind what the parse left.
pub fn parse_until<P: PrattParser, F: Fn(&P::Input) -> bool>(
    parser: &P,
    tail: &mut Tokens<P::Input>,
    rbp: Precedence,
    stop: &F,
) -> (r: Result<P::Output, PrattError<P::Input, P::Error>>)
    requires
        is_predicate::<P::Input, F>(*stop),
    ensures
        ({
            let shown = shown_len(old(tail)@, holds_on::<P::Input, F>(*stop)) as int;
            let out = parse_from(parser, old(tail)@.take(shown), rbp);
            r == out.result && final(tail)@ == out.rest + old(tail)@.skip(shown)
        }),
{
    let mut front = tail.split_before(stop);
    let r = parse_input(parser, &mut front, rbp);
    tail.unread(front);
    r
}

} // verus!
