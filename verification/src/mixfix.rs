//! What the engine yields on multi-part operators, for every client.

use crate::engine::{
    continue_from, lemma_operand_rest_is_suffix, lemma_rest_is_suffix, nud_from, operand_from,
    parse_from, Outcome, PrattParser,
};
use crate::laws::{
    has_shape, is_operand, lemma_loop_stops, lemma_parse_begins_with_leaf, op_of,
};
use crate::op::{Affix, Symbol};
use crate::precedence::{Arity, Precedence};
use vstd::prelude::*;

verus! {

/// Whether the client classifies `token` as the separator `symbol`.
pub open spec fn is_mark<P: PrattParser>(parser: &P, token: P::Input, symbol: Symbol) -> bool {
    parser.query_spec(token) matches Ok(op) && op.is_separator(symbol)
}

/// Whether the client classifies `token` as a ternary prefix operator with
/// the separators `first` and `second`, for which it builds a node over all
/// operands.
pub open spec fn is_conditional<P: PrattParser>(
    parser: &P,
    token: P::Input,
    first: Symbol,
    second: Symbol,
) -> bool {
    &&& has_shape(parser, token, Affix::Prefix, Arity::Ternary)
    &&& op_of(parser, token).follow == seq![first, second]
    &&& forall|a: P::Output, b: P::Output, c: P::Output| #[trigger]
        parser.ternary_spec(token, a, b, c) is Ok
}

/// The node that the client builds for the ternary operator `sign`.
pub open spec fn ternary_of<P: PrattParser>(
    parser: &P,
    sign: P::Input,
    a: P::Output,
    b: P::Output,
    c: P::Output,
) -> P::Output {
    parser.ternary_spec(sign, a, b, c)->Ok_0
}

/// A separator ends every operand before it: no separator continues an
/// expression, whatever the floor.
pub proof fn lemma_operand_ends_at_mark<P: PrattParser>(
    parser: &P,
    tokens: Seq<P::Input>,
    symbol: Symbol,
    rbp: Precedence,
)
    requires
        tokens.len() >= 2,
        is_operand(parser, tokens[0]),
        is_mark(parser, tokens[1], symbol),
    ensures
        parse_from(parser, tokens, rbp) == (Outcome::<P::Input, P::Output, P::Error> {
            result: Ok(parser.nullary_spec(tokens[0])->Ok_0),
            rest: tokens.skip(1),
        }),
{
    lemma_parse_begins_with_leaf(parser, tokens, rbp);
    assert(tokens.skip(1)[0] == tokens[1]);
    lemma_loop_stops(
        parser,
        parser.nullary_spec(tokens[0])->Ok_0,
        tokens.skip(1),
        rbp,
        Precedence::highest(),
    );
}

/// The separator that an operator expects behind an operand is taken where
/// it stands there.
pub proof fn lemma_operand_takes_mark<P: PrattParser>(
    parser: &P,
    tokens: Seq<P::Input>,
    rbp: Precedence,
    follow: Seq<Symbol>,
    index: int,
)
    requires
        0 <= index < follow.len(),
        parse_from(parser, tokens, rbp).result is Ok,
        parse_from(parser, tokens, rbp).rest.len() > 0,
        is_mark(parser, parse_from(parser, tokens, rbp).rest[0], follow[index]),
    ensures
        operand_from(parser, tokens, rbp, follow, index) == (Outcome::<
            P::Input,
            P::Output,
            P::Error,
        > {
            result: parse_from(parser, tokens, rbp).result,
            rest: parse_from(parser, tokens, rbp).rest.skip(1),
        }),
{
}

/// A parse that begins with a ternary prefix operator parses two operands,
/// each with its separator, and a third above the operator's right binding
/// power, and goes on from the node of the three with every continuation
/// allowed.
pub proof fn lemma_parse_begins_with_ternary<P: PrattParser>(
    parser: &P,
    tokens: Seq<P::Input>,
    rbp: Precedence,
    a: P::Output,
    after_a: Seq<P::Input>,
    b: P::Output,
    after_b: Seq<P::Input>,
    c: P::Output,
    after_c: Seq<P::Input>,
)
    requires
        tokens.len() > 0,
        has_shape(parser, tokens[0], Affix::Prefix, Arity::Ternary),
        operand_from(
            parser,
            tokens.skip(1),
            Precedence::lowest(),
            op_of(parser, tokens[0]).follow,
            0,
        ) == (Outcome::<P::Input, P::Output, P::Error> { result: Ok(a), rest: after_a }),
        operand_from(parser, after_a, Precedence::lowest(), op_of(parser, tokens[0]).follow, 1)
            == (Outcome::<P::Input, P::Output, P::Error> { result: Ok(b), rest: after_b }),
        parse_from(parser, after_b, op_of(parser, tokens[0]).rbp()) == (Outcome::<
            P::Input,
            P::Output,
            P::Error,
        > { result: Ok(c), rest: after_c }),
        parser.ternary_spec(tokens[0], a, b, c) is Ok,
    ensures
        parse_from(parser, tokens, rbp) == continue_from(
            parser,
            ternary_of(parser, tokens[0], a, b, c),
            after_c,
            rbp,
            Precedence::highest(),
        ),
{
    let op = op_of(parser, tokens[0]);
    let behind = tokens.skip(1);
    lemma_operand_rest_is_suffix(parser, behind, Precedence::lowest(), op.follow, 0);
    lemma_operand_rest_is_suffix(parser, after_a, Precedence::lowest(), op.follow, 1);
    lemma_rest_is_suffix(parser, after_b, op.rbp());
    let first = nud_from(parser, tokens[0], op, behind);
    assert(first.rest == after_c);
    assert(first.result == Ok::<P::Output, crate::error::PrattError<P::Input, P::Error>>(
        ternary_of(parser, tokens[0], a, b, c),
    ));
}

/// One conditional, `if a then b else c`, parses to the node of its three
/// operands, and a separator behind it is left unread.
pub proof fn lemma_conditional<P: PrattParser>(
    parser: &P,
    tokens: Seq<P::Input>,
    then_mark: Symbol,
    else_mark: Symbol,
    rbp: Precedence,
)
    requires
        tokens.len() >= 6,
        is_conditional(parser, tokens[0], then_mark, else_mark),
        is_operand(parser, tokens[1]),
        is_mark(parser, tokens[2], then_mark),
        is_operand(parser, tokens[3]),
        is_mark(parser, tokens[4], else_mark),
        is_operand(parser, tokens[5]),
        tokens.len() > 6 ==> exists|symbol: Symbol| is_mark(parser, tokens[6], symbol),
    ensures
        parse_from(parser, tokens, rbp) == (Outcome::<P::Input, P::Output, P::Error> {
            result: Ok(
                ternary_of(
                    parser,
                    tokens[0],
                    parser.nullary_spec(tokens[1])->Ok_0,
                    parser.nullary_spec(tokens[3])->Ok_0,
                    parser.nullary_spec(tokens[5])->Ok_0,
                ),
            ),
            rest: tokens.skip(6),
        }),
{
    let op = op_of(parser, tokens[0]);
    let lowest = Precedence::lowest();
    let t1 = tokens.skip(1);
    let t2 = tokens.skip(2);
    let t3 = tokens.skip(3);
    let t4 = tokens.skip(4);
    let t5 = tokens.skip(5);
    let t6 = tokens.skip(6);
    assert(t1.skip(1) =~= t2 && t2.skip(1) =~= t3 && t3.skip(1) =~= t4 && t4.skip(1) =~= t5
        && t5.skip(1) =~= t6);
    assert(t1[0] == tokens[1] && t1[1] == tokens[2]);
    assert(t2[0] == tokens[2]);
    assert(t3[0] == tokens[3] && t3[1] == tokens[4]);
    assert(t4[0] == tokens[4]);
    assert(t5[0] == tokens[5]);
    let a = parser.nullary_spec(tokens[1])->Ok_0;
    let b = parser.nullary_spec(tokens[3])->Ok_0;
    let c = parser.nullary_spec(tokens[5])->Ok_0;

    lemma_operand_ends_at_mark(parser, t1, then_mark, lowest);
    lemma_operand_takes_mark(parser, t1, lowest, op.follow, 0);
    lemma_operand_ends_at_mark(parser, t3, else_mark, lowest);
    lemma_operand_takes_mark(parser, t3, lowest, op.follow, 1);
    lemma_parse_begins_with_leaf(parser, t5, op.rbp());
    if tokens.len() > 6 {
        assert(t6[0] == tokens[6]);
    }
    lemma_loop_stops(parser, c, t6, op.rbp(), Precedence::highest());
    lemma_parse_begins_with_ternary(parser, tokens, rbp, a, t3, b, t5, c, t6);
    lemma_loop_stops(
        parser,
        ternary_of(parser, tokens[0], a, b, c),
        t6,
        rbp,
        Precedence::highest(),
    );
}

/// A conditional inside the second operand of another takes the nearest
/// `else`: `if a then if b then c else d else e` parses to the node of `a`,
/// the node of the inner conditional over `b`, `c` and `d`, and `e`.
pub proof fn lemma_nearest_else<P: PrattParser>(
    parser: &P,
    tokens: Seq<P::Input>,
    then_mark: Symbol,
    else_mark: Symbol,
)
    requires
        tokens.len() == 11,
        is_conditional(parser, tokens[0], then_mark, else_mark),
        is_operand(parser, tokens[1]),
        is_mark(parser, tokens[2], then_mark),
        is_conditional(parser, tokens[3], then_mark, else_mark),
        is_operand(parser, tokens[4]),
        is_mark(parser, tokens[5], then_mark),
        is_operand(parser, tokens[6]),
        is_mark(parser, tokens[7], else_mark),
        is_operand(parser, tokens[8]),
        is_mark(parser, tokens[9], else_mark),
        is_operand(parser, tokens[10]),
    ensures
        parse_from(parser, tokens, Precedence::lowest()) == (Outcome::<
            P::Input,
            P::Output,
            P::Error,
        > {
            result: Ok(
                ternary_of(
                    parser,
                    tokens[0],
                    parser.nullary_spec(tokens[1])->Ok_0,
                    ternary_of(
                        parser,
                        tokens[3],
                        parser.nullary_spec(tokens[4])->Ok_0,
                        parser.nullary_spec(tokens[6])->Ok_0,
                        parser.nullary_spec(tokens[8])->Ok_0,
                    ),
                    parser.nullary_spec(tokens[10])->Ok_0,
                ),
            ),
            rest: Seq::empty(),
        }),
{
    let op = op_of(parser, tokens[0]);
    let lowest = Precedence::lowest();
    let t1 = tokens.skip(1);
    let t2 = tokens.skip(2);
    let t3 = tokens.skip(3);
    let t9 = tokens.skip(9);
    let t10 = tokens.skip(10);
    let t11 = tokens.skip(11);
    assert(t1.skip(1) =~= t2 && t2.skip(1) =~= t3 && t3.skip(6) =~= t9 && t9.skip(1) =~= t10
        && t10.skip(1) =~= t11);
    assert(t1[0] == tokens[1] && t1[1] == tokens[2] && t2[0] == tokens[2]);
    assert(t3[0] == tokens[3] && t3[1] == tokens[4] && t3[2] == tokens[5] && t3[3] == tokens[6]
        && t3[4] == tokens[7] && t3[5] == tokens[8] && t3[6] == tokens[9]);
    assert(t9[0] == tokens[9] && t10[0] == tokens[10]);
    assert(t11 =~= Seq::<P::Input>::empty());
    let a = parser.nullary_spec(tokens[1])->Ok_0;
    let inner = ternary_of(
        parser,
        tokens[3],
        parser.nullary_spec(tokens[4])->Ok_0,
        parser.nullary_spec(tokens[6])->Ok_0,
        parser.nullary_spec(tokens[8])->Ok_0,
    );
    let e = parser.nullary_spec(tokens[10])->Ok_0;

    lemma_operand_ends_at_mark(parser, t1, then_mark, lowest);
    lemma_operand_takes_mark(parser, t1, lowest, op.follow, 0);
    lemma_conditional(parser, t3, then_mark, else_mark, lowest);
    lemma_operand_takes_mark(parser, t3, lowest, op.follow, 1);
    lemma_parse_begins_with_leaf(parser, t10, op.rbp());
    lemma_loop_stops(parser, e, t11, op.rbp(), Precedence::highest());
    lemma_parse_begins_with_ternary(parser, tokens, lowest, a, t3, inner, t10, e, t11);
    lemma_loop_stops(
        parser,
        ternary_of(parser, tokens[0], a, inner, e),
        t11,
        lowest,
        Precedence::highest(),
    );
}

} // verus!
