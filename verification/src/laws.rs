//! What the engine yields on the smallest shapes of input, for every client.

use crate::engine::{
    continue_from, led_from, lemma_rest_is_suffix, lift, nud_from, parse_from, Outcome,
    PrattParser,
};
use crate::op::{lemma_roles, Affix, OpView};
use crate::precedence::{Arity, Associativity, Precedence, MAX_DECLARED};
use vstd::prelude::*;

verus! {

/// Whether the client classifies `token` as a leaf where an expression
/// begins.
pub open spec fn is_leaf<P: PrattParser>(parser: &P, token: P::Input) -> bool {
    parser.query_spec(token) matches Ok(op) && op.leading().affix == Affix::Nilfix
        && op.leading().arity == Arity::Nullary
}

/// Whether the client classifies `token` as an operator of the shape
/// `affix` and `arity`, where an expression begins or where one goes on.
pub open spec fn has_shape<P: PrattParser>(
    parser: &P,
    token: P::Input,
    affix: Affix,
    arity: Arity,
) -> bool {
    parser.query_spec(token) matches Ok(op) && ((op.leading().affix == affix && op.leading().arity
        == arity) || (op.continuing().affix == affix && op.continuing().arity == arity))
}

/// The descriptor that the client gives for `token`.
pub open spec fn op_of<P: PrattParser>(parser: &P, token: P::Input) -> OpView {
    parser.query_spec(token)->Ok_0
}

/// No tokens, no expression: the parse of an empty run fails with
/// `EmptyInput`, whatever the client.
pub proof fn lemma_empty_input<P: PrattParser>(parser: &P, rbp: Precedence)
    ensures
        parse_from(parser, Seq::<P::Input>::empty(), rbp) == (Outcome::<
            P::Input,
            P::Output,
            P::Error,
        > { result: Err(crate::error::PrattError::EmptyInput), rest: Seq::empty() }),
{
}

/// A leaf by itself parses to what the client builds for it, above every
/// binding power.
pub proof fn lemma_leaf_alone<P: PrattParser>(parser: &P, leaf: P::Input, rbp: Precedence)
    requires
        is_leaf(parser, leaf),
    ensures
        parse_from(parser, seq![leaf], rbp) == (Outcome::<P::Input, P::Output, P::Error> {
            result: lift(parser.nullary_spec(leaf)),
            rest: Seq::empty(),
        }),
{
    let tokens = seq![leaf];
    let none = Seq::<P::Input>::empty();
    assert(tokens.skip(1) =~= none);
    assert(tokens[0] == leaf);
    let op = op_of(parser, leaf);
    assert(nud_from(parser, leaf, op, none).rest == none);
    match parser.nullary_spec(leaf) {
        Ok(node) => {
            assert(continue_from(parser, node, none, rbp, op.nbp()).result == Ok::<
                P::Output,
                crate::error::PrattError<P::Input, P::Error>,
            >(node));
        },
        Err(_) => {},
    }
}

/// A prefix operator before a leaf parses to the operator's node over the
/// leaf's.
pub proof fn lemma_prefix_then_leaf<P: PrattParser>(
    parser: &P,
    sign: P::Input,
    leaf: P::Input,
    rbp: Precedence,
)
    requires
        has_shape(parser, sign, Affix::Prefix, Arity::Unary),
        is_leaf(parser, leaf),
        parser.nullary_spec(leaf) is Ok,
    ensures
        parse_from(parser, seq![sign, leaf], rbp) == (Outcome::<P::Input, P::Output, P::Error> {
            result: lift(parser.unary_spec(sign, parser.nullary_spec(leaf)->Ok_0)),
            rest: Seq::empty(),
        }),
{
    let tokens = seq![sign, leaf];
    let none = Seq::<P::Input>::empty();
    let op = op_of(parser, sign);
    assert(tokens.skip(1) =~= seq![leaf]);
    assert(tokens[0] == sign);
    lemma_leaf_alone(parser, leaf, op.rbp());
    let node = parser.nullary_spec(leaf)->Ok_0;
    let first = nud_from(parser, sign, op, seq![leaf]);
    assert(first.rest == none);
    assert(first.result == lift::<P::Input, P::Output, P::Error>(parser.unary_spec(sign, node)));
    match parser.unary_spec(sign, node) {
        Ok(built) => {
            assert(continue_from(parser, built, none, rbp, op.nbp()).result == Ok::<
                P::Output,
                crate::error::PrattError<P::Input, P::Error>,
            >(built));
        },
        Err(_) => {},
    }
}

/// A leaf before a postfix operator that binds above `rbp` parses to the
/// operator's node over the leaf's.
pub proof fn lemma_leaf_then_postfix<P: PrattParser>(
    parser: &P,
    leaf: P::Input,
    sign: P::Input,
    rbp: Precedence,
)
    requires
        is_leaf(parser, leaf),
        parser.nullary_spec(leaf) is Ok,
        has_shape(parser, sign, Affix::Postfix, Arity::Unary),
        rbp.below(op_of(parser, sign).lbp()),
        op_of(parser, sign).lbp().below(Precedence::highest()),
    ensures
        parse_from(parser, seq![leaf, sign], rbp) == (Outcome::<P::Input, P::Output, P::Error> {
            result: lift(parser.unary_spec(sign, parser.nullary_spec(leaf)->Ok_0)),
            rest: Seq::empty(),
        }),
{
    let tokens = seq![leaf, sign];
    let none = Seq::<P::Input>::empty();
    lemma_roles(op_of(parser, sign));
    lemma_roles(op_of(parser, leaf));
    let op = op_of(parser, sign).continuing();
    let leaf_op = op_of(parser, leaf).leading();
    let node = parser.nullary_spec(leaf)->Ok_0;
    assert(tokens.skip(1) =~= seq![sign]);
    assert(seq![sign].skip(1) =~= none);
    assert(tokens[0] == leaf);
    assert(seq![sign][0] == sign);
    assert(nud_from(parser, leaf, leaf_op, seq![sign]).rest == seq![sign]);
    let next = led_from(parser, sign, op, node, none);
    assert(next.rest == none);
    assert(next.result == lift::<P::Input, P::Output, P::Error>(parser.unary_spec(sign, node)));
    match parser.unary_spec(sign, node) {
        Ok(built) => {
            assert(continue_from(parser, built, none, rbp, op.nbp()).result == Ok::<
                P::Output,
                crate::error::PrattError<P::Input, P::Error>,
            >(built));
        },
        Err(_) => {},
    }
    assert(continue_from(parser, node, seq![sign], rbp, leaf_op.nbp()) == (Outcome::<
        P::Input,
        P::Output,
        P::Error,
    > { result: lift(parser.unary_spec(sign, node)), rest: none }));
}

/// A binary operator that binds above `rbp`, between two leaves, parses to
/// the operator's node over the leaves', whatever its associativity.
pub proof fn lemma_leaf_infix_leaf<P: PrattParser>(
    parser: &P,
    left: P::Input,
    sign: P::Input,
    right: P::Input,
    rbp: Precedence,
)
    requires
        is_leaf(parser, left),
        parser.nullary_spec(left) is Ok,
        has_shape(parser, sign, Affix::Infix, Arity::Binary),
        rbp.below(op_of(parser, sign).lbp()),
        op_of(parser, sign).lbp().below(Precedence::highest()),
        is_leaf(parser, right),
        parser.nullary_spec(right) is Ok,
    ensures
        parse_from(parser, seq![left, sign, right], rbp) == (Outcome::<
            P::Input,
            P::Output,
            P::Error,
        > {
            result: lift(
                parser.binary_spec(
                    sign,
                    parser.nullary_spec(left)->Ok_0,
                    parser.nullary_spec(right)->Ok_0,
                ),
            ),
            rest: Seq::empty(),
        }),
{
    let tokens = seq![left, sign, right];
    let none = Seq::<P::Input>::empty();
    lemma_roles(op_of(parser, sign));
    lemma_roles(op_of(parser, left));
    let op = op_of(parser, sign).continuing();
    let left_op = op_of(parser, left).leading();
    let lhs = parser.nullary_spec(left)->Ok_0;
    let rhs = parser.nullary_spec(right)->Ok_0;
    let behind = seq![sign, right];
    assert(tokens.skip(1) =~= behind);
    assert(behind.skip(1) =~= seq![right]);
    assert(tokens[0] == left);
    assert(behind[0] == sign);
    assert(nud_from(parser, left, left_op, behind).rest == behind);
    lemma_leaf_alone(parser, right, op.rbp());
    let next = led_from(parser, sign, op, lhs, seq![right]);
    assert(next.rest == none);
    assert(next.result == lift::<P::Input, P::Output, P::Error>(
        parser.binary_spec(sign, lhs, rhs),
    ));
    match parser.binary_spec(sign, lhs, rhs) {
        Ok(built) => {
            assert(continue_from(parser, built, none, rbp, op.nbp()).result == Ok::<
                P::Output,
                crate::error::PrattError<P::Input, P::Error>,
            >(built));
        },
        Err(_) => {},
    }
    assert(continue_from(parser, lhs, behind, rbp, left_op.nbp()) == (Outcome::<
        P::Input,
        P::Output,
        P::Error,
    > { result: lift(parser.binary_spec(sign, lhs, rhs)), rest: none }));
}

/// A token that is both a leaf and a binary operator is read by its place:
/// of three in a row the one in the middle is the operator, over the other
/// two as leaves.
pub proof fn lemma_composite_by_place<P: PrattParser>(parser: &P, word: P::Input, rbp: Precedence)
    requires
        parser.query_spec(word) matches Ok(op) && op.affix == Affix::NilfixInfix && op.arity
            == Arity::Binary,
        parser.nullary_spec(word) is Ok,
        rbp.below(op_of(parser, word).lbp()),
        op_of(parser, word).lbp().below(Precedence::highest()),
    ensures
        parse_from(parser, seq![word, word, word], rbp) == (Outcome::<
            P::Input,
            P::Output,
            P::Error,
        > {
            result: lift(
                parser.binary_spec(
                    word,
                    parser.nullary_spec(word)->Ok_0,
                    parser.nullary_spec(word)->Ok_0,
                ),
            ),
            rest: Seq::empty(),
        }),
{
    lemma_leaf_infix_leaf(parser, word, word, word, rbp);
}

/// A parse that begins with a leaf goes on from the leaf's node with every
/// continuation allowed.
pub proof fn lemma_parse_begins_with_leaf<P: PrattParser>(
    parser: &P,
    tokens: Seq<P::Input>,
    rbp: Precedence,
)
    requires
        tokens.len() > 0,
        is_leaf(parser, tokens[0]),
        parser.nullary_spec(tokens[0]) is Ok,
    ensures
        parse_from(parser, tokens, rbp) == continue_from(
            parser,
            parser.nullary_spec(tokens[0])->Ok_0,
            tokens.skip(1),
            rbp,
            Precedence::highest(),
        ),
{
}

/// The loop takes a binary operator whose left binding power lies strictly
/// between `rbp` and `nbp`, parses its right operand, and goes on from the
/// node of the two.
pub proof fn lemma_loop_takes_infix<P: PrattParser>(
    parser: &P,
    node: P::Output,
    tokens: Seq<P::Input>,
    rbp: Precedence,
    nbp: Precedence,
)
    requires
        tokens.len() > 0,
        has_shape(parser, tokens[0], Affix::Infix, Arity::Binary),
        rbp.below(op_of(parser, tokens[0]).lbp()),
        op_of(parser, tokens[0]).lbp().below(nbp),
        parse_from(parser, tokens.skip(1), op_of(parser, tokens[0]).rbp()).result is Ok,
        parser.binary_spec(
            tokens[0],
            node,
            parse_from(parser, tokens.skip(1), op_of(parser, tokens[0]).rbp()).result->Ok_0,
        ) is Ok,
    ensures
        continue_from(parser, node, tokens, rbp, nbp) == continue_from(
            parser,
            parser.binary_spec(
                tokens[0],
                node,
                parse_from(parser, tokens.skip(1), op_of(parser, tokens[0]).rbp()).result->Ok_0,
            )->Ok_0,
            parse_from(parser, tokens.skip(1), op_of(parser, tokens[0]).rbp()).rest,
            rbp,
            op_of(parser, tokens[0]).nbp(),
        ),
{
    lemma_roles(op_of(parser, tokens[0]));
    let op = op_of(parser, tokens[0]).continuing();
    lemma_rest_is_suffix(parser, tokens.skip(1), op.rbp());
    let right = parse_from(parser, tokens.skip(1), op.rbp());
    let next = led_from(parser, tokens[0], op, node, tokens.skip(1));
    assert(next.rest == right.rest);
}

/// A parse that begins with a prefix operator parses the operand above the
/// operator's right binding power and goes on from the node of the two with
/// every continuation allowed.
pub proof fn lemma_parse_begins_with_prefix<P: PrattParser>(
    parser: &P,
    tokens: Seq<P::Input>,
    rbp: Precedence,
)
    requires
        tokens.len() > 0,
        has_shape(parser, tokens[0], Affix::Prefix, Arity::Unary),
        parse_from(parser, tokens.skip(1), op_of(parser, tokens[0]).rbp()).result is Ok,
        parser.unary_spec(
            tokens[0],
            parse_from(parser, tokens.skip(1), op_of(parser, tokens[0]).rbp()).result->Ok_0,
        ) is Ok,
    ensures
        parse_from(parser, tokens, rbp) == continue_from(
            parser,
            parser.unary_spec(
                tokens[0],
                parse_from(parser, tokens.skip(1), op_of(parser, tokens[0]).rbp()).result->Ok_0,
            )->Ok_0,
            parse_from(parser, tokens.skip(1), op_of(parser, tokens[0]).rbp()).rest,
            rbp,
            Precedence::highest(),
        ),
{
    let op = op_of(parser, tokens[0]);
    lemma_rest_is_suffix(parser, tokens.skip(1), op.rbp());
    let operand = parse_from(parser, tokens.skip(1), op.rbp());
    let first = nud_from(parser, tokens[0], op, tokens.skip(1));
    assert(first.rest == operand.rest);
}

/// The loop takes a postfix operator whose left binding power lies strictly
/// between `rbp` and `nbp`, and goes on from its node with every
/// continuation allowed.
pub proof fn lemma_loop_takes_postfix<P: PrattParser>(
    parser: &P,
    node: P::Output,
    tokens: Seq<P::Input>,
    rbp: Precedence,
    nbp: Precedence,
)
    requires
        tokens.len() > 0,
        has_shape(parser, tokens[0], Affix::Postfix, Arity::Unary),
        rbp.below(op_of(parser, tokens[0]).lbp()),
        op_of(parser, tokens[0]).lbp().below(nbp),
        parser.unary_spec(tokens[0], node) is Ok,
    ensures
        continue_from(parser, node, tokens, rbp, nbp) == continue_from(
            parser,
            parser.unary_spec(tokens[0], node)->Ok_0,
            tokens.skip(1),
            rbp,
            Precedence::highest(),
        ),
{
    lemma_roles(op_of(parser, tokens[0]));
    let op = op_of(parser, tokens[0]).continuing();
    let next = led_from(parser, tokens[0], op, node, tokens.skip(1));
    assert(next.rest == tokens.skip(1));
}

/// The loop stops before a token whose left binding power does not lie
/// strictly between `rbp` and `nbp`, and at the end of the tokens.
pub proof fn lemma_loop_stops<P: PrattParser>(
    parser: &P,
    node: P::Output,
    tokens: Seq<P::Input>,
    rbp: Precedence,
    nbp: Precedence,
)
    requires
        tokens.len() > 0 ==> parser.query_spec(tokens[0]) is Ok && !(rbp.below(
            op_of(parser, tokens[0]).lbp(),
        ) && op_of(parser, tokens[0]).lbp().below(nbp)),
    ensures
        continue_from(parser, node, tokens, rbp, nbp) == (Outcome::<P::Input, P::Output, P::Error> {
            result: Ok(node),
            rest: tokens,
        }),
{
}

/// The node that the client builds for the binary operator `sign`.
pub open spec fn node_of<P: PrattParser>(
    parser: &P,
    sign: P::Input,
    lhs: P::Output,
    rhs: P::Output,
) -> P::Output {
    parser.binary_spec(sign, lhs, rhs)->Ok_0
}

/// Whether the client classifies `token` as a binary infix operator for
/// which it builds a node over every pair of operands.
pub open spec fn is_binary<P: PrattParser>(parser: &P, token: P::Input) -> bool {
    &&& has_shape(parser, token, Affix::Infix, Arity::Binary)
    &&& forall|lhs: P::Output, rhs: P::Output| #[trigger] parser.binary_spec(token, lhs, rhs) is Ok
}

/// Whether the client classifies `token` as a leaf for which it builds a
/// node.
pub open spec fn is_operand<P: PrattParser>(parser: &P, token: P::Input) -> bool {
    is_leaf(parser, token) && parser.nullary_spec(token) is Ok
}

/// How two binary operators in a row nest, `a first b second c`:
///
/// - where `second` binds above the right binding power of `first`, it takes
///   `b`, and `first` takes the node of `second` as its right operand;
/// - else, where `second` binds above `rbp` and below the next binding power
///   of `first`, `first` takes `b`, and `second` takes the node of `first` as
///   its left operand;
/// - else the parse stops behind `b` and leaves `second c` unread.
pub proof fn lemma_two_infix<P: PrattParser>(
    parser: &P,
    a: P::Input,
    first: P::Input,
    b: P::Input,
    second: P::Input,
    c: P::Input,
    rbp: Precedence,
)
    requires
        is_operand(parser, a),
        is_operand(parser, b),
        is_operand(parser, c),
        is_binary(parser, first),
        is_binary(parser, second),
        rbp.below(op_of(parser, first).lbp()),
        op_of(parser, first).lbp().below(Precedence::highest()),
        op_of(parser, second).lbp().below(Precedence::highest()),
    ensures
        ({
            let x = parser.nullary_spec(a)->Ok_0;
            let y = parser.nullary_spec(b)->Ok_0;
            let z = parser.nullary_spec(c)->Ok_0;
            let one = op_of(parser, first);
            let two = op_of(parser, second);
            parse_from(parser, seq![a, first, b, second, c], rbp) == if one.rbp().below(
                two.lbp(),
            ) {
                Outcome::<P::Input, P::Output, P::Error> {
                    result: Ok(node_of(parser, first, x, node_of(parser, second, y, z))),
                    rest: Seq::empty(),
                }
            } else if rbp.below(two.lbp()) && two.lbp().below(one.nbp()) {
                Outcome::<P::Input, P::Output, P::Error> {
                    result: Ok(node_of(parser, second, node_of(parser, first, x, y), z)),
                    rest: Seq::empty(),
                }
            } else {
                Outcome::<P::Input, P::Output, P::Error> {
                    result: Ok(node_of(parser, first, x, y)),
                    rest: seq![second, c],
                }
            }
        }),
{
    let x = parser.nullary_spec(a)->Ok_0;
    let y = parser.nullary_spec(b)->Ok_0;
    let z = parser.nullary_spec(c)->Ok_0;
    let one = op_of(parser, first);
    let two = op_of(parser, second);
    let highest = Precedence::highest();
    let t0 = seq![a, first, b, second, c];
    let t1 = seq![first, b, second, c];
    let t2 = seq![b, second, c];
    let t3 = seq![second, c];
    let t4 = seq![c];
    let t5 = Seq::<P::Input>::empty();
    assert(t0.skip(1) =~= t1);
    assert(t1.skip(1) =~= t2);
    assert(t2.skip(1) =~= t3);
    assert(t3.skip(1) =~= t4);
    assert(t4.skip(1) =~= t5);
    assert(t0[0] == a && t1[0] == first && t2[0] == b && t3[0] == second && t4[0] == c);

    lemma_parse_begins_with_leaf(parser, t0, rbp);
    lemma_parse_begins_with_leaf(parser, t2, one.rbp());
    lemma_leaf_alone(parser, c, two.rbp());
    if one.rbp().below(two.lbp()) {
        let inner = node_of(parser, second, y, z);
        assert(parser.binary_spec(second, y, z) is Ok);
        lemma_loop_takes_infix(parser, y, t3, one.rbp(), highest);
        lemma_loop_stops(parser, inner, t5, one.rbp(), two.nbp());
        assert(parse_from(parser, t2, one.rbp()) == (Outcome::<P::Input, P::Output, P::Error> {
            result: Ok(inner),
            rest: t5,
        }));
        assert(parser.binary_spec(first, x, inner) is Ok);
        lemma_loop_takes_infix(parser, x, t1, rbp, highest);
        lemma_loop_stops(parser, node_of(parser, first, x, inner), t5, rbp, one.nbp());
    } else {
        lemma_loop_stops(parser, y, t3, one.rbp(), highest);
        assert(parse_from(parser, t2, one.rbp()) == (Outcome::<P::Input, P::Output, P::Error> {
            result: Ok(y),
            rest: t3,
        }));
        let outer = node_of(parser, first, x, y);
        assert(parser.binary_spec(first, x, y) is Ok);
        lemma_loop_takes_infix(parser, x, t1, rbp, highest);
        if rbp.below(two.lbp()) && two.lbp().below(one.nbp()) {
            assert(parser.binary_spec(second, outer, z) is Ok);
            lemma_loop_takes_infix(parser, outer, t3, rbp, one.nbp());
            lemma_loop_stops(parser, node_of(parser, second, outer, z), t5, rbp, two.nbp());
        } else {
            lemma_loop_stops(parser, outer, t3, rbp, one.nbp());
        }
    }
}

/// Whether the client declares `token` at `level`, a level from 1 to
/// [`MAX_DECLARED`], nesting as `associativity` says.
pub open spec fn is_declared<P: PrattParser>(
    parser: &P,
    token: P::Input,
    level: Precedence,
    associativity: Associativity,
) -> bool {
    &&& is_binary(parser, token)
    &&& op_of(parser, token).precedence == level
    &&& op_of(parser, token).associativity == associativity
    &&& 1 <= level.0 <= MAX_DECLARED
}

/// Two left-associative operators of one level nest to the left:
/// `a first b second c` is `(a first b) second c`.
pub proof fn lemma_left_associative<P: PrattParser>(
    parser: &P,
    a: P::Input,
    first: P::Input,
    b: P::Input,
    second: P::Input,
    c: P::Input,
    level: Precedence,
)
    requires
        is_operand(parser, a),
        is_operand(parser, b),
        is_operand(parser, c),
        is_declared(parser, first, level, Associativity::Left),
        is_declared(parser, second, level, Associativity::Left),
    ensures
        parse_from(parser, seq![a, first, b, second, c], Precedence::lowest()) == (Outcome::<
            P::Input,
            P::Output,
            P::Error,
        > {
            result: Ok(
                node_of(
                    parser,
                    second,
                    node_of(
                        parser,
                        first,
                        parser.nullary_spec(a)->Ok_0,
                        parser.nullary_spec(b)->Ok_0,
                    ),
                    parser.nullary_spec(c)->Ok_0,
                ),
            ),
            rest: Seq::empty(),
        }),
{
    lemma_two_infix(parser, a, first, b, second, c, Precedence::lowest());
}

/// Two right-associative operators of one level nest to the right:
/// `a first b second c` is `a first (b second c)`.
pub proof fn lemma_right_associative<P: PrattParser>(
    parser: &P,
    a: P::Input,
    first: P::Input,
    b: P::Input,
    second: P::Input,
    c: P::Input,
    level: Precedence,
)
    requires
        is_operand(parser, a),
        is_operand(parser, b),
        is_operand(parser, c),
        is_declared(parser, first, level, Associativity::Right),
        is_declared(parser, second, level, Associativity::Right),
    ensures
        parse_from(parser, seq![a, first, b, second, c], Precedence::lowest()) == (Outcome::<
            P::Input,
            P::Output,
            P::Error,
        > {
            result: Ok(
                node_of(
                    parser,
                    first,
                    parser.nullary_spec(a)->Ok_0,
                    node_of(
                        parser,
                        second,
                        parser.nullary_spec(b)->Ok_0,
                        parser.nullary_spec(c)->Ok_0,
                    ),
                ),
            ),
            rest: Seq::empty(),
        }),
{
    lemma_two_infix(parser, a, first, b, second, c, Precedence::lowest());
}

/// Two operators of one level that are not associative do not nest: of
/// `a first b second c` the parse builds `a first b` and leaves `second c`
/// unread.
pub proof fn lemma_not_associative<P: PrattParser>(
    parser: &P,
    a: P::Input,
    first: P::Input,
    b: P::Input,
    second: P::Input,
    c: P::Input,
    level: Precedence,
)
    requires
        is_operand(parser, a),
        is_operand(parser, b),
        is_operand(parser, c),
        is_declared(parser, first, level, Associativity::Neither),
        is_declared(parser, second, level, Associativity::Neither),
    ensures
        parse_from(parser, seq![a, first, b, second, c], Precedence::lowest()) == (Outcome::<
            P::Input,
            P::Output,
            P::Error,
        > {
            result: Ok(
                node_of(
                    parser,
                    first,
                    parser.nullary_spec(a)->Ok_0,
                    parser.nullary_spec(b)->Ok_0,
                ),
            ),
            rest: seq![second, c],
        }),
{
    lemma_two_infix(parser, a, first, b, second, c, Precedence::lowest());
}

/// Of two operators of different levels the one with the higher level takes
/// the operand between them, whatever their associativity.
pub proof fn lemma_higher_level_binds_tighter<P: PrattParser>(
    parser: &P,
    a: P::Input,
    first: P::Input,
    b: P::Input,
    second: P::Input,
    c: P::Input,
)
    requires
        is_operand(parser, a),
        is_operand(parser, b),
        is_operand(parser, c),
        is_declared(
            parser,
            first,
            op_of(parser, first).precedence,
            op_of(parser, first).associativity,
        ),
        is_declared(
            parser,
            second,
            op_of(parser, second).precedence,
            op_of(parser, second).associativity,
        ),
        op_of(parser, first).precedence != op_of(parser, second).precedence,
    ensures
        ({
            let x = parser.nullary_spec(a)->Ok_0;
            let y = parser.nullary_spec(b)->Ok_0;
            let z = parser.nullary_spec(c)->Ok_0;
            parse_from(parser, seq![a, first, b, second, c], Precedence::lowest()) == (Outcome::<
                P::Input,
                P::Output,
                P::Error,
            > {
                result: Ok(
                    if op_of(parser, first).precedence.below(op_of(parser, second).precedence) {
                        node_of(parser, first, x, node_of(parser, second, y, z))
                    } else {
                        node_of(parser, second, node_of(parser, first, x, y), z)
                    },
                ),
                rest: Seq::empty(),
            })
        }),
{
    lemma_two_infix(parser, a, first, b, second, c, Precedence::lowest());
}

} // verus!
