//! Operator descriptors and the binding powers derived from them.

use crate::precedence::{Arity, Associativity, Precedence};
use vstd::prelude::*;

verus! {

/// The identity of a separator token, as the client numbers them.
pub type Symbol = u32;

/// Where an operator's token stands relative to its operands.
#[derive(Copy, Clone, Debug, PartialEq, Eq, Structural)]
pub enum Affix {
    /// A leaf: no operand on either side.
    Nilfix,
    /// Before its operands.
    Prefix,
    /// After its first operand.
    Postfix,
    /// Between its first operand and the rest.
    Infix,
    /// Around its operand, closed by a separator.
    Circumfix,
    /// A separator inside a multi-part operator, with no operand of its own.
    Interfix,
    /// A leaf where an expression begins, and a postfix operator where one
    /// goes on.
    NilfixPostfix,
    /// A leaf where an expression begins, and an infix operator where one
    /// goes on.
    NilfixInfix,
}

impl Affix {
    /// The one affix that stands for both `self` and `other`: a leaf together
    /// with a postfix or an infix operator, in either order. No other two
    /// affixes share a descriptor: an operator that begins an expression and
    /// one that goes on with it need a precedence each.
    pub open spec fn combined(self, other: Affix) -> Option<Affix> {
        match (self, other) {
            (Affix::Nilfix, Affix::Postfix) | (Affix::Postfix, Affix::Nilfix) => Some(
                Affix::NilfixPostfix,
            ),
            (Affix::Nilfix, Affix::Infix) | (Affix::Infix, Affix::Nilfix) => Some(
                Affix::NilfixInfix,
            ),
            _ => None,
        }
    }

    /// The affix of a token where an expression goes on.
    pub open spec fn goes_on(self) -> Affix {
        match self {
            Affix::NilfixPostfix => Affix::Postfix,
            Affix::NilfixInfix => Affix::Infix,
            _ => self,
        }
    }

    /// Whether the affix stands for two.
    pub open spec fn is_composite(self) -> bool {
        self == Affix::NilfixPostfix || self == Affix::NilfixInfix
    }

    /// The one affix that stands for both `self` and `other`, where there is
    /// one.
    pub fn combine(self, other: Affix) -> (r: Option<Affix>)
        ensures
            r == self.combined(other),
    {
        match (self, other) {
            (Affix::Nilfix, Affix::Postfix) | (Affix::Postfix, Affix::Nilfix) => Some(
                Affix::NilfixPostfix,
            ),
            (Affix::Nilfix, Affix::Infix) | (Affix::Infix, Affix::Nilfix) => Some(
                Affix::NilfixInfix,
            ),
            _ => None,
        }
    }
}

/// What a client says of one token.
///
/// With a composite affix the token is a leaf where an expression begins, and
/// `arity` and the other fields describe it where an expression goes on.
/// `associativity` matters for operators that take an operand to their right
/// after a left one; `symbol` is the token's own identity where it is a
/// separator (`Interfix`) or may close itself (`Circumfix`); `follow` lists,
/// in order, the separators that a multi-part operator expects between its
/// operands.
#[derive(Debug)]
pub struct Op {
    pub affix: Affix,
    pub arity: Arity,
    pub precedence: Precedence,
    pub associativity: Associativity,
    pub symbol: Symbol,
    pub follow: Vec<Symbol>,
}

/// The mathematical value of an [`Op`].
pub ghost struct OpView {
    pub affix: Affix,
    pub arity: Arity,
    pub precedence: Precedence,
    pub associativity: Associativity,
    pub symbol: Symbol,
    pub follow: Seq<Symbol>,
}

impl View for Op {
    type V = OpView;

    open spec fn view(&self) -> OpView {
        OpView {
            affix: self.affix,
            arity: self.arity,
            precedence: self.precedence,
            associativity: self.associativity,
            symbol: self.symbol,
            follow: self.follow@,
        }
    }
}

impl OpView {
    /// A descriptor with no separators and no identity of its own.
    pub open spec fn plain(
        affix: Affix,
        arity: Arity,
        precedence: Precedence,
        associativity: Associativity,
    ) -> OpView {
        OpView { affix, arity, precedence, associativity, symbol: 0, follow: Seq::empty() }
    }

    /// The descriptor of the token where an expression begins: a token with
    /// a composite affix is a leaf there.
    pub open spec fn leading(self) -> OpView {
        if self.affix.is_composite() {
            OpView { affix: Affix::Nilfix, arity: Arity::Nullary, ..self }
        } else {
            self
        }
    }

    /// The descriptor of the token where an expression goes on: a token with
    /// a composite affix is a postfix or an infix operator there.
    pub open spec fn continuing(self) -> OpView {
        OpView { affix: self.affix.goes_on(), ..self }
    }

    /// Left binding power: how strongly the token binds to a value already
    /// parsed to its left. Only postfix and infix tokens can continue an
    /// expression; every other token has the weakest power.
    pub open spec fn lbp(self) -> Precedence {
        match self.affix.goes_on() {
            Affix::Postfix | Affix::Infix => self.precedence.normalized(),
            _ => Precedence::lowest(),
        }
    }

    /// Right binding power: the floor handed to the parse of the operand that
    /// closes the operator on its right.
    pub open spec fn rbp(self) -> Precedence {
        match self.affix.goes_on() {
            Affix::Prefix | Affix::Circumfix => self.precedence.normalized().lowered(),
            Affix::Postfix | Affix::Infix => match self.associativity {
                Associativity::Left => self.precedence.normalized(),
                Associativity::Right => self.precedence.normalized().lowered(),
                Associativity::Neither => self.precedence.normalized().raised(),
            },
            _ => Precedence::lowest(),
        }
    }

    /// Next binding power: the ceiling on the left binding power of the token
    /// that may continue the expression after this operator. A token with a
    /// composite affix is taken as the operator that it is where an
    /// expression goes on.
    pub open spec fn nbp(self) -> Precedence {
        match self.affix.goes_on() {
            Affix::Infix => match self.associativity {
                Associativity::Neither => self.precedence.normalized(),
                _ => self.precedence.normalized().raised(),
            },
            _ => Precedence::highest(),
        }
    }

    /// Whether a token with this descriptor is the separator `expected`.
    pub open spec fn is_separator(self, expected: Symbol) -> bool {
        (self.affix == Affix::Interfix || self.affix == Affix::Circumfix) && self.symbol
            == expected
    }
}

/// Taking a descriptor in a role changes nothing for a token with a plain
/// affix, taking it twice is taking it once, and the binding powers of a
/// descriptor are those of the operator that it is where an expression goes
/// on.
pub proof fn lemma_roles(op: OpView)
    ensures
        !op.affix.is_composite() ==> op.leading() == op && op.continuing() == op,
        op.leading().leading() == op.leading(),
        op.continuing().continuing() == op.continuing(),
        !op.leading().affix.is_composite(),
        !op.continuing().affix.is_composite(),
        op.continuing().lbp() == op.lbp(),
        op.continuing().rbp() == op.rbp(),
        op.continuing().nbp() == op.nbp(),
        op.leading().affix == Affix::Nilfix ==> op.leading().nbp() == Precedence::highest(),
{
}

impl Op {
    /// A leaf.
    pub fn nilfix() -> (r: Op)
        ensures
            r@ == OpView::plain(
                Affix::Nilfix,
                Arity::Nullary,
                Precedence::lowest(),
                Associativity::Left,
            ),
    {
        Op {
            affix: Affix::Nilfix,
            arity: Arity::Nullary,
            precedence: Precedence::min(),
            associativity: Associativity::Left,
            symbol: 0,
            follow: Vec::new(),
        }
    }

    /// A unary operator that stands before its operand.
    pub fn prefix(precedence: Precedence) -> (r: Op)
        ensures
            r@ == OpView::plain(Affix::Prefix, Arity::Unary, precedence, Associativity::Left),
    {
        Op {
            affix: Affix::Prefix,
            arity: Arity::Unary,
            precedence,
            associativity: Associativity::Left,
            symbol: 0,
            follow: Vec::new(),
        }
    }

    /// A unary operator that stands after its operand.
    pub fn postfix(precedence: Precedence) -> (r: Op)
        ensures
            r@ == OpView::plain(Affix::Postfix, Arity::Unary, precedence, Associativity::Left),
    {
        Op {
            affix: Affix::Postfix,
            arity: Arity::Unary,
            precedence,
            associativity: Associativity::Left,
            symbol: 0,
            follow: Vec::new(),
        }
    }

    /// A binary operator that stands between its operands.
    pub fn infix(precedence: Precedence, associativity: Associativity) -> (r: Op)
        ensures
            r@ == OpView::plain(Affix::Infix, Arity::Binary, precedence, associativity),
    {
        Op {
            affix: Affix::Infix,
            arity: Arity::Binary,
            precedence,
            associativity,
            symbol: 0,
            follow: Vec::new(),
        }
    }

    /// A ternary operator that opens with its own token and separates its
    /// three operands by `first` and `second`, as in `if a then b else c`.
    pub fn prefix_ternary(precedence: Precedence, first: Symbol, second: Symbol) -> (r: Op)
        ensures
            r@ == (OpView {
                follow: seq![first, second],
                ..OpView::plain(Affix::Prefix, Arity::Ternary, precedence, Associativity::Left)
            }),
    {
        let mut follow = Vec::new();
        follow.push(first);
        follow.push(second);
        assert(follow@ =~= seq![first, second]);
        Op {
            affix: Affix::Prefix,
            arity: Arity::Ternary,
            precedence,
            associativity: Associativity::Left,
            symbol: 0,
            follow,
        }
    }

    /// A ternary operator that stands after its first operand and separates
    /// the other two by `separator`, as in `a ? b : c`.
    pub fn infix_ternary(
        precedence: Precedence,
        associativity: Associativity,
        separator: Symbol,
    ) -> (r: Op)
        ensures
            r@ == (OpView {
                follow: seq![separator],
                ..OpView::plain(Affix::Infix, Arity::Ternary, precedence, associativity)
            }),
    {
        let mut follow = Vec::new();
        follow.push(separator);
        assert(follow@ =~= seq![separator]);
        Op {
            affix: Affix::Infix,
            arity: Arity::Ternary,
            precedence,
            associativity,
            symbol: 0,
            follow,
        }
    }

    /// Like [`Op::infix_ternary`], but the operator hands its place on to the
    /// next token as a postfix operator does.
    pub fn postfix_ternary(
        precedence: Precedence,
        associativity: Associativity,
        separator: Symbol,
    ) -> (r: Op)
        ensures
            r@ == (OpView {
                follow: seq![separator],
                ..OpView::plain(Affix::Postfix, Arity::Ternary, precedence, associativity)
            }),
    {
        let mut follow = Vec::new();
        follow.push(separator);
        assert(follow@ =~= seq![separator]);
        Op {
            affix: Affix::Postfix,
            arity: Arity::Ternary,
            precedence,
            associativity,
            symbol: 0,
            follow,
        }
    }

    /// A bracket with the identity `symbol` that wraps one operand and is
    /// closed by the separator `close`.
    pub fn circumfix(precedence: Precedence, symbol: Symbol, close: Symbol) -> (r: Op)
        ensures
            r@ == (OpView {
                symbol,
                follow: seq![close],
                ..OpView::plain(Affix::Circumfix, Arity::Unary, precedence, Associativity::Left)
            }),
    {
        let mut follow = Vec::new();
        follow.push(close);
        assert(follow@ =~= seq![close]);
        Op {
            affix: Affix::Circumfix,
            arity: Arity::Unary,
            precedence,
            associativity: Associativity::Left,
            symbol,
            follow,
        }
    }

    /// A separator with the identity `symbol`.
    pub fn interfix(symbol: Symbol) -> (r: Op)
        ensures
            r@ == (OpView {
                symbol,
                ..OpView::plain(
                    Affix::Interfix,
                    Arity::Nullary,
                    Precedence::lowest(),
                    Associativity::Left,
                )
            }),
    {
        Op {
            affix: Affix::Interfix,
            arity: Arity::Nullary,
            precedence: Precedence::min(),
            associativity: Associativity::Left,
            symbol,
            follow: Vec::new(),
        }
    }

    /// A token that is a leaf where an expression begins and a binary infix
    /// operator where one goes on.
    pub fn nilfix_or_infix(precedence: Precedence, associativity: Associativity) -> (r: Op)
        ensures
            r@ == OpView::plain(Affix::NilfixInfix, Arity::Binary, precedence, associativity),
    {
        Op {
            affix: Affix::NilfixInfix,
            arity: Arity::Binary,
            precedence,
            associativity,
            symbol: 0,
            follow: Vec::new(),
        }
    }

    /// A token that is a leaf where an expression begins and a unary postfix
    /// operator where one goes on.
    pub fn nilfix_or_postfix(precedence: Precedence) -> (r: Op)
        ensures
            r@ == OpView::plain(
                Affix::NilfixPostfix,
                Arity::Unary,
                precedence,
                Associativity::Left,
            ),
    {
        Op {
            affix: Affix::NilfixPostfix,
            arity: Arity::Unary,
            precedence,
            associativity: Associativity::Left,
            symbol: 0,
            follow: Vec::new(),
        }
    }

    /// The descriptor of the token where an expression begins.
    pub fn leading(self) -> (r: Op)
        ensures
            r@ == self@.leading(),
    {
        match self.affix {
            Affix::NilfixPostfix | Affix::NilfixInfix => Op {
                affix: Affix::Nilfix,
                arity: Arity::Nullary,
                precedence: self.precedence,
                associativity: self.associativity,
                symbol: self.symbol,
                follow: self.follow,
            },
            _ => self,
        }
    }

    /// The descriptor of the token where an expression goes on.
    pub fn continuing(self) -> (r: Op)
        ensures
            r@ == self@.continuing(),
    {
        match self.affix {
            Affix::NilfixPostfix => Op {
                affix: Affix::Postfix,
                arity: self.arity,
                precedence: self.precedence,
                associativity: self.associativity,
                symbol: self.symbol,
                follow: self.follow,
            },
            Affix::NilfixInfix => Op {
                affix: Affix::Infix,
                arity: self.arity,
                precedence: self.precedence,
                associativity: self.associativity,
                symbol: self.symbol,
                follow: self.follow,
            },
            _ => self,
        }
    }

    /// The affix and the arity of the token where an expression begins.
    pub fn leading_shape(&self) -> (r: (Affix, Arity))
        ensures
            r == (self@.leading().affix, self@.leading().arity),
    {
        match self.affix {
            Affix::NilfixPostfix | Affix::NilfixInfix => (Affix::Nilfix, Arity::Nullary),
            _ => (self.affix, self.arity),
        }
    }

    /// The affix and the arity of the token where an expression goes on.
    pub fn continuing_shape(&self) -> (r: (Affix, Arity))
        ensures
            r == (self@.continuing().affix, self@.continuing().arity),
    {
        match self.affix {
            Affix::NilfixPostfix => (Affix::Postfix, self.arity),
            Affix::NilfixInfix => (Affix::Infix, self.arity),
            _ => (self.affix, self.arity),
        }
    }

    /// Left binding power.
    pub fn lbp(&self) -> (r: Precedence)
        ensures
            r == self@.lbp(),
    {
        match self.affix {
            Affix::Postfix | Affix::Infix | Affix::NilfixPostfix | Affix::NilfixInfix =>
                self.precedence.normalize(),
            _ => Precedence::min(),
        }
    }

    /// Right binding power.
    pub fn rbp(&self) -> (r: Precedence)
        ensures
            r == self@.rbp(),
    {
        match self.affix {
            Affix::Nilfix | Affix::Interfix => Precedence::min(),
            Affix::Prefix | Affix::Circumfix => self.precedence.normalize().lower(),
            Affix::Postfix | Affix::Infix | Affix::NilfixPostfix | Affix::NilfixInfix => {
                match self.associativity {
                    Associativity::Left => self.precedence.normalize(),
                    Associativity::Right => self.precedence.normalize().lower(),
                    Associativity::Neither => self.precedence.normalize().raise(),
                }
            },
        }
    }

    /// Next binding power.
    pub fn nbp(&self) -> (r: Precedence)
        ensures
            r == self@.nbp(),
    {
        match self.affix {
            Affix::Infix | Affix::NilfixInfix => match self.associativity {
                Associativity::Neither => self.precedence.normalize(),
                _ => self.precedence.normalize().raise(),
            },
            _ => Precedence::max(),
        }
    }

    /// Whether this token is the separator `expected`.
    pub fn is_separator(&self, expected: Symbol) -> (r: bool)
        ensures
            r == self@.is_separator(expected),
    {
        (self.affix == Affix::Interfix || self.affix == Affix::Circumfix) && self.symbol
            == expected
    }
}

} // verus!
