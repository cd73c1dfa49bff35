//! Arithmetic expressions, and the client that builds them from token trees
//! with the engine.
//!
//! The operators, from the loosest to the tightest:
//!
//! | operator   | shape   | level | nests   |
//! |------------|---------|-------|---------|
//! | `=`        | infix   | 2     | neither |
//! | `+` `-`    | infix   | 3     | left    |
//! | `*` `/`    | infix   | 4     | left    |
//! | `?`        | postfix | 5     |         |
//! | `-` `!`    | prefix  | 6     |         |
//! | `^`        | infix   | 7     | right   |

use crate::engine::{parse, parse_from, PrattParser};
use crate::error::PrattError;
use crate::op::{Affix, Op, OpView};
use crate::precedence::{Arity, Associativity, Precedence};
use crate::stream::Tokens;
use crate::token_tree::{trees_of, TokenTree, Tree};
use vstd::prelude::*;

verus! {

/// An arithmetic expression.
#[derive(Debug, PartialEq, Eq)]
pub enum Expr {
    BinOp(Box<Expr>, BinOpKind, Box<Expr>),
    UnOp(UnOpKind, Box<Expr>),
    Int(i32),
}

/// A binary operator.
#[derive(Debug, Copy, Clone, PartialEq, Eq, Structural)]
pub enum BinOpKind {
    Add,
    Sub,
    Mul,
    Div,
    Pow,
    Eq,
}

/// A unary operator.
#[derive(Debug, Copy, Clone, PartialEq, Eq, Structural)]
pub enum UnOpKind {
    Not,
    Neg,
    Try,
}

/// Why an expression could not be built.
#[derive(Debug, Copy, Clone, PartialEq, Eq, Structural)]
pub enum ExprError {
    /// An operator token with a sign that the grammar does not have.
    UnknownOperator,
    /// A token handed to the builder of another shape.
    Misplaced,
    /// A bracketed part that is no expression.
    InvalidGroup,
}

/// A token as the expression parser reads it: an operator, a number, or a
/// bracketed part with what it parses to.
#[derive(Debug, PartialEq, Eq)]
pub enum Atom {
    Prefix(char),
    Postfix(char),
    Infix(char),
    Primary(i32),
    Group(Result<Expr, ExprError>),
}

impl BinOpKind {
    /// The operator that the sign `c` stands for between two operands.
    pub open spec fn of_sign(c: char) -> Option<BinOpKind> {
        if c == '+' {
            Some(BinOpKind::Add)
        } else if c == '-' {
            Some(BinOpKind::Sub)
        } else if c == '*' {
            Some(BinOpKind::Mul)
        } else if c == '/' {
            Some(BinOpKind::Div)
        } else if c == '^' {
            Some(BinOpKind::Pow)
        } else if c == '=' {
            Some(BinOpKind::Eq)
        } else {
            None
        }
    }

    /// The sign of the operator.
    pub open spec fn spec_sign(self) -> char {
        match self {
            BinOpKind::Add => '+',
            BinOpKind::Sub => '-',
            BinOpKind::Mul => '*',
            BinOpKind::Div => '/',
            BinOpKind::Pow => '^',
            BinOpKind::Eq => '=',
        }
    }

    /// The declared precedence level of the operator.
    pub open spec fn spec_level(self) -> Precedence {
        match self {
            BinOpKind::Eq => Precedence(2),
            BinOpKind::Add | BinOpKind::Sub => Precedence(3),
            BinOpKind::Mul | BinOpKind::Div => Precedence(4),
            BinOpKind::Pow => Precedence(7),
        }
    }

    /// How the operator nests with itself.
    pub open spec fn spec_associativity(self) -> Associativity {
        match self {
            BinOpKind::Eq => Associativity::Neither,
            BinOpKind::Pow => Associativity::Right,
            _ => Associativity::Left,
        }
    }

    /// The operator that the sign `c` stands for between two operands.
    pub fn from_sign(c: char) -> (r: Option<BinOpKind>)
        ensures
            r == BinOpKind::of_sign(c),
    {
        if c == '+' {
            Some(BinOpKind::Add)
        } else if c == '-' {
            Some(BinOpKind::Sub)
        } else if c == '*' {
            Some(BinOpKind::Mul)
        } else if c == '/' {
            Some(BinOpKind::Div)
        } else if c == '^' {
            Some(BinOpKind::Pow)
        } else if c == '=' {
            Some(BinOpKind::Eq)
        } else {
            None
        }
    }

    /// The sign of the operator.
    pub fn sign(self) -> (c: char)
        ensures
            c == self.spec_sign(),
            BinOpKind::of_sign(c) == Some(self),
    {
        match self {
            BinOpKind::Add => '+',
            BinOpKind::Sub => '-',
            BinOpKind::Mul => '*',
            BinOpKind::Div => '/',
            BinOpKind::Pow => '^',
            BinOpKind::Eq => '=',
        }
    }

    /// The declared precedence level of the operator.
    pub fn level(self) -> (p: Precedence)
        ensures
            p == self.spec_level(),
    {
        match self {
            BinOpKind::Eq => Precedence(2),
            BinOpKind::Add | BinOpKind::Sub => Precedence(3),
            BinOpKind::Mul | BinOpKind::Div => Precedence(4),
            BinOpKind::Pow => Precedence(7),
        }
    }

    /// How the operator nests with itself.
    pub fn associativity(self) -> (a: Associativity)
        ensures
            a == self.spec_associativity(),
    {
        match self {
            BinOpKind::Eq => Associativity::Neither,
            BinOpKind::Pow => Associativity::Right,
            _ => Associativity::Left,
        }
    }
}

/// The declared precedence level of the postfix operators.
pub const POSTFIX_LEVEL: u32 = 5;

/// The declared precedence level of the prefix operators.
pub const PREFIX_LEVEL: u32 = 6;

impl UnOpKind {
    /// The operator that the sign `c` stands for before its operand.
    pub open spec fn of_prefix(c: char) -> Option<UnOpKind> {
        if c == '!' {
            Some(UnOpKind::Not)
        } else if c == '-' {
            Some(UnOpKind::Neg)
        } else {
            None
        }
    }

    /// The operator that the sign `c` stands for after its operand.
    pub open spec fn of_postfix(c: char) -> Option<UnOpKind> {
        if c == '?' {
            Some(UnOpKind::Try)
        } else {
            None
        }
    }

    /// The operator that the sign `c` stands for before its operand.
    pub fn from_prefix(c: char) -> (r: Option<UnOpKind>)
        ensures
            r == UnOpKind::of_prefix(c),
    {
        if c == '!' {
            Some(UnOpKind::Not)
        } else if c == '-' {
            Some(UnOpKind::Neg)
        } else {
            None
        }
    }

    /// The operator that the sign `c` stands for after its operand.
    pub fn from_postfix(c: char) -> (r: Option<UnOpKind>)
        ensures
            r == UnOpKind::of_postfix(c),
    {
        if c == '?' {
            Some(UnOpKind::Try)
        } else {
            None
        }
    }
}

/// What the expression grammar says of one token.
pub open spec fn classify(atom: Atom) -> Result<OpView, ExprError> {
    match atom {
        Atom::Primary(_) | Atom::Group(_) => Ok(
            OpView::plain(
                Affix::Nilfix,
                Arity::Nullary,
                Precedence::lowest(),
                Associativity::Left,
            ),
        ),
        Atom::Prefix(c) => match UnOpKind::of_prefix(c) {
            Some(_) => Ok(
                OpView::plain(
                    Affix::Prefix,
                    Arity::Unary,
                    Precedence(PREFIX_LEVEL),
                    Associativity::Left,
                ),
            ),
            None => Err(ExprError::UnknownOperator),
        },
        Atom::Postfix(c) => match UnOpKind::of_postfix(c) {
            Some(_) => Ok(
                OpView::plain(
                    Affix::Postfix,
                    Arity::Unary,
                    Precedence(POSTFIX_LEVEL),
                    Associativity::Left,
                ),
            ),
            None => Err(ExprError::UnknownOperator),
        },
        Atom::Infix(c) => match BinOpKind::of_sign(c) {
            Some(kind) => Ok(
                OpView::plain(
                    Affix::Infix,
                    Arity::Binary,
                    kind.spec_level(),
                    kind.spec_associativity(),
                ),
            ),
            None => Err(ExprError::UnknownOperator),
        },
    }
}

/// The expression of an operand token.
pub open spec fn leaf(atom: Atom) -> Result<Expr, ExprError> {
    match atom {
        Atom::Primary(n) => Ok(Expr::Int(n)),
        Atom::Group(Ok(inner)) => Ok(inner),
        Atom::Group(Err(_)) => Err(ExprError::InvalidGroup),
        _ => Err(ExprError::Misplaced),
    }
}

/// The expression of a unary operator token over its operand.
pub open spec fn apply_unary(op: Atom, operand: Expr) -> Result<Expr, ExprError> {
    match op {
        Atom::Prefix(c) => match UnOpKind::of_prefix(c) {
            Some(kind) => Ok(Expr::UnOp(kind, Box::new(operand))),
            None => Err(ExprError::UnknownOperator),
        },
        Atom::Postfix(c) => match UnOpKind::of_postfix(c) {
            Some(kind) => Ok(Expr::UnOp(kind, Box::new(operand))),
            None => Err(ExprError::UnknownOperator),
        },
        _ => Err(ExprError::Misplaced),
    }
}

/// The expression of a binary operator token over its operands.
pub open spec fn apply_binary(op: Atom, lhs: Expr, rhs: Expr) -> Result<Expr, ExprError> {
    match op {
        Atom::Infix(c) => match BinOpKind::of_sign(c) {
            Some(kind) => Ok(Expr::BinOp(Box::new(lhs), kind, Box::new(rhs))),
            None => Err(ExprError::UnknownOperator),
        },
        _ => Err(ExprError::Misplaced),
    }
}

/// The client for arithmetic expressions.
#[derive(Debug, Copy, Clone)]
pub struct ExprParser;

impl PrattParser for ExprParser {
    type Input = Atom;

    type Output = Expr;

    type Error = ExprError;

    open spec fn query_spec(&self, input: Atom) -> Result<OpView, ExprError> {
        classify(input)
    }

    open spec fn nullary_spec(&self, token: Atom) -> Result<Expr, ExprError> {
        leaf(token)
    }

    open spec fn unary_spec(&self, op: Atom, operand: Expr) -> Result<Expr, ExprError> {
        apply_unary(op, operand)
    }

    open spec fn binary_spec(&self, op: Atom, lhs: Expr, rhs: Expr) -> Result<Expr, ExprError> {
        apply_binary(op, lhs, rhs)
    }

    open spec fn ternary_spec(&self, op: Atom, a: Expr, b: Expr, c: Expr) -> Result<
        Expr,
        ExprError,
    > {
        Err(ExprError::Misplaced)
    }

    fn query(&self, input: &Atom) -> (r: Result<Op, ExprError>) {
        match input {
            Atom::Primary(_) | Atom::Group(_) => Ok(Op::nilfix()),
            Atom::Prefix(c) => match UnOpKind::from_prefix(*c) {
                Some(_) => Ok(Op::prefix(Precedence(PREFIX_LEVEL))),
                None => Err(ExprError::UnknownOperator),
            },
            Atom::Postfix(c) => match UnOpKind::from_postfix(*c) {
                Some(_) => Ok(Op::postfix(Precedence(POSTFIX_LEVEL))),
                None => Err(ExprError::UnknownOperator),
            },
            Atom::Infix(c) => match BinOpKind::from_sign(*c) {
                Some(kind) => Ok(Op::infix(kind.level(), kind.associativity())),
                None => Err(ExprError::UnknownOperator),
            },
        }
    }

    fn nullary(&self, token: Atom) -> (r: Result<Expr, ExprError>) {
        match token {
            Atom::Primary(n) => Ok(Expr::Int(n)),
            Atom::Group(Ok(inner)) => Ok(inner),
            Atom::Group(Err(_)) => Err(ExprError::InvalidGroup),
            _ => Err(ExprError::Misplaced),
        }
    }

    fn unary(&self, op: Atom, operand: Expr) -> (r: Result<Expr, ExprError>) {
        match op {
            Atom::Prefix(c) => match UnOpKind::from_prefix(c) {
                Some(kind) => Ok(Expr::UnOp(kind, Box::new(operand))),
                None => Err(ExprError::UnknownOperator),
            },
            Atom::Postfix(c) => match UnOpKind::from_postfix(c) {
                Some(kind) => Ok(Expr::UnOp(kind, Box::new(operand))),
                None => Err(ExprError::UnknownOperator),
            },
            _ => Err(ExprError::Misplaced),
        }
    }

    fn binary(&self, op: Atom, lhs: Expr, rhs: Expr) -> (r: Result<Expr, ExprError>) {
        match op {
            Atom::Infix(c) => match BinOpKind::from_sign(c) {
                Some(kind) => Ok(Expr::BinOp(Box::new(lhs), kind, Box::new(rhs))),
                None => Err(ExprError::UnknownOperator),
            },
            _ => Err(ExprError::Misplaced),
        }
    }

    fn ternary(&self, op: Atom, a: Expr, b: Expr, c: Expr) -> (r: Result<Expr, ExprError>) {
        Err(ExprError::Misplaced)
    }
}

/// What a bracketed part hands to the expression around it: its expression,
/// or the one failure that stands for every way in which it is none.
pub open spec fn settle(inner: Result<Expr, PrattError<Atom, ExprError>>) -> Result<
    Expr,
    ExprError,
> {
    match inner {
        Ok(e) => Ok(e),
        Err(_) => Err(ExprError::InvalidGroup),
    }
}

/// The token that the expression parser reads for `tree`.
pub open spec fn atom_of(tree: Tree) -> Atom
    decreases tree, 1nat,
{
    match tree {
        Tree::Prefix(c) => Atom::Prefix(c),
        Tree::Postfix(c) => Atom::Postfix(c),
        Tree::Infix(c) => Atom::Infix(c),
        Tree::Primary(n) => Atom::Primary(n),
        Tree::Group(inner) => Atom::Group(settle(expr_of(inner))),
    }
}

/// The tokens that the expression parser reads for `trees`.
pub open spec fn atoms_of(trees: Seq<Tree>) -> Seq<Atom>
    decreases trees, 2nat,
{
    Seq::new(
        trees.len(),
        |i: int|
            if 0 <= i < trees.len() {
                atom_of(trees[i])
            } else {
                Atom::Primary(0)
            },
    )
}

/// What a run of token trees parses to: every bracketed part is parsed by
/// itself, and the expression around it takes the result as a leaf.
pub open spec fn expr_of(trees: Seq<Tree>) -> Result<Expr, PrattError<Atom, ExprError>>
    decreases trees, 3nat,
{
    parse_from(&ExprParser, atoms_of(trees), Precedence::lowest()).result
}

/// What a bracketed part hands to the expression around it.
pub fn settled(inner: Result<Expr, PrattError<Atom, ExprError>>) -> (r: Result<Expr, ExprError>)
    ensures
        r == settle(inner),
{
    match inner {
        Ok(e) => Ok(e),
        Err(_) => Err(ExprError::InvalidGroup),
    }
}

/// Turns token trees into the tokens that the expression parser reads, and
/// parses every bracketed part on the way.
pub fn lower(tokens: Vec<TokenTree>) -> (atoms: Vec<Atom>)
    ensures
        atoms@ == atoms_of(trees_of(tokens@)),
    decreases tokens, 0nat,
{
    let ghost all = tokens@;
    let mut tail = Tokens::new(tokens);
    let mut atoms: Vec<Atom> = Vec::new();
    loop
        invariant
            all == tokens@,
            atoms@.len() + tail@.len() == all.len(),
            tail@ == all.skip(atoms@.len() as int),
            forall|k: int| 0 <= k < atoms@.len() ==> #[trigger] atoms@[k] == atom_of(all[k]@),
        decreases tail@.len(),
    {
        let ghost at = atoms@.len() as int;
        let token = match tail.next() {
            Some(token) => token,
            None => {
                assert(atoms@ =~= atoms_of(trees_of(all)));
                return atoms;
            },
        };
        assert(token == all[at]);
        let atom = match token {
            TokenTree::Prefix(c) => Atom::Prefix(c),
            TokenTree::Postfix(c) => Atom::Postfix(c),
            TokenTree::Infix(c) => Atom::Infix(c),
            TokenTree::Primary(n) => Atom::Primary(n),
            TokenTree::Group(inner) => {
                proof {
                    crate::token_tree::lemma_group_view(inner);
                }
                Atom::Group(settled(ExprParser.parse(inner)))
            },
        };
        atoms.push(atom);
        assert(tail@ =~= all.skip(atoms@.len() as int));
    }
}

impl ExprParser {
    /// Parses one expression from the front of `tokens`. Tokens behind the
    /// expression are dropped unread.
    pub fn parse(&self, tokens: Vec<TokenTree>) -> (r: Result<Expr, PrattError<Atom, ExprError>>)
        ensures
            r == expr_of(trees_of(tokens@)),
            tokens@.len() == 0 ==> r == Err::<Expr, PrattError<Atom, ExprError>>(
                PrattError::EmptyInput,
            ),
        decreases tokens, 1nat,
    {
        let atoms = lower(tokens);
        parse(&ExprParser, atoms)
    }
}

impl UnOpKind {
    /// The sign of the operator.
    pub open spec fn spec_sign(self) -> char {
        match self {
            UnOpKind::Not => '!',
            UnOpKind::Neg => '-',
            UnOpKind::Try => '?',
        }
    }

    /// Whether the operator stands after its operand.
    pub open spec fn spec_is_postfix(self) -> bool {
        self == UnOpKind::Try
    }

    /// The sign of the operator.
    pub fn sign(self) -> (c: char)
        ensures
            c == self.spec_sign(),
    {
        match self {
            UnOpKind::Not => '!',
            UnOpKind::Neg => '-',
            UnOpKind::Try => '?',
        }
    }

    /// Whether the operator stands after its operand.
    pub fn is_postfix(self) -> (r: bool)
        ensures
            r == self.spec_is_postfix(),
    {
        match self {
            UnOpKind::Try => true,
            _ => false,
        }
    }
}

impl Expr {
    /// The expression written out as token trees, with every operand in
    /// brackets.
    pub open spec fn shown(self) -> Seq<Tree>
        decreases self,
    {
        match self {
            Expr::Int(n) => seq![Tree::Primary(n)],
            Expr::UnOp(kind, operand) => if kind.spec_is_postfix() {
                seq![Tree::Group(operand.shown()), Tree::Postfix(kind.spec_sign())]
            } else {
                seq![Tree::Prefix(kind.spec_sign()), Tree::Group(operand.shown())]
            },
            Expr::BinOp(lhs, kind, rhs) => seq![
                Tree::Group(lhs.shown()),
                Tree::Infix(kind.spec_sign()),
                Tree::Group(rhs.shown()),
            ],
        }
    }

    /// Writes the expression out as token trees, with every operand in
    /// brackets.
    pub fn to_tokens(&self) -> (tokens: Vec<TokenTree>)
        ensures
            trees_of(tokens@) == self.shown(),
        decreases self,
    {
        let mut tokens: Vec<TokenTree> = Vec::new();
        match self {
            Expr::Int(n) => {
                tokens.push(TokenTree::Primary(*n));
            },
            Expr::UnOp(kind, operand) => {
                let inner = operand.to_tokens();
                proof {
                    crate::token_tree::lemma_group_view(inner);
                }
                if kind.is_postfix() {
                    tokens.push(TokenTree::Group(inner));
                    tokens.push(TokenTree::Postfix(kind.sign()));
                } else {
                    tokens.push(TokenTree::Prefix(kind.sign()));
                    tokens.push(TokenTree::Group(inner));
                }
            },
            Expr::BinOp(lhs, kind, rhs) => {
                let left = lhs.to_tokens();
                let right = rhs.to_tokens();
                proof {
                    crate::token_tree::lemma_group_view(left);
                    crate::token_tree::lemma_group_view(right);
                }
                tokens.push(TokenTree::Group(left));
                tokens.push(TokenTree::Infix(kind.sign()));
                tokens.push(TokenTree::Group(right));
            },
        }
        assert(trees_of(tokens@) =~= self.shown());
        tokens
    }
}

/// A bracketed part by itself parses to what its tokens parse to without the
/// brackets; where they parse to nothing, it fails as an invalid group.
pub proof fn lemma_group_delegates(inner: Seq<Tree>)
    ensures
        expr_of(inner) matches Ok(e) ==> expr_of(seq![Tree::Group(inner)]) == Ok::<
            Expr,
            PrattError<Atom, ExprError>,
        >(e),
        expr_of(inner) is Err ==> expr_of(seq![Tree::Group(inner)]) == Err::<
            Expr,
            PrattError<Atom, ExprError>,
        >(PrattError::UserError(ExprError::InvalidGroup)),
{
    let atom = Atom::Group(settle(expr_of(inner)));
    assert(atoms_of(seq![Tree::Group(inner)]) =~= seq![atom]);
    crate::laws::lemma_leaf_alone(&ExprParser, atom, Precedence::lowest());
}

/// Writing an expression out with every operand in brackets and parsing
/// that gives the expression back.
pub proof fn lemma_reparse(e: Expr)
    ensures
        expr_of(e.shown()) == Ok::<Expr, PrattError<Atom, ExprError>>(e),
    decreases e,
{
    match e {
        Expr::Int(n) => {
            assert(atoms_of(e.shown()) =~= seq![Atom::Primary(n)]);
            crate::laws::lemma_leaf_alone(&ExprParser, Atom::Primary(n), Precedence::lowest());
        },
        Expr::UnOp(kind, operand) => {
            lemma_reparse(*operand);
            let leaf = Atom::Group(Ok(*operand));
            if kind.spec_is_postfix() {
                let sign = Atom::Postfix(kind.spec_sign());
                assert(atoms_of(e.shown()) =~= seq![leaf, sign]);
                crate::laws::lemma_leaf_then_postfix(
                    &ExprParser,
                    leaf,
                    sign,
                    Precedence::lowest(),
                );
            } else {
                let sign = Atom::Prefix(kind.spec_sign());
                assert(atoms_of(e.shown()) =~= seq![sign, leaf]);
                crate::laws::lemma_prefix_then_leaf(
                    &ExprParser,
                    sign,
                    leaf,
                    Precedence::lowest(),
                );
            }
        },
        Expr::BinOp(lhs, kind, rhs) => {
            lemma_reparse(*lhs);
            lemma_reparse(*rhs);
            let left = Atom::Group(Ok(*lhs));
            let right = Atom::Group(Ok(*rhs));
            let sign = Atom::Infix(kind.spec_sign());
            assert(atoms_of(e.shown()) =~= seq![left, sign, right]);
            crate::laws::lemma_leaf_infix_leaf(
                &ExprParser,
                left,
                sign,
                right,
                Precedence::lowest(),
            );
        },
    }
}

/// The expression of a number.
pub open spec fn number(n: i32) -> Expr {
    Expr::Int(n)
}

/// The expression of a binary operator over two expressions.
pub open spec fn binary_of(lhs: Expr, kind: BinOpKind, rhs: Expr) -> Expr {
    Expr::BinOp(Box::new(lhs), kind, Box::new(rhs))
}

/// The expression of a unary operator over an expression.
pub open spec fn unary_of(kind: UnOpKind, operand: Expr) -> Expr {
    Expr::UnOp(kind, Box::new(operand))
}

/// How two binary operators in a row nest in `a first b second c`, for all
/// numbers and all operators of the grammar:
///
/// - the operator of the higher level takes `b`;
/// - at one level, `+ - * /` nest to the left and `^` nests to the right;
/// - `=` does not nest: the parse builds `a = b` and reads no further.
pub proof fn lemma_two_operators(a: i32, first: BinOpKind, b: i32, second: BinOpKind, c: i32)
    ensures
        expr_of(
            seq![
                Tree::Primary(a),
                Tree::Infix(first.spec_sign()),
                Tree::Primary(b),
                Tree::Infix(second.spec_sign()),
                Tree::Primary(c),
            ],
        ) == Ok::<Expr, PrattError<Atom, ExprError>>(
            if first.spec_level().below(second.spec_level()) || (first.spec_level()
                == second.spec_level() && first.spec_associativity() == Associativity::Right) {
                binary_of(number(a), first, binary_of(number(b), second, number(c)))
            } else if first.spec_level() == second.spec_level() && first.spec_associativity()
                == Associativity::Neither {
                binary_of(number(a), first, number(b))
            } else {
                binary_of(binary_of(number(a), first, number(b)), second, number(c))
            },
        ),
{
    let trees = seq![
        Tree::Primary(a),
        Tree::Infix(first.spec_sign()),
        Tree::Primary(b),
        Tree::Infix(second.spec_sign()),
        Tree::Primary(c),
    ];
    let atoms = seq![
        Atom::Primary(a),
        Atom::Infix(first.spec_sign()),
        Atom::Primary(b),
        Atom::Infix(second.spec_sign()),
        Atom::Primary(c),
    ];
    assert(atoms_of(trees) =~= atoms);
    assert(BinOpKind::of_sign(first.spec_sign()) == Some(first));
    assert(BinOpKind::of_sign(second.spec_sign()) == Some(second));
    crate::laws::lemma_two_infix(
        &ExprParser,
        Atom::Primary(a),
        Atom::Infix(first.spec_sign()),
        Atom::Primary(b),
        Atom::Infix(second.spec_sign()),
        Atom::Primary(c),
        Precedence::lowest(),
    );
}

/// A prefix operator binds before a postfix operator: `-n?` is `(-n)?`, for
/// every number and both prefix operators.
pub proof fn lemma_prefix_before_postfix(kind: UnOpKind, n: i32)
    requires
        !kind.spec_is_postfix(),
    ensures
        expr_of(
            seq![Tree::Prefix(kind.spec_sign()), Tree::Primary(n), Tree::Postfix('?')],
        ) == Ok::<Expr, PrattError<Atom, ExprError>>(
            unary_of(UnOpKind::Try, unary_of(kind, number(n))),
        ),
{
    let sign = Atom::Prefix(kind.spec_sign());
    let leaf = Atom::Primary(n);
    let query = Atom::Postfix('?');
    let atoms = seq![sign, leaf, query];
    assert(atoms_of(
        seq![Tree::Prefix(kind.spec_sign()), Tree::Primary(n), Tree::Postfix('?')],
    ) =~= atoms);
    let behind = seq![leaf, query];
    let last = seq![query];
    let none = Seq::<Atom>::empty();
    assert(atoms.skip(1) =~= behind);
    assert(behind.skip(1) =~= last);
    assert(last.skip(1) =~= none);
    assert(atoms[0] == sign && behind[0] == leaf && last[0] == query);
    let parser = &ExprParser;
    let floor = crate::laws::op_of(parser, sign).rbp();
    let highest = Precedence::highest();
    let inner = unary_of(kind, number(n));
    let outer = unary_of(UnOpKind::Try, inner);
    crate::laws::lemma_parse_begins_with_leaf(parser, behind, floor);
    crate::laws::lemma_loop_stops(parser, number(n), last, floor, highest);
    crate::laws::lemma_parse_begins_with_prefix(parser, atoms, Precedence::lowest());
    crate::laws::lemma_loop_takes_postfix(parser, inner, last, Precedence::lowest(), highest);
    crate::laws::lemma_loop_stops(parser, outer, none, Precedence::lowest(), highest);
}

/// Levels interleave: in `a * ! b ^ c` the power binds first, then the
/// negation, then the product, for all numbers.
pub proof fn lemma_levels_interleave(a: i32, b: i32, c: i32)
    ensures
        expr_of(
            seq![
                Tree::Primary(a),
                Tree::Infix('*'),
                Tree::Prefix('!'),
                Tree::Primary(b),
                Tree::Infix('^'),
                Tree::Primary(c),
            ],
        ) == Ok::<Expr, PrattError<Atom, ExprError>>(
            binary_of(
                number(a),
                BinOpKind::Mul,
                unary_of(UnOpKind::Not, binary_of(number(b), BinOpKind::Pow, number(c))),
            ),
        ),
{
    let t0 = seq![
        Atom::Primary(a),
        Atom::Infix('*'),
        Atom::Prefix('!'),
        Atom::Primary(b),
        Atom::Infix('^'),
        Atom::Primary(c),
    ];
    assert(atoms_of(
        seq![
            Tree::Primary(a),
            Tree::Infix('*'),
            Tree::Prefix('!'),
            Tree::Primary(b),
            Tree::Infix('^'),
            Tree::Primary(c),
        ],
    ) =~= t0);
    let t1 = seq![
        Atom::Infix('*'),
        Atom::Prefix('!'),
        Atom::Primary(b),
        Atom::Infix('^'),
        Atom::Primary(c),
    ];
    let t2 = seq![Atom::Prefix('!'), Atom::Primary(b), Atom::Infix('^'), Atom::Primary(c)];
    let t3 = seq![Atom::Primary(b), Atom::Infix('^'), Atom::Primary(c)];
    let t4 = seq![Atom::Infix('^'), Atom::Primary(c)];
    let t5 = seq![Atom::Primary(c)];
    let t6 = Seq::<Atom>::empty();
    assert(t0.skip(1) =~= t1);
    assert(t1.skip(1) =~= t2);
    assert(t2.skip(1) =~= t3);
    assert(t3.skip(1) =~= t4);
    assert(t4.skip(1) =~= t5);
    assert(t5.skip(1) =~= t6);
    assert(t0[0] == Atom::Primary(a) && t1[0] == Atom::Infix('*') && t2[0] == Atom::Prefix('!')
        && t3[0] == Atom::Primary(b) && t4[0] == Atom::Infix('^') && t5[0] == Atom::Primary(c));
    let parser = &ExprParser;
    let lowest = Precedence::lowest();
    let highest = Precedence::highest();
    let times = crate::laws::op_of(parser, Atom::Infix('*'));
    let not = crate::laws::op_of(parser, Atom::Prefix('!'));
    let power = crate::laws::op_of(parser, Atom::Infix('^'));
    let pow = binary_of(number(b), BinOpKind::Pow, number(c));
    let negated = unary_of(UnOpKind::Not, pow);
    let product = binary_of(number(a), BinOpKind::Mul, negated);

    // b ^ c, above the binding power of `!`
    crate::laws::lemma_leaf_alone(parser, Atom::Primary(c), power.rbp());
    crate::laws::lemma_parse_begins_with_leaf(parser, t3, not.rbp());
    crate::laws::lemma_loop_takes_infix(parser, number(b), t4, not.rbp(), highest);
    crate::laws::lemma_loop_stops(parser, pow, t6, not.rbp(), power.nbp());
    // ! (b ^ c), above the binding power of `*`
    crate::laws::lemma_parse_begins_with_prefix(parser, t2, times.rbp());
    crate::laws::lemma_loop_stops(parser, negated, t6, times.rbp(), highest);
    // a * ...
    crate::laws::lemma_parse_begins_with_leaf(parser, t0, lowest);
    crate::laws::lemma_loop_takes_infix(parser, number(a), t1, lowest, highest);
    crate::laws::lemma_loop_stops(parser, product, t6, lowest, times.nbp());
}

impl Expr {
    /// The text of the expression, with every operand in brackets.
    pub fn to_text(&self) -> (text: Vec<u8>)
        ensures
            text@ == crate::spelling::spelled(self.shown()),
    {
        let tokens = self.to_tokens();
        crate::spelling::spell(&tokens)
    }

    /// Whether no number in the expression is negative.
    pub open spec fn is_plain(self) -> bool
        decreases self,
    {
        match self {
            Expr::Int(n) => n >= 0,
            Expr::UnOp(_, operand) => operand.is_plain(),
            Expr::BinOp(lhs, _, rhs) => lhs.is_plain() && rhs.is_plain(),
        }
    }
}

/// An expression without negative numbers, written out with every operand in
/// brackets, is a group of the grammar.
pub proof fn lemma_shown_is_well_formed(e: Expr)
    requires
        e.is_plain(),
    ensures
        crate::spelling::well_formed(e.shown()),
    decreases e,
{
    let trees = e.shown();
    match e {
        Expr::Int(n) => {
            assert(crate::spelling::well_formed_tree(trees[0]));
            assert(crate::spelling::well_formed_from(trees, 1, false));
        },
        Expr::UnOp(kind, operand) => {
            lemma_shown_is_well_formed(*operand);
            assert(crate::spelling::well_formed_tree(trees[0]));
            assert(crate::spelling::well_formed_tree(trees[1]));
            assert(crate::spelling::well_formed_from(trees, 2, false));
            assert(crate::spelling::well_formed_from(
                trees,
                1,
                crate::spelling::wants_operand(trees[0]),
            ));
        },
        Expr::BinOp(lhs, kind, rhs) => {
            lemma_shown_is_well_formed(*lhs);
            lemma_shown_is_well_formed(*rhs);
            assert(BinOpKind::of_sign(kind.spec_sign()) == Some(kind));
            assert(crate::spelling::well_formed_tree(trees[0]));
            assert(crate::spelling::well_formed_tree(trees[1]));
            assert(crate::spelling::well_formed_tree(trees[2]));
            assert(crate::spelling::well_formed_from(trees, 3, false));
            assert(crate::spelling::well_formed_from(trees, 2, true));
            assert(crate::spelling::well_formed_from(trees, 1, false));
        },
    }
}

/// Printing and parsing again gives the expression back: the text of an
/// expression without negative numbers, written with every operand in
/// brackets, is read as token trees that parse to the expression.
pub proof fn lemma_print_and_reparse(e: Expr)
    requires
        e.is_plain(),
        crate::spelling::spelled(e.shown()).len() <= usize::MAX,
    ensures
        crate::grammar::parse_text(crate::spelling::spelled(e.shown())) matches Ok(trees)
            && expr_of(trees) == Ok::<Expr, PrattError<Atom, ExprError>>(e),
{
    lemma_shown_is_well_formed(e);
    crate::spelling::lemma_reads_back(e.shown());
    lemma_reparse(e);
}

} // verus!
