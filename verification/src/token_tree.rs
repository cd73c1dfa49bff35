//! Token trees: the operators and operands of an arithmetic expression, with
//! each bracketed part gathered into one token.

use vstd::prelude::*;

verus! {

/// One token of an expression. A bracketed part is one token that holds the
/// tokens between the brackets.
#[derive(Debug, PartialEq, Eq)]
pub enum TokenTree {
    Prefix(char),
    Postfix(char),
    Infix(char),
    Primary(i32),
    Group(Vec<TokenTree>),
}

/// The mathematical value of a [`TokenTree`].
pub ghost enum Tree {
    Prefix(char),
    Postfix(char),
    Infix(char),
    Primary(i32),
    Group(Seq<Tree>),
}

/// The value of one token tree.
pub open spec fn tree_of(token: TokenTree) -> Tree
    decreases token,
{
    match token {
        TokenTree::Prefix(c) => Tree::Prefix(c),
        TokenTree::Postfix(c) => Tree::Postfix(c),
        TokenTree::Infix(c) => Tree::Infix(c),
        TokenTree::Primary(n) => Tree::Primary(n),
        TokenTree::Group(inner) => Tree::Group(
            Seq::new(
                inner@.len(),
                |i: int|
                    if 0 <= i < inner@.len() {
                        tree_of(inner@[i])
                    } else {
                        Tree::Primary(0)
                    },
            ),
        ),
    }
}

impl View for TokenTree {
    type V = Tree;

    open spec fn view(&self) -> Tree {
        tree_of(*self)
    }
}

/// The values of a run of token trees.
pub open spec fn trees_of(tokens: Seq<TokenTree>) -> Seq<Tree> {
    Seq::new(tokens.len(), |i: int| tokens[i]@)
}

/// A group's value holds the values of its tokens.
pub proof fn lemma_group_view(inner: Vec<TokenTree>)
    ensures
        TokenTree::Group(inner)@ == Tree::Group(trees_of(inner@)),
{
    assert(TokenTree::Group(inner)@->Group_0 =~= trees_of(inner@));
}

} // verus!
