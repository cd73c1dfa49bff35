//! Token trees written out as text, and the proof that the grammar reads
//! that text back.

use crate::expr::{BinOpKind, UnOpKind};
use crate::grammar::{group_at, parse_text, Halt, SyntaxError};
use crate::lexer::{
    decimal, digits_run, is_digit, lexeme_at, scan_from, sign_of, space_len, spaces_run, value_of,
    Lexeme, LexemeKind, Scan,
};
use crate::token_tree::{lemma_group_view, trees_of, TokenTree, Tree};
use vstd::prelude::*;

verus! {

/// The digits of `n` in base ten, without leading zeros.
pub open spec fn digits_of(n: nat) -> Seq<u8>
    decreases n,
{
    if n < 10 {
        seq![(0x30 + n) as u8]
    } else {
        digits_of(n / 10).push((0x30 + n % 10) as u8)
    }
}

/// The digits of a number are digits, and they spell the number.
pub proof fn lemma_digits(n: nat)
    ensures
        digits_of(n).len() >= 1,
        forall|i: int| 0 <= i < digits_of(n).len() ==> is_digit(#[trigger] digits_of(n)[i]),
        decimal(digits_of(n)) == n,
    decreases n,
{
    if n < 10 {
        let d = seq![(0x30 + n) as u8];
        assert(d.drop_last() =~= Seq::<u8>::empty());
        assert(decimal(d.drop_last()) == 0);
    } else {
        lemma_digits(n / 10);
        let d = digits_of(n / 10).push((0x30 + n % 10) as u8);
        assert(d.drop_last() =~= digits_of(n / 10));
        assert(d.last() == (0x30 + n % 10) as u8);
    }
}

/// The byte that spells the sign `c`, or 0 where `c` is no sign.
pub open spec fn byte_of(c: char) -> u8 {
    if c == '!' {
        0x21
    } else if c == '(' {
        0x28
    } else if c == ')' {
        0x29
    } else if c == '*' {
        0x2A
    } else if c == '+' {
        0x2B
    } else if c == '-' {
        0x2D
    } else if c == '/' {
        0x2F
    } else if c == '?' {
        0x3F
    } else if c == '=' {
        0x3D
    } else if c == '^' {
        0x5E
    } else {
        0
    }
}

/// The text of one token tree: a number in base ten, with `-` before it
/// where it is negative, a sign as it is, a group between brackets.
pub open spec fn spelled_tree(tree: Tree) -> Seq<u8>
    decreases tree, 0nat,
{
    match tree {
        Tree::Prefix(c) | Tree::Postfix(c) | Tree::Infix(c) => seq![byte_of(c)],
        Tree::Primary(n) => if n >= 0 {
            digits_of(n as nat)
        } else {
            seq![0x2Du8] + digits_of((-n) as nat)
        },
        Tree::Group(inner) => seq![0x28u8] + spelled_from(inner, 0) + seq![0x29u8],
    }
}

/// The text of the token trees from the index `k` on, one behind the other.
pub open spec fn spelled_from(trees: Seq<Tree>, k: int) -> Seq<u8>
    decreases trees, trees.len() - k,
{
    if 0 <= k < trees.len() {
        spelled_tree(trees[k]) + spelled_from(trees, k + 1)
    } else {
        Seq::empty()
    }
}

/// The text of a run of token trees.
pub open spec fn spelled(trees: Seq<Tree>) -> Seq<u8> {
    spelled_from(trees, 0)
}

/// Whether `tree` may stand where an operand has to come.
pub open spec fn begins_operand(tree: Tree) -> bool {
    tree is Prefix || tree is Primary || tree is Group
}

/// Whether an operand has to come behind `tree`.
pub open spec fn wants_operand(tree: Tree) -> bool {
    tree is Prefix || tree is Infix
}

/// Whether `tree` is a token tree of the grammar: a sign of its place, a
/// number that is not negative, or a group of the grammar.
pub open spec fn well_formed_tree(tree: Tree) -> bool
    decreases tree, 0nat,
{
    match tree {
        Tree::Prefix(c) => UnOpKind::of_prefix(c) is Some,
        Tree::Postfix(c) => UnOpKind::of_postfix(c) is Some,
        Tree::Infix(c) => BinOpKind::of_sign(c) is Some,
        Tree::Primary(n) => n >= 0,
        Tree::Group(inner) => well_formed_from(inner, 0, true),
    }
}

/// Whether the token trees from the index `k` on are the rest of a group of
/// the grammar, where `operand` says whether an operand has to come next:
/// every one is a token tree of the grammar, and operators and operands
/// follow each other as the grammar has it.
pub open spec fn well_formed_from(trees: Seq<Tree>, k: int, operand: bool) -> bool
    decreases trees, trees.len() - k,
{
    if 0 <= k < trees.len() {
        &&& begins_operand(trees[k]) == operand
        &&& well_formed_tree(trees[k])
        &&& well_formed_from(trees, k + 1, wants_operand(trees[k]))
    } else {
        !operand
    }
}

/// Whether the token trees are a group of the grammar.
pub open spec fn well_formed(trees: Seq<Tree>) -> bool {
    well_formed_from(trees, 0, true)
}

/// The lexemes of the text of `tree`, where that text begins at `at`.
pub open spec fn lexemes_of_tree(tree: Tree, at: int) -> Seq<Lexeme>
    decreases tree, 0nat,
{
    match tree {
        Tree::Prefix(c) | Tree::Postfix(c) | Tree::Infix(c) => seq![
            Lexeme { kind: LexemeKind::Sign(c), start: at as usize, end: (at + 1) as usize },
        ],
        Tree::Primary(n) => seq![
            Lexeme {
                kind: LexemeKind::Number(Some(n)),
                start: at as usize,
                end: (at + spelled_tree(tree).len()) as usize,
            },
        ],
        Tree::Group(inner) => seq![
            Lexeme { kind: LexemeKind::Sign('('), start: at as usize, end: (at + 1) as usize },
        ] + lexemes_from(inner, 0, at + 1) + seq![
            Lexeme {
                kind: LexemeKind::Sign(')'),
                start: (at + 1 + spelled_from(inner, 0).len()) as usize,
                end: (at + 2 + spelled_from(inner, 0).len()) as usize,
            },
        ],
    }
}

/// The lexemes of the text of the token trees from the index `k` on, where
/// that text begins at `at`.
pub open spec fn lexemes_from(trees: Seq<Tree>, k: int, at: int) -> Seq<Lexeme>
    decreases trees, trees.len() - k,
{
    if 0 <= k < trees.len() {
        lexemes_of_tree(trees[k], at) + lexemes_from(
            trees,
            k + 1,
            at + spelled_tree(trees[k]).len(),
        )
    } else {
        Seq::empty()
    }
}

/// Whether `piece` stands in `whole` at the index `at`.
pub open spec fn stands_at<T>(whole: Seq<T>, at: int, piece: Seq<T>) -> bool {
    &&& 0 <= at
    &&& at + piece.len() <= whole.len()
    &&& forall|i: int| 0 <= i < piece.len() ==> #[trigger] whole[at + i] == piece[i]
}

/// Where two pieces stand one behind the other, each stands at its place.
proof fn lemma_stands_apart<T>(whole: Seq<T>, at: int, front: Seq<T>, back: Seq<T>)
    requires
        stands_at(whole, at, front + back),
    ensures
        stands_at(whole, at, front),
        stands_at(whole, at + front.len(), back),
{
    assert forall|i: int| 0 <= i < front.len() implies #[trigger] whole[at + i] == front[i] by {
        assert((front + back)[i] == front[i]);
    }
    assert forall|i: int| 0 <= i < back.len() implies #[trigger] whole[at + front.len() + i]
        == back[i] by {
        assert((front + back)[front.len() + i] == back[i]);
        assert(whole[at + (front.len() + i)] == (front + back)[front.len() + i]);
    }
}

/// No lexeme begins with white space: where a digit or a sign stands, no
/// white space is skipped.
proof fn lemma_no_space(text: Seq<u8>, at: int)
    requires
        0 <= at < text.len(),
        is_digit(text[at]) || sign_of(text[at]) is Some,
    ensures
        spaces_run(text, at) == 0,
{
    assert(space_len(text, at) == 0);
}

/// A run of digits that ends at the end of the text or before a byte that is
/// no digit is counted in full.
proof fn lemma_digits_run(text: Seq<u8>, from: int, to: int)
    requires
        0 <= from <= to <= text.len(),
        forall|i: int| from <= i < to ==> is_digit(#[trigger] text[i]),
        to == text.len() || !is_digit(text[to]),
    ensures
        digits_run(text, from) == to - from,
    decreases to - from,
{
    if from < to {
        lemma_digits_run(text, from + 1, to);
    }
}

/// The byte of a sign of the grammar spells that sign, and is no digit.
proof fn lemma_sign_byte(c: char)
    requires
        UnOpKind::of_prefix(c) is Some || UnOpKind::of_postfix(c) is Some || BinOpKind::of_sign(c)
            is Some || c == '(' || c == ')',
    ensures
        sign_of(byte_of(c)) == Some(c),
        !is_digit(byte_of(c)),
{
}

/// The text of a well-formed run is not empty unless the run is, and it
/// begins with a digit only where the run begins with a number.
proof fn lemma_first_byte(trees: Seq<Tree>, k: int, operand: bool)
    requires
        0 <= k < trees.len(),
        well_formed_from(trees, k, operand),
    ensures
        spelled_from(trees, k).len() >= 1,
        spelled_tree(trees[k]).len() >= 1,
        !operand ==> !is_digit(spelled_from(trees, k)[0]),
{
    assert(well_formed_tree(trees[k]));
    assert(begins_operand(trees[k]) == operand);
    match trees[k] {
        Tree::Primary(n) => {
            lemma_digits(n as nat);
        },
        Tree::Prefix(c) => {
            lemma_sign_byte(c);
        },
        Tree::Postfix(c) => {
            lemma_sign_byte(c);
        },
        Tree::Infix(c) => {
            lemma_sign_byte(c);
        },
        Tree::Group(_) => {},
    }
    assert(spelled_from(trees, k)[0] == spelled_tree(trees[k])[0]);
}

/// The scan finds a sign where it stands and goes on behind it.
proof fn lemma_scan_sign(text: Seq<u8>, at: int, c: char)
    requires
        0 <= at < text.len() <= usize::MAX,
        text[at] == byte_of(c),
        sign_of(byte_of(c)) == Some(c),
    ensures
        scan_from(text, at).lexemes == seq![
            Lexeme { kind: LexemeKind::Sign(c), start: at as usize, end: (at + 1) as usize },
        ] + scan_from(text, at + 1).lexemes,
        scan_from(text, at).stuck == scan_from(text, at + 1).stuck,
{
    lemma_no_space(text, at);
}

/// The scan finds a number where its digits stand and goes on behind them.
proof fn lemma_scan_number(text: Seq<u8>, at: int, n: i32)
    requires
        n >= 0,
        text.len() <= usize::MAX,
        stands_at(text, at, digits_of(n as nat)),
        at + digits_of(n as nat).len() == text.len() || !is_digit(
            text[at + digits_of(n as nat).len()],
        ),
    ensures
        scan_from(text, at).lexemes == seq![
            Lexeme {
                kind: LexemeKind::Number(Some(n)),
                start: at as usize,
                end: (at + digits_of(n as nat).len()) as usize,
            },
        ] + scan_from(text, at + digits_of(n as nat).len()).lexemes,
        scan_from(text, at).stuck == scan_from(text, at + digits_of(n as nat).len()).stuck,
{
    let piece = digits_of(n as nat);
    lemma_digits(n as nat);
    let m = piece.len() as int;
    assert(text[at + 0] == piece[0]);
    assert(is_digit(text[at]));
    lemma_no_space(text, at);
    assert forall|i: int| at + 1 <= i < at + m implies is_digit(#[trigger] text[i]) by {
        assert(text[at + (i - at)] == piece[i - at]);
    }
    lemma_digits_run(text, at + 1, at + m);
    assert forall|i: int| 0 <= i < m implies text.subrange(at, at + m)[i] == piece[i] by {
        assert(text[at + i] == piece[i]);
    }
    assert(text.subrange(at, at + m) =~= piece);
    assert(value_of(piece) == Some(n));
    assert(lexeme_at(text, at) == Some(
        Lexeme {
            kind: LexemeKind::Number(Some(n)),
            start: at as usize,
            end: (at + m) as usize,
        },
    ));
}

/// The scan of a text that holds the text of a token tree of the grammar at
/// `at` finds the lexemes of the tree there and goes on behind it.
proof fn lemma_scan_tree(text: Seq<u8>, tree: Tree, at: int)
    requires
        text.len() <= usize::MAX,
        stands_at(text, at, spelled_tree(tree)),
        well_formed_tree(tree),
        tree is Primary ==> at + spelled_tree(tree).len() == text.len() || !is_digit(
            text[at + spelled_tree(tree).len()],
        ),
    ensures
        scan_from(text, at).lexemes == lexemes_of_tree(tree, at) + scan_from(
            text,
            at + spelled_tree(tree).len(),
        ).lexemes,
        scan_from(text, at).stuck == scan_from(text, at + spelled_tree(tree).len()).stuck,
    decreases tree, 0nat,
{
    let piece = spelled_tree(tree);
    match tree {
        Tree::Primary(n) => {
            lemma_scan_number(text, at, n);
        },
        Tree::Prefix(c) => {
            lemma_sign_byte(c);
            assert(text[at + 0] == piece[0]);
            lemma_scan_sign(text, at, c);
        },
        Tree::Postfix(c) => {
            lemma_sign_byte(c);
            assert(text[at + 0] == piece[0]);
            lemma_scan_sign(text, at, c);
        },
        Tree::Infix(c) => {
            lemma_sign_byte(c);
            assert(text[at + 0] == piece[0]);
            lemma_scan_sign(text, at, c);
        },
        Tree::Group(inner) => {
            let body = spelled_from(inner, 0);
            let close = at + 1 + body.len();
            lemma_stands_apart(text, at, seq![0x28u8] + body, seq![0x29u8]);
            lemma_stands_apart(text, at, seq![0x28u8], body);
            assert(text[at + 0] == seq![0x28u8][0]);
            assert(text[close + 0] == seq![0x29u8][0]);
            lemma_sign_byte('(');
            lemma_sign_byte(')');
            lemma_scan_sign(text, at, '(');
            lemma_scan_sign(text, close, ')');
            lemma_scan_from(text, inner, 0, at + 1, true);
            let open = seq![
                Lexeme { kind: LexemeKind::Sign('('), start: at as usize, end: (at + 1) as usize },
            ];
            let shut = seq![
                Lexeme {
                    kind: LexemeKind::Sign(')'),
                    start: close as usize,
                    end: (close + 1) as usize,
                },
            ];
            let behind = scan_from(text, close + 1).lexemes;
            let within = lexemes_from(inner, 0, at + 1);
            assert(scan_from(text, close).lexemes == shut + behind);
            assert(scan_from(text, at + 1).lexemes == within + (shut + behind));
            assert(scan_from(text, at).lexemes == open + (within + (shut + behind)));
            assert(open + (within + (shut + behind)) =~= (open + within + shut) + behind);
            assert(lexemes_of_tree(tree, at) == open + within + shut);
        },
    }
}

/// The scan of a text that holds the text of a well-formed run of token
/// trees at `at` finds the lexemes of the run there and goes on behind it.
proof fn lemma_scan_from(text: Seq<u8>, trees: Seq<Tree>, k: int, at: int, operand: bool)
    requires
        text.len() <= usize::MAX,
        0 <= k <= trees.len(),
        stands_at(text, at, spelled_from(trees, k)),
        well_formed_from(trees, k, operand),
        at + spelled_from(trees, k).len() == text.len() || !is_digit(
            text[at + spelled_from(trees, k).len()],
        ),
    ensures
        scan_from(text, at).lexemes == lexemes_from(trees, k, at) + scan_from(
            text,
            at + spelled_from(trees, k).len(),
        ).lexemes,
        scan_from(text, at).stuck == scan_from(text, at + spelled_from(trees, k).len()).stuck,
    decreases trees, trees.len() - k,
{
    if k < trees.len() {
        let tree = trees[k];
        let piece = spelled_tree(tree);
        let rest = spelled_from(trees, k + 1);
        let mid = at + piece.len();
        lemma_stands_apart(text, at, piece, rest);
        if k + 1 < trees.len() {
            lemma_first_byte(trees, k + 1, wants_operand(tree));
            assert(text[mid + 0] == rest[0]);
        }
        lemma_scan_tree(text, tree, at);
        lemma_scan_from(text, trees, k + 1, mid, wants_operand(tree));
        assert(lexemes_of_tree(tree, at) + (lexemes_from(trees, k + 1, mid) + scan_from(
            text,
            mid + rest.len(),
        ).lexemes) =~= (lexemes_of_tree(tree, at) + lexemes_from(trees, k + 1, mid)) + scan_from(
            text,
            mid + rest.len(),
        ).lexemes);
    } else {
        assert(Seq::<Lexeme>::empty() + scan_from(text, at).lexemes =~= scan_from(
            text,
            at,
        ).lexemes);
    }
}

/// A token tree with the token trees behind it is the run from it on.
proof fn lemma_skip_first(trees: Seq<Tree>, k: int)
    requires
        0 <= k < trees.len(),
    ensures
        seq![trees[k]] + trees.skip(k + 1) == trees.skip(k),
{
    assert(seq![trees[k]] + trees.skip(k + 1) =~= trees.skip(k));
}

/// The grammar reads a well-formed run of token trees from its lexemes, where
/// the run ends at the end of the lexemes or before a closing bracket.
proof fn lemma_group_from(
    lexemes: Seq<Lexeme>,
    at: int,
    trees: Seq<Tree>,
    k: int,
    offset: int,
    operand: bool,
)
    requires
        lexemes.len() <= usize::MAX,
        0 <= k <= trees.len(),
        stands_at(lexemes, at, lexemes_from(trees, k, offset)),
        well_formed_from(trees, k, operand),
        at + lexemes_from(trees, k, offset).len() == lexemes.len() || lexemes[at + lexemes_from(
            trees,
            k,
            offset,
        ).len()].kind == LexemeKind::Sign(')'),
    ensures
        group_at(lexemes, at, operand) == Ok::<(Seq<Tree>, int), Halt>(
            (trees.skip(k), at + lexemes_from(trees, k, offset).len()),
        ),
    decreases trees, trees.len() - k,
{
    if k < trees.len() {
        let tree = trees[k];
        let piece = lexemes_of_tree(tree, offset);
        let behind = offset + spelled_tree(tree).len();
        let rest = lexemes_from(trees, k + 1, behind);
        let end = at + piece.len() + rest.len();
        assert(well_formed_tree(tree));
        assert(begins_operand(tree) == operand);
        lemma_stands_apart(lexemes, at, piece, rest);
        lemma_skip_first(trees, k);
        assert(lexemes[at + 0] == piece[0]);
        match tree {
            Tree::Group(inner) => {
                let within = lexemes_from(inner, 0, offset + 1);
                let count = within.len() as int;
                let close = at + 1 + count;
                assert(piece.len() == within.len() + 2);
                assert(forall|i: int| 0 <= i < within.len() ==> piece[1 + i] == within[i]);
                assert(piece[1 + count].kind == LexemeKind::Sign(')'));
                assert forall|i: int| 0 <= i < within.len() implies #[trigger] lexemes[at + 1 + i]
                    == within[i] by {
                    assert(lexemes[at + (1 + i)] == piece[1 + i]);
                }
                assert(lexemes[at + (1 + count)] == piece[1 + count]);
                assert(lexemes[close].kind == LexemeKind::Sign(')'));
                lemma_group_from(lexemes, at + 1, inner, 0, offset + 1, true);
                assert(inner.skip(0) =~= inner);
                lemma_group_from(lexemes, close + 1, trees, k + 1, behind, false);
            },
            _ => {
                lemma_group_from(lexemes, at + 1, trees, k + 1, behind, wants_operand(tree));
            },
        }
    } else {
        assert(trees.skip(k) =~= Seq::<Tree>::empty());
    }
}

/// Every lexeme spans a byte at least: a well-formed run has no more lexemes
/// than its text has bytes.
proof fn lemma_lexemes_fit(trees: Seq<Tree>, k: int, offset: int, operand: bool)
    requires
        0 <= k <= trees.len(),
        well_formed_from(trees, k, operand),
    ensures
        lexemes_from(trees, k, offset).len() <= spelled_from(trees, k).len(),
    decreases trees, trees.len() - k,
{
    if k < trees.len() {
        let tree = trees[k];
        assert(well_formed_tree(tree));
        match tree {
            Tree::Primary(n) => {
                lemma_digits(n as nat);
            },
            Tree::Group(inner) => {
                lemma_lexemes_fit(inner, 0, offset + 1, true);
                assert(lexemes_of_tree(tree, offset).len() == lexemes_from(
                    inner,
                    0,
                    offset + 1,
                ).len() + 2);
                assert(spelled_tree(tree).len() == spelled_from(inner, 0).len() + 2);
            },
            _ => {},
        }
        assert(lexemes_of_tree(tree, offset).len() <= spelled_tree(tree).len());
        lemma_lexemes_fit(trees, k + 1, offset + spelled_tree(tree).len(), wants_operand(tree));
        assert(lexemes_from(trees, k, offset).len() == lexemes_of_tree(tree, offset).len()
            + lexemes_from(trees, k + 1, offset + spelled_tree(tree).len()).len());
        assert(spelled_from(trees, k).len() == spelled_tree(tree).len() + spelled_from(
            trees,
            k + 1,
        ).len());
    }
}

/// The grammar reads the text of a group back: for every group of the
/// grammar, the text that spells it has exactly the token trees of the
/// group.
pub proof fn lemma_reads_back(trees: Seq<Tree>)
    requires
        well_formed(trees),
        spelled(trees).len() <= usize::MAX,
    ensures
        parse_text(spelled(trees)) == Ok::<Seq<Tree>, SyntaxError>(trees),
{
    let text = spelled(trees);
    let lexemes = lexemes_from(trees, 0, 0);
    lemma_scan_from(text, trees, 0, 0, true);
    assert(spaces_run(text, text.len() as int) == 0);
    assert(scan_from(text, text.len() as int).lexemes =~= Seq::<Lexeme>::empty());
    assert(lexemes + Seq::<Lexeme>::empty() =~= lexemes);
    assert(scan_from(text, 0) == Scan { lexemes, stuck: None });
    lemma_lexemes_fit(trees, 0, 0, true);
    lemma_group_from(lexemes, 0, trees, 0, 0, true);
    assert(trees.skip(0) =~= trees);
}

/// The byte that spells the sign `c`, or 0 where `c` is no sign.
pub fn sign_byte(c: char) -> (b: u8)
    ensures
        b == byte_of(c),
{
    if c == '!' {
        0x21
    } else if c == '(' {
        0x28
    } else if c == ')' {
        0x29
    } else if c == '*' {
        0x2A
    } else if c == '+' {
        0x2B
    } else if c == '-' {
        0x2D
    } else if c == '/' {
        0x2F
    } else if c == '?' {
        0x3F
    } else if c == '=' {
        0x3D
    } else if c == '^' {
        0x5E
    } else {
        0
    }
}

/// Writes the digits of `n` in base ten behind `out`.
pub fn write_digits(n: u32, out: &mut Vec<u8>)
    ensures
        final(out)@ == old(out)@ + digits_of(n as nat),
    decreases n,
{
    if n < 10 {
        out.push(0x30 + (n as u8));
        assert(out@ =~= old(out)@ + digits_of(n as nat));
    } else {
        write_digits(n / 10, out);
        out.push(0x30 + ((n % 10) as u8));
        assert(out@ =~= old(out)@ + digits_of(n as nat));
    }
}

/// Writes the text of `tree` behind `out`.
pub fn write_tree(tree: &TokenTree, out: &mut Vec<u8>)
    ensures
        final(out)@ == old(out)@ + spelled_tree(tree@),
    decreases tree, 0nat,
{
    match tree {
        TokenTree::Prefix(c) | TokenTree::Postfix(c) | TokenTree::Infix(c) => {
            out.push(sign_byte(*c));
            assert(out@ =~= old(out)@ + spelled_tree(tree@));
        },
        TokenTree::Primary(n) => {
            if *n >= 0 {
                write_digits(*n as u32, out);
            } else {
                out.push(0x2D);
                let size: u32 = if *n == i32::MIN {
                    2147483648
                } else {
                    (-*n) as u32
                };
                write_digits(size, out);
                assert(out@ =~= old(out)@ + spelled_tree(tree@));
            }
        },
        TokenTree::Group(inner) => {
            proof {
                lemma_group_view(*inner);
            }
            out.push(0x28);
            write_run(inner, 0, out);
            out.push(0x29);
            assert(out@ =~= old(out)@ + spelled_tree(tree@));
        },
    }
}

/// Writes the text of the token trees from the index `from` on behind `out`.
pub fn write_run(tokens: &Vec<TokenTree>, from: usize, out: &mut Vec<u8>)
    ensures
        final(out)@ == old(out)@ + spelled_from(trees_of(tokens@), from as int),
    decreases tokens, tokens@.len() - from,
{
    if from < tokens.len() {
        write_tree(&tokens[from], out);
        write_run(tokens, from + 1, out);
        assert(out@ =~= old(out)@ + spelled_from(trees_of(tokens@), from as int));
    } else {
        assert(out@ =~= old(out)@ + spelled_from(trees_of(tokens@), from as int));
    }
}

/// The text of a run of token trees.
pub fn spell(tokens: &Vec<TokenTree>) -> (text: Vec<u8>)
    ensures
        text@ == spelled(trees_of(tokens@)),
{
    let mut text: Vec<u8> = Vec::new();
    write_run(tokens, 0, &mut text);
    assert(text@ =~= spelled(trees_of(tokens@)));
    text
}

} // verus!
