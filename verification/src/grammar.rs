//! The arithmetic grammar: from text to token trees.
//!
//! ```text
//! Group   = Prefix* Primary Postfix* (Infix Prefix* Primary Postfix*)*
//! Primary = "(" Group ")" | number
//! Prefix  = "-" | "!"
//! Postfix = "?"
//! Infix   = "=" | "+" | "-" | "*" | "/" | "^"
//! ```
//!
//! A text is read lexeme by lexeme and given up at the first lexeme that
//! cannot go on: a place that begins no lexeme is reported only where every
//! lexeme before it could stand. A number that does not fit an `i32` is
//! reported once the lexeme behind it has shown that the number could stand
//! there.

use crate::expr::{BinOpKind, UnOpKind};
use crate::lexer::{scan_from, tokenize, Lexeme, LexemeKind, Scan};
use crate::token_tree::{lemma_group_view, trees_of, TokenTree, Tree};
use vstd::prelude::*;
use vstd::string::StringSliceAdditionalSpecFns;

verus! {

/// Why a text is no run of token trees. Places are byte offsets.
#[derive(Debug, Copy, Clone, PartialEq, Eq, Structural)]
pub enum SyntaxError {
    /// No lexeme begins at `location`.
    InvalidToken { location: usize },
    /// The text ends where more was needed; `location` is where the last
    /// lexeme ends, or 0 where there is none.
    UnrecognizedEof { location: usize },
    /// The lexeme from `start` up to `end` cannot stand where it does.
    UnrecognizedToken { start: usize, end: usize },
    /// The number from `start` up to `end` does not fit an `i32`.
    NumberTooLarge { start: usize, end: usize },
}

/// Where the reading of the lexemes was given up.
#[derive(Debug, Copy, Clone, PartialEq, Eq, Structural)]
pub enum Halt {
    /// At the lexeme with this index, which cannot stand there, or at the end
    /// where the index is the number of lexemes.
    At(usize),
    /// At the number with this index, which does not fit.
    TooLarge(usize),
}

/// What the reading of a group yields: its token trees and the index of the
/// first lexeme behind it, or where it was given up.
pub type Reading = Result<(Seq<Tree>, int), Halt>;

/// `rest` with the trees `front` before its own.
pub open spec fn glue(front: Seq<Tree>, rest: Reading) -> Reading {
    match rest {
        Ok((trees, end)) => Ok((front + trees, end)),
        Err(halt) => Err(halt),
    }
}

/// Whether a lexeme of this kind may stand directly behind an operand.
pub open spec fn may_follow_operand(kind: LexemeKind) -> bool {
    match kind {
        LexemeKind::Number(_) => false,
        LexemeKind::Sign(c) => c != '(' && c != '!',
    }
}

/// How many lexemes stand at or behind the index `at`.
pub open spec fn unread(lexemes: Seq<Lexeme>, at: int) -> nat {
    if at <= lexemes.len() {
        (lexemes.len() - at) as nat
    } else {
        0
    }
}

/// The rest of a group from the lexeme with the index `at` on, where
/// `operand` says whether an operand has to come next.
///
/// The test that a closing bracket stands behind its opening one is always
/// true; it is what makes the definition well founded.
pub open spec fn group_at(lexemes: Seq<Lexeme>, at: int, operand: bool) -> Reading
    decreases unread(lexemes, at),
{
    if at < 0 || at >= lexemes.len() {
        if operand {
            Err(Halt::At(at as usize))
        } else {
            Ok((Seq::empty(), at))
        }
    } else if operand {
        match lexemes[at].kind {
            LexemeKind::Number(Some(n)) => glue(
                seq![Tree::Primary(n)],
                group_at(lexemes, at + 1, false),
            ),
            LexemeKind::Number(None) => if at + 1 < lexemes.len() && !may_follow_operand(
                lexemes[at + 1].kind,
            ) {
                Err(Halt::At((at + 1) as usize))
            } else {
                Err(Halt::TooLarge(at as usize))
            },
            LexemeKind::Sign(c) => if UnOpKind::of_prefix(c) is Some {
                glue(seq![Tree::Prefix(c)], group_at(lexemes, at + 1, true))
            } else if c == '(' {
                match group_at(lexemes, at + 1, true) {
                    Err(halt) => Err(halt),
                    Ok((inner, close)) => if at < close < lexemes.len() && lexemes[close].kind
                        == LexemeKind::Sign(')') {
                        glue(seq![Tree::Group(inner)], group_at(lexemes, close + 1, false))
                    } else {
                        Err(Halt::At(close as usize))
                    },
                }
            } else {
                Err(Halt::At(at as usize))
            },
        }
    } else {
        match lexemes[at].kind {
            LexemeKind::Number(_) => Ok((Seq::empty(), at)),
            LexemeKind::Sign(c) => if UnOpKind::of_postfix(c) is Some {
                glue(seq![Tree::Postfix(c)], group_at(lexemes, at + 1, false))
            } else if BinOpKind::of_sign(c) is Some {
                glue(seq![Tree::Infix(c)], group_at(lexemes, at + 1, true))
            } else {
                Ok((Seq::empty(), at))
            },
        }
    }
}

/// The error for a reading that was given up at `halt`.
pub open spec fn failure(scan: Scan, halt: Halt) -> SyntaxError {
    let lexemes = scan.lexemes;
    match halt {
        Halt::At(at) => if at < lexemes.len() {
            SyntaxError::UnrecognizedToken {
                start: lexemes[at as int].start,
                end: lexemes[at as int].end,
            }
        } else if let Some(location) = scan.stuck {
            SyntaxError::InvalidToken { location }
        } else if lexemes.len() == 0 {
            SyntaxError::UnrecognizedEof { location: 0 }
        } else {
            SyntaxError::UnrecognizedEof { location: lexemes.last().end }
        },
        Halt::TooLarge(at) => if at + 1 == lexemes.len() && scan.stuck is Some {
            SyntaxError::InvalidToken { location: scan.stuck->0 }
        } else {
            SyntaxError::NumberTooLarge {
                start: lexemes[at as int].start,
                end: lexemes[at as int].end,
            }
        },
    }
}

/// The token trees of the text with the bytes `text`, or why it has none.
pub open spec fn parse_text(text: Seq<u8>) -> Result<Seq<Tree>, SyntaxError> {
    let scan = scan_from(text, 0);
    match group_at(scan.lexemes, 0, true) {
        Ok((trees, end)) => if end == scan.lexemes.len() && scan.stuck is None {
            Ok(trees)
        } else {
            Err(failure(scan, Halt::At(end as usize)))
        },
        Err(halt) => Err(failure(scan, halt)),
    }
}

/// Gluing twice is gluing once, and gluing nothing changes nothing.
proof fn lemma_glue(a: Seq<Tree>, b: Seq<Tree>, rest: Reading)
    ensures
        glue(a, glue(b, rest)) == glue(a + b, rest),
        glue(Seq::empty(), rest) == rest,
{
    match rest {
        Ok((trees, end)) => {
            assert(a + (b + trees) =~= (a + b) + trees);
            assert(Seq::<Tree>::empty() + trees =~= trees);
        },
        Err(_) => {},
    }
}

/// The values of a run of token trees with one more at its end.
proof fn lemma_trees_of_push(tokens: Seq<TokenTree>, token: TokenTree)
    ensures
        trees_of(tokens.push(token)) == trees_of(tokens) + seq![token@],
{
    assert(trees_of(tokens.push(token)) =~= trees_of(tokens) + seq![token@]);
}

/// Whether a lexeme of this kind may stand directly behind an operand.
pub fn follows_operand(kind: LexemeKind) -> (r: bool)
    ensures
        r == may_follow_operand(kind),
{
    match kind {
        LexemeKind::Number(_) => false,
        LexemeKind::Sign(c) => c != '(' && c != '!',
    }
}

/// Reads one group from the lexeme with the index `from` on, and returns its
/// token trees with the index of the first lexeme behind it.
pub fn group(lexemes: &Vec<Lexeme>, from: usize) -> (r: Result<(Vec<TokenTree>, usize), Halt>)
    requires
        from <= lexemes@.len(),
    ensures
        match r {
            Ok((trees, end)) => group_at(lexemes@, from as int, true) == Ok::<
                (Seq<Tree>, int),
                Halt,
            >((trees_of(trees@), end as int)) && from < end <= lexemes@.len(),
            Err(halt) => group_at(lexemes@, from as int, true) == Err::<(Seq<Tree>, int), Halt>(
                halt,
            ),
        },
    decreases lexemes@.len() - from,
{
    let len = lexemes.len();
    let mut at = from;
    let mut operand = true;
    let mut trees: Vec<TokenTree> = Vec::new();
    proof {
        lemma_glue(Seq::empty(), Seq::empty(), group_at(lexemes@, at as int, true));
        assert(trees_of(trees@) =~= Seq::<Tree>::empty());
    }
    loop
        invariant
            len == lexemes@.len(),
            from <= at <= len,
            !operand ==> from < at,
            group_at(lexemes@, from as int, true) == glue(
                trees_of(trees@),
                group_at(lexemes@, at as int, operand),
            ),
        decreases len - at,
    {
        if at >= len {
            if operand {
                return Err(Halt::At(at));
            } else {
                proof {
                    assert(trees_of(trees@) + Seq::<Tree>::empty() =~= trees_of(trees@));
                }
                return Ok((trees, at));
            }
        }
        let ghost before = trees@;
        let kind = lexemes[at].kind;
        if operand {
            match kind {
                LexemeKind::Number(Some(n)) => {
                    trees.push(TokenTree::Primary(n));
                    proof {
                        lemma_trees_of_push(before, TokenTree::Primary(n));
                        lemma_glue(
                            trees_of(before),
                            seq![Tree::Primary(n)],
                            group_at(lexemes@, at + 1, false),
                        );
                    }
                    at = at + 1;
                    operand = false;
                },
                LexemeKind::Number(None) => {
                    if at + 1 < len && !follows_operand(lexemes[at + 1].kind) {
                        return Err(Halt::At(at + 1));
                    } else {
                        return Err(Halt::TooLarge(at));
                    }
                },
                LexemeKind::Sign(c) => {
                    if UnOpKind::from_prefix(c).is_some() {
                        trees.push(TokenTree::Prefix(c));
                        proof {
                            lemma_trees_of_push(before, TokenTree::Prefix(c));
                            lemma_glue(
                                trees_of(before),
                                seq![Tree::Prefix(c)],
                                group_at(lexemes@, at + 1, true),
                            );
                        }
                        at = at + 1;
                    } else if c == '(' {
                        let (inner, close) = match group(lexemes, at + 1) {
                            Ok(read) => read,
                            Err(halt) => {
                                return Err(halt);
                            },
                        };
                        if close < len && is_close(lexemes[close].kind) {
                            proof {
                                lemma_group_view(inner);
                                lemma_trees_of_push(before, TokenTree::Group(inner));
                                lemma_glue(
                                    trees_of(before),
                                    seq![Tree::Group(trees_of(inner@))],
                                    group_at(lexemes@, close + 1, false),
                                );
                            }
                            trees.push(TokenTree::Group(inner));
                            at = close + 1;
                            operand = false;
                        } else {
                            return Err(Halt::At(close));
                        }
                    } else {
                        return Err(Halt::At(at));
                    }
                },
            }
        } else {
            match kind {
                LexemeKind::Number(_) => {
                    proof {
                        assert(trees_of(trees@) + Seq::<Tree>::empty() =~= trees_of(trees@));
                    }
                    return Ok((trees, at));
                },
                LexemeKind::Sign(c) => {
                    if UnOpKind::from_postfix(c).is_some() {
                        trees.push(TokenTree::Postfix(c));
                        proof {
                            lemma_trees_of_push(before, TokenTree::Postfix(c));
                            lemma_glue(
                                trees_of(before),
                                seq![Tree::Postfix(c)],
                                group_at(lexemes@, at + 1, false),
                            );
                        }
                        at = at + 1;
                    } else if BinOpKind::from_sign(c).is_some() {
                        trees.push(TokenTree::Infix(c));
                        proof {
                            lemma_trees_of_push(before, TokenTree::Infix(c));
                            lemma_glue(
                                trees_of(before),
                                seq![Tree::Infix(c)],
                                group_at(lexemes@, at + 1, true),
                            );
                        }
                        at = at + 1;
                        operand = true;
                    } else {
                        proof {
                            assert(trees_of(trees@) + Seq::<Tree>::empty() =~= trees_of(trees@));
                        }
                        return Ok((trees, at));
                    }
                },
            }
        }
    }
}

/// Whether a lexeme of this kind closes a bracket.
pub fn is_close(kind: LexemeKind) -> (r: bool)
    ensures
        r == (kind == LexemeKind::Sign(')')),
{
    match kind {
        LexemeKind::Number(_) => false,
        LexemeKind::Sign(c) => c == ')',
    }
}

/// The error for a reading of `lexemes` that was given up at `halt`, where
/// the text began no lexeme at `stuck`.
pub fn explain(lexemes: &Vec<Lexeme>, stuck: Option<usize>, halt: Halt) -> (e: SyntaxError)
    requires
        match halt {
            Halt::At(at) => at <= lexemes@.len(),
            Halt::TooLarge(at) => at < lexemes@.len(),
        },
    ensures
        e == failure(Scan { lexemes: lexemes@, stuck }, halt),
{
    let len = lexemes.len();
    match halt {
        Halt::At(at) => {
            if at < len {
                SyntaxError::UnrecognizedToken { start: lexemes[at].start, end: lexemes[at].end }
            } else {
                match stuck {
                    Some(location) => SyntaxError::InvalidToken { location },
                    None => if len == 0 {
                        SyntaxError::UnrecognizedEof { location: 0 }
                    } else {
                        SyntaxError::UnrecognizedEof { location: lexemes[len - 1].end }
                    },
                }
            }
        },
        Halt::TooLarge(at) => {
            match stuck {
                Some(location) if at + 1 == len => SyntaxError::InvalidToken { location },
                _ => SyntaxError::NumberTooLarge {
                    start: lexemes[at].start,
                    end: lexemes[at].end,
                },
            }
        },
    }
}

/// Reads the token trees of the UTF-8 text `text`.
pub fn parse_bytes(text: &[u8]) -> (r: Result<Vec<TokenTree>, SyntaxError>)
    ensures
        match r {
            Ok(trees) => parse_text(text@) == Ok::<Seq<Tree>, SyntaxError>(trees_of(trees@)),
            Err(e) => parse_text(text@) == Err::<Seq<Tree>, SyntaxError>(e),
        },
{
    let (lexemes, stuck) = tokenize(text);
    proof {
        lemma_halts_inside(lexemes@, 0, true);
    }
    match group(&lexemes, 0) {
        Ok((trees, end)) => {
            if end == lexemes.len() && stuck.is_none() {
                Ok(trees)
            } else {
                Err(explain(&lexemes, stuck, Halt::At(end)))
            }
        },
        Err(halt) => Err(explain(&lexemes, stuck, halt)),
    }
}

/// A reading is given up at a lexeme or at the end, and a number that does
/// not fit is one of the lexemes.
proof fn lemma_halts_inside(lexemes: Seq<Lexeme>, at: int, operand: bool)
    requires
        0 <= at <= lexemes.len() <= usize::MAX,
    ensures
        match group_at(lexemes, at, operand) {
            Ok((_, end)) => at <= end <= lexemes.len(),
            Err(Halt::At(k)) => at <= k <= lexemes.len(),
            Err(Halt::TooLarge(k)) => at <= k < lexemes.len(),
        },
    decreases unread(lexemes, at),
{
    if at < lexemes.len() {
        if operand {
            match lexemes[at].kind {
                LexemeKind::Number(Some(_)) => {
                    lemma_halts_inside(lexemes, at + 1, false);
                },
                LexemeKind::Number(None) => {},
                LexemeKind::Sign(c) => {
                    if UnOpKind::of_prefix(c) is Some {
                        lemma_halts_inside(lexemes, at + 1, true);
                    } else if c == '(' {
                        lemma_halts_inside(lexemes, at + 1, true);
                        match group_at(lexemes, at + 1, true) {
                            Ok((_, close)) => {
                                if close < lexemes.len() {
                                    lemma_halts_inside(lexemes, close + 1, false);
                                }
                            },
                            Err(_) => {},
                        }
                    }
                },
            }
        } else {
            match lexemes[at].kind {
                LexemeKind::Number(_) => {},
                LexemeKind::Sign(c) => {
                    if UnOpKind::of_postfix(c) is Some {
                        lemma_halts_inside(lexemes, at + 1, false);
                    } else if BinOpKind::of_sign(c) is Some {
                        lemma_halts_inside(lexemes, at + 1, true);
                    }
                },
            }
        }
    }
}

/// The reader of arithmetic texts.
#[derive(Debug, Copy, Clone)]
pub struct TokenTreeParser {
    _priv: (),
}

impl TokenTreeParser {
    /// A reader.
    pub fn new() -> (r: TokenTreeParser) {
        TokenTreeParser { _priv: () }
    }

    /// Reads the token trees of `input`.
    pub fn parse(&self, input: &str) -> (r: Result<Vec<TokenTree>, SyntaxError>)
        ensures
            match r {
                Ok(trees) => parse_text(input.spec_bytes()) == Ok::<Seq<Tree>, SyntaxError>(
                    trees_of(trees@),
                ),
                Err(e) => parse_text(input.spec_bytes()) == Err::<Seq<Tree>, SyntaxError>(e),
            },
    {
        parse_bytes(input.as_bytes())
    }
}

} // verus!
