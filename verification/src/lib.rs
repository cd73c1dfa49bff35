//! An operator-precedence ("Pratt") parsing engine with machine-checked
//! contracts, together with a small arithmetic grammar that uses it.
//!
//! The engine is generic over a client that classifies tokens and builds
//! output nodes. What the engine returns is stated by specification functions,
//! and every executable function is proved to compute exactly that.

pub mod engine;
pub mod error;
pub mod expr;
pub mod grammar;
pub mod laws;
pub mod lexer;
pub mod mixfix;
pub mod op;
pub mod precedence;
pub mod spelling;
pub mod stream;
pub mod token_tree;

pub use engine::{eat_interfix, led, nud, parse, parse_input, parse_peekable, parse_until};
pub use engine::PrattParser;
pub use error::{NoError, PrattError};
pub use op::{Affix, Op, Symbol};
pub use precedence::{Arity, Associativity, Precedence};
pub use stream::Tokens;
