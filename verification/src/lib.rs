//! A streaming lexer for a simplified CSS dialect.
//!
//! The lexer consumes raw style-sheet text and produces an ordered sequence of
//! structural events (selector open/close, declaration, comment) without
//! building a syntax tree. Nested selector scope is tracked with an explicit
//! stack. The event sequence a parse produces is pinned down, for every input,
//! by the mathematical model in [`model`].

pub mod chars;
pub mod events;
pub mod laws;
pub mod lexer;
pub mod model;
pub mod scan;

pub use events::Event;
pub use events::LexError;
pub use events::Warning;
pub use lexer::Lexer;

