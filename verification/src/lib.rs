//! The Schildpad language core: a strict, deterministic, left-to-right pipeline interpreter
//! for a tiny Dutch turtle language.

pub mod number;
pub mod text;
pub mod vocab;
pub mod rng;
pub mod fixed;
pub mod lexer;
pub mod highlight;
pub mod error;
pub mod command;
pub mod value;
pub mod frame;
pub mod env;
pub mod resolve;
pub mod expr;
pub mod program;
pub mod engine;
pub mod json;
pub mod ascii;

pub use command::{AudioCmd, DrawOp, Event, Sprite, Voice, WrapMode};
pub use engine::Engine;
pub use error::{ErrorKind, SchildpadError};
pub use value::Value;
pub use vocab::Type;
