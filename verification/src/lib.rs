//! A text-templating library: templates are parsed once into an immutable
//! token tree and rendered against named bindings (content values, boolean
//! conditions, and content generators). A `Shell` overlays new bindings on a
//! base template without mutating it.

pub mod errors;
pub mod laws;
pub mod lexer;
pub mod model;
pub mod parser;
pub mod template;
pub mod text;
pub mod token;

pub use errors::RenderError;
pub use lexer::{LexToken, lex};
pub use parser::{ParseError, Parser, parse};
pub use template::{ContentType, Generator, InnerTemplate, Shell, Template, TemplateContent};
pub use token::Token;
