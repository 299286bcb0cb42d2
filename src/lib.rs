//! Maps a URL onto a command invocation: a handler is chosen by the URL's
//! scheme, its argument template is expanded with the URL's query pairs
//! (`{key}`), its positional arguments (`%N`) and environment variables
//! (`%NAME%`), and the result is split into arguments, respecting quotes.

mod chars;
pub mod env;
pub mod error;
pub mod expand;
pub mod handler;
pub mod parsed_url;
pub mod substitute;
pub mod tokenize;

pub use env::expand_env;
pub use error::ExpansionError;
pub use expand::{expand_args, expand_named};
pub use handler::{expand, find_handler, resolve, Config, Handler, Invocation};
pub use parsed_url::{get_args, positional_args, ParsedUrl};
pub use tokenize::split_args;
