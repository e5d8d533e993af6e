//! A number-guessing game: one secret, a sequence of typed lines, and for each
//! line a reply that says whether it was a number and how it compares.
//!
//! [`session::Session`] holds the rules. It is fed text and answers with
//! values, so that whatever reads the lines and prints the replies stays
//! outside.

pub mod input;
pub mod outcome;
pub mod secret;
pub mod session;

pub use input::{parse_guess, MalformedInput};
pub use outcome::{compare, Comparison, Reply};
pub use secret::{draw_secret, SECRET_END, SECRET_MIN};
pub use session::{Phase, Session};
