//! Reading the dictionary container of an EB/EPWING subbook: its index table
//! and the escape-coded text that its pages hold.

pub mod error;
pub mod index;
pub mod charset;
pub mod text;
pub mod subbook;

pub use error::{Error, IoError};
pub use index::{IndexLocation, Indices};
pub use subbook::Subbook;
pub use text::{Text, TextElement};
