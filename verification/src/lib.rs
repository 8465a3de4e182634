//! Parsing and formatting of HTTP cookie attribute strings.
//!
//! A raw `Set-Cookie`/`Cookie` attribute string of the form
//! `name=value[; attr[=val]]*` is parsed into a structured [`Cookie`]
//! record, and a [`Cookie`] is formatted back into its canonical string
//! form. Attribute names are matched case-insensitively; malformed
//! optional attributes are tolerated and skipped, while a malformed
//! `name=value` head fails the whole parse.

pub mod attrmap;
pub mod cookie;
pub mod expires;
pub mod laws;
pub mod num;
pub mod text;

pub use attrmap::AttrMap;
pub use cookie::AttrVal;
pub use cookie::Cookie;
pub use cookie::Error;
pub use expires::Tm;
