//! A greatest-common-divisor calculator behind an HTML form.
//!
//! The library holds everything the service decides: the Euclidean engine,
//! the rule that rejects zero, the reading of a form-encoded request body and
//! the text of every response. A server only has to move bytes in and out.

pub mod ascii;
pub mod euclid;
pub mod decimal;
pub mod form;
pub mod validate;
pub mod respond;
