//! Internal rate of return for irregularly dated cash flows (XIRR).
//!
//! The library holds the decisions of the solver: which payment sets are
//! accepted, the date order and day offsets used as discount exponents, and
//! the schedule of Newton steps and starting guesses. The floating-point
//! arithmetic is left to the caller, which feeds each step's outcome back.
pub mod date;
pub mod error;
pub mod order;
pub mod search;
pub mod validate;

pub use date::PaymentDate;
pub use error::InvalidPaymentsError;
