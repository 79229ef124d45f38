//! What callers can ask for: starting, approving, cancelling and looking at
//! runs. Loading and storing is left to the caller.
pub mod advance_run;
pub mod approvals;
pub mod cancel_run;
pub mod queries;
pub mod start_flow;
