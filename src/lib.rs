//! Detection, deduplication and notification logic for a monitor that
//! reports containers killed by the out-of-memory killer.

pub mod identity;
pub mod model;
pub mod detect;
pub mod tracker;
pub mod notify;
pub mod pipeline;
