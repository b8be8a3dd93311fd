//! Prayer-times widget library: given a day's named prayer instants from a
//! remote timing service, it decides whether a cached snapshot is still
//! fresh, extracts and normalizes the recognized events, rotates them
//! chronologically around the current instant (wrapping past midnight), and
//! renders the next upcoming event plus a full tooltip for a status-bar
//! host. The ordering, freshness, retry and rendering logic is verified;
//! the clock, the JSON document and the I/O stay behind narrow trusted
//! boundaries.

pub mod cache;
pub mod errors;
pub mod events;
pub mod fetch;
pub mod render;
pub mod rotation;
pub mod snapshot;
pub mod time;
