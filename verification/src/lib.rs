//! Verified core of a small resource-tracking HTTP service.
//!
//! The service stores two kinds of drink records (coffees and beers) and
//! serves them through a uniform create / list / update / delete protocol.
//! This crate holds everything that can be stated and proved: the error
//! taxonomy and its wire mapping, the identifier codec, the transactional
//! record store, the JSON rendering of responses, the request-correlation
//! rules, and the dispatch step that ties them together.  The surrounding
//! binary only moves bytes between the network and these functions.

pub mod correlation;
pub mod dispatch;
pub mod error;
pub mod ident;
pub mod record;
pub mod store;
pub mod text;
pub mod wire;
