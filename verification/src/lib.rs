//! Extraction of coherent customer-support conversations from social-media
//! reply threads, scoped per organizational account.
//!
//! A reply graph is partitioned into weakly-connected components by an
//! external graph engine; each component arrives here as an ordered cluster
//! of message identifiers, together with the set of identifiers authored by
//! the account under consideration. The core of the library decides which
//! part of a cluster constitutes a genuine back-and-forth conversation:
//! account-authored messages that lack a non-account message both somewhere
//! before and somewhere after them are stripped, to a fixed point, and a
//! cluster whose converged remainder holds no account-authored message is
//! rejected outright.
//!
//! The surrounding pipeline pieces that are pure computation live here too:
//! first-occurrence deduplication of a cluster, grouping of streamed
//! (component, message) rows into clusters, selection of the accepted
//! conversations of an account run, and generation of the persisted
//! conversation identifiers. All I/O against the graph store stays outside
//! the library.

pub mod author_set;
pub mod components;
pub mod conv_id;
pub mod dedup;
pub mod filter;
pub mod pipeline;
