//! Content derivation and static export for a small templated site.
//!
//! The site has five pages ([`page`]). Two of them are built from data:
//! the message board from messages that each get a decal ([`decal`],
//! [`message`]) and whose characters decide which web font subsets the page
//! asks for ([`charset`]); the timeline from the video catalog ([`video`]),
//! grouped by month and indexed by year ([`calendar`], [`runs`],
//! [`timeline`]). The static exporter ([`export`]) is a state machine that
//! tells its driver what to do next; [`template`] names the templates that
//! are loaded ahead of time, and [`text`] holds the text helpers that the
//! others share.
//!
//! Nothing here reads a file, a socket or a clock: callers hand in plain
//! values and get plain values back.

pub mod calendar;
pub mod charset;
pub mod decal;
pub mod export;
pub mod message;
pub mod page;
pub mod runs;
pub mod template;
pub mod text;
pub mod timeline;
pub mod video;
