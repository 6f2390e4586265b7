//! Verified core of a topic-voting service: the member directory, the
//! token lifecycle, the vote engine and the live-update fan-out.

pub mod member;
pub mod topic;
pub mod votes;
pub mod topics;
pub mod personalize;
pub mod directory;
pub mod auth;
pub mod events;
pub mod session;
pub mod forms;
pub mod health;
pub mod guilds;
