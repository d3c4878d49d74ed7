//! Build notification lifecycle core for a Slack/GoCD webhook relay.
//!
//! The library authenticates inbound Slack webhook requests, extracts
//! structured build events from bot-posted status lines, correlates them
//! with GoCD build history, and maintains one continuously-updated Slack
//! message per build.


pub mod build_info_manager;
pub mod gocd;
pub mod json;
pub mod slack;
pub mod text;
