//! Reconciles a subscription platform's membership snapshot with a chat
//! platform's identities: one decoded page of pledge data is converted into a
//! map from linked chat-platform user ids to the entitlement codes those
//! members are granted.

pub mod catalog;
pub mod convert;
pub mod models;
pub mod settings;
