//! Matching and negotiation core of a compute marketplace.
//!
//! `property`, `property_syntax`, `expression`, `constraint` and `resolve` read the properties
//! and constraints that demands and offers publish and evaluate them in three-valued logic;
//! `matching` decides whether a demand and an offer fit. `negotiation`, `broker`, `notifier`
//! and `agreement` hold the proposal and agreement state machines, the event queues and the
//! wait/notify registry that long polls use. `node`, `deploy`, `proxy` and `rule` hold small
//! types shared with the surrounding services.

pub mod agreement;
pub mod broker;
pub mod constraint;
pub mod deploy;
pub mod expression;
pub mod matching;
pub mod negotiation;
pub mod node;
pub mod notifier;
pub mod property;
pub mod property_syntax;
pub mod proxy;
pub mod resolve;
pub mod rule;
pub mod text;
