//! The logic of a floating window that shows what is left of a quota.
//!
//! The newest state of the quota is read from the session logs on this machine ([`session`],
//! [`quota`]) or from the answer of an online service ([`online`], [`credits`]), which is asked
//! with the login of this machine ([`auth`], [`headers`], [`service`]). The window itself
//! collapses, expands and can be dragged ([`geometry`]), and it can wear a photo ([`skin`]).
//!
//! Everything that is decided or computed stands here, with what it does stated as a contract
//! and proved. Files, the network and the window are left to the program around it. What other
//! crates compute is called through items that say what is relied on.
pub mod auth;
pub mod credits;
pub mod double;
pub mod encoding;
pub mod fields;
pub mod geometry;
pub mod headers;
pub mod json;
pub mod lock;
pub mod online;
pub mod quota;
pub mod service;
pub mod session;
pub mod skin;
pub mod text;
