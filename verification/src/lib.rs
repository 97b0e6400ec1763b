//! Wilma course-data client core: the OpenID-Connect Authorization-Code+PKCE
//! login flow that two independent OS processes complete together over a
//! local rendezvous channel, plus the data model around it.
//!
//! The primary process opens the browser and hands the session parameters to
//! the callback process; the callback process validates the redirect, redeems
//! the authorization code for tokens and hands the result back. Everything
//! that decides or computes lives here; the surrounding I/O (HTTP, the
//! channel transport, the browser, the UI) stays outside the library.
//!
//! - [`pkce`] draws the verifier/challenge/state triple.
//! - [`ipc`] is the channel's message codec: the two-variant wire format,
//!   pinned byte for byte, with the round trip proved.
//! - [`auth`] holds the flow's decisions: the authorization URL, the
//!   handoff, the redirect validation with its anti-CSRF `state` check,
//!   and the token-endpoint form.
//! - [`token`] reads the token endpoint's answer.
//! - [`session`] is the joint session state machine and the channel roles.
//! - [`models`], [`wilma`] and [`courses`] are the instance, account and
//!   course model around the flow.
//! - [`bytes_util`] holds the shared byte-sequence helpers.

pub mod auth;
pub mod bytes_util;
pub mod courses;
pub mod ipc;
pub mod models;
pub mod pkce;
pub mod session;
pub mod token;
pub mod wilma;
