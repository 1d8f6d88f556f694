//! A mail-forwarding daemon's core: configuration checks, routing of mails
//! from sources to destinations, the retry queue, the on-disk retry record
//! and the decision rules of the IMAP sources.

pub mod config;
pub mod hub;
pub mod retry;
pub mod record;
pub mod imap;
