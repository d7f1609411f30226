//! Verified core logic of the Eddie mail client.
use vstd::prelude::*;

pub mod text;
pub mod classifier;
pub mod union_find;
pub mod sorted_set;
pub mod participants;
pub mod digest;
pub mod threads;
pub mod conversations;
pub mod vcard;
pub mod vcard_roundtrip;
pub mod carddav;
pub mod discovery;
pub mod folders;
pub mod headers;
pub mod mime;
pub mod crypto;
pub mod envelope;
pub mod skills;
pub mod config;
pub mod batches;
pub mod compose;
pub mod accounts;
pub mod mailbox;
pub mod smtp;
pub mod onboarding;

verus! {
} // verus!
