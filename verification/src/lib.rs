//! Verified core of an end-to-end encrypted screen-casting publisher and relay.

pub mod access;
pub mod admin;
pub mod admin_laws;
pub mod admin_model;
pub mod approval_laws;
pub mod archive_laws;
pub mod bytes;
pub mod cadence;
pub mod capture;
pub mod capture_laws;
pub mod client;
pub mod client_laws;
pub mod cursor;
pub mod cursor_laws;
pub mod cursor_meta;
pub mod dash;
pub mod digest;
pub mod failure_laws;
pub mod files;
pub mod formats;
pub mod frame_laws;
pub mod identity;
pub mod ids;
pub mod key_history;
pub mod listing;
pub mod mailbox_laws;
pub mod media_laws;
pub mod message_laws;
pub mod meter;
pub mod order;
pub mod pairing;
pub mod pairing_laws;
pub mod pairing_model;
pub mod pixels;
pub mod pki;
pub mod portal;
pub mod portal_laws;
pub mod publication;
pub mod publication_laws;
pub mod records;
pub mod relay_laws;
pub mod resend;
pub mod runtime;
pub mod service;
pub mod service_laws;
pub mod session_laws;
pub mod startup;
pub mod state_laws;
pub mod store;
pub mod store_laws;
pub mod store_lemmas;
pub mod store_model;
pub mod subscription;
pub mod system_laws;
pub mod test_pattern;
pub mod text;
pub mod text_laws;
pub mod time;
