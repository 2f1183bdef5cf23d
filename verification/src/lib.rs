//! The logic of a Matrix transport sidecar.
//!
//! The sidecar takes messages from a Matrix room into a durable queue, hands them out over a
//! local socket, and sends the answers back. This library decides; the program around it talks
//! to the homeserver, the database and the socket.

pub mod arrival_laws;
pub mod clock;
pub mod config;
pub mod config_laws;
pub mod course_laws;
pub mod encoding;
pub mod exchange;
pub mod exchange_laws;
pub mod files;
pub mod identity_laws;
pub mod ids;
pub mod inbound;
pub mod keyed;
pub mod model;
pub mod operation_laws;
pub mod outbound;
pub mod paths;
pub mod projects;
pub mod protocol;
pub mod queue_laws;
pub mod record_laws;
pub mod records;
pub mod rendering_laws;
pub mod schema;
pub mod speech;
pub mod speech_laws;
pub mod store;
pub mod text;
pub mod text_laws;
pub mod trust;
