//! A read-only TFTP engine: packet codec, option negotiation, per-transfer
//! session state machine, duplicate-tolerant receiver, session table,
//! request-path resolution and service planning. Sockets, files and timers
//! stay with the caller, which feeds events in and carries out the actions
//! that come back. The bundled daemon uses the service planning and serves
//! its transfers through the `tftpd` crate.
pub mod manager;
pub mod options;
pub mod packet;
pub mod path;
pub mod receiver;
pub mod request;
pub mod service;
pub mod session;
pub mod table;
