//! Turns OpenAPI 3.0/3.1 documents into tools and resource templates.
//!
//! A document is registered as a source. Each of its operations becomes a capability whose
//! schemas follow from the operation, and a call of it becomes an HTTP request. This crate
//! holds all that is decided on the way: how a document is read (`document`), what an operation
//! takes and gives (`plan`), how arguments become a request (`request`, `address`), which
//! credentials are asked for and where they go (`credentials`), what is exposed in bulk
//! (`capability`), how bindings and calls are carried out (`plugin`, `call`), and how a call is
//! answered (`exchange`, `envelope`). Every function states what it does in its contract. The
//! modules `laws`, `template` and those that end in `_laws` prove what follows for the whole, in
//! terms of what goes in and what comes out.
//!
//! Reading files, talking to the upstream and asking the host for credentials happens outside;
//! the functions here take what came of it.
pub mod address;
pub mod answer_laws;
pub mod call;
pub mod capability;
pub mod codec;
pub mod config;
pub mod credential_laws;
pub mod credentials;
pub mod document;
pub mod document_laws;
pub mod envelope;
pub mod error;
pub mod exchange;
pub mod exposure_laws;
pub mod inline_laws;
pub mod json;
pub mod laws;
pub mod operation;
pub mod plan;
pub mod plugin;
pub mod plugin_laws;
pub mod request;
pub mod request_laws;
pub mod schema_laws;
pub mod source;
pub mod template;
pub mod text;
pub mod text_laws;
pub mod text_map;
