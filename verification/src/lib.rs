//! Client-side protocol logic for an agent-receiver service: endpoint
//! resolution, request-body encoding, response classification, and the
//! certificate-header encoding used for authenticated calls.
//!
//! All network I/O is left to the caller; this crate computes request
//! shapes from plain values and classifies raw responses (status code
//! plus body text) into typed results.

pub mod api;
pub mod json;
pub mod pairing;
pub mod pem;
pub mod registration;
pub mod status;
pub mod text;

pub use api::{
    AgentData, AgentDataRequest, AgentLabels, Api, Credentials, Pairing, ReceiverError,
    Registration, Status, StatusRequest, build_agent_data_request, build_status_request,
    check_response_204, render_failure_message,
};
pub use pairing::{PairingResponse, classify_pairing_response, pairing_body};
pub use pem::encode_pem_cert_base64;
pub use registration::{register_with_agent_labels_body, register_with_hostname_body};
pub use status::{
    HostStatus, StatusError, StatusResponse, TransportOutcome, classify_status_outcome,
    classify_status_response, decode_status_response, encode_status_response, parse_host_status,
};
pub use text::u16_to_decimal;
