//! The receiver API surface: endpoint resolution, the shared
//! success-is-204 response rule, and the capability interfaces a
//! transport-bound client implements.

use vstd::prelude::*;
use vstd::string::*;
use crate::text::{decimal_of, contains_sub, u16_to_decimal};
use crate::pairing::PairingResponse;
use crate::status::{StatusResponse, StatusError};

verus! {

/// A failure of a pairing, registration or data-submission call,
/// carrying a diagnostic message.
#[derive(Debug)]
pub struct ReceiverError {
    pub message: String,
}

/// Basic-authentication credentials: a user name and its secret.
#[derive(Debug)]
pub struct Credentials {
    pub username: String,
    pub password: String,
}

/// Label keys and values sent as a registration payload, in order.
#[derive(Debug)]
pub struct AgentLabels {
    pub entries: Vec<(String, String)>,
}

/// The URL of a receiver operation on a site.
pub open spec fn endpoint_url(coordinates: Seq<char>, endpoint: Seq<char>) -> Seq<char> {
    "https://"@ + coordinates + "/agent-receiver/"@ + endpoint
}

/// Diagnostic text for a response with an unexpected status code: it
/// carries the decimal status code and the literal body.
pub open spec fn failure_message(status: u16, body: Seq<char>) -> Seq<char> {
    "Request failed with code "@ + decimal_of(status as nat) + ": "@ + body
}

/// Every failure message contains the decimal status code and the
/// literal response body.
pub proof fn lemma_failure_message_contains(status: u16, body: Seq<char>)
    ensures
        contains_sub(failure_message(status, body), decimal_of(status as nat)),
        contains_sub(failure_message(status, body), body),
{
    let m = failure_message(status, body);
    let p = "Request failed with code "@;
    let d = decimal_of(status as nat);
    let mid = ": "@;
    assert(m.subrange(p.len() as int, (p.len() + d.len()) as int) =~= d);
    assert(m.subrange((m.len() - body.len()) as int, m.len() as int) =~= body);
}

/// Renders [`failure_message`].
pub fn render_failure_message(status: u16, body: &str) -> (r: String)
    ensures
        r@ == failure_message(status, body@),
{
    let mut out = String::from_str("Request failed with code ");
    let d = u16_to_decimal(status);
    out.append(d.as_str());
    out.append(": ");
    out.append(body);
    proof {
        assert(out@ =~= failure_message(status, body@));
    }
    out
}

/// The shared write-operation response rule: success exactly on
/// status 204, anything else a failure carrying status and body.
pub fn check_response_204(status: u16, body: &str) -> (r: Result<(), ReceiverError>)
    ensures
        r is Ok <==> status == 204,
        r matches Err(e) ==> e.message@ == failure_message(status, body@),
{
    if status == 204 {
        Ok(())
    } else {
        Err(ReceiverError { message: render_failure_message(status, body) })
    }
}

/// The concrete receiver client; transport-bound callers implement
/// the capability traits on top of the request builders and response
/// classifiers of this crate.
pub struct Api {}

impl Api {
    /// Resolves a site coordinate and an operation path to the
    /// operation's URL.
    pub fn endpoint_address(coordinates: &str, endpoint: &str) -> (r: String)
        ensures
            r@ == endpoint_url(coordinates@, endpoint@),
    {
        let mut out = String::from_str("https://");
        out.append(coordinates);
        out.append("/agent-receiver/");
        out.append(endpoint);
        proof {
            assert(out@ =~= endpoint_url(coordinates@, endpoint@));
        }
        out
    }
}

/// Everything a transport needs to submit monitoring data: the URL,
/// the two authentication and compression headers, and the multipart
/// shape. The payload itself travels beside this, untouched.
#[derive(Debug)]
pub struct AgentDataRequest {
    pub url: String,
    pub certificate_header: String,
    pub compression_header: String,
    pub part_name: String,
    pub file_name: String,
}

/// Builds a data-submission request: the certificate travels as a
/// header, URL-safe base64 of its DER contents, and the payload as a
/// multipart file part whose file name is required but meaningless.
pub fn build_agent_data_request(
    coordinates: &str,
    uuid: &str,
    certificate: &str,
    compression_algorithm: &str,
) -> (r: Result<AgentDataRequest, ReceiverError>)
    ensures
        r is Ok <==> (crate::pem::pem_payload(certificate@) matches Some(p)
            && crate::pem::b64_standard_decode(p) is Some),
        r matches Ok(q) ==> ({
            &&& q.url@ == endpoint_url(coordinates@, "agent_data/"@ + uuid@)
            &&& (crate::pem::pem_payload(certificate@) matches Some(p)
                && crate::pem::b64_standard_decode(p) matches Some(d) && q.certificate_header@
                == crate::pem::b64_url_encode(d))
            &&& q.compression_header@ == compression_algorithm@
            &&& q.part_name@ == "monitoring_data"@
            &&& q.file_name@ == "agent_data"@
            &&& q.file_name@.len() > 0
        }),
        r matches Err(e) ==> e.message@ == "Invalid certificate"@,
{
    let header = match crate::pem::encode_pem_cert_base64(certificate) {
        Ok(h) => h,
        Err(e) => {
            return Err(e);
        },
    };
    let mut ep = String::from_str("agent_data/");
    ep.append(uuid);
    proof {
        assert(ep@ =~= "agent_data/"@ + uuid@);
    }
    let url = Api::endpoint_address(coordinates, ep.as_str());
    let file_name = String::from_str("agent_data");
    proof {
        reveal_strlit("agent_data");
    }
    Ok(
        AgentDataRequest {
            url,
            certificate_header: header,
            compression_header: String::from_str(compression_algorithm),
            part_name: String::from_str("monitoring_data"),
            file_name,
        },
    )
}

/// Everything a transport needs for a status query: the URL and the
/// certificate header.
#[derive(Debug)]
pub struct StatusRequest {
    pub url: String,
    pub certificate_header: String,
}

/// Builds a status query request; a certificate that cannot be
/// encoded is an unspecified failure, not a transport one.
pub fn build_status_request(coordinates: &str, uuid: &str, certificate: &str) -> (r: Result<
    StatusRequest,
    StatusError,
>)
    ensures
        r is Ok <==> (crate::pem::pem_payload(certificate@) matches Some(p)
            && crate::pem::b64_standard_decode(p) is Some),
        r matches Ok(q) ==> ({
            &&& q.url@ == endpoint_url(coordinates@, "registration_status/"@ + uuid@)
            &&& (crate::pem::pem_payload(certificate@) matches Some(p)
                && crate::pem::b64_standard_decode(p) matches Some(d) && q.certificate_header@
                == crate::pem::b64_url_encode(d))
        }),
        r matches Err(e) ==> (e matches StatusError::UnspecifiedError(m) && m@
            == "Invalid certificate"@),
{
    let header = match crate::pem::encode_pem_cert_base64(certificate) {
        Ok(h) => h,
        Err(e) => {
            return Err(StatusError::UnspecifiedError(e.message));
        },
    };
    let mut ep = String::from_str("registration_status/");
    ep.append(uuid);
    proof {
        assert(ep@ =~= "registration_status/"@ + uuid@);
    }
    let url = Api::endpoint_address(coordinates, ep.as_str());
    Ok(StatusRequest { url, certificate_header: header })
}

/// First-contact capability: obtain a trust anchor and a signed
/// client certificate from a certificate signing request.
pub trait Pairing {
    fn pair(
        &self,
        coordinates: &str,
        root_cert: Option<&str>,
        csr: String,
        credentials: &Credentials,
    ) -> Result<PairingResponse, ReceiverError>;
}

/// Associate a paired identity with a host name or with agent labels.
pub trait Registration {
    fn register_with_hostname(
        &self,
        coordinates: &str,
        root_cert: &str,
        credentials: &Credentials,
        uuid: &str,
        host_name: &str,
    ) -> Result<(), ReceiverError>;

    fn register_with_agent_labels(
        &self,
        coordinates: &str,
        root_cert: &str,
        credentials: &Credentials,
        uuid: &str,
        agent_labels: &AgentLabels,
    ) -> Result<(), ReceiverError>;
}

/// Submit monitoring data under a registered identity.
pub trait AgentData {
    fn agent_data(
        &self,
        coordinates: &str,
        root_cert: &str,
        uuid: &str,
        certificate: &str,
        compression_algorithm: &str,
        monitoring_data: &[u8],
    ) -> Result<(), ReceiverError>;
}

/// Query the receiver's view of a registration.
pub trait Status {
    fn status(
        &self,
        coordinates: &str,
        root_cert: &str,
        uuid: &str,
        certificate: &str,
    ) -> Result<StatusResponse, StatusError>;
}

} // verus!

