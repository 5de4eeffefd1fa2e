//! Pairing: the first-contact exchange. Builds the request body
//! carrying a certificate signing request and classifies the
//! response: 200 with a well-formed JSON body yields the two
//! certificates, anything else a diagnostic error.

use vstd::prelude::*;
use vstd::string::*;
use crate::json::{
    parse_object, field_of, JsonItem, JsonScalar, quoted, quoted_string, chars_of,
    parse_object_exec, field_index,
};
use crate::api::{ReceiverError, failure_message, render_failure_message};
use crate::text::{contains_sub, decimal_of};

verus! {

/// The two PEM strings a successful pairing returns: the receiver's
/// root certificate and the signed client certificate.
#[derive(Debug)]
pub struct PairingResponse {
    pub root_cert: String,
    pub client_cert: String,
}

/// The JSON body sent when pairing: an object with the CSR under
/// `csr`.
pub open spec fn pairing_body_text(csr: Seq<char>) -> Seq<char> {
    "{\"csr\":"@ + quoted(csr) + seq!['}']
}

/// Builds the pairing request body.
pub fn pairing_body(csr: &str) -> (r: String)
    ensures
        r@ == pairing_body_text(csr@),
{
    let mut out = String::from_str("{\"csr\":");
    let q = quoted_string(csr);
    out.append(q.as_str());
    out.append("}");
    proof {
        reveal_strlit("}");
        assert(out@ =~= pairing_body_text(csr@));
    }
    out
}

/// The two certificate strings of a pairing response body, when the
/// body is a flat JSON object carrying both as strings.
pub open spec fn pairing_parse_result(body: Seq<char>) -> Option<(Seq<char>, Seq<char>)> {
    match parse_object(body) {
        None => None,
        Some(fs) => match field_of(fs, "root_cert"@) {
            Some(JsonItem::Text(rc)) => match field_of(fs, "client_cert"@) {
                Some(JsonItem::Text(cc)) => Some((rc, cc)),
                _ => None,
            },
            _ => None,
        },
    }
}

/// The diagnostic text of a failed pairing call: a parse failure on a
/// 200 response keeps the literal body; any other status carries the
/// code and the body.
pub open spec fn pairing_error_message(status: u16, body: Seq<char>) -> Seq<char> {
    if status == 200 {
        "Error parsing this response body: "@ + body
    } else {
        failure_message(status, body)
    }
}

/// The diagnostic text of every failed non-200 pairing response
/// contains both the decimal status code and the literal response
/// body.
pub proof fn lemma_pairing_error_contains(status: u16, body: Seq<char>)
    requires
        status != 200,
    ensures
        contains_sub(pairing_error_message(status, body), decimal_of(status as nat)),
        contains_sub(pairing_error_message(status, body), body),
{
    crate::api::lemma_failure_message_contains(status, body);
}

/// Classifies a pairing response: exactly a 200 status whose body
/// carries both certificate strings succeeds, and the returned
/// strings are exactly those of the body.
pub fn classify_pairing_response(status: u16, body: &str) -> (r: Result<
    PairingResponse,
    ReceiverError,
>)
    ensures
        r is Ok <==> (status == 200 && pairing_parse_result(body@) is Some),
        r matches Ok(pr) ==> pairing_parse_result(body@) == Some((pr.root_cert@, pr.client_cert@)),
        r matches Err(e) ==> e.message@ == pairing_error_message(status, body@),
{
    if status != 200 {
        return Err(ReceiverError { message: render_failure_message(status, body) });
    }
    let v = chars_of(body);
    let fs = match parse_object_exec(&v) {
        Some(fs) => fs,
        None => {
            return Err(ReceiverError { message: parse_error_message(body) });
        },
    };
    let i1 = match field_index(&fs, "root_cert") {
        Some(i) => i,
        None => {
            return Err(ReceiverError { message: parse_error_message(body) });
        },
    };
    let i2 = match field_index(&fs, "client_cert") {
        Some(i) => i,
        None => {
            return Err(ReceiverError { message: parse_error_message(body) });
        },
    };
    let rc = match &fs[i1].1 {
        JsonScalar::Text(t) => t.clone(),
        _ => {
            return Err(ReceiverError { message: parse_error_message(body) });
        },
    };
    let cc = match &fs[i2].1 {
        JsonScalar::Text(t) => t.clone(),
        _ => {
            return Err(ReceiverError { message: parse_error_message(body) });
        },
    };
    Ok(PairingResponse { root_cert: rc, client_cert: cc })
}

fn parse_error_message(body: &str) -> (r: String)
    ensures
        r@ == "Error parsing this response body: "@ + body@,
{
    let mut out = String::from_str("Error parsing this response body: ");
    out.append(body);
    proof {
        assert(out@ =~= "Error parsing this response body: "@ + body@);
    }
    out
}

} // verus!
