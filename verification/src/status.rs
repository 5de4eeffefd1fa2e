//! Status query: the receiver's view of a registration. A response
//! body is a flat JSON object with four optional fields; the `status`
//! field, when present, must be one of five known flags. The error
//! taxonomy distinguishes transport failure, certificate rejection
//! and everything else.

use vstd::prelude::*;
use vstd::string::*;
use crate::json::{
    parse_object, field_of, item_text, JsonItem, JsonScalar, quoted, quoted_string, chars_of,
    parse_object_exec, field_index, fields_view, literal_key, wf_members,
    wf_member_item, object_text, members_text, escaped, lemma_escaped_plain,
    lemma_parse_object_canonical,
};
use crate::text::str_eq;

verus! {

/// The receiver's registration phases. A closed set: nothing else is
/// ever synthesised, and an unknown flag fails parsing.
#[derive(Clone, Copy, PartialEq, Eq, Structural, Debug)]
pub enum HostStatus {
    New,
    Pending,
    Declined,
    Ready,
    Discoverable,
}

/// The string flag of each registration phase.
pub open spec fn host_status_tag(h: HostStatus) -> Seq<char> {
    match h {
        HostStatus::New => "new"@,
        HostStatus::Pending => "pending"@,
        HostStatus::Declined => "declined"@,
        HostStatus::Ready => "ready"@,
        HostStatus::Discoverable => "discoverable"@,
    }
}

/// The phase named by a flag, if it is one of the five known flags.
pub open spec fn host_status_of(t: Seq<char>) -> Option<HostStatus> {
    if t == "new"@ {
        Some(HostStatus::New)
    } else if t == "pending"@ {
        Some(HostStatus::Pending)
    } else if t == "declined"@ {
        Some(HostStatus::Declined)
    } else if t == "ready"@ {
        Some(HostStatus::Ready)
    } else if t == "discoverable"@ {
        Some(HostStatus::Discoverable)
    } else {
        None
    }
}

/// Parses a status flag, failing on anything outside the closed set.
pub fn parse_host_status(t: &str) -> (r: Option<HostStatus>)
    ensures
        r == host_status_of(t@),
{
    if str_eq(t, "new") {
        Some(HostStatus::New)
    } else if str_eq(t, "pending") {
        Some(HostStatus::Pending)
    } else if str_eq(t, "declined") {
        Some(HostStatus::Declined)
    } else if str_eq(t, "ready") {
        Some(HostStatus::Ready)
    } else if str_eq(t, "discoverable") {
        Some(HostStatus::Discoverable)
    } else {
        None
    }
}

/// Renders a phase as its string flag.
pub fn host_status_text(h: &HostStatus) -> (r: String)
    ensures
        r@ == host_status_tag(*h),
{
    match h {
        HostStatus::New => String::from_str("new"),
        HostStatus::Pending => String::from_str("pending"),
        HostStatus::Declined => String::from_str("declined"),
        HostStatus::Ready => String::from_str("ready"),
        HostStatus::Discoverable => String::from_str("discoverable"),
    }
}

/// The receiver's answer to a status query. Every field is optional:
/// the receiver omits fields depending on the registration phase. The
/// connection-type tag is opaque to this crate and reported as-is.
#[derive(Debug)]
pub struct StatusResponse {
    pub hostname: Option<String>,
    pub status: Option<HostStatus>,
    pub connection_type: Option<String>,
    pub message: Option<String>,
}

/// The mathematical contents of a status response.
#[verifier::ext_equal]
pub struct StatusFields {
    pub hostname: Option<Seq<char>>,
    pub status: Option<HostStatus>,
    pub connection_type: Option<Seq<char>>,
    pub message: Option<Seq<char>>,
}

/// The contents of an optional string field.
pub open spec fn opt_text(o: Option<String>) -> Option<Seq<char>> {
    match o {
        Some(s) => Some(s@),
        None => None,
    }
}

/// The mathematical contents of an executable status response.
pub open spec fn response_fields(sr: StatusResponse) -> StatusFields {
    StatusFields {
        hostname: opt_text(sr.hostname),
        status: sr.status,
        connection_type: opt_text(sr.connection_type),
        message: opt_text(sr.message),
    }
}

/// Reads an optional string member: absent or null is `Some(None)`,
/// a string is `Some(Some(..))`, any other shape is a failure.
pub open spec fn text_field(fs: Seq<(Seq<char>, JsonItem)>, key: Seq<char>) -> Option<
    Option<Seq<char>>,
> {
    match field_of(fs, key) {
        None => Some(None),
        Some(JsonItem::Null) => Some(None),
        Some(JsonItem::Text(t)) => Some(Some(t)),
        Some(_) => None,
    }
}

/// The contents of a status response body, if the body is a flat
/// JSON object of the expected shape with a known `status` flag.
pub open spec fn status_fields_of(body: Seq<char>) -> Option<StatusFields> {
    match parse_object(body) {
        None => None,
        Some(fs) => match (
            text_field(fs, "hostname"@),
            text_field(fs, "status"@),
            text_field(fs, "type"@),
            text_field(fs, "message"@),
        ) {
            (Some(h), Some(st), Some(ty), Some(msg)) => match st {
                None => Some(
                    StatusFields { hostname: h, status: None, connection_type: ty, message: msg },
                ),
                Some(t) => match host_status_of(t) {
                    None => None,
                    Some(hs) => Some(
                        StatusFields {
                            hostname: h,
                            status: Some(hs),
                            connection_type: ty,
                            message: msg,
                        },
                    ),
                },
            },
            _ => None,
        },
    }
}

fn get_text_field(fs: &Vec<(String, JsonScalar)>, key: &str) -> (r: Result<Option<String>, ()>)
    ensures
        match r {
            Ok(o) => text_field(fields_view(fs@), key@) == Some(opt_text(o)),
            Err(_) => text_field(fields_view(fs@), key@) is None,
        },
{
    match field_index(fs, key) {
        None => Ok(None),
        Some(ix) => match &fs[ix].1 {
            JsonScalar::Null => Ok(None),
            JsonScalar::Text(t) => Ok(Some(t.clone())),
            _ => Err(()),
        },
    }
}

/// Decodes a status response body, failing closed on any shape the
/// schema does not allow, in particular on an unknown status flag.
pub fn decode_status_response(body: &str) -> (r: Option<StatusResponse>)
    ensures
        match r {
            Some(sr) => status_fields_of(body@) == Some(response_fields(sr)),
            None => status_fields_of(body@) is None,
        },
{
    let v = chars_of(body);
    let fs = match parse_object_exec(&v) {
        Some(fs) => fs,
        None => {
            return None;
        },
    };
    let hostname = match get_text_field(&fs, "hostname") {
        Ok(o) => o,
        Err(_) => {
            return None;
        },
    };
    let status_text = match get_text_field(&fs, "status") {
        Ok(o) => o,
        Err(_) => {
            return None;
        },
    };
    let connection_type = match get_text_field(&fs, "type") {
        Ok(o) => o,
        Err(_) => {
            return None;
        },
    };
    let message = match get_text_field(&fs, "message") {
        Ok(o) => o,
        Err(_) => {
            return None;
        },
    };
    let status = match status_text {
        None => None,
        Some(t) => match parse_host_status(t.as_str()) {
            None => {
                return None;
            },
            Some(hs) => Some(hs),
        },
    };
    Some(StatusResponse { hostname, status, connection_type, message })
}

/// A string member, or `null` for an absent one.
pub open spec fn opt_quoted(o: Option<Seq<char>>) -> Seq<char> {
    match o {
        None => seq!['n', 'u', 'l', 'l'],
        Some(t) => quoted(t),
    }
}

/// A status flag member, or `null` for an absent one.
pub open spec fn status_tag_opt(st: Option<HostStatus>) -> Seq<char> {
    match st {
        None => seq!['n', 'u', 'l', 'l'],
        Some(h) => quoted(host_status_tag(h)),
    }
}

/// The canonical encoding of a status response: all four members
/// written in a fixed order, absent ones as `null`.
pub open spec fn status_body_text(f: StatusFields) -> Seq<char> {
    "{\"hostname\":"@ + opt_quoted(f.hostname) + ",\"status\":"@ + status_tag_opt(f.status)
        + ",\"type\":"@ + opt_quoted(f.connection_type) + ",\"message\":"@ + opt_quoted(f.message)
        + seq!['}']
}

fn append_opt_quoted(out: &mut String, o: &Option<String>)
    ensures
        final(out)@ == old(out)@ + opt_quoted(opt_text(*o)),
{
    match o {
        None => {
            out.append("null");
            proof {
                reveal_strlit("null");
                assert(final(out)@ =~= old(out)@ + opt_quoted(opt_text(*o)));
            }
        },
        Some(t) => {
            let q = quoted_string(t.as_str());
            out.append(q.as_str());
        },
    }
}

/// Encodes a status response as its canonical JSON body.
pub fn encode_status_response(sr: &StatusResponse) -> (r: String)
    ensures
        r@ == status_body_text(response_fields(*sr)),
{
    let mut out = String::from_str("{\"hostname\":");
    append_opt_quoted(&mut out, &sr.hostname);
    out.append(",\"status\":");
    match &sr.status {
        None => {
            out.append("null");
            proof {
                reveal_strlit("null");
            }
        },
        Some(h) => {
            let t = host_status_text(h);
            let q = quoted_string(t.as_str());
            out.append(q.as_str());
        },
    }
    out.append(",\"type\":");
    append_opt_quoted(&mut out, &sr.connection_type);
    out.append(",\"message\":");
    append_opt_quoted(&mut out, &sr.message);
    out.append("}");
    proof {
        reveal_strlit("}");
        assert(out@ =~= status_body_text(response_fields(*sr)));
    }
    out
}

/// The member value written for each optional text field.
pub open spec fn opt_item(o: Option<Seq<char>>) -> JsonItem {
    match o {
        None => JsonItem::Null,
        Some(t) => JsonItem::Text(t),
    }
}

/// The member value written for the status field.
pub open spec fn status_item(st: Option<HostStatus>) -> JsonItem {
    match st {
        None => JsonItem::Null,
        Some(h) => JsonItem::Text(host_status_tag(h)),
    }
}

/// The member list of the canonical status body.
pub open spec fn status_members(f: StatusFields) -> Seq<(Seq<char>, JsonItem)> {
    seq![
        ("hostname"@, opt_item(f.hostname)),
        ("status"@, status_item(f.status)),
        ("type"@, opt_item(f.connection_type)),
        ("message"@, opt_item(f.message)),
    ]
}

proof fn lemma_status_tags_clean()
    ensures
        forall|h: HostStatus| literal_key(#[trigger] host_status_tag(h)),
{
    reveal_strlit("new");
    reveal_strlit("pending");
    reveal_strlit("declined");
    reveal_strlit("ready");
    reveal_strlit("discoverable");
    assert forall|h: HostStatus| literal_key(#[trigger] host_status_tag(h)) by {
        match h {
            HostStatus::New => {
                assert(literal_key("new"@));
            },
            HostStatus::Pending => {
                assert(literal_key("pending"@));
            },
            HostStatus::Declined => {
                assert(literal_key("declined"@));
            },
            HostStatus::Ready => {
                assert(literal_key("ready"@));
            },
            HostStatus::Discoverable => {
                assert(literal_key("discoverable"@));
            },
        }
    }
}

proof fn lemma_status_keys()
    ensures
        literal_key("hostname"@),
        literal_key("status"@),
        literal_key("type"@),
        literal_key("message"@),
        escaped("hostname"@) == "hostname"@,
        escaped("status"@) == "status"@,
        escaped("type"@) == "type"@,
        escaped("message"@) == "message"@,
        "hostname"@ != "status"@,
        "hostname"@ != "type"@,
        "hostname"@ != "message"@,
        "status"@ != "type"@,
        "status"@ != "message"@,
        "type"@ != "message"@,
{
    reveal_strlit("hostname");
    reveal_strlit("status");
    reveal_strlit("type");
    reveal_strlit("message");
    assert(literal_key("hostname"@));
    assert(literal_key("status"@));
    assert(literal_key("type"@));
    assert(literal_key("message"@));
    lemma_escaped_plain("hostname"@);
    lemma_escaped_plain("status"@);
    lemma_escaped_plain("type"@);
    lemma_escaped_plain("message"@);
}

proof fn lemma_chunk_hostname()
    ensures
        "{\"hostname\":"@ == seq!['{'] + (quoted("hostname"@) + seq![':']),
{
    lemma_status_keys();
    reveal_strlit("{\"hostname\":");
    reveal_strlit("hostname");
    assert("{\"hostname\":"@ =~= seq!['{'] + (quoted("hostname"@) + seq![':']));
}

proof fn lemma_chunk_status()
    ensures
        ",\"status\":"@ == seq![','] + (quoted("status"@) + seq![':']),
{
    lemma_status_keys();
    reveal_strlit(",\"status\":");
    reveal_strlit("status");
    assert(",\"status\":"@ =~= seq![','] + (quoted("status"@) + seq![':']));
}

proof fn lemma_chunk_type()
    ensures
        ",\"type\":"@ == seq![','] + (quoted("type"@) + seq![':']),
{
    lemma_status_keys();
    reveal_strlit(",\"type\":");
    reveal_strlit("type");
    assert(",\"type\":"@ =~= seq![','] + (quoted("type"@) + seq![':']));
}

proof fn lemma_chunk_message()
    ensures
        ",\"message\":"@ == seq![','] + (quoted("message"@) + seq![':']),
{
    lemma_status_keys();
    reveal_strlit(",\"message\":");
    reveal_strlit("message");
    assert(",\"message\":"@ =~= seq![','] + (quoted("message"@) + seq![':']));
}

proof fn lemma_assoc3(x: Seq<char>, y: Seq<char>, z: Seq<char>)
    ensures
        (x + y) + z == x + (y + z),
{
    assert((x + y) + z =~= x + (y + z));
}

proof fn lemma_member_chunk(pre: Seq<char>, k: Seq<char>, i: Seq<char>, rest: Seq<char>)
    ensures
        (pre + (k + seq![':'])) + (i + rest) == pre + (k + (seq![':'] + (i + rest))),
{
    assert((pre + (k + seq![':'])) + (i + rest) =~= pre + (k + (seq![':'] + (i + rest))));
}

/// The canonical status body is the canonical object text of its
/// four members.
#[verifier::rlimit(100)]
proof fn lemma_status_body_is_object_text(f: StatusFields)
    ensures
        status_body_text(f) == object_text(status_members(f)),
{
    lemma_status_keys();
    lemma_chunk_hostname();
    lemma_chunk_status();
    lemma_chunk_type();
    lemma_chunk_message();
    let fs = status_members(f);
    let fs1 = seq![
        ("status"@, status_item(f.status)),
        ("type"@, opt_item(f.connection_type)),
        ("message"@, opt_item(f.message)),
    ];
    let fs2 = seq![("type"@, opt_item(f.connection_type)), ("message"@, opt_item(f.message))];
    let fs3 = seq![("message"@, opt_item(f.message))];
    assert(fs.drop_first() =~= fs1);
    assert(fs1.drop_first() =~= fs2);
    assert(fs2.drop_first() =~= fs3);
    let i1 = item_text(opt_item(f.hostname));
    let i2 = item_text(status_item(f.status));
    let i3 = item_text(opt_item(f.connection_type));
    let i4 = item_text(opt_item(f.message));
    assert(opt_quoted(f.hostname) == i1);
    assert(status_tag_opt(f.status) == i2);
    assert(opt_quoted(f.connection_type) == i3);
    assert(opt_quoted(f.message) == i4);
    let w3 = members_text(fs3);
    let w2 = members_text(fs2);
    let w1 = members_text(fs1);
    let w0 = members_text(fs);
    assert(w3 == quoted("message"@) + (seq![':'] + (i4 + seq!['}'])));
    assert(w2 == quoted("type"@) + (seq![':'] + (i3 + (seq![','] + w3))));
    assert(w1 == quoted("status"@) + (seq![':'] + (i2 + (seq![','] + w2))));
    assert(w0 == quoted("hostname"@) + (seq![':'] + (i1 + (seq![','] + w1))));
    let a1 = "{\"hostname\":"@;
    let a2 = ",\"status\":"@;
    let a3 = ",\"type\":"@;
    let a4 = ",\"message\":"@;
    let cb = seq!['}'];
    let r4 = i4 + cb;
    let t4 = a4 + r4;
    let r3 = i3 + t4;
    let t3 = a3 + r3;
    let r2 = i2 + t3;
    let t2 = a2 + r2;
    let r1 = i1 + t2;
    let t1 = a1 + r1;
    let l2 = a1 + i1;
    let l3 = l2 + a2;
    let l4 = l3 + i2;
    let l5 = l4 + a3;
    let l6 = l5 + i3;
    let l7 = l6 + a4;
    let l8 = l7 + i4;
    assert(status_body_text(f) == l8 + cb);
    lemma_assoc3(l7, i4, cb);
    assert(l8 + cb == l7 + r4);
    lemma_assoc3(l6, a4, r4);
    assert(l7 + r4 == l6 + t4);
    lemma_assoc3(l5, i3, t4);
    assert(l6 + t4 == l5 + r3);
    lemma_assoc3(l4, a3, r3);
    assert(l5 + r3 == l4 + t3);
    lemma_assoc3(l3, i2, t3);
    assert(l4 + t3 == l3 + r2);
    lemma_assoc3(l2, a2, r2);
    assert(l3 + r2 == l2 + t2);
    lemma_assoc3(a1, i1, t2);
    assert(l2 + t2 == a1 + r1);
    assert(status_body_text(f) == t1);
    lemma_member_chunk(seq![','], quoted("message"@), i4, cb);
    assert(t4 == seq![','] + w3);
    lemma_member_chunk(seq![','], quoted("type"@), i3, seq![','] + w3);
    assert(t3 == seq![','] + w2);
    lemma_member_chunk(seq![','], quoted("status"@), i2, seq![','] + w2);
    assert(t2 == seq![','] + w1);
    lemma_member_chunk(seq!['{'], quoted("hostname"@), i1, seq![','] + w1);
    assert(t1 == seq!['{'] + w0);
    assert(status_body_text(f) == seq!['{'] + w0);
}

#[verifier::rlimit(100)]
proof fn lemma_status_parse(f: StatusFields)
    ensures
        parse_object(status_body_text(f)) == Some(status_members(f)),
{
    lemma_status_keys();
    let fs = status_members(f);
    assert(wf_members(fs)) by {
        assert(fs[0].0 == "hostname"@ && fs[1].0 == "status"@ && fs[2].0 == "type"@ && fs[3].0
            == "message"@);
        assert(wf_member_item(fs[0].1));
        assert(wf_member_item(fs[1].1));
        assert(wf_member_item(fs[2].1));
        assert(wf_member_item(fs[3].1));
    }
    lemma_status_body_is_object_text(f);
    lemma_parse_object_canonical(fs);
}

#[verifier::rlimit(100)]
proof fn lemma_status_members_fields(f: StatusFields)
    ensures
        text_field(status_members(f), "hostname"@) == Some(f.hostname),
        text_field(status_members(f), "type"@) == Some(f.connection_type),
        text_field(status_members(f), "message"@) == Some(f.message),
        field_of(status_members(f), "status"@) == Some(status_item(f.status)),
{
    lemma_status_keys();
    let fs = status_members(f);
    let fs1 = fs.drop_first();
    let fs2 = fs1.drop_first();
    let fs3 = fs2.drop_first();
    assert(fs[0].0 == "hostname"@ && fs[1].0 == "status"@ && fs[2].0 == "type"@ && fs[3].0
        == "message"@);
    assert(fs1[0].0 == "status"@ && fs1[1].0 == "type"@ && fs1[2].0 == "message"@);
    assert(fs2[0].0 == "type"@ && fs2[1].0 == "message"@);
    assert(fs3[0].0 == "message"@);
    assert(field_of(fs, "hostname"@) == Some(opt_item(f.hostname)));
    assert(field_of(fs1, "status"@) == Some(status_item(f.status)));
    assert(field_of(fs, "status"@) == field_of(fs1, "status"@));
    assert(field_of(fs2, "type"@) == Some(opt_item(f.connection_type)));
    assert(field_of(fs1, "type"@) == field_of(fs2, "type"@));
    assert(field_of(fs, "type"@) == field_of(fs1, "type"@));
    assert(field_of(fs3, "message"@) == Some(opt_item(f.message)));
    assert(field_of(fs2, "message"@) == field_of(fs3, "message"@));
    assert(field_of(fs1, "message"@) == field_of(fs2, "message"@));
    assert(field_of(fs, "message"@) == field_of(fs1, "message"@));
    assert(text_field(fs, "hostname"@) == Some(f.hostname));
    assert(text_field(fs, "type"@) == Some(f.connection_type));
    assert(text_field(fs, "message"@) == Some(f.message));
}

/// Decoding inverts the canonical encoding: a status body written
/// from any four field values is parsed back to exactly those
/// values.
#[verifier::rlimit(100)]
pub proof fn lemma_status_response_roundtrip(f: StatusFields)
    ensures
        status_fields_of(status_body_text(f)) == Some(f),
{
    lemma_status_parse(f);
    lemma_status_members_fields(f);
    let fs = status_members(f);
    match f.status {
        None => {
            assert(text_field(fs, "status"@) == Some(None::<Seq<char>>));
            assert(status_fields_of(status_body_text(f)) =~= Some(f));
        },
        Some(h) => {
            assert(text_field(fs, "status"@) == Some(Some(host_status_tag(h))));
            reveal_strlit("new");
            reveal_strlit("pending");
            reveal_strlit("declined");
            reveal_strlit("ready");
            reveal_strlit("discoverable");
            assert(host_status_of(host_status_tag(h)) == Some(h)) by {
                match h {
                    HostStatus::New => {},
                    HostStatus::Pending => {},
                    HostStatus::Declined => {},
                    HostStatus::Ready => {},
                    HostStatus::Discoverable => {},
                }
            }
            assert(status_fields_of(status_body_text(f)) =~= Some(f));
        },
    }
}

/// A status query's failure modes: the receiver could not be reached
/// at all, it rejected the presented certificate, or anything else.
#[derive(Debug)]
pub enum StatusError {
    ConnectionRefused(String),
    CertificateInvalid,
    UnspecifiedError(String),
}

/// What the transport handed back: a delivered response, or a failure
/// to complete the exchange at all.
#[derive(Debug)]
pub enum TransportOutcome {
    Delivered { status: u16, body: String },
    Unreachable { detail: String },
}

/// Best-effort diagnostic of a non-200, non-401 response: the
/// `detail` member of the JSON body when present, else a fixed
/// marker.
pub open spec fn detail_message(body: Seq<char>) -> Seq<char> {
    match parse_object(body) {
        None => "Failed to deserialize response body to JSON"@,
        Some(fs) => match field_of(fs, "detail"@) {
            None => "Unknown failure"@,
            Some(x) => item_text(x),
        },
    }
}

/// The outcome a status query owes for each delivered response.
pub enum StatusVerdict {
    Parsed(StatusFields),
    Refused,
    Unspecified(Seq<char>),
    Unreached(Seq<char>),
}

/// The verdict owed for a delivered response: 401 is a certificate
/// rejection, 200 is parsed against the schema, anything else is an
/// unspecified failure with a best-effort diagnostic.
pub open spec fn verdict_of(status: u16, body: Seq<char>) -> StatusVerdict {
    if status == 401 {
        StatusVerdict::Refused
    } else if status == 200 {
        match status_fields_of(body) {
            Some(f) => StatusVerdict::Parsed(f),
            None => StatusVerdict::Unspecified("Failed to deserialize response body: "@ + body),
        }
    } else {
        StatusVerdict::Unspecified(detail_message(body))
    }
}

/// The returned value realises the verdict.
pub open spec fn result_matches_verdict(
    r: Result<StatusResponse, StatusError>,
    v: StatusVerdict,
) -> bool {
    match v {
        StatusVerdict::Parsed(f) => r matches Ok(sr) && response_fields(sr) == f,
        StatusVerdict::Refused => r matches Err(e) && e is CertificateInvalid,
        StatusVerdict::Unspecified(m) => r matches Err(e) && e matches StatusError::UnspecifiedError(
            s,
        ) && s@ == m,
        StatusVerdict::Unreached(m) => r matches Err(e) && e matches StatusError::ConnectionRefused(
            s,
        ) && s@ == m,
    }
}

/// Classifies a delivered status response.
pub fn classify_status_response(status: u16, body: &str) -> (r: Result<StatusResponse, StatusError>)
    ensures
        result_matches_verdict(r, verdict_of(status, body@)),
{
    if status == 401 {
        return Err(StatusError::CertificateInvalid);
    }
    if status == 200 {
        match decode_status_response(body) {
            Some(sr) => Ok(sr),
            None => {
                let mut m = String::from_str("Failed to deserialize response body: ");
                m.append(body);
                proof {
                    assert(m@ =~= "Failed to deserialize response body: "@ + body@);
                }
                Err(StatusError::UnspecifiedError(m))
            },
        }
    } else {
        let v = chars_of(body);
        match parse_object_exec(&v) {
            None => Err(
                StatusError::UnspecifiedError(
                    String::from_str("Failed to deserialize response body to JSON"),
                ),
            ),
            Some(fs) => match field_index(&fs, "detail") {
                None => Err(StatusError::UnspecifiedError(String::from_str("Unknown failure"))),
                Some(ix) => Err(StatusError::UnspecifiedError(crate::json::scalar_string(&fs[ix].1))),
            },
        }
    }
}

/// Classifies what the transport handed back: a failure to reach the
/// receiver is `ConnectionRefused`, a delivered response is
/// classified by status code.
pub fn classify_status_outcome(outcome: TransportOutcome) -> (r: Result<
    StatusResponse,
    StatusError,
>)
    ensures
        match outcome {
            TransportOutcome::Unreachable { detail } => result_matches_verdict(
                r,
                StatusVerdict::Unreached(detail@),
            ),
            TransportOutcome::Delivered { status, body } => result_matches_verdict(
                r,
                verdict_of(status, body@),
            ),
        },
{
    match outcome {
        TransportOutcome::Unreachable { detail } => Err(StatusError::ConnectionRefused(detail)),
        TransportOutcome::Delivered { status, body } => classify_status_response(
            status,
            body.as_str(),
        ),
    }
}

} // verus!
