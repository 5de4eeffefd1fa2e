use agent_receiver::{
    build_agent_data_request, build_status_request, check_response_204, classify_pairing_response,
    classify_status_outcome, classify_status_response, decode_status_response,
    encode_pem_cert_base64, encode_status_response, pairing_body, parse_host_status,
    register_with_agent_labels_body, register_with_hostname_body, u16_to_decimal, AgentLabels,
    Api, HostStatus, StatusError, StatusResponse, TransportOutcome,
};

#[test]
fn endpoint_address_shape() {
    let url = Api::endpoint_address("host:8000/site", "pairing");
    assert_eq!(url, "https://host:8000/site/agent-receiver/pairing");
}

#[test]
fn decimal_rendering() {
    assert_eq!(u16_to_decimal(0), "0");
    assert_eq!(u16_to_decimal(204), "204");
    assert_eq!(u16_to_decimal(65535), "65535");
}

#[test]
fn pairing_body_plain() {
    assert_eq!(pairing_body("MYCSR"), "{\"csr\":\"MYCSR\"}");
}

#[test]
fn pairing_body_escapes_and_valid_json() {
    let body = pairing_body("line1\nline2 \"quoted\" back\\slash");
    let v: serde_json::Value = serde_json::from_str(&body).unwrap();
    assert_eq!(
        v.get("csr").unwrap().as_str().unwrap(),
        "line1\nline2 \"quoted\" back\\slash"
    );
}

#[test]
fn pairing_200_well_formed() {
    let r = classify_pairing_response(200, "{\"root_cert\":\"A\",\"client_cert\":\"B\"}").unwrap();
    assert_eq!(r.root_cert, "A");
    assert_eq!(r.client_cert, "B");
}

#[test]
fn pairing_200_reordered_with_extras_and_whitespace() {
    let body = " { \"client_cert\" : \"B\" , \"extra\" : 17 , \"root_cert\" : \"A\" , \"flag\" : true , \"gap\" : null } ";
    let r = classify_pairing_response(200, body).unwrap();
    assert_eq!(r.root_cert, "A");
    assert_eq!(r.client_cert, "B");
}

#[test]
fn pairing_200_unescapes_pem_strings() {
    let body = "{\"root_cert\":\"-----BEGIN\\nAQID\\n-----END\",\"client_cert\":\"C\"}";
    let r = classify_pairing_response(200, body).unwrap();
    assert_eq!(r.root_cert, "-----BEGIN\nAQID\n-----END");
}

#[test]
fn pairing_non_200_reports_code_and_body() {
    let e = classify_pairing_response(404, "not found here").unwrap_err();
    assert!(e.message.contains("404"));
    assert!(e.message.contains("not found here"));
    assert_eq!(e.message, "Request failed with code 404: not found here");
}

#[test]
fn pairing_200_bad_json_keeps_body() {
    let e = classify_pairing_response(200, "gibberish").unwrap_err();
    assert_eq!(e.message, "Error parsing this response body: gibberish");
}

#[test]
fn pairing_200_missing_field_is_error() {
    let e = classify_pairing_response(200, "{\"root_cert\":\"A\"}").unwrap_err();
    assert!(e.message.contains("{\"root_cert\":\"A\"}"));
}

#[test]
fn registration_succeeds_only_on_204() {
    assert!(check_response_204(204, "").is_ok());
    let e = check_response_204(200, "ok").unwrap_err();
    assert!(e.message.contains("200"));
    assert!(e.message.contains("ok"));
    assert!(check_response_204(201, "").is_err());
    assert!(check_response_204(500, "boom").is_err());
}

#[test]
fn registration_200_with_empty_body_is_failure() {
    let e = check_response_204(200, "").unwrap_err();
    assert_eq!(e.message, "Request failed with code 200: ");
}

#[test]
fn hostname_body_shape() {
    let b = register_with_hostname_body("1234", "my.host");
    assert_eq!(b, "{\"uuid\":\"1234\",\"host_name\":\"my.host\"}");
    let v: serde_json::Value = serde_json::from_str(&b).unwrap();
    assert_eq!(v.get("uuid").unwrap().as_str().unwrap(), "1234");
    assert_eq!(v.get("host_name").unwrap().as_str().unwrap(), "my.host");
}

#[test]
fn labels_body_shape() {
    let labels = AgentLabels {
        entries: vec![
            ("site".to_string(), "alpha".to_string()),
            ("rack".to_string(), "7".to_string()),
        ],
    };
    let b = register_with_agent_labels_body("u-1", &labels);
    assert_eq!(
        b,
        "{\"uuid\":\"u-1\",\"agent_labels\":{\"site\":\"alpha\",\"rack\":\"7\"}}"
    );
    let v: serde_json::Value = serde_json::from_str(&b).unwrap();
    assert_eq!(
        v.get("agent_labels").unwrap().get("rack").unwrap().as_str().unwrap(),
        "7"
    );
}

#[test]
fn labels_body_empty() {
    let labels = AgentLabels { entries: vec![] };
    let b = register_with_agent_labels_body("u", &labels);
    assert_eq!(b, "{\"uuid\":\"u\",\"agent_labels\":{}}");
}

#[test]
fn pem_header_is_url_safe_base64_of_der() {
    // the payload decodes to a byte whose base64 digit differs between
    // the standard and the URL-safe alphabet
    let pem = "-----BEGIN CERTIFICATE-----\n+w==\n-----END CERTIFICATE-----\n";
    let h = encode_pem_cert_base64(pem).unwrap();
    assert_eq!(h, "-w==");
    let der = base64::decode_config("+w==", base64::STANDARD).unwrap();
    assert_eq!(h, base64::encode_config(&der, base64::URL_SAFE));
}

#[test]
fn pem_multi_line_payload() {
    let pem = "-----BEGIN CERTIFICATE-----\nAQ\nID\n-----END CERTIFICATE-----\n";
    let h = encode_pem_cert_base64(pem).unwrap();
    assert_eq!(h, base64::encode_config(&[1u8, 2, 3], base64::URL_SAFE));
}

#[test]
fn pem_without_markers_fails() {
    assert!(encode_pem_cert_base64("no certificate here").is_err());
}

#[test]
fn pem_with_bad_payload_fails() {
    let pem = "-----BEGIN CERTIFICATE-----\n!!!!\n-----END CERTIFICATE-----\n";
    assert!(encode_pem_cert_base64(pem).is_err());
}

#[test]
fn agent_data_request_shape() {
    let pem = "-----BEGIN CERTIFICATE-----\n+w==\n-----END CERTIFICATE-----\n";
    let q = build_agent_data_request("h:8000/s", "abcd-42", pem, "zlib").unwrap();
    assert_eq!(q.url, "https://h:8000/s/agent-receiver/agent_data/abcd-42");
    assert_eq!(q.certificate_header, "-w==");
    assert_eq!(q.compression_header, "zlib");
    assert_eq!(q.part_name, "monitoring_data");
    assert_eq!(q.file_name, "agent_data");
    assert!(!q.file_name.is_empty());
}

#[test]
fn status_request_shape() {
    let pem = "-----BEGIN CERTIFICATE-----\n+w==\n-----END CERTIFICATE-----\n";
    let q = build_status_request("h", "abcd-42", pem).unwrap();
    assert_eq!(q.url, "https://h/agent-receiver/registration_status/abcd-42");
    assert_eq!(q.certificate_header, "-w==");
}

#[test]
fn status_transport_failure_is_connection_refused() {
    let r = classify_status_outcome(TransportOutcome::Unreachable {
        detail: "dns failure".to_string(),
    });
    match r.unwrap_err() {
        StatusError::ConnectionRefused(d) => assert_eq!(d, "dns failure"),
        _ => panic!("expected ConnectionRefused"),
    }
}

#[test]
fn status_401_is_certificate_invalid() {
    match classify_status_response(401, "").unwrap_err() {
        StatusError::CertificateInvalid => {}
        _ => panic!("expected CertificateInvalid"),
    }
}

#[test]
fn status_200_pending_with_hostname() {
    let r = classify_status_response(200, "{\"status\":\"pending\",\"hostname\":\"h1\"}").unwrap();
    assert_eq!(r.status, Some(HostStatus::Pending));
    assert_eq!(r.hostname, Some("h1".to_string()));
    assert_eq!(r.connection_type, None);
    assert_eq!(r.message, None);
}

#[test]
fn status_200_ready() {
    let r = classify_status_response(200, "{\"status\":\"ready\"}").unwrap();
    assert_eq!(r.status, Some(HostStatus::Ready));
}

#[test]
fn status_unknown_flag_fails_parsing() {
    let e = classify_status_response(200, "{\"status\":\"bogus\"}").unwrap_err();
    match e {
        StatusError::UnspecifiedError(m) => {
            assert!(m.contains("{\"status\":\"bogus\"}"));
        }
        _ => panic!("expected UnspecifiedError"),
    }
}

#[test]
fn status_flag_parsing_closed_set() {
    assert_eq!(parse_host_status("new"), Some(HostStatus::New));
    assert_eq!(parse_host_status("pending"), Some(HostStatus::Pending));
    assert_eq!(parse_host_status("declined"), Some(HostStatus::Declined));
    assert_eq!(parse_host_status("ready"), Some(HostStatus::Ready));
    assert_eq!(parse_host_status("discoverable"), Some(HostStatus::Discoverable));
    assert_eq!(parse_host_status("Ready"), None);
    assert_eq!(parse_host_status(""), None);
}

#[test]
fn status_other_code_reports_detail() {
    match classify_status_response(404, "{\"detail\":\"no can do\"}").unwrap_err() {
        StatusError::UnspecifiedError(m) => assert_eq!(m, "\"no can do\""),
        _ => panic!("expected UnspecifiedError"),
    }
}

#[test]
fn status_other_code_without_detail() {
    match classify_status_response(500, "{\"oops\":1}").unwrap_err() {
        StatusError::UnspecifiedError(m) => assert_eq!(m, "Unknown failure"),
        _ => panic!("expected UnspecifiedError"),
    }
}

#[test]
fn status_other_code_with_bad_json() {
    match classify_status_response(500, "<html>").unwrap_err() {
        StatusError::UnspecifiedError(m) => {
            assert_eq!(m, "Failed to deserialize response body to JSON")
        }
        _ => panic!("expected UnspecifiedError"),
    }
}

#[test]
fn status_encode_all_absent() {
    let sr = StatusResponse { hostname: None, status: None, connection_type: None, message: None };
    assert_eq!(
        encode_status_response(&sr),
        "{\"hostname\":null,\"status\":null,\"type\":null,\"message\":null}"
    );
}

#[test]
fn status_roundtrip_all_populated() {
    let sr = StatusResponse {
        hostname: Some("host.example".to_string()),
        status: Some(HostStatus::Discoverable),
        connection_type: Some("pull-agent".to_string()),
        message: Some("all good \"so far\"\nnext line\ttabbed".to_string()),
    };
    let body = encode_status_response(&sr);
    let back = decode_status_response(&body).unwrap();
    assert_eq!(back.hostname, sr.hostname);
    assert_eq!(back.status, sr.status);
    assert_eq!(back.connection_type, sr.connection_type);
    assert_eq!(back.message, sr.message);
}

#[test]
fn status_roundtrip_partial() {
    let sr = StatusResponse {
        hostname: None,
        status: Some(HostStatus::New),
        connection_type: None,
        message: Some("waiting".to_string()),
    };
    let body = encode_status_response(&sr);
    let back = decode_status_response(&body).unwrap();
    assert_eq!(back.hostname, None);
    assert_eq!(back.status, Some(HostStatus::New));
    assert_eq!(back.connection_type, None);
    assert_eq!(back.message, Some("waiting".to_string()));
}

#[test]
fn status_encode_agrees_with_outside_parser() {
    let sr = StatusResponse {
        hostname: Some("h".to_string()),
        status: Some(HostStatus::Ready),
        connection_type: Some("push".to_string()),
        message: Some("fine".to_string()),
    };
    let v: serde_json::Value = serde_json::from_str(&encode_status_response(&sr)).unwrap();
    assert_eq!(v.get("hostname").unwrap().as_str().unwrap(), "h");
    assert_eq!(v.get("status").unwrap().as_str().unwrap(), "ready");
    assert_eq!(v.get("type").unwrap().as_str().unwrap(), "push");
    assert_eq!(v.get("message").unwrap().as_str().unwrap(), "fine");
}

#[test]
fn status_decode_null_and_absent_agree() {
    let a = decode_status_response("{\"hostname\":null,\"status\":null,\"type\":null,\"message\":null}").unwrap();
    let b = decode_status_response("{}").unwrap();
    assert_eq!(a.hostname, b.hostname);
    assert_eq!(a.status, b.status);
    assert_eq!(a.connection_type, b.connection_type);
    assert_eq!(a.message, b.message);
}

#[test]
fn status_decode_wrong_type_fails() {
    assert!(decode_status_response("{\"hostname\":5}").is_none());
}

#[test]
fn status_delivered_outcome_classified_by_code() {
    let r = classify_status_outcome(TransportOutcome::Delivered {
        status: 200,
        body: "{\"status\":\"declined\"}".to_string(),
    })
    .unwrap();
    assert_eq!(r.status, Some(HostStatus::Declined));
}

#[test]
fn pairing_200_with_unicode_escapes() {
    let r =
        classify_pairing_response(200, "{\"root_cert\":\"\\u0041\",\"client_cert\":\"B\"}").unwrap();
    assert_eq!(r.root_cert, "A");
    assert_eq!(r.client_cert, "B");
}

#[test]
fn surrogate_pair_decodes_to_one_character() {
    let r = decode_status_response("{\"hostname\":\"\\ud83d\\ude00\"}").unwrap();
    assert_eq!(r.hostname, Some("\u{1F600}".to_string()));
}

#[test]
fn lone_surrogate_fails_parsing() {
    assert!(decode_status_response("{\"hostname\":\"\\ud83d\"}").is_none());
    assert!(decode_status_response("{\"hostname\":\"\\ude00\"}").is_none());
}

#[test]
fn pairing_200_with_nested_extra_members() {
    let body = "{\"root_cert\":\"A\",\"client_cert\":\"B\",\"extra\":{\"a\":[1,2,{\"b\":\"]}\"}],\"c\":null}}";
    let r = classify_pairing_response(200, body).unwrap();
    assert_eq!(r.root_cert, "A");
    assert_eq!(r.client_cert, "B");
}

#[test]
fn status_200_ready_with_escape_and_nested_elsewhere() {
    let r = classify_status_response(
        200,
        "{\"status\":\"ready\",\"extra\":[{\"x\":\"\\u00e9\"}]}",
    )
    .unwrap();
    assert_eq!(r.status, Some(HostStatus::Ready));
}

#[test]
fn unicode_escape_beyond_ascii() {
    let r = decode_status_response("{\"hostname\":\"caf\\u00e9\"}").unwrap();
    assert_eq!(r.hostname, Some("caf\u{e9}".to_string()));
}

#[test]
fn pairing_200_with_invalid_number_is_parse_error() {
    let e = classify_pairing_response(200, "{\"root_cert\":\"A\",\"client_cert\":\"B\",\"x\":-}")
        .unwrap_err();
    assert!(e.message.contains("Error parsing this response body"));
}

#[test]
fn number_grammar_enforced() {
    assert!(classify_pairing_response(
        200,
        "{\"root_cert\":\"A\",\"client_cert\":\"B\",\"x\":-12.5e+3,\"y\":0,\"z\":10.25E-2}"
    )
    .is_ok());
    assert!(classify_pairing_response(200, "{\"root_cert\":\"A\",\"client_cert\":\"B\",\"x\":01}")
        .is_err());
    assert!(decode_status_response("{\"message\":null,\"x\":-}").is_none());
    assert!(decode_status_response("{\"x\":1.}").is_none());
    assert!(decode_status_response("{\"x\":1e}").is_none());
}

#[test]
fn status_roundtrip_with_bare_control_chars() {
    let sr = StatusResponse {
        hostname: Some("h".to_string()),
        status: Some(HostStatus::Ready),
        connection_type: None,
        message: Some("a\u{1}b\u{1f}c".to_string()),
    };
    let body = encode_status_response(&sr);
    let v: serde_json::Value = serde_json::from_str(&body).unwrap();
    assert_eq!(v.get("message").unwrap().as_str().unwrap(), "a\u{1}b\u{1f}c");
    let back = decode_status_response(&body).unwrap();
    assert_eq!(back.message, sr.message);
    assert_eq!(back.hostname, sr.hostname);
}

#[test]
fn detail_with_nested_body_is_reported() {
    match classify_status_response(422, "{\"detail\":[{\"loc\":[\"x\"],\"msg\":\"bad\"}]}")
        .unwrap_err()
    {
        StatusError::UnspecifiedError(m) => assert_eq!(m, "[{\"loc\":[\"x\"],\"msg\":\"bad\"}]"),
        _ => panic!("expected UnspecifiedError"),
    }
}

#[test]
fn malformed_nested_member_fails() {
    assert!(decode_status_response("{\"x\":{]}").is_none());
    assert!(decode_status_response("{\"x\":[1,]}").is_none());
    assert!(decode_status_response("{\"x\":{\"k\":}}").is_none());
}
