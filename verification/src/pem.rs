//! The certificate header: a PEM certificate's payload, re-encoded as
//! URL-safe base64 of its raw DER contents.

use vstd::prelude::*;
use vstd::string::*;
use crate::api::ReceiverError;
use crate::json::{chars_of, is_ws};
use crate::text::push_char;

verus! {

/// First index at or after `from` where `needle` occurs in `s`.
pub open spec fn find_sub(s: Seq<char>, needle: Seq<char>, from: int) -> Option<int>
    decreases s.len() - from
        when 0 <= from <= s.len()
{
    if from + needle.len() <= s.len() {
        if s.subrange(from, from + needle.len()) == needle {
            Some(from)
        } else {
            if from + 1 <= s.len() {
                find_sub(s, needle, from + 1)
            } else {
                None
            }
        }
    } else {
        None
    }
}

/// `t` with every whitespace character removed.
pub open spec fn strip_ws(t: Seq<char>) -> Seq<char>
    decreases t.len(),
{
    if t.len() == 0 {
        Seq::empty()
    } else if is_ws(t.last()) {
        strip_ws(t.drop_last())
    } else {
        strip_ws(t.drop_last()).push(t.last())
    }
}

/// The armour line opening a PEM certificate block.
pub open spec fn pem_begin() -> Seq<char> {
    "-----BEGIN CERTIFICATE-----"@
}

/// The armour line closing a PEM certificate block.
pub open spec fn pem_end() -> Seq<char> {
    "-----END CERTIFICATE-----"@
}

/// The base64 payload of the first certificate block of a PEM text:
/// what stands between the armour lines, with whitespace removed.
pub open spec fn pem_payload(s: Seq<char>) -> Option<Seq<char>> {
    match find_sub(s, pem_begin(), 0) {
        None => None,
        Some(b) => {
            let p0 = b + pem_begin().len();
            if 0 <= p0 <= s.len() {
                match find_sub(s, pem_end(), p0) {
                    None => None,
                    Some(e) => Some(strip_ws(s.subrange(p0, e))),
                }
            } else {
                None
            }
        },
    }
}

fn match_at(v: &Vec<char>, needle: &Vec<char>, k: usize) -> (r: bool)
    requires
        k + needle@.len() <= v@.len(),
    ensures
        r == (v@.subrange(k as int, k as int + needle@.len() as int) == needle@),
{
    let n = v.len();
    let nl = needle.len();
    let mut j: usize = 0;
    while j < nl
        invariant
            j <= nl,
            n == v@.len(),
            nl == needle@.len(),
            k + nl <= v@.len(),
            forall|x: int| 0 <= x < j ==> v@[k + x] == needle@[x],
        decreases nl - j,
    {
        if v[k + j] != needle[j] {
            proof {
                assert(v@.subrange(k as int, k as int + needle@.len() as int)[j as int] == v@[k
                    + j]);
            }
            return false;
        }
        j += 1;
    }
    proof {
        assert(v@.subrange(k as int, k as int + needle@.len() as int) =~= needle@);
    }
    true
}

fn find_sub_exec(v: &Vec<char>, needle: &Vec<char>, from: usize) -> (r: Option<usize>)
    requires
        from <= v@.len(),
    ensures
        match r {
            Some(i) => find_sub(v@, needle@, from as int) == Some(i as int) && from <= i && i
                + needle@.len() <= v@.len(),
            None => find_sub(v@, needle@, from as int) is None,
        },
{
    let n = v.len();
    let nl = needle.len();
    let mut k: usize = from;
    while k < n && n - k >= nl
        invariant
            from <= k <= n,
            n == v@.len(),
            nl == needle@.len(),
            find_sub(v@, needle@, from as int) == find_sub(v@, needle@, k as int),
        decreases n - k,
    {
        if match_at(v, needle, k) {
            return Some(k);
        }
        proof {
            assert(find_sub(v@, needle@, k as int) == find_sub(v@, needle@, k as int + 1));
        }
        k += 1;
    }
    if nl == 0 && k <= n {
        proof {
            assert(v@.subrange(k as int, k as int) =~= needle@);
        }
        return Some(k);
    }
    None
}

/// A named result for the base64 decoding of a payload with the
/// standard alphabet, as the outside encoder computes it.
pub uninterp spec fn b64_standard_decode(s: Seq<char>) -> Option<Seq<u8>>;

/// A named result for the URL-safe base64 encoding of bytes, as the
/// outside encoder computes it.
pub uninterp spec fn b64_url_encode(b: Seq<u8>) -> Seq<char>;

/// Relies on `base64::decode_config` with the standard alphabet: the
/// result is a function of the input characters alone, `None` exactly
/// when the input is not valid base64.
#[verifier::external_body]
fn b64_decode_standard(s: &str) -> (r: Option<Vec<u8>>)
    ensures
        match r {
            Some(v) => b64_standard_decode(s@) == Some(v@),
            None => b64_standard_decode(s@) is None,
        },
{
    base64::decode_config(s, base64::STANDARD).ok()
}

/// Relies on `base64::encode_config` with the URL-safe alphabet: the
/// result is a function of the input bytes alone.
#[verifier::external_body]
fn b64_encode_url_safe(b: &Vec<u8>) -> (r: String)
    ensures
        r@ == b64_url_encode(b@),
{
    base64::encode_config(b, base64::URL_SAFE)
}

/// The header value presented as per-call identity proof: the
/// certificate's raw DER contents, URL-safe base64 encoded. Fails on
/// text without a certificate block or with a payload that is not
/// base64.
pub fn encode_pem_cert_base64(cert: &str) -> (r: Result<String, ReceiverError>)
    ensures
        r is Ok <==> (pem_payload(cert@) matches Some(p) && b64_standard_decode(p) is Some),
        r matches Ok(h) ==> (pem_payload(cert@) matches Some(p) && b64_standard_decode(p)
            matches Some(d) && h@ == b64_url_encode(d)),
        r matches Err(e) ==> e.message@ == "Invalid certificate"@,
{
    let v = chars_of(cert);
    let begin_marker = chars_of("-----BEGIN CERTIFICATE-----");
    let end_marker = chars_of("-----END CERTIFICATE-----");
    let b = match find_sub_exec(&v, &begin_marker, 0) {
        Some(b) => b,
        None => {
            return Err(ReceiverError { message: String::from_str("Invalid certificate") });
        },
    };
    let n = v.len();
    proof {
        assert(b + begin_marker@.len() <= n);
    }
    let p0 = b + begin_marker.len();
    let e = match find_sub_exec(&v, &end_marker, p0) {
        Some(e) => e,
        None => {
            return Err(ReceiverError { message: String::from_str("Invalid certificate") });
        },
    };
    let mut payload = String::new();
    let mut i: usize = p0;
    proof {
        assert(v@.subrange(p0 as int, p0 as int) =~= Seq::<char>::empty());
    }
    while i < e
        invariant
            p0 <= i <= e <= v@.len(),
            payload@ == strip_ws(v@.subrange(p0 as int, i as int)),
        decreases e - i,
    {
        let c = v[i];
        proof {
            let sub = v@.subrange(p0 as int, i as int + 1);
            assert(sub.drop_last() =~= v@.subrange(p0 as int, i as int));
            assert(sub.last() == v@[i as int]);
        }
        if !(c == ' ' || c == '\t' || c == '\n' || c == '\r') {
            push_char(&mut payload, c);
        }
        i += 1;
    }
    let decoded = match b64_decode_standard(payload.as_str()) {
        Some(d) => d,
        None => {
            return Err(ReceiverError { message: String::from_str("Invalid certificate") });
        },
    };
    Ok(b64_encode_url_safe(&decoded))
}

} // verus!
