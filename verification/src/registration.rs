//! Registration: request bodies carrying the identity plus either a
//! host name or the agent labels. The response is judged by the
//! shared success-is-204 rule.

use vstd::prelude::*;
use vstd::string::*;
use crate::api::AgentLabels;
use crate::json::{quoted, quoted_string};
use crate::text::push_char;

verus! {

/// The body registering a host name:
/// `{"uuid":<uuid>,"host_name":<host_name>}`.
pub open spec fn registration_hostname_body_text(uuid: Seq<char>, host_name: Seq<char>) -> Seq<
    char,
> {
    "{\"uuid\":"@ + quoted(uuid) + ",\"host_name\":"@ + quoted(host_name) + seq!['}']
}

/// Builds the host-name registration body.
pub fn register_with_hostname_body(uuid: &str, host_name: &str) -> (r: String)
    ensures
        r@ == registration_hostname_body_text(uuid@, host_name@),
{
    let mut out = String::from_str("{\"uuid\":");
    let q = quoted_string(uuid);
    out.append(q.as_str());
    out.append(",\"host_name\":");
    let h = quoted_string(host_name);
    out.append(h.as_str());
    out.append("}");
    proof {
        reveal_strlit("}");
        assert(out@ =~= registration_hostname_body_text(uuid@, host_name@));
    }
    out
}

/// The mathematical contents of a label list.
pub open spec fn labels_view(v: Seq<(String, String)>) -> Seq<(Seq<char>, Seq<char>)> {
    v.map_values(|p: (String, String)| (p.0@, p.1@))
}

/// The members of the label object, in order, comma separated.
pub open spec fn labels_text(ls: Seq<(Seq<char>, Seq<char>)>) -> Seq<char>
    decreases ls.len(),
{
    if ls.len() == 0 {
        Seq::empty()
    } else if ls.len() == 1 {
        quoted(ls[0].0) + seq![':'] + quoted(ls[0].1)
    } else {
        labels_text(ls.drop_last()) + seq![','] + quoted(ls.last().0) + seq![':'] + quoted(
            ls.last().1,
        )
    }
}

/// The body registering agent labels:
/// `{"uuid":<uuid>,"agent_labels":{<labels>}}`.
pub open spec fn registration_labels_body_text(
    uuid: Seq<char>,
    ls: Seq<(Seq<char>, Seq<char>)>,
) -> Seq<char> {
    "{\"uuid\":"@ + quoted(uuid) + ",\"agent_labels\":{"@ + labels_text(ls) + seq!['}', '}']
}

/// Builds the agent-labels registration body, keeping the labels'
/// order.
pub fn register_with_agent_labels_body(uuid: &str, agent_labels: &AgentLabels) -> (r: String)
    ensures
        r@ == registration_labels_body_text(uuid@, labels_view(agent_labels.entries@)),
{
    let mut out = String::from_str("{\"uuid\":");
    let q = quoted_string(uuid);
    out.append(q.as_str());
    out.append(",\"agent_labels\":{");
    let n = agent_labels.entries.len();
    let ghost base = out@;
    let mut i: usize = 0;
    while i < n
        invariant
            i <= n,
            n == agent_labels.entries@.len(),
            out@ == base + labels_text(labels_view(agent_labels.entries@).take(i as int)),
        decreases n - i,
    {
        if i > 0 {
            push_char(&mut out, ',');
        }
        let k = quoted_string(agent_labels.entries[i].0.as_str());
        out.append(k.as_str());
        push_char(&mut out, ':');
        let val = quoted_string(agent_labels.entries[i].1.as_str());
        out.append(val.as_str());
        proof {
            let lv = labels_view(agent_labels.entries@);
            assert(lv.take(i as int + 1).drop_last() =~= lv.take(i as int));
            assert(lv.take(i as int + 1).last() == lv[i as int]);
            assert(out@ =~= base + labels_text(lv.take(i as int + 1)));
        }
        i += 1;
    }
    out.append("}}");
    proof {
        reveal_strlit("}}");
        assert(labels_view(agent_labels.entries@).take(n as int) =~= labels_view(
            agent_labels.entries@,
        ));
        assert(out@ =~= registration_labels_body_text(
            uuid@,
            labels_view(agent_labels.entries@),
        ));
    }
    out
}

} // verus!
