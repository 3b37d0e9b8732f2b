//! Properties that hold across several operations of a node.

use vstd::prelude::*;
use crate::codec::decode_spec;
use crate::node::Node;
use crate::protocol::{content_step, event_step, response_step, Action, NetworkEvent, Topic};

verus! {

/// Once a provider is recorded for a name, no later content message, for
/// that name or any other, from that peer or any other, changes it.
pub proof fn lemma_first_writer_wins(
    pre: Node,
    name: Seq<char>,
    provider: Seq<u8>,
    source: Seq<u8>,
    data: Seq<u8>,
    post: Node,
    r: Action,
)
    requires
        pre.provider_of(name) == Some(provider),
        content_step(pre, source, data, post, r),
    ensures
        post.provider_of(name) == Some(provider),
{
    if decode_spec(data) is Ok && crate::protocol::all_valid(decode_spec(data)->Ok_0.1) {
        assert(post.provider_of(name) == match pre.provider_of(name) {
            Some(p) => Some(p),
            None => if name == decode_spec(data)->Ok_0.0 {
                Some(source)
            } else {
                None
            },
        });
    }
}

/// No network event ever removes or replaces a recorded provider.
pub proof fn lemma_directory_entries_persist(
    pre: Node,
    name: Seq<char>,
    provider: Seq<u8>,
    ev: NetworkEvent,
    post: Node,
    r: Action,
)
    requires
        pre.provider_of(name) == Some(provider),
        event_step(pre, ev, post, r),
    ensures
        post.provider_of(name) == Some(provider),
{
    match ev {
        NetworkEvent::Broadcast { topic, data, source } => {
            if topic == Topic::Content {
                lemma_first_writer_wins(pre, name, provider, source@, data@, post, r);
            }
        },
        _ => {},
    }
}

/// A content message that does not decode changes nothing and asks for
/// nothing: the event loop simply goes on.
pub proof fn lemma_malformed_ignored(pre: Node, source: Seq<u8>, data: Seq<u8>, post: Node, r: Action)
    requires
        decode_spec(data) is Err,
        content_step(pre, source, data, post, r),
    ensures
        post == pre,
        r is Nothing,
{
}

/// After request `id` is recorded for `name`, its response is stored under
/// `name` and the request is forgotten, while a response to any other
/// identifier leaves the request for `name` outstanding.
pub proof fn lemma_request_correlation(
    before: Node,
    id: u64,
    name: Seq<char>,
    recorded: Node,
    other: u64,
    answered: Node,
    r: Action,
    unrelated: Node,
    r2: Action,
)
    requires
        forall|k: u64|
            #[trigger] recorded.pending_name(k) == if k == id {
                Some(name)
            } else {
                before.pending_name(k)
            },
        response_step(recorded, id, answered, r),
        other != id,
        response_step(recorded, other, unrelated, r2),
    ensures
        r matches Action::Store { name: n } && n@ == name,
        answered.pending_name(id) is None,
        unrelated.pending_name(id) == Some(name),
{
    assert(recorded.pending_name(id) == Some(name));
    if recorded.pending_name(other) is Some {
        assert(unrelated.pending_name(id) == if id == other {
            None
        } else {
            recorded.pending_name(id)
        });
    }
}

} // verus!
