//! How a node reacts: to each network event, to each command line, and to
//! each tick of the announcement timer. Every reaction updates the node and
//! returns one action for the surrounding event loop to carry out.

use vstd::prelude::*;
use vstd::utf8::{decode_utf8, encode_utf8, valid_utf8};
use crate::codec::{decode_announcement, decode_spec, encode_announcement, frame_bytes, record_bytes, ContentAnnouncement, MAX_FRAME_LEN};
use crate::bytes::copy_range;
use crate::node::Node;

verus! {

/// The broadcast topics a node takes part in.
#[derive(Clone, Copy, Debug, PartialEq, Eq, Structural)]
pub enum Topic {
    /// Free-text messages.
    Chat,
    /// Each peer's own listen addresses.
    Addresses,
    /// Content announcements.
    Content,
    /// Any other topic.
    Unknown,
}

/// What the transport delivers to the event loop.
#[derive(Debug)]
pub enum NetworkEvent {
    /// This node now listens on `address`.
    ListenAddress { address: Vec<u8> },
    ConnectionEstablished,
    ConnectionClosed,
    /// A peer's identity and version were exchanged.
    IdentifyReceived,
    /// A message on a broadcast topic, signed by `source`.
    Broadcast { topic: Topic, data: Vec<u8>, source: Vec<u8> },
    /// A peer asks for content; the payload is its name.
    TransferRequest { payload: Vec<u8> },
    /// The answer to the outstanding request `request_id` arrived.
    TransferResponse { request_id: u64 },
    Other,
}

/// What the event loop is to do next.
#[derive(Debug)]
pub enum Action {
    /// Nothing, beyond logging.
    Nothing,
    /// Publish `data` on `topic`.
    Publish { topic: Topic, data: Vec<u8> },
    /// Tell the transport how to reach `peer`.
    AddAddresses { peer: Vec<u8>, addresses: Vec<Vec<u8>> },
    /// Answer the current transfer request with the bytes stored at `path`.
    Serve { path: String },
    /// Write the current transfer response to the file called `name`.
    Store { name: String },
    /// Send a transfer request with `payload` to `peer`, then report its
    /// identifier back with `Node::record_request`.
    SendRequest { peer: Vec<u8>, payload: Vec<u8> },
    /// A fetch was asked for content that no known peer provides.
    NoProvider,
}

/// One command line.
#[derive(Debug)]
pub enum Command {
    /// `MSG <text>`: publish the text on the chat topic.
    Msg(String),
    /// `GET <name>`: fetch the named content.
    Get(String),
    /// `PUT <path>`: offer the file at the path, named after its last component.
    Put(String),
    /// A line without a space or with another prefix.
    Invalid,
}

/// Whether `b` reads as a multi-protocol network address.
pub uninterp spec fn address_valid(b: Seq<u8>) -> bool;

/// Relies on libp2p's `Multiaddr::try_from(Vec<u8>)`: it accepts the bytes
/// exactly when they read as a sequence of protocol components; the empty
/// sequence has none to read and is accepted.
#[verifier::external_body]
fn is_valid_address(b: &Vec<u8>) -> (r: bool)
    ensures
        r == address_valid(b@),
        b@.len() == 0 ==> r,
{
    libp2p::Multiaddr::try_from(b.clone()).is_ok()
}

/// The last component of a path.
pub uninterp spec fn file_name_of(path: Seq<char>) -> Option<Seq<char>>;

/// Relies on std's `Path::file_name`: the final component of the path, or
/// `None` where the path ends in `..` or is a root. A path given as `str`
/// yields a component that is `str` too.
#[verifier::external_body]
fn file_name(path: &str) -> (r: Option<String>)
    ensures
        match r {
            Some(n) => file_name_of(path@) == Some(n@),
            None => file_name_of(path@) is None,
        },
{
    std::path::Path::new(path).file_name().and_then(|s| s.to_str()).map(|s| s.to_string())
}

/// Every address in `addrs` is valid.
pub open spec fn all_valid(addrs: Seq<Seq<u8>>) -> bool {
    forall|i: int| 0 <= i < addrs.len() ==> address_valid(#[trigger] addrs[i])
}

/// The pairs that tie each of `addrs` to `peer`.
pub open spec fn pairs_of(peer: Seq<u8>, addrs: Seq<Seq<u8>>) -> Set<(Seq<u8>, Seq<u8>)> {
    Set::new(|p: (Seq<u8>, Seq<u8>)| p.0 == peer && addrs.to_set().contains(p.1))
}

/// Whether every address of `addrs` is valid.
pub fn addresses_valid(addrs: &Vec<Vec<u8>>) -> (r: bool)
    ensures
        r == all_valid(addrs.deep_view()),
{
    let mut i: usize = 0;
    while i < addrs.len()
        invariant
            i <= addrs@.len(),
            forall|j: int| 0 <= j < i ==> address_valid(#[trigger] addrs.deep_view()[j]),
        decreases addrs@.len() - i,
    {
        assert(addrs.deep_view()[i as int] == addrs@[i as int]@);
        if !is_valid_address(&addrs[i]) {
            return false;
        }
        i = i + 1;
    }
    true
}

/// The reaction to a message on the content topic from `source`: a
/// well-formed announcement whose addresses are all valid makes them known for
/// `source` and records `source` as the provider of the name unless one is
/// recorded already; anything else changes nothing.
pub open spec fn content_step(pre: Node, source: Seq<u8>, data: Seq<u8>, post: Node, r: Action) -> bool {
    if decode_spec(data) is Ok && all_valid(decode_spec(data)->Ok_0.1) {
        let (name, addrs) = decode_spec(data)->Ok_0;
        &&& post.addresses() == pre.addresses().union(pairs_of(source, addrs))
        &&& forall|k: Seq<char>|
            #[trigger] post.provider_of(k) == match pre.provider_of(k) {
                Some(p) => Some(p),
                None => if k == name {
                    Some(source)
                } else {
                    None
                },
            }
        &&& post.offered_view() == pre.offered_view()
        &&& post.pending_view() == pre.pending_view()
        &&& (r matches Action::AddAddresses { peer, addresses } && peer@ == source
            && addresses.deep_view() == addrs)
    } else {
        post == pre && r is Nothing
    }
}

/// The reaction to a message on the address topic from `source`: a valid
/// address becomes known for `source`; anything else changes nothing.
pub open spec fn address_step(pre: Node, source: Seq<u8>, data: Seq<u8>, post: Node, r: Action) -> bool {
    if address_valid(data) {
        &&& post.addresses() == pre.addresses().insert((source, data))
        &&& post.directory_view() == pre.directory_view()
        &&& post.offered_view() == pre.offered_view()
        &&& post.pending_view() == pre.pending_view()
        &&& (r matches Action::AddAddresses { peer, addresses } && peer@ == source
            && addresses.deep_view() == seq![data])
    } else {
        post == pre && r is Nothing
    }
}

/// The reaction to a transfer request: serve the offered content it names, or
/// nothing.
pub open spec fn request_step(node: Node, payload: Seq<u8>, r: Action) -> bool {
    if valid_utf8(payload) && node.offered_path(decode_utf8(payload)) is Some {
        r matches Action::Serve { path } && Some(path@) == node.offered_path(decode_utf8(payload))
    } else {
        r is Nothing
    }
}

/// The reaction to a transfer response: store it under the name that its
/// request asked for and forget the request; a response to no outstanding
/// request is ignored.
pub open spec fn response_step(pre: Node, id: u64, post: Node, r: Action) -> bool {
    match pre.pending_name(id) {
        Some(name) => {
            &&& (r matches Action::Store { name: n } && n@ == name)
            &&& forall|k: u64|
                #[trigger] post.pending_name(k) == if k == id {
                    None
                } else {
                    pre.pending_name(k)
                }
            &&& post.directory_view() == pre.directory_view()
            &&& post.addresses() == pre.addresses()
            &&& post.offered_view() == pre.offered_view()
        },
        None => post == pre && r is Nothing,
    }
}

/// The reaction to any network event.
pub open spec fn event_step(pre: Node, ev: NetworkEvent, post: Node, r: Action) -> bool {
    match ev {
        NetworkEvent::ListenAddress { address } => post == pre && (r matches Action::Publish {
            topic,
            data,
        } && topic == Topic::Addresses && data@ == address@),
        NetworkEvent::Broadcast { topic, data, source } => if topic == Topic::Content {
            content_step(pre, source@, data@, post, r)
        } else if topic == Topic::Addresses {
            address_step(pre, source@, data@, post, r)
        } else {
            post == pre && r is Nothing
        },
        NetworkEvent::TransferRequest { payload } => post == pre && request_step(pre, payload@, r),
        NetworkEvent::TransferResponse { request_id } => response_step(pre, request_id, post, r),
        _ => post == pre && r is Nothing,
    }
}

/// The reaction to a command line.
pub open spec fn command_step(pre: Node, cmd: Command, post: Node, r: Action) -> bool {
    match cmd {
        Command::Msg(text) => post == pre && (r matches Action::Publish { topic, data } && topic
            == Topic::Chat && data@ == encode_utf8(text@)),
        Command::Get(name) => post == pre && match pre.provider_of(name@) {
            Some(p) => r matches Action::SendRequest { peer, payload } && peer@ == p && payload@
                == encode_utf8(name@),
            None => r is NoProvider,
        },
        Command::Put(path) => r is Nothing && match file_name_of(path@) {
            Some(name) => {
                &&& forall|k: Seq<char>|
                    #[trigger] post.offered_path(k) == if k == name {
                        Some(path@)
                    } else {
                        pre.offered_path(k)
                    }
                &&& post.directory_view() == pre.directory_view()
                &&& post.addresses() == pre.addresses()
                &&& post.pending_view() == pre.pending_view()
            },
            None => post == pre,
        },
        Command::Invalid => post == pre && r is Nothing,
    }
}

/// A copy of a list of byte strings.
pub fn copy_all(v: &Vec<Vec<u8>>) -> (r: Vec<Vec<u8>>)
    ensures
        r.deep_view() == v.deep_view(),
{
    let mut out: Vec<Vec<u8>> = Vec::new();
    let mut i: usize = 0;
    while i < v.len()
        invariant
            i <= v@.len(),
            out.deep_view() == v.deep_view().subrange(0, i as int),
        decreases v@.len() - i,
    {
        let c = v[i].clone();
        let ghost before = out.deep_view();
        assert(c@ =~= v@[i as int]@);
        assert(c.deep_view() =~= v.deep_view()[i as int]);
        out.push(c);
        assert(out.deep_view() =~= before.push(v.deep_view()[i as int]));
        assert(out.deep_view() =~= v.deep_view().subrange(0, i + 1));
        i = i + 1;
    }
    assert(v.deep_view().subrange(0, i as int) =~= v.deep_view());
    out
}

impl Node {
    /// Carries out a command line. A `Put` is handed over only once its path
    /// was found openable.
    pub fn handle_command(&mut self, cmd: &Command) -> (r: Action)
        requires
            old(self).wf(),
        ensures
            final(self).wf(),
            command_step(*old(self), *cmd, *final(self), r),
    {
        match cmd {
            Command::Msg(text) => {
                let s: &str = text.as_str();
                let b: &[u8] = s.as_bytes();
                let data = copy_range(b, 0, b.len());
                assert(data@ =~= encode_utf8(text@));
                Action::Publish { topic: Topic::Chat, data }
            },
            Command::Get(name) => match self.provider(name) {
                Some(peer) => {
                    let s: &str = name.as_str();
                    let b: &[u8] = s.as_bytes();
                    assert(b@ == encode_utf8(name@));
                    let payload = copy_range(b, 0, b.len());
                    assert(payload@ =~= encode_utf8(name@));
                    Action::SendRequest { peer, payload }
                },
                None => Action::NoProvider,
            },
            Command::Put(path) => {
                match file_name(path.as_str()) {
                    Some(name) => self.offer(name, path.clone()),
                    None => {},
                }
                Action::Nothing
            },
            Command::Invalid => Action::Nothing,
        }
    }

    /// The broadcast payloads of one timer tick: for each offered name, in
    /// order, its announcement carrying `listen` (this node's current listen
    /// addresses), or `None` where that record would not fit in a frame.
    pub fn announcements(&self, listen: &Vec<Vec<u8>>) -> (r: Vec<Option<Vec<u8>>>)
        ensures
            r@.len() == self.offered@.len(),
            forall|i: int|
                0 <= i < r@.len() ==> match #[trigger] r@[i] {
                    Some(b) => record_bytes((self.offered_view()[i].0, listen.deep_view())).len()
                        <= MAX_FRAME_LEN && b@ == frame_bytes(
                        record_bytes((self.offered_view()[i].0, listen.deep_view())),
                    ),
                    None => record_bytes((self.offered_view()[i].0, listen.deep_view())).len()
                        > MAX_FRAME_LEN,
                },
    {
        let mut out: Vec<Option<Vec<u8>>> = Vec::new();
        let mut i: usize = 0;
        while i < self.offered.len()
            invariant
                i <= self.offered@.len(),
                out@.len() == i,
                forall|j: int|
                    0 <= j < i ==> match #[trigger] out@[j] {
                        Some(b) => record_bytes((self.offered_view()[j].0, listen.deep_view())).len()
                            <= MAX_FRAME_LEN && b@ == frame_bytes(
                            record_bytes((self.offered_view()[j].0, listen.deep_view())),
                        ),
                        None => record_bytes((self.offered_view()[j].0, listen.deep_view())).len()
                            > MAX_FRAME_LEN,
                    },
            decreases self.offered@.len() - i,
        {
            let a = ContentAnnouncement { name: self.offered[i].0.clone(), addresses: copy_all(listen) };
            assert(a@ == (self.offered_view()[i as int].0, listen.deep_view()));
            out.push(encode_announcement(&a));
            i = i + 1;
        }
        out
    }

    /// Handles a message on the content topic.
    pub fn on_content_message(&mut self, source: &Vec<u8>, data: &Vec<u8>) -> (r: Action)
        requires
            old(self).wf(),
        ensures
            final(self).wf(),
            content_step(*old(self), source@, data@, *final(self), r),
    {
        match decode_announcement(data.as_slice()) {
            Err(_) => Action::Nothing,
            Ok(a) => {
                if !addresses_valid(&a.addresses) {
                    return Action::Nothing;
                }
                self.add_addresses(source, &a.addresses);
                let ContentAnnouncement { name, addresses } = a;
                self.register_provider(name, source.clone());
                Action::AddAddresses { peer: source.clone(), addresses }
            },
        }
    }

    /// Handles a message on the address topic: one raw address of `source`.
    pub fn on_address_message(&mut self, source: &Vec<u8>, data: &Vec<u8>) -> (r: Action)
        requires
            old(self).wf(),
        ensures
            final(self).wf(),
            address_step(*old(self), source@, data@, *final(self), r),
    {
        if !is_valid_address(data) {
            return Action::Nothing;
        }
        self.add_address(source, data);
        let mut addresses: Vec<Vec<u8>> = Vec::new();
        let copy = data.clone();
        assert(copy.deep_view() =~= data@);
        addresses.push(copy);
        assert(addresses.deep_view() =~= seq![data@]);
        Action::AddAddresses { peer: source.clone(), addresses }
    }

    /// Handles a transfer request.
    pub fn on_request(&self, payload: &Vec<u8>) -> (r: Action)
        ensures
            request_step(*self, payload@, r),
    {
        match self.serve_path(payload) {
            Some(path) => Action::Serve { path },
            None => Action::Nothing,
        }
    }

    /// Handles a transfer response to request `id`.
    pub fn on_response(&mut self, id: u64) -> (r: Action)
        requires
            old(self).wf(),
        ensures
            final(self).wf(),
            response_step(*old(self), id, *final(self), r),
    {
        match self.take_pending(id) {
            Some(name) => Action::Store { name },
            None => Action::Nothing,
        }
    }

    /// Handles one network event.
    pub fn handle_event(&mut self, ev: &NetworkEvent) -> (r: Action)
        requires
            old(self).wf(),
        ensures
            final(self).wf(),
            event_step(*old(self), *ev, *final(self), r),
    {
        match ev {
            NetworkEvent::ListenAddress { address } => Action::Publish {
                topic: Topic::Addresses,
                data: address.clone(),
            },
            NetworkEvent::Broadcast { topic, data, source } => match topic {
                Topic::Content => self.on_content_message(source, data),
                Topic::Addresses => self.on_address_message(source, data),
                _ => Action::Nothing,
            },
            NetworkEvent::TransferRequest { payload } => self.on_request(payload),
            NetworkEvent::TransferResponse { request_id } => self.on_response(*request_id),
            _ => Action::Nothing,
        }
    }

    /// Adds every address of `addrs` as known for `peer`.
    pub fn add_addresses(&mut self, peer: &Vec<u8>, addrs: &Vec<Vec<u8>>)
        requires
            old(self).wf(),
        ensures
            final(self).wf(),
            final(self).addresses() == old(self).addresses().union(pairs_of(peer@, addrs.deep_view())),
            final(self).directory_view() == old(self).directory_view(),
            final(self).offered_view() == old(self).offered_view(),
            final(self).pending_view() == old(self).pending_view(),
    {
        let ghost dv = addrs.deep_view();
        let mut i: usize = 0;
        while i < addrs.len()
            invariant
                i <= addrs@.len(),
                dv == addrs.deep_view(),
                self.wf(),
                self.addresses() == old(self).addresses().union(
                    pairs_of(peer@, dv.subrange(0, i as int)),
                ),
                self.directory_view() == old(self).directory_view(),
                self.offered_view() == old(self).offered_view(),
                self.pending_view() == old(self).pending_view(),
            decreases addrs@.len() - i,
        {
            let ghost before = self.addresses();
            self.add_address(peer, &addrs[i]);
            proof {
                assert(dv[i as int] == addrs@[i as int]@);
                assert(dv.subrange(0, i + 1) =~= dv.subrange(0, i as int).push(dv[i as int]));
                dv.subrange(0, i as int).lemma_push_to_set_commute(dv[i as int]);
                assert(dv.subrange(0, i + 1).to_set() =~= dv.subrange(0, i as int).to_set().insert(dv[i as int]));
                assert(pairs_of(peer@, dv.subrange(0, i + 1)) =~= pairs_of(
                    peer@,
                    dv.subrange(0, i as int),
                ).insert((peer@, dv[i as int])));
                assert(self.addresses() =~= old(self).addresses().union(
                    pairs_of(peer@, dv.subrange(0, i + 1)),
                ));
            }
            i = i + 1;
        }
        assert(dv.subrange(0, i as int) =~= dv);
    }
}

} // verus!
