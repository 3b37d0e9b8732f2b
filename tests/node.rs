use workshop_node::command::parse_command;
use workshop_node::node::Node;
use workshop_node::codec::{encode_announcement, ContentAnnouncement};
use workshop_node::protocol::{Action, Command, NetworkEvent, Topic};

const LOCAL: [u8; 8] = [4, 127, 0, 0, 1, 6, 15, 161];
const OTHER: [u8; 8] = [4, 10, 0, 0, 2, 6, 0, 80];

fn announce(name: &str, addresses: Vec<Vec<u8>>) -> Vec<u8> {
    encode_announcement(&ContentAnnouncement { name: name.to_string(), addresses }).unwrap()
}

fn content(source: &[u8], data: Vec<u8>) -> NetworkEvent {
    NetworkEvent::Broadcast { topic: Topic::Content, data, source: source.to_vec() }
}

#[test]
fn first_announcement_of_a_name_wins() {
    let mut node = Node::new();
    let a = node.handle_event(&content(b"peer-a", announce("f.txt", vec![LOCAL.to_vec()])));
    assert!(matches!(a, Action::AddAddresses { ref peer, ref addresses } if peer == b"peer-a" && addresses == &vec![LOCAL.to_vec()]));
    node.handle_event(&content(b"peer-b", announce("f.txt", vec![OTHER.to_vec()])));
    node.handle_event(&content(b"peer-a", announce("f.txt", vec![OTHER.to_vec()])));
    assert_eq!(node.provider(&"f.txt".to_string()), Some(b"peer-a".to_vec()));
    assert!(node.knows_address(&b"peer-b".to_vec(), &OTHER.to_vec()));
    assert!(node.knows_address(&b"peer-a".to_vec(), &OTHER.to_vec()));
    assert_eq!(node.directory.len(), 1);
}

#[test]
fn malformed_announcement_is_dropped() {
    let mut node = Node::new();
    let r = node.handle_event(&content(b"peer-a", vec![5, 0x0A]));
    assert!(matches!(r, Action::Nothing));
    let r = node.handle_event(&content(b"peer-a", vec![2, 0x08, 1]));
    assert!(matches!(r, Action::Nothing));
    assert!(node.directory.is_empty() && node.address_book.is_empty());
    node.handle_event(&content(b"peer-a", announce("g.txt", vec![LOCAL.to_vec()])));
    assert_eq!(node.provider(&"g.txt".to_string()), Some(b"peer-a".to_vec()));
}

#[test]
fn announcement_with_a_bad_address_is_dropped_whole() {
    let mut node = Node::new();
    let r = node.handle_event(&content(b"peer-a", announce("f.txt", vec![LOCAL.to_vec(), vec![0xFF, 0xFF, 0xFF]])));
    assert!(matches!(r, Action::Nothing));
    assert_eq!(node.provider(&"f.txt".to_string()), None);
    assert!(!node.knows_address(&b"peer-a".to_vec(), &LOCAL.to_vec()));
}

#[test]
fn address_messages_feed_the_address_book() {
    let mut node = Node::new();
    let ev = NetworkEvent::Broadcast { topic: Topic::Addresses, data: LOCAL.to_vec(), source: b"p".to_vec() };
    assert!(matches!(node.handle_event(&ev), Action::AddAddresses { .. }));
    node.handle_event(&ev);
    assert_eq!(node.address_book.len(), 1);
    let bad = NetworkEvent::Broadcast { topic: Topic::Addresses, data: vec![0xFF, 0xFF, 0xFF], source: b"p".to_vec() };
    assert!(matches!(node.handle_event(&bad), Action::Nothing));
    assert_eq!(node.address_book.len(), 1);
}

#[test]
fn listen_address_is_published() {
    let mut node = Node::new();
    let r = node.handle_event(&NetworkEvent::ListenAddress { address: LOCAL.to_vec() });
    assert!(matches!(r, Action::Publish { topic: Topic::Addresses, ref data } if data == &LOCAL.to_vec()));
    assert!(matches!(node.handle_event(&NetworkEvent::ConnectionEstablished), Action::Nothing));
    let chat = NetworkEvent::Broadcast { topic: Topic::Chat, data: b"hi".to_vec(), source: b"p".to_vec() };
    assert!(matches!(node.handle_event(&chat), Action::Nothing));
}

#[test]
fn response_correlates_with_its_request() {
    let mut node = Node::new();
    node.record_request(7, "a.txt".to_string());
    let r = node.handle_event(&NetworkEvent::TransferResponse { request_id: 9 });
    assert!(matches!(r, Action::Nothing));
    assert_eq!(node.pending.len(), 1);
    let r = node.handle_event(&NetworkEvent::TransferResponse { request_id: 7 });
    assert!(matches!(r, Action::Store { ref name } if name == "a.txt"));
    assert!(node.pending.is_empty());
    let again = node.handle_event(&NetworkEvent::TransferResponse { request_id: 7 });
    assert!(matches!(again, Action::Nothing));
}

#[test]
fn get_without_provider_sends_nothing() {
    let mut node = Node::new();
    let r = node.handle_command(&parse_command("GET missing.txt"));
    assert!(matches!(r, Action::NoProvider));
    assert!(node.pending.is_empty());
}

#[test]
fn commands_parse_at_first_space() {
    assert!(matches!(parse_command("MSG hello world"), Command::Msg(ref t) if t == "hello world"));
    assert!(matches!(parse_command("GET a.txt"), Command::Get(ref t) if t == "a.txt"));
    assert!(matches!(parse_command("PUT ./dir/hello.txt"), Command::Put(ref t) if t == "./dir/hello.txt"));
    assert!(matches!(parse_command("MSG "), Command::Msg(ref t) if t.is_empty()));
    assert!(matches!(parse_command("GET"), Command::Invalid));
    assert!(matches!(parse_command("get a.txt"), Command::Invalid));
    assert!(matches!(parse_command("MSGS x"), Command::Invalid));
    assert!(matches!(parse_command(""), Command::Invalid));
    assert!(matches!(parse_command("MSG héllo wörld"), Command::Msg(ref t) if t == "héllo wörld"));
}

#[test]
fn msg_publishes_on_chat() {
    let mut node = Node::new();
    let r = node.handle_command(&Command::Msg("hi there".to_string()));
    assert!(matches!(r, Action::Publish { topic: Topic::Chat, ref data } if data == b"hi there"));
}

#[test]
fn put_offers_under_the_last_component_and_replaces() {
    let mut node = Node::new();
    node.handle_command(&Command::Put("./hello.txt".to_string()));
    node.handle_command(&Command::Put("/tmp/x/hello.txt".to_string()));
    node.handle_command(&Command::Put("/".to_string()));
    assert_eq!(node.offered.len(), 1);
    assert_eq!(node.path_of(&"hello.txt".to_string()), Some("/tmp/x/hello.txt".to_string()));
    let r = node.handle_event(&NetworkEvent::TransferRequest { payload: b"hello.txt".to_vec() });
    assert!(matches!(r, Action::Serve { ref path } if path == "/tmp/x/hello.txt"));
    let r = node.handle_event(&NetworkEvent::TransferRequest { payload: b"nope.txt".to_vec() });
    assert!(matches!(r, Action::Nothing));
    let r = node.handle_event(&NetworkEvent::TransferRequest { payload: vec![0xFF] });
    assert!(matches!(r, Action::Nothing));
}

#[test]
fn tick_announces_each_offered_name() {
    let mut node = Node::new();
    node.offer("a.txt".to_string(), "/a.txt".to_string());
    node.offer("b.txt".to_string(), "/b.txt".to_string());
    let out = node.announcements(&vec![LOCAL.to_vec()]);
    assert_eq!(out.len(), 2);
    assert_eq!(out[0], Some(announce("a.txt", vec![LOCAL.to_vec()])));
    assert_eq!(out[1], Some(announce("b.txt", vec![LOCAL.to_vec()])));
}

#[test]
fn end_to_end_put_announce_get_serve_store() {
    let mut a = Node::new();
    let mut b = Node::new();
    assert!(matches!(a.handle_command(&parse_command("PUT ./hello.txt")), Action::Nothing));
    let listen = vec![LOCAL.to_vec()];
    let payloads = a.announcements(&listen);
    assert_eq!(payloads.len(), 1);
    let data = payloads[0].clone().unwrap();
    let r = b.handle_event(&content(b"node-a", data));
    assert!(matches!(r, Action::AddAddresses { ref peer, ref addresses } if peer == b"node-a" && addresses == &listen));
    assert!(b.knows_address(&b"node-a".to_vec(), &LOCAL.to_vec()));
    let r = b.handle_command(&parse_command("GET hello.txt"));
    let payload = match r {
        Action::SendRequest { peer, payload } => {
            assert_eq!(peer, b"node-a".to_vec());
            payload
        }
        other => panic!("unexpected {:?}", other),
    };
    b.record_request(1, "hello.txt".to_string());
    let served = a.handle_event(&NetworkEvent::TransferRequest { payload });
    assert!(matches!(served, Action::Serve { ref path } if path == "./hello.txt"));
    let stored = b.handle_event(&NetworkEvent::TransferResponse { request_id: 1 });
    assert!(matches!(stored, Action::Store { ref name } if name == "hello.txt"));
}
