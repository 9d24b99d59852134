use libp2p::kad::RecordKey;
use storage_node::behaviour::{FileRequest, FileRequestType, FileResponse, FileResponseType};
use storage_node::event_loop::{
    relay, DhtAction, DhtEvent, EventLoop, NetworkAction, NetworkEvent, ReqResEvent,
};
use storage_node::node::{NodeType, PeerId};

type Event = NetworkEvent<&'static str, char>;
type Action = NetworkAction<&'static str, char, u32>;

type Asked = DhtEvent<char, u8, u16, u32, u64, i8>;
type Told = DhtAction<char, u8, u16, u32, u64, i8>;

fn peer(n: u8) -> PeerId {
    PeerId { bytes: vec![n, n] }
}

fn says(n: u8, node_type: NodeType) -> Event {
    NetworkEvent::Response {
        peer: peer(n),
        request_id: 0,
        response: FileResponse(FileResponseType::GetNodeTypeResponse(node_type)),
    }
}

fn reported(n: u8, node_type: NodeType) -> Vec<Action> {
    vec![
        NetworkAction::ReportNodeType { peer: peer(n), node_type },
        NetworkAction::ReportLedgers,
    ]
}

fn body() -> FileResponse {
    FileResponse(FileResponseType::Other(vec![4, 2]))
}

fn answer(request_id: u64) -> Event {
    NetworkEvent::Response { peer: peer(1), request_id, response: body() }
}

fn storage(event_loop: &EventLoop<u32>) -> Vec<u8> {
    let mut nodes: Vec<u8> =
        event_loop.get_storage_nodes().unwrap().iter().map(|p| p.bytes[0]).collect();
    nodes.sort();
    nodes
}

#[test]
fn found_nodes_are_asked_what_they_do() {
    let mut event_loop: EventLoop<u32> = EventLoop::new();
    let found: Event = NetworkEvent::Discovered(vec![(peer(1), "one"), (peer(2), "two")]);
    let request = || FileRequest(FileRequestType::GetNodeTypeRequest);
    let expected: Vec<Action> = vec![
        NetworkAction::Join { peer: peer(1), address: "one", request: request() },
        NetworkAction::Join { peer: peer(2), address: "two", request: request() },
    ];
    assert_eq!(event_loop.on_network_event(found), expected);
    assert_eq!(storage(&event_loop), Vec::<u8>::new());
}

#[test]
fn nodes_say_what_they_do() {
    let mut event_loop: EventLoop<u32> = EventLoop::new();
    assert_eq!(
        event_loop.on_network_event(says(1, NodeType::StorageNode)),
        reported(1, NodeType::StorageNode)
    );
    event_loop.on_network_event(says(2, NodeType::ApiNode));
    assert_eq!(storage(&event_loop), vec![1]);
    event_loop.on_network_event(says(1, NodeType::ApiNode));
    event_loop.on_network_event(says(2, NodeType::StorageNode));
    assert_eq!(storage(&event_loop), vec![2]);
}

#[test]
fn finding_a_node_again_forgets_what_it_said() {
    let mut event_loop: EventLoop<u32> = EventLoop::new();
    event_loop.on_network_event(says(1, NodeType::StorageNode));
    let found: Event = NetworkEvent::Discovered(vec![(peer(1), "one")]);
    event_loop.on_network_event(found);
    assert_eq!(storage(&event_loop), Vec::<u8>::new());
}

#[test]
fn gone_nodes_are_forgotten() {
    let mut event_loop: EventLoop<u32> = EventLoop::new();
    event_loop.on_network_event(says(1, NodeType::StorageNode));
    event_loop.on_network_event(says(2, NodeType::StorageNode));
    let gone: Event = NetworkEvent::Expired(vec![(peer(1), "one"), (peer(9), "nine")]);
    let expected: Vec<Action> = vec![
        NetworkAction::Leave { peer: peer(1), address: "one" },
        NetworkAction::Leave { peer: peer(9), address: "nine" },
    ];
    assert_eq!(event_loop.on_network_event(gone), expected);
    assert_eq!(storage(&event_loop), vec![2]);
}

#[test]
fn leaving_undoes_joining() {
    let list = || vec![(peer(1), "one"), (peer(2), "two"), (peer(1), "one again")];
    let mut joined: EventLoop<u32> = EventLoop::new();
    let mut apart: EventLoop<u32> = EventLoop::new();
    for event_loop in [&mut joined, &mut apart] {
        event_loop.on_network_event(says(1, NodeType::StorageNode));
        event_loop.on_network_event(says(3, NodeType::StorageNode));
    }
    let found: Event = NetworkEvent::Discovered(list());
    joined.on_network_event(found);
    for event_loop in [&mut joined, &mut apart] {
        let gone: Event = NetworkEvent::Expired(list());
        event_loop.on_network_event(gone);
    }
    assert_eq!(storage(&joined), vec![3]);
    assert_eq!(storage(&apart), vec![3]);
}

#[test]
fn three_storage_nodes_at_most() {
    let mut event_loop: EventLoop<u32> = EventLoop::new();
    for n in 1..=5 {
        event_loop.on_network_event(says(n, NodeType::StorageNode));
        let nodes = storage(&event_loop);
        assert_eq!(nodes.len(), std::cmp::min(n as usize, 3));
        let mut different = nodes.clone();
        different.dedup();
        assert_eq!(different, nodes);
    }
}

#[test]
fn storage_nodes_stay_the_same() {
    let mut event_loop: EventLoop<u32> = EventLoop::new();
    for n in 1..=5 {
        event_loop.on_network_event(says(n, NodeType::StorageNode));
    }
    let first = event_loop.get_storage_nodes();
    assert_eq!(event_loop.get_storage_nodes(), first);
    event_loop.send_request(5, 55).unwrap();
    event_loop.on_network_event(answer(5));
    let gone: Event = NetworkEvent::Expired(vec![(peer(9), "nine")]);
    event_loop.on_network_event(gone);
    assert_eq!(event_loop.get_storage_nodes(), first);
    let asked: Option<Asked> = Some(DhtEvent::GetStorageNodes { sender: 6 });
    let told: Vec<Told> =
        vec![DhtAction::ReplyStorageNodes { sender: 6, nodes: first.unwrap() }];
    assert_eq!(event_loop.on_dht_event(asked), told);
}

#[test]
fn response_is_delivered_once() {
    let mut event_loop: EventLoop<u32> = EventLoop::new();
    assert_eq!(event_loop.send_request(5, 55), Ok(()));
    assert_eq!(event_loop.send_request(6, 66), Ok(()));
    let delivered: Vec<Action> = vec![NetworkAction::Deliver { sender: 55, response: body() }];
    assert_eq!(event_loop.on_network_event(answer(5)), delivered);
    let unknown: Vec<Action> = vec![NetworkAction::ReportUnknownRequest(5)];
    assert_eq!(event_loop.on_network_event(answer(5)), unknown);
    let delivered: Vec<Action> = vec![NetworkAction::Deliver { sender: 66, response: body() }];
    assert_eq!(event_loop.on_network_event(answer(6)), delivered);
}

#[test]
fn saying_what_it_does_answers_nobody() {
    let mut event_loop: EventLoop<u32> = EventLoop::new();
    event_loop.send_request(0, 55).unwrap();
    assert_eq!(
        event_loop.on_network_event(says(1, NodeType::ApiNode)),
        reported(1, NodeType::ApiNode)
    );
    let delivered: Vec<Action> = vec![NetworkAction::Deliver { sender: 55, response: body() }];
    assert_eq!(event_loop.on_network_event(answer(0)), delivered);
}

#[test]
fn requests_are_handed_on() {
    let mut event_loop: EventLoop<u32> = EventLoop::new();
    let request = || FileRequest(FileRequestType::Other(vec![1]));
    let asked: Event = NetworkEvent::Request { peer: peer(3), request: request(), channel: 'c' };
    let expected: Vec<Action> = vec![NetworkAction::Forward(ReqResEvent::InboundRequest {
        request: request(),
        channel: 'c',
        peer: peer(3),
    })];
    assert_eq!(event_loop.on_network_event(asked), expected);
}

#[test]
fn other_network_events() {
    let mut event_loop: EventLoop<u32> = EventLoop::new();
    let listens: Event = NetworkEvent::NewListenAddr("here");
    let expected: Vec<Action> = vec![NetworkAction::ReportListening("here")];
    assert_eq!(event_loop.on_network_event(listens), expected);
    let other: Event = NetworkEvent::Other;
    assert_eq!(event_loop.on_network_event(other), Vec::<Action>::new());
}

#[test]
fn what_the_node_asks_for() {
    let mut event_loop: EventLoop<u32> = EventLoop::new();
    event_loop.on_network_event(says(1, NodeType::StorageNode));
    let key = || RecordKey::new(b"e_abc");
    let request = || FileRequest(FileRequestType::Other(vec![1]));
    let cases: Vec<(Option<Asked>, Vec<Told>)> = vec![
        (None, vec![]),
        (
            Some(DhtEvent::GetProviders { key: key(), sender: 1 }),
            vec![DhtAction::GetProviders { key: key(), sender: 1 }],
        ),
        (
            Some(DhtEvent::GetRecord { key: key(), sender: 2 }),
            vec![DhtAction::GetRecord { key: key(), sender: 2 }],
        ),
        (
            Some(DhtEvent::PutRecord { key: key(), value: vec![7], sender: 3 }),
            vec![DhtAction::PutRecord { key: key(), value: vec![7], sender: 3 }],
        ),
        (
            Some(DhtEvent::SendRequest { peer: peer(1), request: request(), sender: 4 }),
            vec![DhtAction::SendRequest { peer: peer(1), request: request(), sender: 4 }],
        ),
        (
            Some(DhtEvent::SendResponse { channel: 'c', response: body(), sender: 5 }),
            vec![
                DhtAction::Acknowledge { sender: 5 },
                DhtAction::SendResponse { channel: 'c', response: body() },
            ],
        ),
        (
            Some(DhtEvent::GetStorageNodes { sender: 6 }),
            vec![DhtAction::ReplyStorageNodes { sender: 6, nodes: vec![peer(1)] }],
        ),
    ];
    for (event, actions) in cases {
        assert_eq!(event_loop.on_dht_event(event), actions);
    }
}

#[test]
fn errors_are_relayed_alike() {
    assert_eq!(relay::<u8>(Ok(body())), Ok(body()));
    assert_eq!(relay(Err(7u8)), Err("some error".to_string()));
}
