//! The event loop of a node.
//!
//! [`EventLoop`] decides what to do with each event of the network and with each thing that the
//! node itself asks for. Whoever runs the loop waits for events and does what it says.
//!
//! Addresses (`A`), channels for responses (`C`) and senders are passed through as they are. There
//! is a type of senders for each kind of answer: nodes (`N`), a record (`R`), the key of a stored
//! record (`K`), a response (`F`), and that something was done (`U`). Those of type `P` wait for a
//! response of another node.

use crate::behaviour::{FileRequest, FileRequestType, FileResponse, FileResponseType};
use crate::ledger::{Ledger, Ledgers};
use crate::node::{NodeType, PeerId};
use libp2p::kad::RecordKey;
use std::collections::HashMap;
use vstd::prelude::*;
use vstd::string::*;

verus! {

broadcast use vstd::std_specs::hash::group_hash_axioms;

/// Something that another node asks for.
#[derive(Debug, PartialEq, Eq)]
pub enum ReqResEvent<C> {
    InboundRequest { request: FileRequest, channel: C, peer: PeerId },
}

/// Something that this node asks the network for.
#[derive(Debug, PartialEq, Eq)]
pub enum DhtEvent<C, N, R, K, F, U> {
    GetProviders { key: RecordKey, sender: N },
    GetRecord { key: RecordKey, sender: R },
    PutRecord { key: RecordKey, value: Vec<u8>, sender: K },
    SendRequest { peer: PeerId, request: FileRequest, sender: F },
    SendResponse { channel: C, response: FileResponse, sender: U },
    GetStorageNodes { sender: N },
}

/// Something that happens in the network.
#[derive(Debug, PartialEq, Eq)]
pub enum NetworkEvent<A, C> {
    /// The node listens on a new address.
    NewListenAddr(A),
    /// Nodes were found.
    Discovered(Vec<(PeerId, A)>),
    /// Nodes are gone.
    Expired(Vec<(PeerId, A)>),
    /// A node answers a request.
    Response { peer: PeerId, request_id: u64, response: FileResponse },
    /// A node asks for something.
    Request { peer: PeerId, request: FileRequest, channel: C },
    /// Anything else.
    Other,
}

/// What to do about an event of the network.
#[derive(Debug, PartialEq, Eq)]
pub enum NetworkAction<A, C, P> {
    /// Report the address that the node listens on.
    ReportListening(A),
    /// Add the address of the node, and send it the request.
    Join { peer: PeerId, address: A, request: FileRequest },
    /// Report that the node is gone, and remove its address.
    Leave { peer: PeerId, address: A },
    /// Report what the node says that it does.
    ReportNodeType { peer: PeerId, node_type: NodeType },
    /// Report what is known about the other nodes.
    ReportLedgers,
    /// Hand the response to who waits for it.
    Deliver { sender: P, response: FileResponse },
    /// Report that nobody waits for the response to this request.
    ReportUnknownRequest(u64),
    /// Hand the request on.
    Forward(ReqResEvent<C>),
}

/// What to do about something that this node asks for.
#[derive(Debug, PartialEq, Eq)]
pub enum DhtAction<C, N, R, K, F, U> {
    /// Look up the providers of the key, and tell the sender.
    GetProviders { key: RecordKey, sender: N },
    /// Look up the record with the key, and tell the sender.
    GetRecord { key: RecordKey, sender: R },
    /// Store the record, and tell the sender.
    PutRecord { key: RecordKey, value: Vec<u8>, sender: K },
    /// Send the request, and let the sender wait for the response.
    SendRequest { peer: PeerId, request: FileRequest, sender: F },
    /// Tell the sender that the response is taken care of.
    Acknowledge { sender: U },
    /// Send the response.
    SendResponse { channel: C, response: FileResponse },
    /// Tell the sender these storage nodes.
    ReplyStorageNodes { sender: N, nodes: Vec<PeerId> },
}

/// What is known about a node before it says what it does.
pub open spec fn fresh_ledger() -> Ledger {
    Ledger { score: 0, node_type: NodeType::ApiNode }
}

/// The ledgers after nodes were found.
pub open spec fn after_join<A>(
    ledgers: Map<Seq<u8>, Ledger>,
    list: Seq<(PeerId, A)>,
) -> Map<Seq<u8>, Ledger>
    decreases list.len(),
{
    if list.len() == 0 {
        ledgers
    } else {
        after_join(ledgers, list.drop_last()).insert(list.last().0@, fresh_ledger())
    }
}

/// The ledgers after nodes are gone.
pub open spec fn after_leave<A>(
    ledgers: Map<Seq<u8>, Ledger>,
    list: Seq<(PeerId, A)>,
) -> Map<Seq<u8>, Ledger>
    decreases list.len(),
{
    if list.len() == 0 {
        ledgers
    } else {
        after_leave(ledgers, list.drop_last()).remove(list.last().0@)
    }
}

/// The ledgers after an event.
pub open spec fn ledgers_after<A, C>(
    ledgers: Map<Seq<u8>, Ledger>,
    event: NetworkEvent<A, C>,
) -> Map<Seq<u8>, Ledger> {
    match event {
        NetworkEvent::Discovered(list) => after_join(ledgers, list@),
        NetworkEvent::Expired(list) => after_leave(ledgers, list@),
        NetworkEvent::Response {
            peer,
            request_id,
            response: FileResponse(FileResponseType::GetNodeTypeResponse(node_type)),
        } => ledgers.insert(peer@, Ledger { score: 0, node_type }),
        _ => ledgers,
    }
}

/// The event is a response for which somebody may wait.
pub open spec fn answers<A, C>(event: NetworkEvent<A, C>) -> Option<u64> {
    match event {
        NetworkEvent::Response {
            peer,
            request_id,
            response: FileResponse(FileResponseType::Other(_)),
        } => Some(request_id),
        _ => None,
    }
}

/// Who still waits for a response after an event.
pub open spec fn pending_after<A, C, P>(
    pending: Map<u64, P>,
    event: NetworkEvent<A, C>,
) -> Map<u64, P> {
    match answers(event) {
        Some(request_id) => pending.remove(request_id),
        None => pending,
    }
}

/// What to do about a node that was found: ask what it does.
pub open spec fn join_action<A, C, P>(pair: (PeerId, A)) -> NetworkAction<A, C, P> {
    NetworkAction::Join {
        peer: pair.0,
        address: pair.1,
        request: FileRequest(FileRequestType::GetNodeTypeRequest),
    }
}

/// What to do about a node that is gone.
pub open spec fn leave_action<A, C, P>(pair: (PeerId, A)) -> NetworkAction<A, C, P> {
    NetworkAction::Leave { peer: pair.0, address: pair.1 }
}

/// What to do about an event.
pub open spec fn network_actions<A, C, P>(
    pending: Map<u64, P>,
    event: NetworkEvent<A, C>,
) -> Seq<NetworkAction<A, C, P>> {
    match event {
        NetworkEvent::NewListenAddr(address) => seq![NetworkAction::ReportListening(address)],
        NetworkEvent::Discovered(list) => list@.map_values(
            |pair: (PeerId, A)| join_action::<A, C, P>(pair),
        ),
        NetworkEvent::Expired(list) => list@.map_values(
            |pair: (PeerId, A)| leave_action::<A, C, P>(pair),
        ),
        NetworkEvent::Response { peer, request_id, response } => match response.0 {
            FileResponseType::GetNodeTypeResponse(node_type) => seq![
                NetworkAction::ReportNodeType { peer, node_type },
                NetworkAction::ReportLedgers,
            ],
            _ => if pending.contains_key(request_id) {
                seq![NetworkAction::Deliver { sender: pending[request_id], response }]
            } else {
                seq![NetworkAction::ReportUnknownRequest(request_id)]
            },
        },
        NetworkEvent::Request { peer, request, channel } => seq![
            NetworkAction::Forward(ReqResEvent::InboundRequest { request, channel, peer }),
        ],
        NetworkEvent::Other => Seq::empty(),
    }
}

/// How many storage nodes are told at most.
pub const MAX_STORAGE_NODES: usize = 3;

/// What to do about something that this node asks for. Where it asks for storage nodes, it is told
/// those in `selection`.
pub open spec fn is_dht_actions<C, N, R, K, F, U>(
    actions: Seq<DhtAction<C, N, R, K, F, U>>,
    selection: Seq<Seq<u8>>,
    ledgers: Map<Seq<u8>, Ledger>,
    event: Option<DhtEvent<C, N, R, K, F, U>>,
) -> bool {
    match event {
        None => actions.len() == 0,
        Some(DhtEvent::GetProviders { key, sender }) => actions =~= seq![
            DhtAction::<C, N, R, K, F, U>::GetProviders { key, sender },
        ],
        Some(DhtEvent::GetRecord { key, sender }) => actions =~= seq![
            DhtAction::<C, N, R, K, F, U>::GetRecord { key, sender },
        ],
        Some(DhtEvent::PutRecord { key, value, sender }) => actions =~= seq![
            DhtAction::<C, N, R, K, F, U>::PutRecord { key, value, sender },
        ],
        Some(DhtEvent::SendRequest { peer, request, sender }) => actions =~= seq![
            DhtAction::<C, N, R, K, F, U>::SendRequest { peer, request, sender },
        ],
        Some(DhtEvent::SendResponse { channel, response, sender }) => actions =~= seq![
            DhtAction::<C, N, R, K, F, U>::Acknowledge { sender },
            DhtAction::<C, N, R, K, F, U>::SendResponse { channel, response },
        ],
        Some(DhtEvent::GetStorageNodes { sender }) => {
            &&& actions.len() == 1
            &&& actions[0] matches DhtAction::ReplyStorageNodes { sender: to, nodes }
            &&& to == sender
            &&& crate::ledger::identities(nodes@) == selection
            &&& crate::ledger::is_selection(selection, ledgers, MAX_STORAGE_NODES as nat)
        },
    }
}

/// The event leaves what is known about the other nodes as it is.
pub open spec fn leaves_ledgers<A, C>(
    ledgers: Map<Seq<u8>, Ledger>,
    event: NetworkEvent<A, C>,
) -> bool {
    match event {
        NetworkEvent::Discovered(list) => list@.len() == 0,
        NetworkEvent::Expired(list) => none_known(ledgers, list@),
        NetworkEvent::Response { peer, request_id, response } => response.0 is Other,
        _ => true,
    }
}

/// None of the nodes in the list is known.
pub open spec fn none_known<A>(ledgers: Map<Seq<u8>, Ledger>, list: Seq<(PeerId, A)>) -> bool {
    forall|i: int| 0 <= i < list.len() ==> !ledgers.contains_key((#[trigger] list[i]).0@)
}

/// The state of the loop: what is known about the other nodes, and who waits for a response.
pub struct EventLoop<P> {
    ledgers: Ledgers,
    pending_requests: HashMap<u64, P>,
}

impl<P> EventLoop<P> {
    /// Each node has one ledger.
    pub closed spec fn wf(&self) -> bool {
        self.ledgers.wf()
    }

    /// What is known about the other nodes.
    pub closed spec fn ledgers(&self) -> Map<Seq<u8>, Ledger> {
        self.ledgers@
    }

    /// The storage nodes that are told when they are asked for.
    pub closed spec fn storage_selection(&self) -> Seq<Seq<u8>> {
        self.ledgers.selection(MAX_STORAGE_NODES as nat)
    }

    /// Who waits for the response to which request.
    pub closed spec fn pending(&self) -> Map<u64, P> {
        self.pending_requests@
    }

    /// A loop that knows no node and waits for no response.
    pub fn new() -> (event_loop: EventLoop<P>)
        ensures
            event_loop.wf(),
            event_loop.ledgers() == Map::<Seq<u8>, Ledger>::empty(),
            event_loop.pending() == Map::<u64, P>::empty(),
    {
        EventLoop { ledgers: Ledgers::new(), pending_requests: HashMap::new() }
    }

    /// Decides what to do about an event of the network, in the order of the actions.
    pub fn on_network_event<A, C>(&mut self, event: NetworkEvent<A, C>) -> (actions: Vec<
        NetworkAction<A, C, P>,
    >)
        requires
            old(self).wf(),
        ensures
            final(self).wf(),
            final(self).ledgers() == ledgers_after(old(self).ledgers(), event),
            final(self).pending() == pending_after(old(self).pending(), event),
            actions@ == network_actions(old(self).pending(), event),
            leaves_ledgers(old(self).ledgers(), event) ==> final(self).storage_selection()
                == old(self).storage_selection(),
            event matches NetworkEvent::Request { peer, request, channel } ==> actions@ == seq![
                NetworkAction::<A, C, P>::Forward(
                    ReqResEvent::InboundRequest { request, channel, peer },
                ),
            ],
            event is Discovered || event is Expired || event is Response || final(self).ledgers()
                == old(self).ledgers(),
            event is Response || final(self).pending() == old(self).pending(),
    {
        let mut actions: Vec<NetworkAction<A, C, P>> = Vec::new();
        match event {
            NetworkEvent::NewListenAddr(address) => {
                actions.push(NetworkAction::ReportListening(address));
            },
            NetworkEvent::Discovered(list) => {
                self.join(list, &mut actions);
            },
            NetworkEvent::Expired(list) => {
                self.leave(list, &mut actions);
            },
            NetworkEvent::Response { peer, request_id, response } => match response.0 {
                FileResponseType::GetNodeTypeResponse(node_type) => {
                    self.ledgers.insert(peer.clone(), Ledger { score: 0, node_type });
                    actions.push(NetworkAction::ReportNodeType { peer, node_type });
                    actions.push(NetworkAction::ReportLedgers);
                },
                FileResponseType::Other(body) => match self.pending_requests.remove(&request_id) {
                    Some(sender) => {
                        actions.push(
                            NetworkAction::Deliver {
                                sender,
                                response: FileResponse(FileResponseType::Other(body)),
                            },
                        );
                    },
                    None => {
                        actions.push(NetworkAction::ReportUnknownRequest(request_id));
                    },
                },
            },
            NetworkEvent::Request { peer, request, channel } => {
                actions.push(
                    NetworkAction::Forward(ReqResEvent::InboundRequest { request, channel, peer }),
                );
            },
            NetworkEvent::Other => {},
        }
        actions
    }

    fn join<A, C>(&mut self, list: Vec<(PeerId, A)>, actions: &mut Vec<NetworkAction<A, C, P>>)
        requires
            old(self).wf(),
            old(actions)@.len() == 0,
        ensures
            final(self).wf(),
            final(self).ledgers() == after_join(old(self).ledgers(), list@),
            final(self).pending() == old(self).pending(),
            list@.len() == 0 ==> final(self).ledgers == old(self).ledgers,
            final(actions)@ == list@.map_values(
                |pair: (PeerId, A)| join_action::<A, C, P>(pair),
            ),
    {
        let ghost at_first = self.ledgers;
        let ghost known = self.ledgers();
        let ghost pending = self.pending();
        let ghost all = list@;
        assert(all.take(0).len() == 0);
        for pair in it: list
            invariant
                it.seq() == all,
                self.wf(),
                self.ledgers() == after_join(known, all.take(it.index() as int)),
                it.index() == 0 ==> self.ledgers == at_first,
                self.pending() == pending,
                actions@ == all.take(it.index() as int).map_values(
                    |pair: (PeerId, A)| join_action::<A, C, P>(pair),
                ),
        {
            proof {
                assert(all.take(it.index() + 1).drop_last() == all.take(it.index() as int));
            }
            self.ledgers.insert(
                pair.0.clone(),
                Ledger { score: 0, node_type: NodeType::ApiNode },
            );
            actions.push(
                NetworkAction::Join {
                    peer: pair.0,
                    address: pair.1,
                    request: FileRequest(FileRequestType::GetNodeTypeRequest),
                },
            );
        }
        assert(all.take(all.len() as int) == all);
    }

    fn leave<A, C>(&mut self, list: Vec<(PeerId, A)>, actions: &mut Vec<NetworkAction<A, C, P>>)
        requires
            old(self).wf(),
            old(actions)@.len() == 0,
        ensures
            final(self).wf(),
            final(self).ledgers() == after_leave(old(self).ledgers(), list@),
            final(self).pending() == old(self).pending(),
            none_known(old(self).ledgers(), list@) ==> final(self).ledgers == old(self).ledgers,
            final(actions)@ == list@.map_values(
                |pair: (PeerId, A)| leave_action::<A, C, P>(pair),
            ),
    {
        let ghost at_first = self.ledgers;
        let ghost known = self.ledgers();
        let ghost pending = self.pending();
        let ghost all = list@;
        assert(all.take(0).len() == 0);
        for pair in it: list
            invariant
                it.seq() == all,
                self.wf(),
                self.ledgers() == after_leave(known, all.take(it.index() as int)),
                known == at_first@,
                none_known(known, all) ==> self.ledgers == at_first,
                self.pending() == pending,
                actions@ == all.take(it.index() as int).map_values(
                    |pair: (PeerId, A)| leave_action::<A, C, P>(pair),
                ),
        {
            proof {
                assert(all.take(it.index() + 1).drop_last() == all.take(it.index() as int));
            }
            self.ledgers.remove(&pair.0);
            actions.push(NetworkAction::Leave { peer: pair.0, address: pair.1 });
        }
        assert(all.take(all.len() as int) == all);
    }

    /// Decides what to do about something that this node asks for, in the order of the actions.
    /// Nothing is asked for where nobody is left who could ask.
    pub fn on_dht_event<C, N, R, K, F, U>(
        &self,
        event: Option<DhtEvent<C, N, R, K, F, U>>,
    ) -> (actions: Vec<
        DhtAction<C, N, R, K, F, U>,
    >)
        requires
            self.wf(),
        ensures
            is_dht_actions(actions@, self.storage_selection(), self.ledgers(), event),
    {
        let mut actions: Vec<DhtAction<C, N, R, K, F, U>> = Vec::new();
        match event {
            None => {},
            Some(DhtEvent::GetProviders { key, sender }) => {
                actions.push(DhtAction::GetProviders { key, sender });
            },
            Some(DhtEvent::GetRecord { key, sender }) => {
                actions.push(DhtAction::GetRecord { key, sender });
            },
            Some(DhtEvent::PutRecord { key, value, sender }) => {
                actions.push(DhtAction::PutRecord { key, value, sender });
            },
            Some(DhtEvent::SendRequest { peer, request, sender }) => {
                actions.push(DhtAction::SendRequest { peer, request, sender });
            },
            Some(DhtEvent::SendResponse { channel, response, sender }) => {
                actions.push(DhtAction::Acknowledge { sender });
                actions.push(DhtAction::SendResponse { channel, response });
            },
            Some(DhtEvent::GetStorageNodes { sender }) => {
                let nodes = self.ledgers.select_storage_nodes(MAX_STORAGE_NODES);
                actions.push(DhtAction::ReplyStorageNodes { sender, nodes });
            },
        }
        actions
    }

    /// Notes who waits for the response to a request that was sent.
    pub fn send_request(&mut self, request_id: u64, sender: P) -> (sent: Result<(), String>)
        requires
            old(self).wf(),
        ensures
            final(self).wf(),
            final(self).ledgers() == old(self).ledgers(),
            final(self).pending() == old(self).pending().insert(request_id, sender),
            final(self).storage_selection() == old(self).storage_selection(),
            sent is Ok,
    {
        self.pending_requests.insert(request_id, sender);
        Ok(())
    }

    /// Picks storage nodes. Which ones is left open where there are more than are told, but they are
    /// the same as long as what is known about the other nodes is.
    pub fn get_storage_nodes(&self) -> (nodes: Result<Vec<PeerId>, String>)
        requires
            self.wf(),
        ensures
            nodes matches Ok(nodes) && {
                &&& crate::ledger::identities(nodes@) == self.storage_selection()
                &&& crate::ledger::is_selection(
                    self.storage_selection(),
                    self.ledgers(),
                    MAX_STORAGE_NODES as nat,
                )
                &&& nodes@.len() <= 3
                &&& forall|i: int|
                    0 <= i < nodes@.len() ==> self.ledgers().contains_key(
                        (#[trigger] nodes@[i]).bytes@,
                    ) && self.ledgers()[nodes@[i].bytes@].node_type == NodeType::StorageNode
                &&& forall|i: int, j: int|
                    0 <= i < j < nodes@.len() ==> (#[trigger] nodes@[i]).bytes@ != (
                    #[trigger] nodes@[j]).bytes@
                &&& nodes@.len() < 3 ==> forall|p: Seq<u8>| #[trigger]
                    self.ledgers().contains_key(p) && self.ledgers()[p].node_type
                        == NodeType::StorageNode ==> exists|i: int|
                        0 <= i < nodes@.len() && (#[trigger] nodes@[i]).bytes@ == p
            },
    {
        Ok(self.ledgers.select_storage_nodes(MAX_STORAGE_NODES))
    }

    /// What is known about the other nodes.
    pub fn known_nodes(&self) -> (ledgers: &Ledgers)
        requires
            self.wf(),
        ensures
            ledgers@ == self.ledgers(),
            ledgers.wf(),
    {
        &self.ledgers
    }
}

/// What is told about a request: its response, or that there is none.
pub fn relay<E>(response: Result<FileResponse, E>) -> (relayed: Result<FileResponse, String>)
    ensures
        match (response, relayed) {
            (Ok(response), Ok(relayed)) => relayed == response,
            (Err(_), Err(error)) => error@ == "some error"@,
            _ => false,
        },
{
    match response {
        Ok(response) => Ok(response),
        Err(_) => Err("some error".to_owned()),
    }
}

/// A response is handed to who waits for it, and to nobody a second time: whoever waits for
/// `request_id` gets the first response, and another one is reported as unknown.
pub proof fn law_delivered_once<A, C, P>(
    pending: Map<u64, P>,
    request_id: u64,
    sender: P,
    first: NetworkEvent<A, C>,
    second: NetworkEvent<A, C>,
)
    requires
        answers(first) == Some(request_id),
        answers(second) == Some(request_id),
    ensures
        ({
            let waiting = pending.insert(request_id, sender);
            let after = pending_after(waiting, first);
            &&& network_actions(waiting, first).len() == 1
            &&& network_actions(waiting, first)[0] matches NetworkAction::Deliver { sender: to, .. }
            &&& to == sender
            &&& network_actions(after, second) == seq![
                NetworkAction::<A, C, P>::ReportUnknownRequest(request_id),
            ]
        }),
{
}

/// What happens to one request leaves those that wait for another response waiting.
pub proof fn law_others_wait_on<A, C, P>(
    pending: Map<u64, P>,
    event: NetworkEvent<A, C>,
    request_id: u64,
)
    requires
        answers(event) != Some(request_id),
        pending.contains_key(request_id),
    ensures
        pending_after(pending, event).contains_key(request_id),
        pending_after(pending, event)[request_id] == pending[request_id],
{
}

/// Nodes that were found are known, and taken for nodes that store nothing until they say
/// otherwise. Nothing changes for the other nodes.
pub proof fn law_found_nodes_are_known<A>(
    ledgers: Map<Seq<u8>, Ledger>,
    list: Seq<(PeerId, A)>,
    peer: Seq<u8>,
)
    ensures
        ({
            let found = is_listed(list, peer);
            let after = after_join(ledgers, list);
            &&& found ==> after.contains_key(peer) && after[peer] == fresh_ledger()
            &&& !found ==> after.contains_key(peer) == ledgers.contains_key(peer)
            &&& !found && ledgers.contains_key(peer) ==> after[peer] == ledgers[peer]
        }),
    decreases list.len(),
{
    if list.len() > 0 {
        let front = list.drop_last();
        law_found_nodes_are_known(ledgers, front, peer);
        if list.last().0@ == peer {
            assert(list[list.len() - 1].0@ == peer);
        } else if is_listed(front, peer) {
            let i = choose|i: int| 0 <= i < front.len() && (#[trigger] front[i]).0@ == peer;
            assert(list[i].0@ == peer);
        } else {
            assert forall|i: int| 0 <= i < list.len() implies (#[trigger] list[i]).0@ != peer by {
                if i < front.len() {
                    assert(front[i].0@ != peer);
                }
            }
        }
    }
}

/// Nodes that are gone are forgotten. Nothing changes for the other nodes.
pub proof fn law_gone_nodes_are_forgotten<A>(
    ledgers: Map<Seq<u8>, Ledger>,
    list: Seq<(PeerId, A)>,
    peer: Seq<u8>,
)
    ensures
        ({
            let gone = is_listed(list, peer);
            let after = after_leave(ledgers, list);
            &&& gone ==> !after.contains_key(peer)
            &&& !gone ==> after.contains_key(peer) == ledgers.contains_key(peer)
            &&& !gone && ledgers.contains_key(peer) ==> after[peer] == ledgers[peer]
        }),
    decreases list.len(),
{
    if list.len() > 0 {
        let front = list.drop_last();
        law_gone_nodes_are_forgotten(ledgers, front, peer);
        if list.last().0@ == peer {
            assert(list[list.len() - 1].0@ == peer);
        } else if is_listed(front, peer) {
            let i = choose|i: int| 0 <= i < front.len() && (#[trigger] front[i]).0@ == peer;
            assert(list[i].0@ == peer);
        } else {
            assert forall|i: int| 0 <= i < list.len() implies (#[trigger] list[i]).0@ != peer by {
                if i < front.len() {
                    assert(front[i].0@ != peer);
                }
            }
        }
    }
}

/// Nodes that are found and then gone leave the ledgers as if they had gone at once.
pub proof fn law_leaving_undoes_joining<A>(ledgers: Map<Seq<u8>, Ledger>, list: Seq<(PeerId, A)>)
    ensures
        after_leave(after_join(ledgers, list), list) == after_leave(ledgers, list),
{
    let joined = after_join(ledgers, list);
    let a = after_leave(joined, list);
    let b = after_leave(ledgers, list);
    assert forall|peer: Seq<u8>|
        #![trigger a.contains_key(peer)]
        a.contains_key(peer) == b.contains_key(peer) && (a.contains_key(peer) ==> a[peer]
            == b[peer]) by {
        law_found_nodes_are_known(ledgers, list, peer);
        law_gone_nodes_are_forgotten(joined, list, peer);
        law_gone_nodes_are_forgotten(ledgers, list, peer);
    }
    assert(a =~= b);
}

/// The ledgers of a loop that started with none, after all these events.
pub open spec fn ledgers_after_all<A, C>(events: Seq<NetworkEvent<A, C>>) -> Map<Seq<u8>, Ledger>
    decreases events.len(),
{
    if events.len() == 0 {
        Map::empty()
    } else {
        ledgers_after(ledgers_after_all(events.drop_last()), events.last())
    }
}

/// The node is among those in the list.
pub open spec fn is_listed<A>(list: Seq<(PeerId, A)>, peer: Seq<u8>) -> bool {
    exists|i: int| 0 <= i < list.len() && (#[trigger] list[i]).0@ == peer
}

/// The event is the node saying what it does.
pub open spec fn says<A, C>(event: NetworkEvent<A, C>, peer: Seq<u8>) -> Option<NodeType> {
    match event {
        NetworkEvent::Response {
            peer: from,
            request_id,
            response: FileResponse(FileResponseType::GetNodeTypeResponse(node_type)),
        } => if from@ == peer {
            Some(node_type)
        } else {
            None
        },
        _ => None,
    }
}

/// The event tells something about the node: that it was found, is gone, or what it does.
pub open spec fn concerns<A, C>(event: NetworkEvent<A, C>, peer: Seq<u8>) -> bool {
    match event {
        NetworkEvent::Discovered(list) => is_listed(list@, peer),
        NetworkEvent::Expired(list) => is_listed(list@, peer),
        _ => says(event, peer) is Some,
    }
}

/// At `i` the node says that it stores files, and nothing is heard about it later.
pub open spec fn said_last<A, C>(
    events: Seq<NetworkEvent<A, C>>,
    peer: Seq<u8>,
    i: int,
) -> bool {
    &&& 0 <= i < events.len()
    &&& says(events[i], peer) == Some(NodeType::StorageNode)
    &&& forall|j: int| i < j < events.len() ==> !concerns(#[trigger] events[j], peer)
}

/// Whatever happened, a node counts as a storage node exactly where the last thing that was heard
/// about it is that it says so.
pub proof fn law_storage_nodes_said_so<A, C>(events: Seq<NetworkEvent<A, C>>, peer: Seq<u8>)
    ensures
        crate::ledger::storage_nodes(ledgers_after_all(events)).contains(peer) <==> exists|i: int|
            said_last(events, peer, i),
    decreases events.len(),
{
    if events.len() > 0 {
        let front = events.drop_last();
        let event = events.last();
        let before = ledgers_after_all(front);
        law_storage_nodes_said_so(front, peer);
        match event {
            NetworkEvent::Discovered(list) => law_found_nodes_are_known(before, list@, peer),
            NetworkEvent::Expired(list) => law_gone_nodes_are_forgotten(before, list@, peer),
            _ => {},
        }
        if concerns(event, peer) {
            assert(events[events.len() - 1] == event);
            if says(event, peer) == Some(NodeType::StorageNode) {
                assert(said_last(events, peer, events.len() - 1));
            }
        } else {
            assert forall|i: int| said_last(events, peer, i) <==> said_last(front, peer, i) by {
                if said_last(front, peer, i) {
                    assert forall|j: int| i < j < events.len() implies !concerns(
                        #[trigger] events[j],
                        peer,
                    ) by {
                        if j < front.len() {
                            assert(front[j] == events[j]);
                        }
                    }
                }
                if said_last(events, peer, i) {
                    assert(i != events.len() - 1);
                    assert forall|j: int| i < j < front.len() implies !concerns(
                        #[trigger] front[j],
                        peer,
                    ) by {
                        assert(front[j] == events[j]);
                    }
                }
            }
            if exists|i: int| said_last(front, peer, i) {
                let i = choose|i: int| said_last(front, peer, i);
                assert(said_last(events, peer, i));
            }
            if exists|i: int| said_last(events, peer, i) {
                let i = choose|i: int| said_last(events, peer, i);
                assert(said_last(front, peer, i));
            }
        }
    }
}

/// Asked twice for storage nodes in the same state, a loop gives the same nodes in the same order.
pub proof fn law_storage_nodes_are_stable<P>(
    event_loop: EventLoop<P>,
    first: Seq<PeerId>,
    second: Seq<PeerId>,
)
    requires
        crate::ledger::identities(first) == event_loop.storage_selection(),
        crate::ledger::identities(second) == event_loop.storage_selection(),
    ensures
        first.len() == second.len(),
        forall|i: int| 0 <= i < first.len() ==> (#[trigger] first[i])@ == second[i]@,
{
    let ids = crate::ledger::identities(first);
    assert(ids.len() == first.len());
    assert forall|i: int| 0 <= i < first.len() implies (#[trigger] first[i])@ == second[i]@ by {
        assert(ids[i] == first[i]@);
        assert(ids[i] == second[i]@);
    }
}

/// Whatever another node asks for, the request is handed on, once and as it came, and nothing else
/// happens.
pub proof fn law_requests_are_handed_on<A, C, P>(
    ledgers: Map<Seq<u8>, Ledger>,
    pending: Map<u64, P>,
    peer: PeerId,
    request: FileRequest,
    channel: C,
)
    ensures
        ({
            let event = NetworkEvent::<A, C>::Request { peer, request, channel };
            &&& network_actions(pending, event) == seq![
                NetworkAction::<A, C, P>::Forward(
                    ReqResEvent::InboundRequest { request, channel, peer },
                ),
            ]
            &&& ledgers_after(ledgers, event) == ledgers
            &&& pending_after(pending, event) == pending
            &&& leaves_ledgers(ledgers, event)
        }),
{
}

/// A response goes, as it came, to who waits for the request that it answers, and to nobody else;
/// where nobody waits, that is reported. Nobody waits for it any more, and the others wait on.
pub proof fn law_responses_are_delivered<A, C, P>(
    ledgers: Map<Seq<u8>, Ledger>,
    pending: Map<u64, P>,
    peer: PeerId,
    request_id: u64,
    body: Vec<u8>,
)
    ensures
        ({
            let response = FileResponse(FileResponseType::Other(body));
            let event = NetworkEvent::<A, C>::Response { peer, request_id, response };
            let after = pending_after(pending, event);
            &&& pending.contains_key(request_id) ==> network_actions(pending, event) == seq![
                NetworkAction::<A, C, P>::Deliver { sender: pending[request_id], response },
            ]
            &&& !pending.contains_key(request_id) ==> network_actions(pending, event) == seq![
                NetworkAction::<A, C, P>::ReportUnknownRequest(request_id),
            ]
            &&& after == pending.remove(request_id)
            &&& answers(event) == Some(request_id)
            &&& ledgers_after(ledgers, event) == ledgers
            &&& leaves_ledgers(ledgers, event)
        }),
{
}

/// What a node says that it does is noted for that node and no other, with no score, and reported.
/// Those that wait for a response wait on, also where they wait for this request.
pub proof fn law_node_types_are_noted<A, C, P>(
    ledgers: Map<Seq<u8>, Ledger>,
    pending: Map<u64, P>,
    peer: PeerId,
    request_id: u64,
    node_type: NodeType,
)
    ensures
        ({
            let response = FileResponse(FileResponseType::GetNodeTypeResponse(node_type));
            let event = NetworkEvent::<A, C>::Response { peer, request_id, response };
            &&& network_actions(pending, event) == seq![
                NetworkAction::<A, C, P>::ReportNodeType { peer, node_type },
                NetworkAction::<A, C, P>::ReportLedgers,
            ]
            &&& ledgers_after(ledgers, event) == ledgers.insert(
                peer.bytes@,
                Ledger { score: 0, node_type },
            )
            &&& pending_after(pending, event) == pending
            &&& answers(event) is None
        }),
{
}

/// Each node that is found is added with its address and asked what it does, in the order in which
/// they were found. It is known from then on, without a score and as one that serves the API; what
/// is known about any other node stays, and so do those that wait.
pub proof fn law_found_nodes_are_asked<A, C, P>(
    ledgers: Map<Seq<u8>, Ledger>,
    pending: Map<u64, P>,
    list: Vec<(PeerId, A)>,
    peer: Seq<u8>,
)
    ensures
        ({
            let event = NetworkEvent::<A, C>::Discovered(list);
            let actions = network_actions(pending, event);
            let after = ledgers_after(ledgers, event);
            let found = exists|i: int|
                0 <= i < list@.len() && (#[trigger] list@[i]).0.bytes@ == peer;
            &&& actions.len() == list@.len()
            &&& forall|i: int|
                0 <= i < list@.len() ==> #[trigger] actions[i] == (NetworkAction::<A, C, P>::Join {
                    peer: list@[i].0,
                    address: list@[i].1,
                    request: FileRequest(FileRequestType::GetNodeTypeRequest),
                })
            &&& found ==> after.contains_key(peer) && after[peer] == (Ledger {
                score: 0,
                node_type: NodeType::ApiNode,
            })
            &&& !found ==> after.contains_key(peer) == ledgers.contains_key(peer)
            &&& !found && ledgers.contains_key(peer) ==> after[peer] == ledgers[peer]
            &&& pending_after(pending, event) == pending
            &&& list@.len() == 0 ==> leaves_ledgers(ledgers, event)
        }),
{
    law_found_nodes_are_known(ledgers, list@, peer);
    if exists|i: int| 0 <= i < list@.len() && (#[trigger] list@[i]).0.bytes@ == peer {
        let i = choose|i: int| 0 <= i < list@.len() && (#[trigger] list@[i]).0.bytes@ == peer;
        assert(list@[i].0@ == peer);
    } else if is_listed(list@, peer) {
        let i = choose|i: int| 0 <= i < list@.len() && (#[trigger] list@[i]).0@ == peer;
        assert(list@[i].0.bytes@ == peer);
    }
}

/// Each node that is gone is reported and its address removed, in the order in which they went. It
/// is not known any more; what is known about any other node stays, and so do those that wait.
pub proof fn law_gone_nodes_are_removed<A, C, P>(
    ledgers: Map<Seq<u8>, Ledger>,
    pending: Map<u64, P>,
    list: Vec<(PeerId, A)>,
    peer: Seq<u8>,
)
    ensures
        ({
            let event = NetworkEvent::<A, C>::Expired(list);
            let actions = network_actions(pending, event);
            let after = ledgers_after(ledgers, event);
            let gone = exists|i: int|
                0 <= i < list@.len() && (#[trigger] list@[i]).0.bytes@ == peer;
            &&& actions.len() == list@.len()
            &&& forall|i: int|
                0 <= i < list@.len() ==> #[trigger] actions[i] == (NetworkAction::<A, C, P>::Leave {
                    peer: list@[i].0,
                    address: list@[i].1,
                })
            &&& gone ==> !after.contains_key(peer)
            &&& !gone ==> after.contains_key(peer) == ledgers.contains_key(peer)
            &&& !gone && ledgers.contains_key(peer) ==> after[peer] == ledgers[peer]
            &&& pending_after(pending, event) == pending
        }),
{
    law_gone_nodes_are_forgotten(ledgers, list@, peer);
    if exists|i: int| 0 <= i < list@.len() && (#[trigger] list@[i]).0.bytes@ == peer {
        let i = choose|i: int| 0 <= i < list@.len() && (#[trigger] list@[i]).0.bytes@ == peer;
        assert(list@[i].0@ == peer);
    } else if is_listed(list@, peer) {
        let i = choose|i: int| 0 <= i < list@.len() && (#[trigger] list@[i]).0@ == peer;
        assert(list@[i].0.bytes@ == peer);
    }
}

/// A new address is reported, and anything else is passed over. Neither changes what is known or
/// who waits.
pub proof fn law_other_events_change_nothing<A, C, P>(
    ledgers: Map<Seq<u8>, Ledger>,
    pending: Map<u64, P>,
    address: A,
)
    ensures
        ({
            let listening = NetworkEvent::<A, C>::NewListenAddr(address);
            let other = NetworkEvent::<A, C>::Other;
            &&& network_actions(pending, listening) == seq![
                NetworkAction::<A, C, P>::ReportListening(address),
            ]
            &&& network_actions(pending, other) == Seq::<NetworkAction<A, C, P>>::empty()
            &&& ledgers_after(ledgers, listening) == ledgers
            &&& ledgers_after(ledgers, other) == ledgers
            &&& pending_after(pending, listening) == pending
            &&& pending_after(pending, other) == pending
            &&& leaves_ledgers(ledgers, listening)
            &&& leaves_ledgers(ledgers, other)
        }),
{
}

/// Nodes that are gone and were not known leave what is known as it is.
pub proof fn law_unknown_nodes_leave_nothing<A, C>(
    ledgers: Map<Seq<u8>, Ledger>,
    list: Vec<(PeerId, A)>,
)
    requires
        forall|i: int| 0 <= i < list@.len() ==> !ledgers.contains_key((#[trigger] list@[i]).0.bytes@),
    ensures
        leaves_ledgers(ledgers, NetworkEvent::<A, C>::Expired(list)),
{
    assert forall|i: int| 0 <= i < list@.len() implies !ledgers.contains_key(
        (#[trigger] list@[i]).0@,
    ) by {
        assert(!ledgers.contains_key(list@[i].0.bytes@));
    }
}

/// What the node itself asks for is done once and as it was asked: the providers or the record of
/// that key are looked up, that value is stored under that key, that request is sent to that node.
pub proof fn law_lookups_are_done<C, N, R, K, F, U>(
    actions: Seq<DhtAction<C, N, R, K, F, U>>,
    selection: Seq<Seq<u8>>,
    ledgers: Map<Seq<u8>, Ledger>,
    event: DhtEvent<C, N, R, K, F, U>,
)
    requires
        is_dht_actions(actions, selection, ledgers, Some(event)),
    ensures
        event matches DhtEvent::GetProviders { key, sender } ==> actions == seq![
            DhtAction::<C, N, R, K, F, U>::GetProviders { key, sender },
        ],
        event matches DhtEvent::GetRecord { key, sender } ==> actions == seq![
            DhtAction::<C, N, R, K, F, U>::GetRecord { key, sender },
        ],
        event matches DhtEvent::PutRecord { key, value, sender } ==> actions == seq![
            DhtAction::<C, N, R, K, F, U>::PutRecord { key, value, sender },
        ],
        event matches DhtEvent::SendRequest { peer, request, sender } ==> actions == seq![
            DhtAction::<C, N, R, K, F, U>::SendRequest { peer, request, sender },
        ],
{
}

/// A response of the node is acknowledged first and sent then, as it is and on its own channel.
/// Where nobody is left who could ask, nothing is done.
pub proof fn law_responses_are_sent<C, N, R, K, F, U>(
    actions: Seq<DhtAction<C, N, R, K, F, U>>,
    selection: Seq<Seq<u8>>,
    ledgers: Map<Seq<u8>, Ledger>,
    event: Option<DhtEvent<C, N, R, K, F, U>>,
)
    requires
        is_dht_actions(actions, selection, ledgers, event),
    ensures
        event is None <==> actions.len() == 0,
        event matches Some(DhtEvent::SendResponse { channel, response, sender }) ==> actions
            == seq![
            DhtAction::<C, N, R, K, F, U>::Acknowledge { sender },
            DhtAction::<C, N, R, K, F, U>::SendResponse { channel, response },
        ],
{
}

/// Asked for storage nodes, the loop tells who asks at most three, none of them twice and each one
/// that says it stores files, and leaves none of those out where there are fewer than three.
pub proof fn law_storage_nodes_are_told<C, N, R, K, F, U>(
    actions: Seq<DhtAction<C, N, R, K, F, U>>,
    selection: Seq<Seq<u8>>,
    ledgers: Map<Seq<u8>, Ledger>,
    sender: N,
    peer: Seq<u8>,
) -> (nodes: Seq<PeerId>)
    requires
        ledgers.dom().finite(),
        is_dht_actions(
            actions,
            selection,
            ledgers,
            Some(DhtEvent::<C, N, R, K, F, U>::GetStorageNodes { sender }),
        ),
    ensures
        actions.len() == 1,
        actions[0] matches DhtAction::ReplyStorageNodes { sender: to, nodes: told } && to == sender
            && told@ == nodes,
        nodes.len() <= 3,
        forall|i: int|
            0 <= i < nodes.len() ==> ledgers.contains_key((#[trigger] nodes[i]).bytes@)
                && ledgers[nodes[i].bytes@].node_type == NodeType::StorageNode,
        forall|i: int, j: int|
            0 <= i < j < nodes.len() ==> (#[trigger] nodes[i]).bytes@ != (
            #[trigger] nodes[j]).bytes@,
        nodes.len() < 3 && ledgers.contains_key(peer) && ledgers[peer].node_type
            == NodeType::StorageNode ==> exists|i: int|
            0 <= i < nodes.len() && (#[trigger] nodes[i]).bytes@ == peer,
{
    let nodes = actions[0]->ReplyStorageNodes_nodes@;
    let ids = crate::ledger::identities(nodes);
    assert(ids.len() == nodes.len());
    crate::ledger::law_what_a_selection_is(ids, ledgers, MAX_STORAGE_NODES as nat, peer);
    assert forall|i: int| 0 <= i < nodes.len() implies ledgers.contains_key(
        (#[trigger] nodes[i]).bytes@,
    ) && ledgers[nodes[i].bytes@].node_type == NodeType::StorageNode by {
        assert(ids[i] == nodes[i].bytes@);
    }
    assert forall|i: int, j: int| 0 <= i < j < nodes.len() implies (#[trigger] nodes[i]).bytes@ != (
    #[trigger] nodes[j]).bytes@ by {
        assert(ids[i] != ids[j]);
    }
    if nodes.len() < 3 && ledgers.contains_key(peer) && ledgers[peer].node_type
        == NodeType::StorageNode {
        let i = choose|i: int| 0 <= i < ids.len() && #[trigger] ids[i] == peer;
        assert(nodes[i].bytes@ == peer);
    }
    nodes
}

} // verus!
