use vstd::prelude::*;
use vstd::string::*;
use crate::models::nodes::{at_address, connection_url_of, url_of, with_uid, RNode, RNodeView};
use crate::models::queues::messages::{message_of, RMessageQueue, RQueuedView};
use crate::models::queues::messages_outgoing::RMessageOutgoing;
use crate::models::utils::scan::{any_of, first_of};
use crate::models::utils::text::digits_text;
use crate::protocol::message::{RFrame, RFrameView};
use crate::protocol::wire::envelope;
use crate::schema::{RDatabase, RDatabaseView};
use crate::utils::configs::{peers_view, RConfig, RConfigNode, RConfigNodeView};

verus! {

/// The client side of the transport.
pub struct RServer;

impl RServer {
    /// The URL at which a configured node is reached.
    pub fn connection_url(server: RConfigNode) -> (r: String)
        ensures
            r@ == url_of(server@.ssl, server@.host, server@.port as int),
    {
        connection_url_of(server.ssl, server.host.as_str(), digits_text(server.port as u64))
    }
}

/// What became of a configured peer.
#[derive(Debug)]
pub enum RRegistration {
    /// A node at its address was there already.
    AlreadyRegistered(RNode),
    /// A node was created for it.
    Registered(RNode),
    /// No node could be created for it.
    NotRegistered,
}

/// The port of a configured node as the store holds it: its low 32 bits,
/// read as a signed number.
pub open spec fn port_column(port: usize) -> i32 {
    port as i32
}

/// The test that a node is at the address of a configured peer.
pub open spec fn at_peer(peer: RConfigNodeView) -> spec_fn(RNodeView) -> bool {
    at_address(peer.host, port_column(peer.port))
}

/// Whether `outcome` is what registering `peer` gives in a store that holds
/// the nodes `before`: the first node at its address where there is one;
/// else a new node at its address, not local, under a uid that no node
/// has; or, only where the store holds a node whose uid can clash, nothing.
pub open spec fn registers(before: Seq<RNodeView>, peer: RConfigNodeView, outcome: RRegistration) -> bool {
    match first_of(before, at_peer(peer)) {
        Some(node) => outcome matches RRegistration::AlreadyRegistered(n) && n@ == node,
        None => match outcome {
            RRegistration::Registered(node) => {
                &&& at_peer(peer)(node@)
                &&& !node@.local
                &&& !any_of(before, with_uid(node@.uid))
            },
            RRegistration::NotRegistered => before.len() > 0,
            RRegistration::AlreadyRegistered(_) => false,
        },
    }
}

/// The nodes that a run of outcomes created, in their order.
pub open spec fn created_nodes(outcomes: Seq<RRegistration>) -> Seq<RNodeView>
    decreases outcomes.len(),
{
    if outcomes.len() == 0 {
        Seq::empty()
    } else {
        let before = created_nodes(outcomes.drop_last());
        match outcomes.last() {
            RRegistration::Registered(node) => before.push(node@),
            _ => before,
        }
    }
}

/// How many nodes are at an address.
pub open spec fn address_count(nodes: Seq<RNodeView>, host: Seq<char>, port: i32) -> nat {
    nodes.filter(at_address(host, port)).len()
}

/// Whether `after` has, at every address, the nodes that `before` had
/// there, and at an address where `before` had none at most one.
pub open spec fn one_per_address(before: Seq<RNodeView>, after: Seq<RNodeView>) -> bool {
    forall|host: Seq<char>, port: i32|
        #![trigger address_count(after, host, port)]
        if address_count(before, host, port) > 0 {
            address_count(after, host, port) == address_count(before, host, port)
        } else {
            address_count(after, host, port) <= 1
        }
}

/// Whether the store has a node at the address of each of the first `k`
/// peers.
pub open spec fn all_known(nodes: Seq<RNodeView>, peers: Seq<RConfigNodeView>, k: int) -> bool {
    forall|i: int| 0 <= i < k ==> any_of(nodes, at_peer(#[trigger] peers[i]))
}

/// Whether no peer was passed over.
pub open spec fn none_passed_over(outcomes: Seq<RRegistration>) -> bool {
    forall|i: int| 0 <= i < outcomes.len() ==> !((#[trigger] outcomes[i]) is NotRegistered)
}

/// A node that is created at an address where the store has none keeps the
/// store at one node for each new address.
pub proof fn lemma_created_one_per_address(
    before: Seq<RNodeView>,
    nodes: Seq<RNodeView>,
    node: RNodeView,
)
    requires
        one_per_address(before, nodes),
        first_of(nodes, at_address(node.host, node.port)) is None,
    ensures
        one_per_address(before, nodes.push(node)),
{
    let after = nodes.push(node);
    assert forall|host: Seq<char>, port: i32|
        #![trigger address_count(after, host, port)]
        if address_count(before, host, port) > 0 {
            address_count(after, host, port) == address_count(before, host, port)
        } else {
            address_count(after, host, port) <= 1
        } by {
        nodes.lemma_filter_push(node, at_address(host, port));
        assert(address_count(nodes, host, port) == nodes.filter(at_address(host, port)).len());
        if at_address(host, port)(node) {
            assert(host == node.host && port == node.port);
            assert(address_count(nodes, host, port) == 0);
        }
    }
}

/// Makes sure that the store has a node for a configured peer: where none
/// is at its address, one is created under a fresh random uid.
/// `NotRegistered`, with the store unchanged, only where that uid is
/// already taken, which cannot be in a store without nodes.
pub fn register_peer(conn: &mut RDatabase, peer: &RConfigNode) -> (r: RRegistration)
    ensures
        registers(old(conn)@.nodes, peer@, r),
        final(conn)@ == (RDatabaseView {
            nodes: match r {
                RRegistration::Registered(node) => old(conn)@.nodes.push(node@),
                _ => old(conn)@.nodes,
            },
            ..old(conn)@
        }),
        old(conn)@.nodes.len() == 0 ==> r is Registered,
        old(conn)@.wf() ==> final(conn)@.wf(),
{
    let host = peer.host.clone();
    let port: i32 = #[verifier::truncate]
    (peer.port as i32);
    match RNode::get_by_host_and_port(conn, host, port) {
        Some(node) => RRegistration::AlreadyRegistered(node),
        None => {
            match RNode::create_other(conn, peer.host.clone(), port) {
                Ok(node) => RRegistration::Registered(node),
                Err(_) => RRegistration::NotRegistered,
            }
        },
    }
}

/// Makes sure that the store has a node for every configured peer, in the
/// order of the configuration, and says what became of each. A peer for
/// which no node can be created is passed over; the others are not held up
/// by it.
///
/// The nodes of the store are those that were there, followed by those
/// that the outcomes name as created. Each outcome is what registering its
/// peer gives in the store as the outcomes before it left it: a peer is
/// `AlreadyRegistered` exactly when a node stood at its address by then. So
/// an address that had no node gets at most one, and where every peer has a
/// node already, as after a call in which none was passed over, nothing is
/// added.
pub fn load_nodes_from_configs(configs: &RConfig, conn: &mut RDatabase) -> (r: Vec<RRegistration>)
    ensures
        r.len() == configs@.nodes.len(),
        final(conn)@ == (RDatabaseView { nodes: old(conn)@.nodes + created_nodes(r@), ..old(conn)@ }),
        forall|i: int|
            0 <= i < r.len() ==> registers(
                old(conn)@.nodes + created_nodes(r@.take(i)),
                configs@.nodes[i],
                #[trigger] r@[i],
            ),
        forall|i: int|
            0 <= i < r.len() ==> (#[trigger] r@[i]) is NotRegistered || any_of(
                final(conn)@.nodes,
                at_peer(configs@.nodes[i]),
            ),
        none_passed_over(r@) ==> all_known(final(conn)@.nodes, configs@.nodes, r.len() as int),
        one_per_address(old(conn)@.nodes, final(conn)@.nodes),
        all_known(old(conn)@.nodes, configs@.nodes, r.len() as int) ==> final(conn)@ == old(conn)@,
        old(conn)@.nodes.len() == 0 && r.len() > 0 ==> r@[0] is Registered,
        old(conn)@.wf() ==> final(conn)@.wf(),
{
    let mut outcomes: Vec<RRegistration> = Vec::new();
    let mut i: usize = 0;
    let ghost peers = configs@.nodes;
    let ghost start = conn@.nodes;
    proof {
        assert(start + created_nodes(outcomes@) =~= start);
        assert forall|host: Seq<char>, port: i32|
            #![trigger address_count(start, host, port)]
            address_count(start, host, port) > 0 || address_count(start, host, port) <= 1 by {}
    }
    while i < configs.nodes.len()
        invariant
            i <= configs.nodes.len(),
            peers == configs@.nodes,
            peers == peers_view(configs.nodes@),
            start == old(conn)@.nodes,
            outcomes.len() == i,
            conn@ == (RDatabaseView { nodes: start + created_nodes(outcomes@), ..old(conn)@ }),
            forall|k: int|
                0 <= k < i ==> registers(start + created_nodes(outcomes@.take(k)), peers[k], #[trigger] outcomes@[k]),
            forall|k: int|
                0 <= k < i ==> (#[trigger] outcomes@[k]) is NotRegistered || any_of(
                    conn@.nodes,
                    at_peer(peers[k]),
                ),
            one_per_address(start, conn@.nodes),
            all_known(start, peers, i as int) ==> conn@.nodes == start,
            start.len() == 0 && i > 0 ==> outcomes@[0] is Registered,
            old(conn)@.wf() ==> conn@.wf(),
        decreases configs.nodes.len() - i,
    {
        let ghost before = conn@.nodes;
        let ghost so_far = outcomes@;
        let outcome = register_peer(conn, &configs.nodes[i]);
        let ghost made = outcome;
        outcomes.push(outcome);
        proof {
            let peer = peers[i as int];
            let after = conn@.nodes;
            let now = outcomes@;
            assert(peer == configs.nodes@[i as int]@);
            assert(now.drop_last() =~= so_far);
            assert(now.last() == made);
            assert(now.take(i as int) =~= so_far);
            assert(after =~= start + created_nodes(now));
            crate::models::utils::scan::lemma_first_of(before, at_peer(peer));
            assert forall|k: int| 0 <= k < i + 1 implies registers(
                start + created_nodes(now.take(k)),
                peers[k],
                #[trigger] now[k],
            ) by {
                if k < i {
                    assert(now.take(k) =~= so_far.take(k));
                    assert(now[k] == so_far[k]);
                }
            }
            assert forall|k: int| 0 <= k < i + 1 implies (#[trigger] now[k]) is NotRegistered || any_of(
                after,
                at_peer(peers[k]),
            ) by {
                if k < i {
                    assert(now[k] == so_far[k]);
                    if !(so_far[k] is NotRegistered) {
                        let w = choose|w: int| 0 <= w < before.len() && at_peer(peers[k])(#[trigger] before[w]);
                        assert(after[w] == before[w]);
                    }
                } else {
                    match made {
                        RRegistration::Registered(n) => {
                            assert(at_peer(peer)(after[after.len() - 1]));
                        },
                        RRegistration::AlreadyRegistered(n) => {
                            let w = choose|w: int| 0 <= w < before.len() && at_peer(peer)(#[trigger] before[w]);
                            assert(after[w] == before[w]);
                        },
                        RRegistration::NotRegistered => {},
                    }
                }
            }
            match made {
                RRegistration::Registered(n) => {
                    lemma_created_one_per_address(start, before, n@);
                },
                _ => {},
            }
            if all_known(start, peers, i as int + 1) {
                assert(all_known(start, peers, i as int));
                assert(any_of(start, at_peer(peers[i as int])));
            }
            if start.len() == 0 && i > 0 {
                assert(now[0] == so_far[0]);
            }
        }
        i += 1;
    }
    proof {
        assert(outcomes@.take(outcomes.len() as int) =~= outcomes@);
        if none_passed_over(outcomes@) {
            assert forall|k: int| 0 <= k < outcomes.len() implies any_of(
                conn@.nodes,
                at_peer(#[trigger] peers[k]),
            ) by {
                assert(!(outcomes@[k] is NotRegistered));
            }
        }
    }
    outcomes
}

/// How many outgoing messages a session sends in one round.
pub const DRAIN_BATCH: usize = 10;

/// The frame that carries a queued message, if its type tag names a kind.
pub open spec fn frame_of(row: RQueuedView) -> Option<RFrameView> {
    match message_of(row) {
        Some(message) => Some(RFrameView::Binary(envelope(message))),
        None => None,
    }
}

/// The frames of queued messages, in their order; a message whose type tag
/// names no kind has none.
pub open spec fn frames_of(rows: Seq<RQueuedView>) -> Seq<RFrameView> {
    rows.filter_map(|row: RQueuedView| frame_of(row))
}

/// Frames as plain values.
pub open spec fn frames_view(frames: Seq<RFrame>) -> Seq<RFrameView> {
    frames.map_values(|f: RFrame| f@)
}

/// The frames to send in one round: those of the first `n` outgoing
/// messages in retrieval order. The messages stay in the queue.
pub fn drain(conn: &RDatabase, n: usize) -> (r: Vec<RFrame>)
    ensures
        frames_view(r@) == frames_of(conn@.messages_outgoing.most_recent_n(n as nat)),
{
    let messages = match RMessageOutgoing::last_n(conn, n) {
        Some(messages) => messages,
        None => Vec::new(),
    };
    let ghost rows = conn@.messages_outgoing.most_recent_n(n as nat);
    let mut frames: Vec<RFrame> = Vec::new();
    let mut i: usize = 0;
    assert(rows.take(0) =~= Seq::<RQueuedView>::empty());
    assert(frames_view(frames@) =~= Seq::<RFrameView>::empty());
    while i < messages.len()
        invariant
            i <= messages.len(),
            rows == crate::models::queues::messages::rows_view(messages@),
            frames_view(frames@) == frames_of(rows.take(i as int)),
        decreases messages.len() - i,
    {
        let ghost before = frames@;
        proof {
            rows.lemma_filter_map_take_succ(|row: RQueuedView| frame_of(row), i as int);
            assert(rows[i as int] == messages@[i as int]@);
        }
        if let Some(message) = messages[i].to_message() {
            if let Ok(frame) = message.to_ws_message() {
                frames.push(frame);
                assert(frames_view(frames@) =~= frames_view(before).push(frame@));
            }
        }
        i += 1;
    }
    assert(rows.take(messages.len() as int) =~= rows);
    frames
}

/// What happened in the loop that sends.
#[derive(Debug)]
pub enum RSendEvent {
    /// A frame was taken from the channel.
    Message(RFrame),
    /// The channel is closed.
    ChannelClosed,
    /// The last frame could not be written.
    WriteFailed,
}

/// What the loop that sends does next.
#[derive(Debug)]
pub enum RSendAction {
    /// Write the frame and go on.
    Write(RFrame),
    /// Write the frame and end the loop.
    WriteAndStop(RFrame),
    /// End the loop.
    Stop,
}

/// What the loop that sends does next, as plain values.
pub enum RSendActionView {
    Write(RFrameView),
    WriteAndStop(RFrameView),
    Stop,
}

impl View for RSendAction {
    type V = RSendActionView;

    open spec fn view(&self) -> RSendActionView {
        match self {
            RSendAction::Write(frame) => RSendActionView::Write(frame@),
            RSendAction::WriteAndStop(frame) => RSendActionView::WriteAndStop(frame@),
            RSendAction::Stop => RSendActionView::Stop,
        }
    }
}

/// Decides what the loop that sends does next: a close is written and ends
/// the loop, any other frame is written, a closed channel ends the loop,
/// and after a failed write a close is written and the loop ends.
pub fn send_step(event: RSendEvent) -> (r: RSendAction)
    ensures
        r@ == (match event {
            RSendEvent::Message(frame) => if frame@ is Close {
                RSendActionView::WriteAndStop(RFrameView::Close)
            } else {
                RSendActionView::Write(frame@)
            },
            RSendEvent::ChannelClosed => RSendActionView::Stop,
            RSendEvent::WriteFailed => RSendActionView::WriteAndStop(RFrameView::Close),
        }),
{
    match event {
        RSendEvent::Message(RFrame::Close) => RSendAction::WriteAndStop(RFrame::Close),
        RSendEvent::Message(frame) => RSendAction::Write(frame),
        RSendEvent::ChannelClosed => RSendAction::Stop,
        RSendEvent::WriteFailed => RSendAction::WriteAndStop(RFrame::Close),
    }
}

/// What happened in the loop that receives.
#[derive(Debug)]
pub enum RReceiveEvent {
    /// A frame was read.
    Frame(RFrame),
    /// Reading failed.
    ReadFailed,
    /// The last frame could not be handed to the loop that sends.
    ForwardFailed,
}

/// What the loop that receives does next.
#[derive(Debug)]
pub enum RReceiveAction {
    /// Hand the frame to the loop that sends and go on.
    Forward(RFrame),
    /// Hand the frame to the loop that sends and end the loop.
    ForwardAndStop(RFrame),
    /// Go on: the frame asks for nothing.
    Ignore,
    /// End the loop.
    Stop,
}

/// What the loop that receives does next, as plain values.
pub enum RReceiveActionView {
    Forward(RFrameView),
    ForwardAndStop(RFrameView),
    Ignore,
    Stop,
}

impl View for RReceiveAction {
    type V = RReceiveActionView;

    open spec fn view(&self) -> RReceiveActionView {
        match self {
            RReceiveAction::Forward(frame) => RReceiveActionView::Forward(frame@),
            RReceiveAction::ForwardAndStop(frame) => RReceiveActionView::ForwardAndStop(frame@),
            RReceiveAction::Ignore => RReceiveActionView::Ignore,
            RReceiveAction::Stop => RReceiveActionView::Stop,
        }
    }
}

/// Decides what the loop that receives does next: a ping is answered with
/// a pong of the same payload, a close from the peer or a failed read asks
/// the loop that sends to close and ends the loop, a frame that could not
/// be handed over ends the loop, and any other frame asks for nothing.
pub fn receive_step(event: RReceiveEvent) -> (r: RReceiveAction)
    ensures
        r@ == (match event {
            RReceiveEvent::Frame(frame) => match frame@ {
                RFrameView::Close => RReceiveActionView::ForwardAndStop(RFrameView::Close),
                RFrameView::Ping(data) => RReceiveActionView::Forward(RFrameView::Pong(data)),
                _ => RReceiveActionView::Ignore,
            },
            RReceiveEvent::ReadFailed => RReceiveActionView::ForwardAndStop(RFrameView::Close),
            RReceiveEvent::ForwardFailed => RReceiveActionView::Stop,
        }),
{
    match event {
        RReceiveEvent::Frame(RFrame::Close) => RReceiveAction::ForwardAndStop(RFrame::Close),
        RReceiveEvent::Frame(RFrame::Ping(data)) => RReceiveAction::Forward(RFrame::Pong(data)),
        RReceiveEvent::Frame(_) => RReceiveAction::Ignore,
        RReceiveEvent::ReadFailed => RReceiveAction::ForwardAndStop(RFrame::Close),
        RReceiveEvent::ForwardFailed => RReceiveAction::Stop,
    }
}

} // verus!
