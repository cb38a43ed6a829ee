use vstd::prelude::*;
use vstd::string::*;
use crate::models::nodes::{connection_url_of, url_of, with_local, RNode, RNodeView};
use crate::models::utils::scan::first_of;
use crate::models::utils::text::{digits_text, same_text};
use crate::protocol::message::{
    decoded, RContentKind, RFrame, RFrameView, RMUidRespose, RMessage, RMessageTrait, RMessageType,
    RMessageView,
};
use crate::protocol::wire::{envelope, uid_json};
use crate::schema::RDatabase;
use crate::utils::configs::RConfigNode;

verus! {

/// The server side of the transport.
pub struct RServer;

impl RServer {
    /// The URL at which a configured node is reached.
    pub fn connection_url(server: RConfigNode) -> (r: String)
        ensures
            r@ == url_of(server@.ssl, server@.host, server@.port as int),
    {
        connection_url_of(server.ssl, server.host.as_str(), digits_text(server.port as u64))
    }
}

/// The sub-protocol that two nodes speak.
pub open spec fn sub_protocol() -> Seq<char> {
    "rust-websocket"@
}

/// Whether a peer that offers these sub-protocols is accepted: it has to
/// offer the one that the nodes speak.
pub fn accepts(protocols: &Vec<String>) -> (r: bool)
    ensures
        r == (exists|i: int| 0 <= i < protocols.len() && (#[trigger] protocols@[i])@ == sub_protocol()),
{
    let mut i: usize = 0;
    while i < protocols.len()
        invariant
            i <= protocols.len(),
            forall|j: int| 0 <= j < i ==> (#[trigger] protocols@[j])@ != sub_protocol(),
        decreases protocols.len() - i,
    {
        if same_text(protocols[i].as_str(), "rust-websocket") {
            return true;
        }
        i += 1;
    }
    false
}

/// The frame with which the server greets a peer that it accepted.
pub fn greeting() -> (r: RFrame)
    ensures
        r@ == RFrameView::Text("Hello"@),
{
    RFrame::Text(String::from_str("Hello"))
}

/// What a session does next.
#[derive(Debug)]
pub enum RServerAction {
    /// Send this frame and go on reading.
    Reply(RFrame),
    /// Send this frame and end the session.
    ReplyAndClose(RFrame),
    /// Go on reading.
    Nothing,
    /// End the session: the peer sent what cannot be read.
    Terminate,
}

/// What a session does next, as plain values.
pub enum RServerActionView {
    Reply(RFrameView),
    ReplyAndClose(RFrameView),
    Nothing,
    Terminate,
}

impl View for RServerAction {
    type V = RServerActionView;

    open spec fn view(&self) -> RServerActionView {
        match self {
            RServerAction::Reply(frame) => RServerActionView::Reply(frame@),
            RServerAction::ReplyAndClose(frame) => RServerActionView::ReplyAndClose(frame@),
            RServerAction::Nothing => RServerActionView::Nothing,
            RServerAction::Terminate => RServerActionView::Terminate,
        }
    }
}

/// The answer to a request for a uid: a `UidResponse` whose payload holds
/// the uid.
pub open spec fn uid_response(uid: Seq<char>) -> RMessageView {
    RMessageView { kind: RMessageType::UidResponse, data: Some(uid_json(uid)) }
}

/// What the server does with a message that it could read: a request for
/// a uid is answered with the uid of the local node where there is one, and
/// nothing else asks for an answer.
pub open spec fn reaction(message: RMessageView, local: Option<RNodeView>) -> RServerActionView {
    match message.kind {
        RMessageType::UidRequest => match local {
            Some(node) => RServerActionView::Reply(RFrameView::Binary(envelope(uid_response(node.uid)))),
            None => RServerActionView::Nothing,
        },
        _ => RServerActionView::Nothing,
    }
}

/// What the server does with a frame: a close is answered with a close and
/// ends the session, a ping is answered with a pong of the same payload, a
/// binary frame is read as a message and answered as `reaction` says, or
/// ends the session where it cannot be read, and any other frame is sent
/// back as it is.
pub open spec fn server_step(frame: RFrameView, local: Option<RNodeView>) -> RServerActionView {
    match frame {
        RFrameView::Close => RServerActionView::ReplyAndClose(RFrameView::Close),
        RFrameView::Ping(data) => RServerActionView::Reply(RFrameView::Pong(data)),
        RFrameView::Binary(data) => match decoded(data) {
            Some(message) => reaction(message, local),
            None => RServerActionView::Terminate,
        },
        other => RServerActionView::Reply(other),
    }
}

/// Decides what a session does with a frame that it read.
pub fn handle_frame(conn: &RDatabase, frame: RFrame) -> (r: RServerAction)
    ensures
        r@ == server_step(frame@, first_of(conn@.nodes, with_local(true))),
{
    match frame {
        RFrame::Close => RServerAction::ReplyAndClose(RFrame::Close),
        RFrame::Ping(data) => RServerAction::Reply(RFrame::Pong(data)),
        RFrame::Binary(data) => {
            match RMessage::from_slice(data) {
                Ok(message) => {
                    match message.get_content(conn) {
                        RContentKind::UidRequest(_) => {
                            match RNode::get_local(conn) {
                                Some(node) => {
                                    let answer = RMUidRespose { uid: node.uid };
                                    let payload = match answer.to_slice() {
                                        Ok(payload) => payload,
                                        Err(_) => Vec::new(),
                                    };
                                    let reply = RMessage {
                                        _type: RMessageType::UidResponse,
                                        data: Some(payload),
                                    };
                                    match reply.to_ws_message() {
                                        Ok(frame) => RServerAction::Reply(frame),
                                        Err(_) => RServerAction::Nothing,
                                    }
                                },
                                None => RServerAction::Nothing,
                            }
                        },
                        _ => RServerAction::Nothing,
                    }
                },
                Err(_) => RServerAction::Terminate,
            }
        },
        RFrame::Text(text) => RServerAction::Reply(RFrame::Text(text)),
        RFrame::Pong(data) => RServerAction::Reply(RFrame::Pong(data)),
    }
}

} // verus!
