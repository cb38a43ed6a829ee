use vstd::prelude::*;
use vstd::string::*;
use crate::models::utils::ambient::new_uid;
use crate::models::utils::error::{RDatabaseError, RStoreFailure};
use crate::models::utils::scan::{any_of, first_of, lemma_first_found, lemma_first_none};
use crate::models::utils::text::{decimal_of, decimal_text, digits_text};
use crate::protocol::message::{RFrame, RFrameView, RMessage, RMessageType, RMessageView};
use crate::protocol::wire::envelope;
use crate::utils::configs::RConfigNode;
use crate::schema::{nodes_view, RDatabase, RDatabaseView};

verus! {

/// A node of the network: this instance or one of its peers.
#[derive(Debug)]
pub struct RNode {
    pub uid: String,
    pub host: String,
    pub port: i32,
    pub local: bool,
}

/// What a node holds, as plain values.
pub struct RNodeView {
    pub uid: Seq<char>,
    pub host: Seq<char>,
    pub port: i32,
    pub local: bool,
}

impl View for RNode {
    type V = RNodeView;

    open spec fn view(&self) -> RNodeView {
        RNodeView { uid: self.uid@, host: self.host@, port: self.port, local: self.local }
    }
}

impl Clone for RNode {
    fn clone(&self) -> (r: RNode)
        ensures
            r@ == self@,
    {
        RNode { uid: self.uid.clone(), host: self.host.clone(), port: self.port, local: self.local }
    }
}

/// What a lookup gave, as plain values.
pub open spec fn found(r: Option<RNode>) -> Option<RNodeView> {
    match r {
        Some(node) => Some(node@),
        None => None,
    }
}

/// The test that a node listens at the given address.
pub open spec fn at_address(host: Seq<char>, port: i32) -> spec_fn(RNodeView) -> bool {
    |n: RNodeView| n.host == host && n.port == port
}

/// The test that a node's local flag is `flag`.
pub open spec fn with_local(flag: bool) -> spec_fn(RNodeView) -> bool {
    |n: RNodeView| n.local == flag
}

/// How many nodes stand for this instance.
pub open spec fn local_count(nodes: Seq<RNodeView>) -> nat {
    nodes.filter(with_local(true)).len()
}

/// The test that a node has the given uid.
pub open spec fn with_uid(uid: Seq<char>) -> spec_fn(RNodeView) -> bool {
    |n: RNodeView| n.uid == uid
}

/// The address of a node as a connection URL.
pub open spec fn url_of(ssl: bool, host: Seq<char>, port: int) -> Seq<char> {
    (if ssl {
        "wss"@
    } else {
        "ws"@
    }) + "://"@ + host + ":"@ + decimal_of(port)
}

/// Writes a connection URL, from the port as it is written.
pub fn connection_url_of(ssl: bool, host: &str, port: String) -> (r: String)
    ensures
        r@ == (if ssl {
            "wss"@
        } else {
            "ws"@
        }) + "://"@ + host@ + ":"@ + port@,
{
    let mut url = if ssl {
        String::from_str("wss")
    } else {
        String::from_str("ws")
    };
    url.append("://");
    url.append(host);
    url.append(":");
    url.append(port.as_str());
    url
}

impl RNode {
    /// The first node that listens at the given address.
    pub fn get_by_host_and_port(conn: &RDatabase, search_host: String, search_port: i32) -> (r: Option<RNode>)
        ensures
            found(r) == first_of(conn@.nodes, at_address(search_host@, search_port)),
    {
        let mut i: usize = 0;
        while i < conn.nodes.len()
            invariant
                i <= conn.nodes.len(),
                forall|j: int| 0 <= j < i ==> !at_address(search_host@, search_port)(#[trigger] conn@.nodes[j]),
            decreases conn.nodes.len() - i,
        {
            if conn.nodes[i].host == search_host && conn.nodes[i].port == search_port {
                proof {
                    lemma_first_found(conn@.nodes, at_address(search_host@, search_port), i as int);
                }
                return Some(conn.nodes[i].clone());
            }
            i += 1;
        }
        proof {
            lemma_first_none(conn@.nodes, at_address(search_host@, search_port));
        }
        None
    }

    /// Every node, in the order of insertion. Always `Ok`.
    pub fn get_all(conn: &RDatabase) -> (r: Result<Vec<RNode>, RDatabaseError>)
        ensures
            r is Ok,
            nodes_view(r.unwrap()@) == conn@.nodes,
    {
        let mut all: Vec<RNode> = Vec::new();
        let mut i: usize = 0;
        while i < conn.nodes.len()
            invariant
                i <= conn.nodes.len(),
                nodes_view(all@) == conn@.nodes.take(i as int),
            decreases conn.nodes.len() - i,
        {
            let ghost before = all@;
            let node = conn.nodes[i].clone();
            all.push(node);
            assert(nodes_view(all@) =~= nodes_view(before).push(node@));
            assert(conn@.nodes.take(i as int + 1) =~= conn@.nodes.take(i as int).push(conn@.nodes[i as int]));
            i += 1;
        }
        assert(conn@.nodes.take(conn.nodes.len() as int) =~= conn@.nodes);
        Ok(all)
    }

    /// The first node whose local flag is `flag`.
    pub fn get_by_local_flag(conn: &RDatabase, flag: bool) -> (r: Option<RNode>)
        ensures
            found(r) == first_of(conn@.nodes, with_local(flag)),
    {
        let mut i: usize = 0;
        while i < conn.nodes.len()
            invariant
                i <= conn.nodes.len(),
                forall|j: int| 0 <= j < i ==> !with_local(flag)(#[trigger] conn@.nodes[j]),
            decreases conn.nodes.len() - i,
        {
            if conn.nodes[i].local == flag {
                proof {
                    lemma_first_found(conn@.nodes, with_local(flag), i as int);
                }
                return Some(conn.nodes[i].clone());
            }
            i += 1;
        }
        proof {
            lemma_first_none(conn@.nodes, with_local(flag));
        }
        None
    }

    /// The node that stands for this instance, if the store has one.
    pub fn get_local(conn: &RDatabase) -> (r: Option<RNode>)
        ensures
            found(r) == first_of(conn@.nodes, with_local(true)),
    {
        RNode::get_by_local_flag(conn, true)
    }

    /// The local node; where the store has none, one is created at the
    /// given address under a fresh random uid. `None`, with the store
    /// unchanged, only where that uid is already taken, which cannot be in
    /// a store without nodes.
    pub fn get_local_or_create(conn: &mut RDatabase, data_host: String, data_port: i32) -> (r: Option<RNode>)
        ensures
            match first_of(old(conn)@.nodes, with_local(true)) {
                Some(local) => found(r) == Some(local) && final(conn)@ == old(conn)@,
                None => match r {
                    Some(node) => {
                        &&& node@.host == data_host@
                        &&& node@.port == data_port
                        &&& node@.local
                        &&& !any_of(old(conn)@.nodes, with_uid(node@.uid))
                        &&& final(conn)@ == (RDatabaseView {
                            nodes: old(conn)@.nodes.push(node@),
                            ..old(conn)@
                        })
                    },
                    None => final(conn)@ == old(conn)@,
                },
            },
            old(conn)@.nodes.len() == 0 ==> r is Some,
            r is Some ==> local_count(final(conn)@.nodes) >= 1,
            local_count(old(conn)@.nodes) <= 1 ==> local_count(final(conn)@.nodes) <= 1,
            old(conn)@.wf() ==> final(conn)@.wf(),
    {
        let node = RNode::get_by_local_flag(conn, true);
        proof {
            let nodes = conn@.nodes;
            if first_of(nodes, with_local(true)) is None {
                crate::models::utils::scan::lemma_first_of(nodes, with_local(true));
                lemma_first_none(nodes, with_local(true));
                assert forall|n: RNodeView| n.local implies #[trigger] nodes.push(n).filter(with_local(true))
                    == seq![n] by {
                    nodes.lemma_filter_push(n, with_local(true));
                    assert(nodes.filter(with_local(true)).push(n) =~= seq![n]);
                }
            }
        }
        if node.is_some() {
            node
        } else {
            match RNode::create_local(conn, data_host, data_port) {
                Ok(created) => Some(created),
                Err(_) => None,
            }
        }
    }

    /// Every node that is not local, in the order of insertion. Always
    /// `Some`.
    pub fn get_others(conn: &RDatabase) -> (r: Option<Vec<RNode>>)
        ensures
            r is Some,
            nodes_view(r.unwrap()@) == conn@.nodes.filter(with_local(false)),
    {
        let mut others: Vec<RNode> = Vec::new();
        let mut i: usize = 0;
        proof {
            reveal(Seq::filter);
            assert(conn@.nodes.take(0) =~= Seq::<RNodeView>::empty());
            assert(nodes_view(others@) =~= Seq::<RNodeView>::empty());
        }
        while i < conn.nodes.len()
            invariant
                i <= conn.nodes.len(),
                nodes_view(others@) == conn@.nodes.take(i as int).filter(with_local(false)),
            decreases conn.nodes.len() - i,
        {
            let ghost before = others@;
            proof {
                let all = conn@.nodes;
                assert(all.take(i as int + 1) =~= all.take(i as int).push(all[i as int]));
                all.take(i as int).lemma_filter_push(all[i as int], with_local(false));
            }
            if !conn.nodes[i].local {
                let node = conn.nodes[i].clone();
                others.push(node);
                assert(nodes_view(others@) =~= nodes_view(before).push(node@));
            }
            i += 1;
        }
        assert(conn@.nodes.take(conn.nodes.len() as int) =~= conn@.nodes);
        Some(others)
    }

    /// The first node of the given uid. Fails with the store's `NotFound`
    /// exactly when there is none.
    pub fn get_by_uid(conn: &RDatabase, search_uid: String) -> (r: Result<RNode, RDatabaseError>)
        ensures
            match r {
                Ok(node) => Some(node@) == first_of(conn@.nodes, with_uid(search_uid@)),
                Err(e) => {
                    &&& e == RDatabaseError::DieselResult(RStoreFailure::NotFound)
                    &&& first_of(conn@.nodes, with_uid(search_uid@)) is None
                },
            },
    {
        let mut i: usize = 0;
        while i < conn.nodes.len()
            invariant
                i <= conn.nodes.len(),
                forall|j: int| 0 <= j < i ==> !with_uid(search_uid@)(#[trigger] conn@.nodes[j]),
            decreases conn.nodes.len() - i,
        {
            if conn.nodes[i].uid == search_uid {
                proof {
                    lemma_first_found(conn@.nodes, with_uid(search_uid@), i as int);
                }
                return Ok(conn.nodes[i].clone());
            }
            i += 1;
        }
        proof {
            lemma_first_none(conn@.nodes, with_uid(search_uid@));
        }
        Err(RDatabaseError::DieselResult(RStoreFailure::NotFound))
    }

    /// Inserts this node and returns it as stored. Fails with the store's
    /// `UniqueViolation`, changing nothing, exactly when a node of the same
    /// uid is there already.
    pub fn save(self, conn: &mut RDatabase) -> (r: Result<RNode, RDatabaseError>)
        ensures
            match r {
                Ok(node) => {
                    &&& node@ == self@
                    &&& !any_of(old(conn)@.nodes, with_uid(self@.uid))
                    &&& final(conn)@ == (RDatabaseView {
                        nodes: old(conn)@.nodes.push(self@),
                        ..old(conn)@
                    })
                },
                Err(e) => {
                    &&& e == RDatabaseError::DieselResult(RStoreFailure::UniqueViolation)
                    &&& any_of(old(conn)@.nodes, with_uid(self@.uid))
                    &&& final(conn)@ == old(conn)@
                },
            },
            old(conn)@.wf() ==> final(conn)@.wf(),
    {
        let mut i: usize = 0;
        while i < conn.nodes.len()
            invariant
                i <= conn.nodes.len(),
                forall|j: int| 0 <= j < i ==> !with_uid(self@.uid)(#[trigger] conn@.nodes[j]),
            decreases conn.nodes.len() - i,
        {
            if conn.nodes[i].uid == self.uid {
                assert(with_uid(self@.uid)(conn@.nodes[i as int]));
                return Err(RDatabaseError::DieselResult(RStoreFailure::UniqueViolation));
            }
            i += 1;
        }
        let stored = self.clone();
        let ghost before = conn.nodes@;
        conn.nodes.push(self);
        proof {
            assert(nodes_view(conn.nodes@) =~= nodes_view(before).push(stored@));
            if old(conn)@.wf() {
                assert forall|a: int, b: int| 0 <= a < b < conn@.nodes.len() implies (
                #[trigger] conn@.nodes[a]).uid != (#[trigger] conn@.nodes[b]).uid by {
                    if b == before.len() {
                        assert(!with_uid(stored@.uid)(old(conn)@.nodes[a]));
                    } else {
                        assert(conn@.nodes[a] == old(conn)@.nodes[a]);
                        assert(conn@.nodes[b] == old(conn)@.nodes[b]);
                    }
                }
            }
        }
        Ok(stored)
    }

    /// Creates a node at the given address under a fresh random uid. Fails
    /// with the store's `UniqueViolation`, changing nothing, only where that
    /// uid is already taken; a store without nodes has no uid to clash
    /// with, so there it succeeds.
    pub fn create(conn: &mut RDatabase, data_host: String, data_port: i32, data_local: bool) -> (r: Result<
        RNode,
        RDatabaseError,
    >)
        ensures
            match r {
                Ok(node) => {
                    &&& node@.host == data_host@
                    &&& node@.port == data_port
                    &&& node@.local == data_local
                    &&& !any_of(old(conn)@.nodes, with_uid(node@.uid))
                    &&& final(conn)@ == (RDatabaseView {
                        nodes: old(conn)@.nodes.push(node@),
                        ..old(conn)@
                    })
                },
                Err(e) => {
                    &&& e == RDatabaseError::DieselResult(RStoreFailure::UniqueViolation)
                    &&& final(conn)@ == old(conn)@
                },
            },
            old(conn)@.nodes.len() == 0 ==> r is Ok,
            old(conn)@.wf() ==> final(conn)@.wf(),
    {
        let node = RNode { local: data_local, uid: new_uid(), host: data_host, port: data_port };
        node.save(conn)
    }

    /// Creates the node that stands for this instance.
    pub fn create_local(conn: &mut RDatabase, data_host: String, data_port: i32) -> (r: Result<
        RNode,
        RDatabaseError,
    >)
        ensures
            match r {
                Ok(node) => {
                    &&& node@.host == data_host@
                    &&& node@.port == data_port
                    &&& node@.local
                    &&& !any_of(old(conn)@.nodes, with_uid(node@.uid))
                    &&& final(conn)@ == (RDatabaseView {
                        nodes: old(conn)@.nodes.push(node@),
                        ..old(conn)@
                    })
                },
                Err(e) => {
                    &&& e == RDatabaseError::DieselResult(RStoreFailure::UniqueViolation)
                    &&& final(conn)@ == old(conn)@
                },
            },
            old(conn)@.nodes.len() == 0 ==> r is Ok,
            old(conn)@.wf() ==> final(conn)@.wf(),
    {
        RNode::create(conn, data_host, data_port, true)
    }

    /// Creates a node that stands for a peer.
    pub fn create_other(conn: &mut RDatabase, data_host: String, data_port: i32) -> (r: Result<
        RNode,
        RDatabaseError,
    >)
        ensures
            match r {
                Ok(node) => {
                    &&& node@.host == data_host@
                    &&& node@.port == data_port
                    &&& !node@.local
                    &&& !any_of(old(conn)@.nodes, with_uid(node@.uid))
                    &&& final(conn)@ == (RDatabaseView {
                        nodes: old(conn)@.nodes.push(node@),
                        ..old(conn)@
                    })
                },
                Err(e) => {
                    &&& e == RDatabaseError::DieselResult(RStoreFailure::UniqueViolation)
                    &&& final(conn)@ == old(conn)@
                },
            },
            old(conn)@.nodes.len() == 0 ==> r is Ok,
            old(conn)@.wf() ==> final(conn)@.wf(),
    {
        RNode::create(conn, data_host, data_port, false)
    }

    /// What it takes to ask a configured node for its uid: the URL to
    /// connect to, and the frame to send, which carries a `UidRequest`
    /// without payload.
    pub fn request_uid(server: RConfigNode) -> (r: (String, RFrame))
        ensures
            r.0@ == url_of(server@.ssl, server@.host, server@.port as int),
            r.1@ == RFrameView::Binary(envelope(RMessageView { kind: RMessageType::UidRequest, data: None })),
    {
        let url = connection_url_of(server.ssl, server.host.as_str(), digits_text(server.port as u64));
        let request = RMessage { _type: RMessageType::UidRequest, data: None };
        let frame = match request.to_ws_message() {
            Ok(frame) => frame,
            Err(_) => RFrame::Binary(Vec::new()),
        };
        (url, frame)
    }

    /// The URL at which this node is reached: `wss` with `ssl`, else `ws`.
    pub fn connection_url(self, ssl: bool) -> (r: String)
        ensures
            r@ == url_of(ssl, self@.host, self@.port as int),
    {
        connection_url_of(ssl, self.host.as_str(), decimal_text(self.port as i64))
    }
}

} // verus!
