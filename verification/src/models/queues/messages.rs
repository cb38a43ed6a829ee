use vstd::prelude::*;
use crate::models::utils::error::{RDatabaseError, RStoreFailure};
use crate::protocol::message::{RMessage, RMessageType, RMessageView};
use crate::schema::{RDatabase, RDatabaseView};

verus! {

/// A queued message, as plain values. `peer` is the node that an outgoing
/// message goes to, or that an incoming message came from.
pub struct RQueuedView {
    pub id: i32,
    pub uid: Seq<char>,
    pub message_type: Seq<char>,
    pub data: Option<Seq<u8>>,
    pub peer: Seq<char>,
    pub created_at: i32,
}

/// A message that is about to be queued: a row without its id.
pub struct RNewQueuedView {
    pub uid: Seq<char>,
    pub message_type: Seq<char>,
    pub data: Option<Seq<u8>>,
    pub peer: Seq<char>,
    pub created_at: i32,
}

impl RQueuedView {
    /// The message that this row was made of: the row without its id.
    pub open spec fn message(self) -> RNewQueuedView {
        RNewQueuedView {
            uid: self.uid,
            message_type: self.message_type,
            data: self.data,
            peer: self.peer,
            created_at: self.created_at,
        }
    }
}

impl RNewQueuedView {
    /// The row that the store makes of this message under the given id.
    pub open spec fn row(self, id: i32) -> RQueuedView {
        RQueuedView {
            id,
            uid: self.uid,
            message_type: self.message_type,
            data: self.data,
            peer: self.peer,
            created_at: self.created_at,
        }
    }
}

/// Puts `x`, the row inserted last, into rows that are already in retrieval
/// order: before the first row that is not newer than it.
pub open spec fn placed(sorted: Seq<RQueuedView>, x: RQueuedView) -> Seq<RQueuedView>
    decreases sorted.len(),
{
    if sorted.len() == 0 || sorted[0].created_at <= x.created_at {
        seq![x] + sorted
    } else {
        seq![sorted[0]] + placed(sorted.drop_first(), x)
    }
}

/// The rows in retrieval order: latest `created_at` first, and among rows of
/// one `created_at` the one inserted last first.
pub open spec fn retrieval_order(rows: Seq<RQueuedView>) -> Seq<RQueuedView>
    decreases rows.len(),
{
    if rows.len() == 0 {
        Seq::empty()
    } else {
        placed(retrieval_order(rows.drop_last()), rows.last())
    }
}

/// The first `n` rows in retrieval order, or all of them where there are
/// fewer.
pub open spec fn newest(rows: Seq<RQueuedView>, n: nat) -> Seq<RQueuedView> {
    let all = retrieval_order(rows);
    if n <= all.len() {
        all.take(n as int)
    } else {
        all
    }
}

/// The test that a row's id is not `id`.
pub open spec fn other_id(id: i32) -> spec_fn(RQueuedView) -> bool {
    |r: RQueuedView| r.id != id
}

/// One direction's queue: its rows in the order of insertion, and the id
/// that the next row will get.
pub struct RQueueView {
    pub rows: Seq<RQueuedView>,
    pub next_id: i32,
}

impl RQueueView {
    /// Ids are positive, were handed out in the order of insertion, and the
    /// next one is larger than all of them.
    pub open spec fn wf(self) -> bool {
        &&& 1 <= self.next_id
        &&& forall|i: int| 0 <= i < self.rows.len() ==> 1 <= (#[trigger] self.rows[i]).id < self.next_id
        &&& forall|i: int, j: int|
            0 <= i < j < self.rows.len() ==> (#[trigger] self.rows[i]).id < (#[trigger] self.rows[j]).id
    }

    /// Whether the queue can take another row.
    pub open spec fn has_room(self) -> bool {
        self.next_id < i32::MAX
    }

    /// The queue after a message was appended.
    pub open spec fn pushed(self, message: RNewQueuedView) -> RQueueView {
        RQueueView {
            rows: self.rows.push(message.row(self.next_id)),
            next_id: (self.next_id + 1) as i32,
        }
    }

    /// The row that is retrieved first.
    pub open spec fn most_recent(self) -> Option<RQueuedView> {
        if self.rows.len() == 0 {
            None
        } else {
            Some(retrieval_order(self.rows)[0])
        }
    }

    /// The first `n` rows in retrieval order, or all of them where the queue
    /// holds fewer.
    pub open spec fn most_recent_n(self, n: nat) -> Seq<RQueuedView> {
        newest(self.rows, n)
    }

    /// Whether a row has the given id.
    pub open spec fn has_id(self, id: i32) -> bool {
        exists|i: int| 0 <= i < self.rows.len() && (#[trigger] self.rows[i]).id == id
    }

    /// The queue without the rows of the given id.
    pub open spec fn deleted(self, id: i32) -> RQueueView {
        RQueueView { rows: self.rows.filter(other_id(id)), next_id: self.next_id }
    }

    /// The queue after its first row in retrieval order was taken out.
    pub open spec fn popped(self) -> RQueueView {
        match self.most_recent() {
            Some(row) => self.deleted(row.id),
            None => self,
        }
    }
}

/// `placed` keeps the rows it is given and adds the new one.
pub proof fn lemma_placed_len(sorted: Seq<RQueuedView>, x: RQueuedView)
    ensures
        placed(sorted, x).len() == sorted.len() + 1,
    decreases sorted.len(),
{
    if !(sorted.len() == 0 || sorted[0].created_at <= x.created_at) {
        lemma_placed_len(sorted.drop_first(), x);
    }
}

/// Retrieval order holds as many rows as the queue.
pub proof fn lemma_retrieval_len(rows: Seq<RQueuedView>)
    ensures
        retrieval_order(rows).len() == rows.len(),
    decreases rows.len(),
{
    if rows.len() > 0 {
        lemma_retrieval_len(rows.drop_last());
        lemma_placed_len(retrieval_order(rows.drop_last()), rows.last());
    }
}

/// Where `placed` puts a row: behind the `k` rows that are newer than it.
pub proof fn lemma_placed_at(sorted: Seq<RQueuedView>, x: RQueuedView, k: int)
    requires
        0 <= k <= sorted.len(),
        forall|i: int| 0 <= i < k ==> (#[trigger] sorted[i]).created_at > x.created_at,
        k < sorted.len() ==> sorted[k].created_at <= x.created_at,
    ensures
        placed(sorted, x) == sorted.insert(k, x),
    decreases sorted.len(),
{
    if k == 0 {
        assert(seq![x] + sorted =~= sorted.insert(0, x));
    } else {
        let rest = sorted.drop_first();
        assert forall|i: int| 0 <= i < k - 1 implies (#[trigger] rest[i]).created_at > x.created_at by {
            assert(rest[i] == sorted[i + 1]);
        }
        lemma_placed_at(rest, x, k - 1);
        assert(seq![sorted[0]] + rest.insert(k - 1, x) =~= sorted.insert(k, x));
    }
}

/// Every row in retrieval order is a row of the queue, and every row of the
/// queue is in retrieval order.
pub proof fn lemma_retrieval_same_rows(rows: Seq<RQueuedView>, r: RQueuedView)
    ensures
        retrieval_order(rows).contains(r) <==> rows.contains(r),
    decreases rows.len(),
{
    if rows.len() > 0 {
        let before = rows.drop_last();
        let sorted = retrieval_order(before);
        lemma_retrieval_same_rows(before, r);
        lemma_placed_same_rows(sorted, rows.last(), r);
        if rows.contains(r) {
            let i = choose|i: int| 0 <= i < rows.len() && rows[i] == r;
            if i < rows.len() - 1 {
                assert(before[i] == r);
            }
        }
        if before.contains(r) {
            let i = choose|i: int| 0 <= i < before.len() && before[i] == r;
            assert(rows[i] == r);
        }
        assert(rows[rows.len() - 1] == rows.last());
    }
}

/// `placed` holds the rows it was given and the new one, and no other.
pub proof fn lemma_placed_same_rows(sorted: Seq<RQueuedView>, x: RQueuedView, r: RQueuedView)
    ensures
        placed(sorted, x).contains(r) <==> (r == x || sorted.contains(r)),
    decreases sorted.len(),
{
    let out = placed(sorted, x);
    if sorted.len() == 0 || sorted[0].created_at <= x.created_at {
        assert(out =~= seq![x] + sorted);
        assert(out[0] == x);
        if sorted.contains(r) {
            let i = choose|i: int| 0 <= i < sorted.len() && sorted[i] == r;
            assert(out[i + 1] == r);
        }
        if out.contains(r) {
            let i = choose|i: int| 0 <= i < out.len() && out[i] == r;
            if i > 0 {
                assert(sorted[i - 1] == r);
            }
        }
    } else {
        let rest = sorted.drop_first();
        let tail = placed(rest, x);
        lemma_placed_same_rows(rest, x, r);
        assert(out =~= seq![sorted[0]] + tail);
        if out.contains(r) {
            let i = choose|i: int| 0 <= i < out.len() && out[i] == r;
            if i > 0 {
                assert(tail[i - 1] == r);
                if r != x {
                    let j = choose|j: int| 0 <= j < rest.len() && rest[j] == r;
                    assert(sorted[j + 1] == r);
                }
            } else {
                assert(sorted[0] == r);
            }
        }
        if r == x || sorted.contains(r) {
            if r != x && sorted[0] == r {
                assert(out[0] == r);
            } else {
                if r != x {
                    let j = choose|j: int| 0 <= j < sorted.len() && sorted[j] == r;
                    assert(rest[j - 1] == r);
                }
                assert(tail.contains(r));
                let i = choose|i: int| 0 <= i < tail.len() && tail[i] == r;
                assert(out[i + 1] == r);
            }
        }
    }
}

/// Whether rows stand latest `created_at` first.
pub open spec fn newest_first(rows: Seq<RQueuedView>) -> bool {
    forall|i: int, j: int|
        0 <= i < j < rows.len() ==> (#[trigger] rows[i]).created_at >= (#[trigger] rows[j]).created_at
}

/// `placed` keeps rows latest first.
pub proof fn lemma_placed_newest_first(sorted: Seq<RQueuedView>, x: RQueuedView)
    requires
        newest_first(sorted),
    ensures
        newest_first(placed(sorted, x)),
    decreases sorted.len(),
{
    let out = placed(sorted, x);
    if sorted.len() == 0 || sorted[0].created_at <= x.created_at {
        assert(out =~= seq![x] + sorted);
        assert forall|i: int, j: int| 0 <= i < j < out.len() implies (#[trigger] out[i]).created_at >= (
        #[trigger] out[j]).created_at by {
            if i == 0 {
                assert(out[j] == sorted[j - 1]);
                if j - 1 > 0 {
                    assert(sorted[0].created_at >= sorted[j - 1].created_at);
                }
            } else {
                assert(out[i] == sorted[i - 1]);
                assert(out[j] == sorted[j - 1]);
            }
        }
    } else {
        let rest = sorted.drop_first();
        let tail = placed(rest, x);
        assert forall|i: int, j: int| 0 <= i < j < rest.len() implies (#[trigger] rest[i]).created_at >= (
        #[trigger] rest[j]).created_at by {
            assert(rest[i] == sorted[i + 1]);
            assert(rest[j] == sorted[j + 1]);
        }
        lemma_placed_newest_first(rest, x);
        assert(out =~= seq![sorted[0]] + tail);
        assert forall|i: int, j: int| 0 <= i < j < out.len() implies (#[trigger] out[i]).created_at >= (
        #[trigger] out[j]).created_at by {
            if i == 0 {
                let r = out[j];
                assert(tail[j - 1] == r);
                lemma_placed_same_rows(rest, x, r);
                if r != x {
                    let k = choose|k: int| 0 <= k < rest.len() && rest[k] == r;
                    assert(sorted[k + 1] == r);
                    assert(sorted[0].created_at >= sorted[k + 1].created_at);
                }
            } else {
                assert(out[i] == tail[i - 1]);
                assert(out[j] == tail[j - 1]);
            }
        }
    }
}

/// Retrieval order stands latest first.
pub proof fn lemma_retrieval_newest_first(rows: Seq<RQueuedView>)
    ensures
        newest_first(retrieval_order(rows)),
    decreases rows.len(),
{
    if rows.len() > 0 {
        lemma_retrieval_newest_first(rows.drop_last());
        lemma_placed_newest_first(retrieval_order(rows.drop_last()), rows.last());
    }
}

/// Deleting an id that no row has changes nothing.
pub proof fn lemma_deleted_absent(queue: RQueueView, id: i32)
    requires
        !queue.has_id(id),
    ensures
        queue.deleted(id) == queue,
    decreases queue.rows.len(),
{
    reveal(Seq::filter);
    if queue.rows.len() > 0 {
        let before = RQueueView { rows: queue.rows.drop_last(), next_id: queue.next_id };
        assert(queue.rows[queue.rows.len() - 1].id != id);
        assert forall|i: int| 0 <= i < before.rows.len() implies (#[trigger] before.rows[i]).id != id by {
            assert(queue.rows[i].id != id);
        }
        lemma_deleted_absent(before, id);
        assert(queue.rows.drop_last().push(queue.rows.last()) =~= queue.rows);
    }
    assert(queue.deleted(id).rows =~= queue.rows);
}

/// Deleting keeps a queue well formed, and afterwards no row has the id.
pub proof fn lemma_deleted_wf(queue: RQueueView, id: i32)
    ensures
        queue.wf() ==> queue.deleted(id).wf(),
        !queue.deleted(id).has_id(id),
        forall|i: int|
            0 <= i < queue.deleted(id).rows.len() ==> queue.rows.contains(#[trigger] queue.deleted(id).rows[i]),
    decreases queue.rows.len(),
{
    reveal(Seq::filter);
    let after = queue.deleted(id).rows;
    if queue.rows.len() > 0 {
        let before = RQueueView { rows: queue.rows.drop_last(), next_id: queue.next_id };
        let kept = before.deleted(id).rows;
        let last = queue.rows.last();
        lemma_deleted_wf(before, id);
        assert(after == if other_id(id)(last) {
            kept.push(last)
        } else {
            kept
        });
        assert forall|i: int| 0 <= i < after.len() implies queue.rows.contains(#[trigger] after[i]) by {
            let r = after[i];
            if i < kept.len() {
                assert(kept[i] == r);
                assert(before.rows.contains(kept[i]));
                let j = choose|j: int| 0 <= j < before.rows.len() && before.rows[j] == r;
                assert(queue.rows[j] == r);
            } else {
                assert(queue.rows[queue.rows.len() - 1] == r);
            }
        }
        assert forall|i: int| 0 <= i < after.len() implies (#[trigger] after[i]).id != id by {
            if i < kept.len() {
                assert(kept[i].id != id);
            }
        }
        if queue.wf() {
            assert(before.wf()) by {
                assert forall|i: int| 0 <= i < before.rows.len() implies 1 <= (#[trigger] before.rows[i]).id
                    < before.next_id by {
                    assert(before.rows[i] == queue.rows[i]);
                }
                assert forall|i: int, j: int| 0 <= i < j < before.rows.len() implies (
                #[trigger] before.rows[i]).id < (#[trigger] before.rows[j]).id by {
                    assert(before.rows[i] == queue.rows[i]);
                    assert(before.rows[j] == queue.rows[j]);
                }
            }
            assert forall|i: int| 0 <= i < after.len() implies 1 <= (#[trigger] after[i]).id
                < queue.next_id by {
                assert(queue.rows.contains(after[i]));
                let j = choose|j: int| 0 <= j < queue.rows.len() && queue.rows[j] == after[i];
                assert(1 <= queue.rows[j].id < queue.next_id);
            }
            assert forall|i: int, j: int| 0 <= i < j < after.len() implies (#[trigger] after[i]).id < (
            #[trigger] after[j]).id by {
                if j < kept.len() {
                    assert(kept[i].id < kept[j].id);
                } else {
                    assert(kept[i] == after[i]);
                    assert(before.rows.contains(kept[i]));
                    let k = choose|k: int| 0 <= k < before.rows.len() && before.rows[k] == after[i];
                    assert(queue.rows[k].id < queue.rows[queue.rows.len() - 1].id);
                }
            }
        }
    }
}

/// The row that is retrieved first is a row of the queue.
pub proof fn lemma_most_recent_is_row(queue: RQueueView)
    ensures
        queue.most_recent() matches Some(row) ==> queue.rows.contains(row) && queue.has_id(row.id),
{
    if queue.rows.len() > 0 {
        let row = retrieval_order(queue.rows)[0];
        lemma_retrieval_len(queue.rows);
        lemma_retrieval_same_rows(queue.rows, row);
        assert(retrieval_order(queue.rows).contains(row));
        let i = choose|i: int| 0 <= i < queue.rows.len() && queue.rows[i] == row;
        assert(queue.rows[i].id == row.id);
    }
}

/// Whether no row of the queue was created later than `time`.
pub open spec fn none_later(rows: Seq<RQueuedView>, time: i32) -> bool {
    forall|i: int| 0 <= i < rows.len() ==> (#[trigger] rows[i]).created_at <= time
}

/// A message that is at least as late as every row of the queue is
/// retrieved first once it is pushed, and the rows that were there follow
/// it in their order.
pub proof fn lemma_pushed_is_most_recent(queue: RQueueView, message: RNewQueuedView)
    requires
        none_later(queue.rows, message.created_at),
    ensures
        queue.pushed(message).most_recent() == Some(message.row(queue.next_id)),
        retrieval_order(queue.pushed(message).rows) == seq![message.row(queue.next_id)] + retrieval_order(
            queue.rows,
        ),
{
    let row = message.row(queue.next_id);
    let after = queue.pushed(message).rows;
    let sorted = retrieval_order(queue.rows);
    assert(after.drop_last() =~= queue.rows);
    assert(after.last() == row);
    lemma_retrieval_len(queue.rows);
    if sorted.len() > 0 {
        lemma_retrieval_same_rows(queue.rows, sorted[0]);
        assert(sorted.contains(sorted[0]));
        let i = choose|i: int| 0 <= i < queue.rows.len() && queue.rows[i] == sorted[0];
        assert(queue.rows[i].created_at <= message.created_at);
    }
    assert(retrieval_order(after) == placed(sorted, row));
}

/// Queue ordering: of two messages pushed one after the other, the second
/// not earlier than the first, the second is retrieved first unless the
/// queue held a row that is later still, and the first is retrieved second
/// unless the queue held a row that is later than it.
pub proof fn lemma_push_push_order(queue: RQueueView, first: RNewQueuedView, second: RNewQueuedView)
    requires
        first.created_at <= second.created_at,
    ensures
        none_later(queue.rows, second.created_at) ==> queue.pushed(first).pushed(second).most_recent() == Some(
            second.row(queue.pushed(first).next_id),
        ),
        none_later(queue.rows, first.created_at) ==> queue.pushed(first).pushed(second).most_recent_n(2)
            == seq![second.row(queue.pushed(first).next_id), first.row(queue.next_id)],
{
    let one = queue.pushed(first);
    let two = one.pushed(second);
    if none_later(queue.rows, second.created_at) {
        assert forall|i: int| 0 <= i < one.rows.len() implies (#[trigger] one.rows[i]).created_at
            <= second.created_at by {
            if i < queue.rows.len() {
                assert(one.rows[i] == queue.rows[i]);
            }
        }
        lemma_pushed_is_most_recent(one, second);
    }
    if none_later(queue.rows, first.created_at) {
        lemma_pushed_is_most_recent(queue, first);
        lemma_retrieval_len(two.rows);
        assert(two.most_recent_n(2) =~= seq![second.row(one.next_id), first.row(queue.next_id)]);
    }
}

/// Push, then pop: the pop of an empty queue that was pushed to returns the
/// pushed message and leaves the queue empty. In a well-formed queue that
/// holds no later row, the pop returns the pushed message and leaves the
/// rows that were there before the push.
pub proof fn lemma_push_pop(queue: RQueueView, message: RNewQueuedView)
    ensures
        queue.rows.len() == 0 ==> queue.pushed(message).most_recent() == Some(message.row(queue.next_id))
            && queue.pushed(message).popped().rows.len() == 0,
        queue.wf() && none_later(queue.rows, message.created_at) ==> queue.pushed(message).most_recent()
            == Some(message.row(queue.next_id)) && queue.pushed(message).popped().rows == queue.rows,
{
    let after = queue.pushed(message);
    if queue.rows.len() == 0 || (queue.wf() && none_later(queue.rows, message.created_at)) {
        lemma_pushed_is_most_recent(queue, message);
        assert(!queue.has_id(queue.next_id));
        lemma_deleted_absent(queue, queue.next_id);
        after.rows.drop_last().lemma_filter_push(after.rows.last(), other_id(queue.next_id));
        assert(after.rows.drop_last() =~= queue.rows);
    }
}

/// An empty queue has no row to retrieve, and popping it changes nothing.
pub proof fn lemma_pop_empty(queue: RQueueView)
    requires
        queue.rows.len() == 0,
    ensures
        queue.most_recent() is None,
        queue.popped() == queue,
{
}

/// What was pushed comes back as the same wire message: the stored type tag
/// names the kind that was pushed.
pub proof fn lemma_pushed_message(message: RMessageView, uid: Seq<char>, peer: Seq<char>, created_at: i32, id: i32)
    ensures
        message_of(
            (RNewQueuedView { uid, message_type: message.kind.tag(), data: message.data, peer, created_at }).row(
                id,
            ),
        ) == Some(message),
{
    RMessageType::lemma_parse_tag(message.kind);
}

/// A row type of one of the two queues.
pub trait RQueued: View<V = RQueuedView> + Sized {
    /// The row's id.
    fn row_id(&self) -> (r: i32)
        ensures
            r == self@.id,
    ;

    /// When the row was queued.
    fn row_created_at(&self) -> (r: i32)
        ensures
            r == self@.created_at,
    ;

    /// A copy of the row.
    fn duplicate(&self) -> (r: Self)
        ensures
            r@ == self@,
    ;
}

/// The rows of a table as plain values.
pub open spec fn rows_view<T: RQueued>(rows: Seq<T>) -> Seq<RQueuedView> {
    rows.map_values(|r: T| r@)
}

/// The message that a stored type tag and payload stand for, if the tag
/// names a kind.
pub open spec fn message_of(row: RQueuedView) -> Option<RMessageView> {
    match RMessageType::parse(row.message_type) {
        Some(kind) => Some(RMessageView { kind, data: row.data }),
        None => None,
    }
}

/// One direction's queue of messages in the store. `T` is the row type.
pub trait RMessageQueue<T: RQueued> {
    /// This direction's queue in the store.
    spec fn queue(db: RDatabaseView) -> RQueueView;

    /// The store with this direction's queue replaced.
    spec fn with_queue(db: RDatabaseView, queue: RQueueView) -> RDatabaseView;

    /// Appends a message addressed to (or received from) the node
    /// `node_uid`: its kind as text, its payload as it is, a fresh random
    /// uid and the current time. Fails with the store's `Full`, changing
    /// nothing, exactly when the queue has handed out its last id.
    fn push(conn: &mut RDatabase, node_uid: String, message: RMessage) -> (r: Result<T, RDatabaseError>)
        ensures
            match r {
                Ok(row) => {
                    &&& Self::queue(old(conn)@).has_room()
                    &&& row@.id == Self::queue(old(conn)@).next_id
                    &&& row@.message_type == message@.kind.tag()
                    &&& row@.data == message@.data
                    &&& row@.peer == node_uid@
                    &&& final(conn)@ == Self::with_queue(
                        old(conn)@,
                        Self::queue(old(conn)@).pushed(row@.message()),
                    )
                },
                Err(e) => {
                    &&& e == RDatabaseError::DieselResult(RStoreFailure::Full)
                    &&& !Self::queue(old(conn)@).has_room()
                    &&& final(conn)@ == old(conn)@
                },
            },
            old(conn)@.wf() ==> final(conn)@.wf(),
    ;

    /// The row that is retrieved first: the one with the latest
    /// `created_at`, and among several of those the one inserted last.
    /// `None` exactly when the queue is empty.
    fn last(conn: &RDatabase) -> (r: Option<T>)
        ensures
            match r {
                Some(row) => Self::queue(conn@).most_recent() == Some(row@),
                None => Self::queue(conn@).most_recent() is None,
            },
    ;

    /// The first `n` rows in retrieval order, or all of them where the
    /// queue holds fewer. Always `Some`.
    fn last_n(conn: &RDatabase, n: usize) -> (r: Option<Vec<T>>)
        ensures
            r is Some,
            rows_view(r.unwrap()@) == Self::queue(conn@).most_recent_n(n as nat),
    ;

    /// Removes the row of the given id. Fails with `EntryNotDeleted`,
    /// changing nothing, exactly when no row has that id.
    fn delete_by_id(conn: &mut RDatabase, id: i32) -> (r: Result<(), RDatabaseError>)
        ensures
            match r {
                Ok(_) => Self::queue(old(conn)@).has_id(id),
                Err(e) => e == RDatabaseError::EntryNotDeleted && !Self::queue(old(conn)@).has_id(id),
            },
            final(conn)@ == Self::with_queue(old(conn)@, Self::queue(old(conn)@).deleted(id)),
            r is Err ==> final(conn)@ == old(conn)@,
            old(conn)@.wf() ==> final(conn)@.wf(),
    ;

    /// Removes this row from the queue, by its id.
    fn delete(&self, conn: &mut RDatabase) -> (r: Result<(), RDatabaseError>)
        ensures
            match r {
                Ok(_) => Self::queue(old(conn)@).has_id(Self::id_of(self)),
                Err(e) => e == RDatabaseError::EntryNotDeleted && !Self::queue(old(conn)@).has_id(
                    Self::id_of(self),
                ),
            },
            final(conn)@ == Self::with_queue(old(conn)@, Self::queue(old(conn)@).deleted(Self::id_of(self))),
            r is Err ==> final(conn)@ == old(conn)@,
            old(conn)@.wf() ==> final(conn)@.wf(),
    ;

    /// The id of a row of this direction.
    spec fn id_of(&self) -> i32;

    /// Takes out the row that is retrieved first and returns it. Fails with
    /// `EntryNotExists`, changing nothing, exactly when the queue is empty.
    fn pop(conn: &mut RDatabase) -> (r: Result<T, RDatabaseError>)
        ensures
            match r {
                Ok(row) => Self::queue(old(conn)@).most_recent() == Some(row@),
                Err(e) => e == RDatabaseError::EntryNotExists && Self::queue(old(conn)@).most_recent() is None,
            },
            final(conn)@ == Self::with_queue(old(conn)@, Self::queue(old(conn)@).popped()),
            r is Err ==> final(conn)@ == old(conn)@,
            old(conn)@.wf() ==> final(conn)@.wf(),
    ;

    /// The wire message that this row stands for: `None` exactly when its
    /// type tag names no kind.
    fn to_message(&self) -> (r: Option<RMessage>)
        ensures
            match r {
                Some(message) => Some(message@) == message_of(Self::row_of(self)),
                None => message_of(Self::row_of(self)) is None,
            },
    ;

    /// A row of this direction as plain values.
    spec fn row_of(&self) -> RQueuedView;
}

/// The row of a table that is retrieved first.
pub fn head_of<T: RQueued>(rows: &Vec<T>) -> (r: Option<T>)
    ensures
        match r {
            Some(row) => rows.len() > 0 && row@ == retrieval_order(rows_view(rows@))[0],
            None => rows.len() == 0,
        },
{
    if rows.len() == 0 {
        return None;
    }
    let mut best: usize = 0;
    let mut i: usize = 1;
    proof {
        let first = rows_view(rows@).take(1);
        assert(first.drop_last() =~= Seq::<RQueuedView>::empty());
        assert(retrieval_order(first.drop_last()) =~= Seq::<RQueuedView>::empty());
        assert(retrieval_order(first) =~= seq![first.last()]);
    }
    while i < rows.len()
        invariant
            1 <= i <= rows.len(),
            best < i,
            rows@[best as int]@ == retrieval_order(rows_view(rows@).take(i as int))[0],
        decreases rows.len() - i,
    {
        proof {
            let all = rows_view(rows@);
            let now = all.take(i as int + 1);
            assert(now.drop_last() =~= all.take(i as int));
            assert(now.last() == rows@[i as int]@);
            lemma_retrieval_len(all.take(i as int));
        }
        if rows[i].row_created_at() >= rows[best].row_created_at() {
            best = i;
        }
        i += 1;
    }
    assert(rows_view(rows@).take(rows.len() as int) =~= rows_view(rows@));
    Some(rows[best].duplicate())
}

/// The first `n` rows of a table in retrieval order.
pub fn top_of<T: RQueued>(rows: &Vec<T>, n: usize) -> (r: Vec<T>)
    ensures
        rows_view(r@) == newest(rows_view(rows@), n as nat),
{
    let mut sorted: Vec<T> = Vec::new();
    let mut i: usize = 0;
    assert(rows_view(rows@).take(0) =~= Seq::<RQueuedView>::empty());
    assert(rows_view(sorted@) =~= Seq::<RQueuedView>::empty());
    while i < rows.len()
        invariant
            i <= rows.len(),
            rows_view(sorted@) == retrieval_order(rows_view(rows@).take(i as int)),
        decreases rows.len() - i,
    {
        let created = rows[i].row_created_at();
        let mut k: usize = 0;
        while k < sorted.len() && sorted[k].row_created_at() > created
            invariant
                k <= sorted.len(),
                forall|j: int| 0 <= j < k ==> (#[trigger] rows_view(sorted@)[j]).created_at > created,
            decreases sorted.len() - k,
        {
            k += 1;
        }
        let ghost before = sorted@;
        let row = rows[i].duplicate();
        proof {
            let all = rows_view(rows@);
            let now = all.take(i as int + 1);
            assert(now.drop_last() =~= all.take(i as int));
            assert(now.last() == row@);
            lemma_placed_at(rows_view(before), row@, k as int);
        }
        sorted.insert(k, row);
        assert(rows_view(sorted@) =~= rows_view(before).insert(k as int, row@));
        i += 1;
    }
    assert(rows_view(rows@).take(rows.len() as int) =~= rows_view(rows@));
    let ghost all = sorted@;
    sorted.truncate(n);
    proof {
        if n <= all.len() {
            assert(rows_view(sorted@) =~= rows_view(all).take(n as int));
        }
    }
    sorted
}

/// Takes the rows of the given id out of a table, and says whether there
/// was one.
pub fn remove_id<T: RQueued>(rows: &mut Vec<T>, id: i32) -> (removed: bool)
    ensures
        rows_view(final(rows)@) == rows_view(old(rows)@).filter(other_id(id)),
        removed == (exists|i: int| 0 <= i < old(rows).len() && (#[trigger] rows_view(old(rows)@)[i]).id == id),
{
    let kept = without_id(rows, id);
    let removed = kept.len() < rows.len();
    *rows = kept;
    removed
}

/// The rows of a table whose id is not `id`, in their order.
pub fn without_id<T: RQueued>(rows: &Vec<T>, id: i32) -> (r: Vec<T>)
    ensures
        rows_view(r@) == rows_view(rows@).filter(other_id(id)),
        (r.len() < rows.len()) == (exists|i: int| 0 <= i < rows.len() && (#[trigger] rows_view(rows@)[i]).id == id),
{
    let mut kept: Vec<T> = Vec::new();
    let mut i: usize = 0;
    let ghost keep = other_id(id);
    proof {
        reveal(Seq::filter);
        assert(rows_view(rows@).take(0) =~= Seq::<RQueuedView>::empty());
        assert(rows_view(kept@) =~= Seq::<RQueuedView>::empty());
    }
    while i < rows.len()
        invariant
            i <= rows.len(),
            keep == other_id(id),
            rows_view(kept@) == rows_view(rows@).take(i as int).filter(keep),
            kept.len() <= i,
            (kept.len() < i) == (exists|j: int| 0 <= j < i && (#[trigger] rows_view(rows@)[j]).id == id),
        decreases rows.len() - i,
    {
        let ghost before = kept@;
        proof {
            let all = rows_view(rows@);
            assert(all.take(i as int + 1) =~= all.take(i as int).push(all[i as int]));
            all.take(i as int).lemma_filter_push(all[i as int], keep);
        }
        if rows[i].row_id() != id {
            let row = rows[i].duplicate();
            kept.push(row);
            assert(rows_view(kept@) =~= rows_view(before).push(row@));
        } else {
            assert(rows_view(rows@)[i as int].id == id);
        }
        i += 1;
    }
    assert(rows_view(rows@).take(rows.len() as int) =~= rows_view(rows@));
    kept
}

} // verus!
