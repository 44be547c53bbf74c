//! Correlates responses with pending requests, whatever order they arrive in,
//! and enforces the in-flight limit, deadlines and cancellation.

use vstd::prelude::*;

use super::{Envelope, Message, Request, Response, PROTOCOL_MAJOR, PROTOCOL_MINOR};
use crate::types::{max_duration_nanos, Duration};

verus! {

#[derive(Clone, Copy, Debug, PartialEq, Eq, Structural)]
pub enum PendingKind {
    Request,
    Cancellation { target_request_id: u64 },
}

#[derive(Clone, Copy, Debug, PartialEq, Eq, Structural)]
struct PendingRequest {
    deadline: Duration,
    kind: PendingKind,
}

/// A pending request as the contracts see it: its id, its deadline in nanoseconds
/// and whether it is a request or the cancellation of one.
pub type PendingView = (u64, nat, PendingKind);

/// The request id that a pending entry answers for: its own, or the id of the
/// request that it cancels.
pub open spec fn answers_for(entry: PendingView) -> u64 {
    match entry.2 {
        PendingKind::Request => entry.0,
        PendingKind::Cancellation { target_request_id } => target_request_id,
    }
}

/// The pending entry with id `id`, if any.
pub open spec fn lookup(pending: Seq<PendingView>, id: u64) -> Option<PendingView>
    decreases pending.len(),
{
    if pending.len() == 0 {
        None
    } else if pending[0].0 == id {
        Some(pending[0])
    } else {
        lookup(pending.drop_first(), id)
    }
}

/// `pending` without the entry with id `id`.
pub open spec fn without(pending: Seq<PendingView>, id: u64) -> Seq<PendingView> {
    pending.filter(other_than(id))
}

/// Holds of the entries whose id is not `id`.
pub open spec fn other_than(id: u64) -> spec_fn(PendingView) -> bool {
    |entry: PendingView| entry.0 != id
}

/// Holds of the entries whose deadline is later than `now`.
pub open spec fn later_than(now: nat) -> spec_fn(PendingView) -> bool {
    |entry: PendingView| now < entry.1
}

/// The entries whose deadline is later than `now`.
pub open spec fn live(pending: Seq<PendingView>, now: nat) -> Seq<PendingView> {
    pending.filter(later_than(now))
}

/// For each entry whose deadline is not later than `now`, in order, the request id
/// that it answers for.
pub open spec fn expired_ids(pending: Seq<PendingView>, now: nat) -> Seq<u64>
    decreases pending.len(),
{
    if pending.len() == 0 {
        Seq::empty()
    } else {
        let rest = expired_ids(pending.drop_first(), now);
        if now >= pending[0].1 {
            seq![answers_for(pending[0])] + rest
        } else {
            rest
        }
    }
}

/// The ids of `pending` increase strictly from first to last.
pub open spec fn increasing(pending: Seq<PendingView>) -> bool {
    forall|i: int, j: int| 0 <= i < j < pending.len() ==> pending[i].0 < pending[j].0
}

/// The request id that follows `id`, if the id space is not exhausted.
pub open spec fn after(id: u64) -> Option<u64> {
    if id == u64::MAX {
        None
    } else {
        Some((id + 1) as u64)
    }
}

/// The lowest id that may still be handed out, given the next id to allocate:
/// one past the largest `u64` once the id space is spent.
pub open spec fn id_floor(next: Option<u64>) -> int {
    match next {
        Some(id) => id as int,
        None => u64::MAX + 1,
    }
}

#[derive(Clone, Debug, PartialEq, Eq, Structural)]
pub enum RouterError {
    Backpressure { maximum: usize },
    RequestIdExhausted,
    DeadlineOverflow,
    UnknownRequest(u64),
    ResponseTimedOut(u64),
    UnexpectedMessage,
    UnexpectedProtocolVersion { major: u16, minor: u16 },
    InvalidCancellationResponse { expected: u64 },
}

#[derive(Clone, Debug)]
pub struct RoutedResponse {
    pub original_request_id: u64,
    pub response_request_id: u64,
    pub response: Response,
}

/// Tracks the requests that await a response.
#[derive(Clone, Debug)]
pub struct RequestRouter {
    maximum_pending: usize,
    next_request_id: Option<u64>,
    pending: Vec<(u64, PendingRequest)>,
}

/// Whether a response acknowledges the cancellation of `target`.
pub open spec fn acknowledges(response: Response, target: u64) -> bool {
    response matches Response::Cancelled { target_request_id } && target_request_id == target
}

impl RequestRouter {
    pub closed spec fn maximum(&self) -> usize {
        self.maximum_pending
    }

    pub closed spec fn next_id(&self) -> Option<u64> {
        self.next_request_id
    }

    /// The lowest id that this router may still hand out.
    pub open spec fn lowest_unissued(&self) -> int {
        id_floor(self.next_id())
    }

    /// The pending entries, ordered by id.
    pub closed spec fn pending(&self) -> Seq<PendingView> {
        self.pending@.map_values(|e: (u64, PendingRequest)| (e.0, e.1.deadline@, e.1.kind))
    }

    /// The router's invariant: ids increase, every pending id is below the next id
    /// to allocate (none remains once the id space is exhausted only if it is below
    /// the largest), and no more requests are pending than the maximum.
    pub closed spec fn wf(&self) -> bool {
        &&& increasing(self.pending())
        &&& self.pending().len() <= self.maximum_pending
        &&& forall|i: int|
            0 <= i < self.pending().len() ==> match self.next_request_id {
                Some(next) => #[trigger] self.pending()[i].0 < next,
                None => true,
            }
        &&& forall|i: int| 0 <= i < self.pending().len() ==> #[trigger] self.pending()[i].0 >= 1
        &&& self.next_request_id matches Some(next) ==> next >= 1
    }

    pub fn new(maximum_pending: usize) -> (r: RequestRouter)
        ensures
            r.wf(),
            r.maximum() == maximum_pending,
            r.next_id() == Some(1u64),
            r.pending() == Seq::<PendingView>::empty(),
    {
        let r = RequestRouter { maximum_pending, next_request_id: Some(1), pending: Vec::new() };
        proof {
            assert(r.pending() =~= Seq::<PendingView>::empty());
        }
        r
    }

    pub fn pending_count(&self) -> (r: usize)
        requires
            self.wf(),
        ensures
            r == self.pending().len(),
            r <= self.maximum(),
    {
        self.pending.len()
    }

    fn allocate_request_id(&mut self) -> (r: Result<u64, RouterError>)
        ensures
            match old(self).next_id() {
                Some(id) => r == Ok::<u64, RouterError>(id) && final(self).next_id() == after(id),
                None => r == Err::<u64, RouterError>(RouterError::RequestIdExhausted)
                    && final(self).next_id() == old(self).next_id(),
            },
            final(self).pending@ == old(self).pending@,
            final(self).maximum_pending == old(self).maximum_pending,
    {
        match self.next_request_id {
            Some(id) => {
                self.next_request_id = id.checked_add(1);
                Ok(id)
            },
            None => Err(RouterError::RequestIdExhausted),
        }
    }

    fn index_of(&self, id: u64) -> (r: Option<usize>)
        requires
            self.wf(),
        ensures
            match r {
                Some(i) => i < self.pending().len() && self.pending()[i as int].0 == id
                    && lookup(self.pending(), id) == Some(self.pending()[i as int]),
                None => lookup(self.pending(), id) is None,
            },
    {
        let mut i: usize = 0;
        while i < self.pending.len()
            invariant
                i <= self.pending.len(),
                self.wf(),
                forall|j: int| 0 <= j < i ==> self.pending()[j].0 != id,
            decreases self.pending.len() - i,
        {
            if self.pending[i].0 == id {
                proof {
                    lemma_lookup_at(self.pending(), id, i as int);
                }
                return Some(i);
            }
            i = i + 1;
        }
        proof {
            lemma_lookup_absent(self.pending(), id);
        }
        None
    }

    fn remove_at(&mut self, index: usize)
        requires
            old(self).wf(),
            index < old(self).pending().len(),
        ensures
            final(self).wf(),
            final(self).pending() == without(old(self).pending(), old(self).pending()[index as int].0),
            final(self).pending().len() == old(self).pending().len() - 1,
            final(self).next_id() == old(self).next_id(),
            final(self).maximum() == old(self).maximum(),
    {
        let ghost before = self.pending();
        self.pending.remove(index);
        proof {
            assert(self.pending() =~= before.remove(index as int));
            lemma_without_unique(before, index as int);
        }
    }

    /// Registers a request and returns its envelope. A full router answers
    /// `Backpressure`; an exhausted id space `RequestIdExhausted`; a deadline past the
    /// largest duration `DeadlineOverflow`, after the id has been spent.
    pub fn begin(&mut self, request: Request, now: Duration, timeout: Duration) -> (r: Result<
        Envelope,
        RouterError,
    >)
        requires
            old(self).wf(),
        ensures
            final(self).wf(),
            final(self).maximum() == old(self).maximum(),
            final(self).lowest_unissued() >= old(self).lowest_unissued(),
            r matches Ok(envelope) ==> old(self).lowest_unissued() <= envelope.request_id
                < final(self).lowest_unissued(),
            old(self).pending().len() >= old(self).maximum() ==> {
                &&& r == Err::<Envelope, RouterError>(
                    RouterError::Backpressure { maximum: old(self).maximum() },
                )
                &&& final(self).pending() == old(self).pending()
                &&& final(self).next_id() == old(self).next_id()
            },
            old(self).pending().len() < old(self).maximum() ==> match old(self).next_id() {
                None => {
                    &&& r == Err::<Envelope, RouterError>(RouterError::RequestIdExhausted)
                    &&& final(self).pending() == old(self).pending()
                    &&& final(self).next_id() == old(self).next_id()
                },
                Some(id) => {
                    &&& final(self).next_id() == after(id)
                    &&& if now@ + timeout@ > max_duration_nanos() {
                        &&& r == Err::<Envelope, RouterError>(RouterError::DeadlineOverflow)
                        &&& final(self).pending() == old(self).pending()
                    } else {
                        &&& r == Ok::<Envelope, RouterError>(
                            Envelope::v4_spec(id, Message::Request(request)),
                        )
                        &&& final(self).pending() == old(self).pending().push(
                            (id, now@ + timeout@, PendingKind::Request),
                        )
                    }
                },
            },
    {
        if self.pending.len() >= self.maximum_pending {
            return Err(RouterError::Backpressure { maximum: self.maximum_pending });
        }
        let request_id = match self.allocate_request_id() {
            Ok(id) => id,
            Err(error) => return Err(error),
        };
        let deadline = match now.checked_add(timeout) {
            Some(deadline) => deadline,
            None => return Err(RouterError::DeadlineOverflow),
        };
        let ghost before = self.pending();
        self.pending.push((request_id, PendingRequest { deadline, kind: PendingKind::Request }));
        proof {
            assert(self.pending() =~= before.push((request_id, now@ + timeout@, PendingKind::Request)));
            assert(forall|i: int| 0 <= i < before.len() ==> #[trigger] before[i].0 < request_id);
            assert(self.pending()[before.len() as int].0 == request_id);
        }
        Ok(Envelope::v4(request_id, Message::Request(request)))
    }

    /// Replaces a pending request with a cancellation request for it.
    pub fn cancel(&mut self, target_request_id: u64, now: Duration, timeout: Duration) -> (r:
        Result<Envelope, RouterError>)
        requires
            old(self).wf(),
        ensures
            final(self).wf(),
            final(self).maximum() == old(self).maximum(),
            final(self).lowest_unissued() >= old(self).lowest_unissued(),
            r matches Ok(envelope) ==> old(self).lowest_unissued() <= envelope.request_id
                < final(self).lowest_unissued(),
            match lookup(old(self).pending(), target_request_id) {
                None => {
                    &&& r == Err::<Envelope, RouterError>(
                        RouterError::UnknownRequest(target_request_id),
                    )
                    &&& final(self).pending() == old(self).pending()
                    &&& final(self).next_id() == old(self).next_id()
                },
                Some(target) => if now@ >= target.1 {
                    &&& r == Err::<Envelope, RouterError>(
                        RouterError::ResponseTimedOut(target_request_id),
                    )
                    &&& final(self).pending() == without(old(self).pending(), target_request_id)
                    &&& final(self).next_id() == old(self).next_id()
                } else {
                    match old(self).next_id() {
                        None => {
                            &&& r == Err::<Envelope, RouterError>(RouterError::RequestIdExhausted)
                            &&& final(self).pending() == old(self).pending()
                            &&& final(self).next_id() == old(self).next_id()
                        },
                        Some(id) => {
                            &&& final(self).next_id() == after(id)
                            &&& if now@ + timeout@ > max_duration_nanos() {
                                &&& r == Err::<Envelope, RouterError>(RouterError::DeadlineOverflow)
                                &&& final(self).pending() == old(self).pending()
                            } else {
                                &&& r == Ok::<Envelope, RouterError>(
                                    Envelope::v4_spec(
                                        id,
                                        Message::Request(Request::Cancel { target_request_id }),
                                    ),
                                )
                                &&& final(self).pending() == without(
                                    old(self).pending(),
                                    target_request_id,
                                ).push(
                                    (
                                        id,
                                        now@ + timeout@,
                                        PendingKind::Cancellation { target_request_id },
                                    ),
                                )
                            }
                        },
                    }
                },
            },
    {
        let index = match self.index_of(target_request_id) {
            Some(index) => index,
            None => return Err(RouterError::UnknownRequest(target_request_id)),
        };
        let target_deadline = self.pending[index].1.deadline;
        if now.at_or_after(&target_deadline) {
            self.remove_at(index);
            return Err(RouterError::ResponseTimedOut(target_request_id));
        }
        let cancellation_request_id = match self.allocate_request_id() {
            Ok(id) => id,
            Err(error) => return Err(error),
        };
        let deadline = match now.checked_add(timeout) {
            Some(deadline) => deadline,
            None => return Err(RouterError::DeadlineOverflow),
        };
        self.remove_at(index);
        let ghost before = self.pending();
        proof {
            lemma_without_keeps_bounds(old(self).pending(), target_request_id);
        }
        self.pending.push(
            (
                cancellation_request_id,
                PendingRequest { deadline, kind: PendingKind::Cancellation { target_request_id } },
            ),
        );
        proof {
            assert forall|i: int| 0 <= i < before.len() implies #[trigger] before[i].0 < cancellation_request_id
                && before[i].0 >= 1 by {
                assert(old(self).pending().contains(before[i]));
            }
            assert(self.pending() =~= before.push(
                (
                    cancellation_request_id,
                    now@ + timeout@,
                    PendingKind::Cancellation { target_request_id },
                ),
            ));
        }
        Ok(
            Envelope::v4(
                cancellation_request_id,
                Message::Request(Request::Cancel { target_request_id }),
            ),
        )
    }

    /// Routes one response envelope to the request that it answers.
    pub fn route(&mut self, envelope: Envelope, now: Duration) -> (r: Result<
        RoutedResponse,
        RouterError,
    >)
        requires
            old(self).wf(),
        ensures
            final(self).wf(),
            final(self).maximum() == old(self).maximum(),
            final(self).next_id() == old(self).next_id(),
            envelope.protocol_major != PROTOCOL_MAJOR || envelope.protocol_minor != PROTOCOL_MINOR
                ==> {
                &&& r == Err::<RoutedResponse, RouterError>(
                    RouterError::UnexpectedProtocolVersion {
                        major: envelope.protocol_major,
                        minor: envelope.protocol_minor,
                    },
                )
                &&& final(self).pending() == old(self).pending()
            },
            envelope.protocol_major == PROTOCOL_MAJOR && envelope.protocol_minor == PROTOCOL_MINOR
                ==> match envelope.message {
                Message::Response(response) => match lookup(
                    old(self).pending(),
                    envelope.request_id,
                ) {
                    None => {
                        &&& r == Err::<RoutedResponse, RouterError>(
                            RouterError::UnknownRequest(envelope.request_id),
                        )
                        &&& final(self).pending() == old(self).pending()
                    },
                    Some(entry) => {
                        &&& final(self).pending() == without(
                            old(self).pending(),
                            envelope.request_id,
                        )
                        &&& if now@ >= entry.1 {
                            r == Err::<RoutedResponse, RouterError>(
                                RouterError::ResponseTimedOut(answers_for(entry)),
                            )
                        } else if entry.2 is Cancellation && !acknowledges(
                            response,
                            entry.2->target_request_id,
                        ) {
                            r == Err::<RoutedResponse, RouterError>(
                                RouterError::InvalidCancellationResponse {
                                    expected: entry.2->target_request_id,
                                },
                            )
                        } else {
                            r matches Ok(routed) && routed.original_request_id == answers_for(
                                entry,
                            ) && routed.response_request_id == envelope.request_id
                                && routed.response == response
                        }
                    },
                },
                _ => {
                    &&& r == Err::<RoutedResponse, RouterError>(RouterError::UnexpectedMessage)
                    &&& final(self).pending() == old(self).pending()
                },
            },
    {
        if envelope.protocol_major != PROTOCOL_MAJOR || envelope.protocol_minor != PROTOCOL_MINOR {
            return Err(
                RouterError::UnexpectedProtocolVersion {
                    major: envelope.protocol_major,
                    minor: envelope.protocol_minor,
                },
            );
        }
        let request_id = envelope.request_id;
        let response = match envelope.message {
            Message::Response(response) => response,
            _ => return Err(RouterError::UnexpectedMessage),
        };
        let index = match self.index_of(request_id) {
            Some(index) => index,
            None => return Err(RouterError::UnknownRequest(request_id)),
        };
        let pending = self.pending[index].1;
        self.remove_at(index);
        let original_request_id = match pending.kind {
            PendingKind::Request => request_id,
            PendingKind::Cancellation { target_request_id } => target_request_id,
        };
        if now.at_or_after(&pending.deadline) {
            return Err(RouterError::ResponseTimedOut(original_request_id));
        }
        if let PendingKind::Cancellation { target_request_id } = pending.kind {
            let acknowledged = match &response {
                Response::Cancelled { target_request_id: acknowledged } => *acknowledged
                    == target_request_id,
                _ => false,
            };
            if !acknowledged {
                return Err(RouterError::InvalidCancellationResponse { expected: target_request_id });
            }
        }
        Ok(RoutedResponse { original_request_id, response_request_id: request_id, response })
    }

    /// Drops every request whose deadline has passed and reports, in id order, the
    /// request ids that they answer for.
    pub fn expire(&mut self, now: Duration) -> (r: Vec<u64>)
        requires
            old(self).wf(),
        ensures
            final(self).wf(),
            final(self).maximum() == old(self).maximum(),
            final(self).next_id() == old(self).next_id(),
            r@ == expired_ids(old(self).pending(), now@),
            final(self).pending() == live(old(self).pending(), now@),
    {
        let mut expired: Vec<u64> = Vec::new();
        let mut kept: Vec<(u64, PendingRequest)> = Vec::new();
        let ghost all = self.pending();
        let mut i: usize = 0;
        while i < self.pending.len()
            invariant
                i <= self.pending.len(),
                all == self.pending(),
                self.wf(),
                expired@ == expired_ids(all.subrange(0, i as int), now@),
                kept@.map_values(|e: (u64, PendingRequest)| (e.0, e.1.deadline@, e.1.kind)) == live(
                    all.subrange(0, i as int),
                    now@,
                ),
            decreases self.pending.len() - i,
        {
            let entry = self.pending[i];
            proof {
                lemma_expired_ids_push(all.subrange(0, i as int), all[i as int], now@);
                assert(all.subrange(0, i + 1) =~= all.subrange(0, i as int).push(all[i as int]));
                lemma_live_push(all.subrange(0, i as int), all[i as int], now@);
            }
            if now.at_or_after(&entry.1.deadline) {
                let answered = match entry.1.kind {
                    PendingKind::Request => entry.0,
                    PendingKind::Cancellation { target_request_id } => target_request_id,
                };
                expired.push(answered);
            } else {
                let ghost before = kept@;
                kept.push(entry);
                proof {
                    assert(kept@.map_values(|e: (u64, PendingRequest)| (e.0, e.1.deadline@, e.1.kind))
                        =~= before.map_values(
                        |e: (u64, PendingRequest)| (e.0, e.1.deadline@, e.1.kind),
                    ).push((entry.0, entry.1.deadline@, entry.1.kind)));
                }
            }
            i = i + 1;
        }
        proof {
            assert(all.subrange(0, all.len() as int) =~= all);
            lemma_live_keeps_bounds(all, now@);
        }
        self.pending = kept;
        expired
    }
}

impl Envelope {
    /// The envelope that `Envelope::v4` builds.
    pub open spec fn v4_spec(request_id: u64, message: Message) -> Envelope {
        Envelope {
            protocol_major: PROTOCOL_MAJOR,
            protocol_minor: PROTOCOL_MINOR,
            request_id,
            message,
        }
    }
}

/// A request that was just begun is pending under its own id and answers for
/// itself: its response is correlated to it.
pub proof fn law_begun_request_answers_for_itself(pending: Seq<PendingView>, id: u64, deadline: nat)
    requires
        increasing(pending),
        forall|i: int| 0 <= i < pending.len() ==> pending[i].0 < id,
    ensures
        lookup(pending.push((id, deadline, PendingKind::Request)), id) == Some(
            (id, deadline, PendingKind::Request),
        ),
        answers_for((id, deadline, PendingKind::Request)) == id,
{
    let pushed = pending.push((id, deadline, PendingKind::Request));
    assert forall|a: int, b: int| 0 <= a < b < pushed.len() implies pushed[a].0 < pushed[b].0 by {
        if b == pushed.len() - 1 {
            assert(pushed[a] == pending[a]);
        }
    }
    lemma_lookup_at(pushed, id, pending.len() as int);
}

/// Once a response is routed, its entry is gone: a second response with the same
/// id is an unknown request.
pub proof fn law_response_routed_at_most_once(pending: Seq<PendingView>, id: u64)
    ensures
        lookup(without(pending, id), id) is None,
{
    let f = other_than(id);
    assert forall|j: int| 0 <= j < without(pending, id).len() implies without(pending, id)[j].0
        != id by {
        pending.lemma_filter_pred(f, j);
    }
    lemma_lookup_absent(without(pending, id), id);
}

/// After a cancellation replaces its target, a late response to the target is an
/// unknown request, while the cancellation answers for the target.
pub proof fn law_cancelled_request_rejects_late_response(
    pending: Seq<PendingView>,
    target: u64,
    cancellation: u64,
    deadline: nat,
)
    requires
        cancellation != target,
    ensures
        lookup(
            without(pending, target).push(
                (cancellation, deadline, PendingKind::Cancellation { target_request_id: target }),
            ),
            target,
        ) is None,
        answers_for(
            (cancellation, deadline, PendingKind::Cancellation { target_request_id: target }),
        ) == target,
{
    let f = other_than(target);
    let rest = without(pending, target);
    let pushed = rest.push(
        (cancellation, deadline, PendingKind::Cancellation { target_request_id: target }),
    );
    assert forall|j: int| 0 <= j < pushed.len() implies pushed[j].0 != target by {
        if j < rest.len() {
            pending.lemma_filter_pred(f, j);
        }
    }
    lemma_lookup_absent(pushed, target);
}

/// Expiring twice at the same instant drops and reports nothing the second time.
pub proof fn law_expire_is_idempotent(pending: Seq<PendingView>, now: nat)
    ensures
        live(live(pending, now), now) == live(pending, now),
        expired_ids(live(pending, now), now) == Seq::<u64>::empty(),
{
    let f = later_than(now);
    let kept = live(pending, now);
    assert forall|j: int| 0 <= j < kept.len() implies now < kept[j].1 by {
        pending.lemma_filter_pred(f, j);
    }
    lemma_filter_keeps_all(kept, now);
    lemma_no_expired(kept, now);
}

proof fn lemma_filter_keeps_all(pending: Seq<PendingView>, now: nat)
    requires
        forall|j: int| 0 <= j < pending.len() ==> now < pending[j].1,
    ensures
        live(pending, now) == pending,
    decreases pending.len(),
{
    reveal_with_fuel(Seq::filter, 1);
    if pending.len() > 0 {
        lemma_filter_keeps_all(pending.drop_last(), now);
        assert(pending.drop_last().push(pending.last()) =~= pending);
    }
}

proof fn lemma_no_expired(pending: Seq<PendingView>, now: nat)
    requires
        forall|j: int| 0 <= j < pending.len() ==> now < pending[j].1,
    ensures
        expired_ids(pending, now) == Seq::<u64>::empty(),
    decreases pending.len(),
{
    if pending.len() > 0 {
        assert forall|j: int| 0 <= j < pending.drop_first().len() implies now < pending.drop_first()[j].1 by {
            assert(pending.drop_first()[j] == pending[j + 1]);
        }
        lemma_no_expired(pending.drop_first(), now);
    }
}

proof fn lemma_lookup_at(pending: Seq<PendingView>, id: u64, i: int)
    requires
        increasing(pending),
        0 <= i < pending.len(),
        pending[i].0 == id,
    ensures
        lookup(pending, id) == Some(pending[i]),
    decreases pending.len(),
{
    if i > 0 {
        assert(pending[0].0 < pending[i].0);
        assert(pending.drop_first()[i - 1] == pending[i]);
        lemma_lookup_at(pending.drop_first(), id, i - 1);
    }
}

proof fn lemma_lookup_absent(pending: Seq<PendingView>, id: u64)
    requires
        forall|j: int| 0 <= j < pending.len() ==> pending[j].0 != id,
    ensures
        lookup(pending, id) is None,
    decreases pending.len(),
{
    if pending.len() > 0 {
        assert forall|j: int| 0 <= j < pending.drop_first().len() implies pending.drop_first()[j].0
            != id by {
            assert(pending.drop_first()[j] == pending[j + 1]);
        }
        lemma_lookup_absent(pending.drop_first(), id);
    }
}

proof fn lemma_without_unique(pending: Seq<PendingView>, i: int)
    requires
        increasing(pending),
        0 <= i < pending.len(),
    ensures
        without(pending, pending[i].0) == pending.remove(i),
    decreases pending.len(),
{
    let id = pending[i].0;
    reveal_with_fuel(Seq::filter, 1);
    if pending.len() > 0 {
        let last = pending.last();
        let init = pending.drop_last();
        assert(pending == init.push(last));
        if i == pending.len() - 1 {
            assert forall|j: int| 0 <= j < init.len() implies init[j].0 != id by {
                assert(pending[j].0 < pending[i].0);
            }
            lemma_filter_all(init, id);
            assert(pending.remove(i) =~= init);
        } else {
            assert(increasing(init));
            assert(init[i] == pending[i]);
            lemma_without_unique(init, i);
            assert(last.0 != id);
            assert(pending.remove(i) =~= init.remove(i).push(last));
        }
    }
}

proof fn lemma_filter_all(pending: Seq<PendingView>, id: u64)
    requires
        forall|j: int| 0 <= j < pending.len() ==> pending[j].0 != id,
    ensures
        without(pending, id) == pending,
    decreases pending.len(),
{
    reveal_with_fuel(Seq::filter, 1);
    if pending.len() > 0 {
        lemma_filter_all(pending.drop_last(), id);
        assert(pending.drop_last().push(pending.last()) =~= pending);
    }
}

proof fn lemma_without_keeps_bounds(pending: Seq<PendingView>, id: u64)
    ensures
        forall|j: int|
            0 <= j < without(pending, id).len() ==> pending.contains(#[trigger] without(pending, id)[j]),
        without(pending, id).len() <= pending.len(),
{
    let f = other_than(id);
    assert forall|j: int| 0 <= j < without(pending, id).len() implies pending.contains(
        #[trigger] without(pending, id)[j],
    ) by {
        pending.lemma_filter_contains_rev(f, without(pending, id)[j]);
        assert(without(pending, id).contains(without(pending, id)[j]));
    }
    pending.lemma_filter_len(f);
}

proof fn lemma_expired_ids_push(pending: Seq<PendingView>, entry: PendingView, now: nat)
    ensures
        expired_ids(pending.push(entry), now) == expired_ids(pending, now) + (if now >= entry.1 {
            seq![answers_for(entry)]
        } else {
            Seq::empty()
        }),
    decreases pending.len(),
{
    if pending.len() == 0 {
        assert(pending.push(entry).drop_first() =~= Seq::<PendingView>::empty());
        assert(expired_ids(Seq::<PendingView>::empty(), now) == Seq::<u64>::empty());
        if now >= entry.1 {
            assert(seq![answers_for(entry)] + Seq::<u64>::empty() =~= seq![answers_for(entry)]);
        }
        assert(Seq::<u64>::empty() + (if now >= entry.1 {
            seq![answers_for(entry)]
        } else {
            Seq::<u64>::empty()
        }) =~= (if now >= entry.1 {
            seq![answers_for(entry)]
        } else {
            Seq::<u64>::empty()
        }));
    } else {
        assert(pending.push(entry).drop_first() =~= pending.drop_first().push(entry));
        lemma_expired_ids_push(pending.drop_first(), entry, now);
        if now >= pending[0].1 {
            assert(seq![answers_for(pending[0])] + (expired_ids(pending.drop_first(), now) + (if now
                >= entry.1 {
                seq![answers_for(entry)]
            } else {
                Seq::empty()
            })) =~= (seq![answers_for(pending[0])] + expired_ids(pending.drop_first(), now)) + (
            if now >= entry.1 {
                seq![answers_for(entry)]
            } else {
                Seq::empty()
            }));
        }
    }
}

proof fn lemma_live_push(pending: Seq<PendingView>, entry: PendingView, now: nat)
    ensures
        live(pending.push(entry), now) == if now < entry.1 {
            live(pending, now).push(entry)
        } else {
            live(pending, now)
        },
{
    reveal_with_fuel(Seq::filter, 1);
    assert(pending.push(entry).drop_last() =~= pending);
}

proof fn lemma_live_keeps_bounds(pending: Seq<PendingView>, now: nat)
    requires
        increasing(pending),
    ensures
        increasing(live(pending, now)),
        live(pending, now).len() <= pending.len(),
        forall|j: int|
            0 <= j < live(pending, now).len() ==> pending.contains(#[trigger] live(pending, now)[j]),
    decreases pending.len(),
{
    reveal_with_fuel(Seq::filter, 1);
    let f = later_than(now);
    pending.lemma_filter_len(f);
    assert forall|j: int| 0 <= j < live(pending, now).len() implies pending.contains(
        #[trigger] live(pending, now)[j],
    ) by {
        assert(live(pending, now).contains(live(pending, now)[j]));
        pending.lemma_filter_contains_rev(f, live(pending, now)[j]);
    }
    if pending.len() > 0 {
        let init = pending.drop_last();
        assert(increasing(init));
        lemma_live_keeps_bounds(init, now);
        assert(pending =~= init.push(pending.last()));
        if now < pending.last().1 {
            assert forall|a: int, b: int| 0 <= a < b < live(pending, now).len() implies live(
                pending,
                now,
            )[a].0 < live(pending, now)[b].0 by {
                if b == live(pending, now).len() - 1 {
                    assert(init.contains(live(init, now)[a]));
                    let k = choose|k: int| 0 <= k < init.len() && init[k] == live(init, now)[a];
                    assert(pending[k].0 < pending[pending.len() - 1].0);
                }
            }
        }
    }
}


#[verifier::rlimit(40)]
proof fn lemma_live_structure(pending: Seq<PendingView>, now: nat)
    requires
        increasing(pending),
    ensures
        live(pending, now).len() + expired_ids(pending, now).len() == pending.len(),
        increasing(live(pending, now)),
        forall|k: int| 0 <= k < live(pending, now).len() ==> exists|j: int|
            0 <= j < pending.len() && now < pending[j].1 && #[trigger] live(pending, now)[k] == pending[j],
        forall|j: int| 0 <= j < pending.len() && now < pending[j].1 ==> exists|k: int|
            0 <= k < live(pending, now).len() && #[trigger] live(pending, now)[k] == pending[j],
    decreases pending.len(),
{
    if pending.len() == 0 {
        assert(live(pending, now) =~= Seq::<PendingView>::empty()) by {
            reveal_with_fuel(Seq::filter, 1);
        }
    } else {
        let rest = pending.drop_last();
        let entry = pending.last();
        assert(rest.push(entry) =~= pending);
        assert(increasing(rest));
        lemma_live_structure(rest, now);
        lemma_live_push(rest, entry, now);
        lemma_expired_ids_push(rest, entry, now);
        let before = live(rest, now);
        let after = live(pending, now);
        assert forall|k: int| 0 <= k < after.len() implies exists|j: int|
            0 <= j < pending.len() && now < pending[j].1 && #[trigger] after[k] == pending[j] by {
            if k < before.len() {
                assert(after[k] == before[k]);
                let j = choose|j: int| 0 <= j < rest.len() && now < rest[j].1 && before[k] == rest[j];
                assert(pending[j] == rest[j]);
            } else {
                assert(after[k] == pending[pending.len() - 1]);
            }
        }
        assert forall|j: int| 0 <= j < pending.len() && now < pending[j].1 implies exists|k: int|
            0 <= k < after.len() && #[trigger] after[k] == pending[j] by {
            if j < rest.len() {
                assert(pending[j] == rest[j]);
                let k = choose|k: int| 0 <= k < before.len() && before[k] == rest[j];
                assert(after[k] == before[k]);
            } else {
                assert(after[after.len() - 1] == entry);
            }
        }
        assert forall|a: int, b: int| 0 <= a < b < after.len() implies after[a].0 < after[b].0 by {
            if b < before.len() {
                assert(after[a] == before[a] && after[b] == before[b]);
            } else {
                assert(after[a] == before[a]);
                let j = choose|j: int| 0 <= j < rest.len() && now < rest[j].1 && before[a] == rest[j];
                assert(pending[j] == rest[j]);
                assert(pending[j].0 < pending[pending.len() - 1].0);
            }
        }
    }
}

/// Expiry at `now` splits the pending entries: each whose deadline has come is
/// reported and is no longer found, each other one is still found as it was,
/// and the two together are all of them.
pub proof fn law_expire_splits_pending(pending: Seq<PendingView>, now: nat)
    requires
        increasing(pending),
    ensures
        live(pending, now).len() + expired_ids(pending, now).len() == pending.len(),
        forall|i: int| 0 <= i < pending.len() && pending[i].1 <= now ==> lookup(live(pending, now), (#[trigger] pending[i]).0)
            is None,
        forall|i: int| 0 <= i < pending.len() && now < pending[i].1 ==> lookup(live(pending, now), (#[trigger] pending[i]).0)
            == Some(pending[i]),
{
    lemma_live_structure(pending, now);
    let kept = live(pending, now);
    assert forall|i: int| 0 <= i < pending.len() && pending[i].1 <= now implies lookup(kept, (#[trigger] pending[i]).0)
        is None by {
        assert forall|k: int| 0 <= k < kept.len() implies kept[k].0 != pending[i].0 by {
            let j = choose|j: int| 0 <= j < pending.len() && now < pending[j].1 && kept[k] == pending[j];
            if j < i {
                assert(pending[j].0 < pending[i].0);
            } else if j > i {
                assert(pending[i].0 < pending[j].0);
            }
        }
        lemma_lookup_absent(kept, pending[i].0);
    }
    assert forall|i: int| 0 <= i < pending.len() && now < pending[i].1 implies lookup(kept, (#[trigger] pending[i]).0)
        == Some(pending[i]) by {
        let k = choose|k: int| 0 <= k < kept.len() && kept[k] == pending[i];
        lemma_lookup_at(kept, pending[i].0, k);
    }
}

impl RequestRouter {
    /// A well-formed router never hands out an id twice: the next id it would
    /// allocate is above every pending id, and the one after it is larger still.
    pub proof fn law_ids_are_never_reused(&self)
        requires
            self.wf(),
        ensures
            self.next_id() matches Some(next) ==> (forall|i: int|
                0 <= i < self.pending().len() ==> #[trigger] self.pending()[i].0 < next),
            self.next_id() matches Some(next) ==> (after(next) matches Some(following) ==> following > next),
    {
    }
}

/// Floors along a history never fall: a floor that every call keeps or raises
/// is, at any later state, at least what it was.
proof fn lemma_floors_rise(history: Seq<RequestRouter>, i: int, j: int)
    requires
        forall|k: int| 0 <= k < history.len() - 1 ==> #[trigger] history[k].lowest_unissued()
            <= history[k + 1].lowest_unissued(),
        0 <= i <= j < history.len(),
    ensures
        history[i].lowest_unissued() <= history[j].lowest_unissued(),
    decreases j - i,
{
    if i < j {
        lemma_floors_rise(history, i, j - 1);
        assert(history[j - 1].lowest_unissued() <= history[j].lowest_unissued());
    }
}

/// Ids only grow over a router's history. `history` is the router's state
/// before and after each call, and every call (`begin`, `cancel`, `route`,
/// `expire`) keeps or raises the lowest unissued id; `handed` lists, in call
/// order, the ids that calls handed out, each with the index of its call, and
/// each lies between the floors before and after its call, as `begin` and
/// `cancel` ensure. Then every id handed out is larger than all handed out
/// before it, so none is handed out twice.
pub proof fn law_ids_only_grow(history: Seq<RequestRouter>, handed: Seq<(int, u64)>)
    requires
        forall|k: int| 0 <= k < history.len() - 1 ==> #[trigger] history[k].lowest_unissued()
            <= history[k + 1].lowest_unissued(),
        forall|n: int| 0 <= n < handed.len() ==> 0 <= (#[trigger] handed[n]).0 < history.len() - 1
            && history[handed[n].0].lowest_unissued() <= handed[n].1 < history[handed[n].0
            + 1].lowest_unissued(),
        forall|n: int| 0 <= n < handed.len() - 1 ==> (#[trigger] handed[n]).0 < handed[n + 1].0,
    ensures
        forall|a: int, b: int| 0 <= a < b < handed.len() ==> handed[a].1 < handed[b].1,
{
    assert forall|a: int, b: int| 0 <= a < b < handed.len() implies handed[a].1 < handed[b].1 by {
        lemma_calls_in_order(handed, a, b);
        let first = handed[a];
        let second = handed[b];
        lemma_floors_rise(history, first.0 + 1, second.0);
    }
}

proof fn lemma_calls_in_order(handed: Seq<(int, u64)>, a: int, b: int)
    requires
        forall|n: int| 0 <= n < handed.len() - 1 ==> (#[trigger] handed[n]).0 < handed[n + 1].0,
        0 <= a < b < handed.len(),
    ensures
        handed[a].0 < handed[b].0,
    decreases b - a,
{
    if a + 1 < b {
        lemma_calls_in_order(handed, a, b - 1);
        assert(handed[b - 1].0 < handed[b].0);
    } else {
        assert(handed[a].0 < handed[a + 1].0);
    }
}

impl RequestRouter {
    /// Expiring a well-formed router at `now` reports exactly the entries whose
    /// deadline has come: the pending count falls by the number reported, each
    /// reported entry is no longer found (so a response to it is an unknown
    /// request), and each other entry is still found as it was.
    pub proof fn law_expire_reports_exactly(&self, after: RequestRouter, reported: Seq<u64>, now: nat)
        requires
            self.wf(),
            after.pending() == live(self.pending(), now),
            reported == expired_ids(self.pending(), now),
        ensures
            after.pending().len() == self.pending().len() - reported.len(),
            forall|i: int| 0 <= i < self.pending().len() && self.pending()[i].1 <= now ==> lookup(
                after.pending(),
                (#[trigger] self.pending()[i]).0,
            ) is None,
            forall|i: int| 0 <= i < self.pending().len() && now < self.pending()[i].1 ==> lookup(
                after.pending(),
                (#[trigger] self.pending()[i]).0,
            ) == Some(self.pending()[i]),
    {
        law_expire_splits_pending(self.pending(), now);
    }
}

} // verus!
