use vstd::prelude::*;

use itertools::Itertools;

use crate::channel::{send_ok, CwIbcConnection, SendHandle};
use crate::events::{Disposition, GatewayEvent, GatewayEventView};
use crate::types::{msg_views, GatewayError, Message, MessageView, VerificationStatus};

verus! {

/// Which downstream network a dispatch pass feeds. The routing mode merges
/// trusted messages into one call to the routing network; the verification
/// mode forwards unverified messages to the verification network.
#[derive(Clone, Copy, Debug, PartialEq, Eq, Structural)]
pub enum DispatchMode {
    Routing,
    Verification,
}

/// A message may be routed to the transport network iff its verification
/// succeeded on chain.
pub open spec fn routable(s: VerificationStatus) -> bool {
    s == VerificationStatus::SucceededOnChain
}

/// A message is worth forwarding to the verification network iff no
/// verification outcome has been recorded for it yet.
pub open spec fn verifiable(s: VerificationStatus) -> bool {
    match s {
        VerificationStatus::Unverified => true,
        VerificationStatus::NotFound => true,
        VerificationStatus::FailedToVerify => true,
        _ => false,
    }
}

/// Whether a message of the given status is merged into the downstream call
/// of the given mode.
pub open spec fn eligible(mode: DispatchMode, s: VerificationStatus) -> bool {
    match mode {
        DispatchMode::Routing => routable(s),
        DispatchMode::Verification => verifiable(s),
    }
}

/// The disposition reported for a message of the given status under the
/// given mode.
pub open spec fn disposition_for(mode: DispatchMode, s: VerificationStatus) -> Disposition {
    match mode {
        DispatchMode::Routing => if routable(s) {
            Disposition::Routing
        } else {
            Disposition::UnfitForRouting
        },
        DispatchMode::Verification => match s {
            VerificationStatus::Unverified => Disposition::Verifying,
            VerificationStatus::NotFound => Disposition::Verifying,
            VerificationStatus::FailedToVerify => Disposition::Verifying,
            VerificationStatus::InProgress => Disposition::Verifying,
            VerificationStatus::SucceededOnChain => Disposition::AlreadyVerified,
            VerificationStatus::FailedOnChain => Disposition::AlreadyRejected,
        },
    }
}

/// The values of a sequence of events.
pub open spec fn ev_views(s: Seq<GatewayEvent>) -> Seq<GatewayEventView> {
    s.map_values(|e: GatewayEvent| e@)
}

/// No two messages of the batch share a cross-chain id.
pub open spec fn distinct_cc_ids(s: Seq<MessageView>) -> bool {
    forall|i: int, j: int| 0 <= i < j < s.len() ==> s[i].cc_id != s[j].cc_id
}

/// The messages a group contributes to the downstream call: all of them if
/// the group's status is eligible, none otherwise.
pub open spec fn eligible_contribution(
    mode: DispatchMode,
    g: (VerificationStatus, Vec<Message>),
) -> Seq<MessageView> {
    if eligible(mode, g.0) {
        msg_views(g.1@)
    } else {
        Seq::<MessageView>::empty()
    }
}

/// The events a group contributes: one per message, in arrival order, each
/// carrying the disposition of the group's status.
pub open spec fn group_event_views(
    mode: DispatchMode,
    status: VerificationStatus,
    msgs: Seq<Message>,
) -> Seq<GatewayEventView> {
    msg_views(msgs).map_values(
        |m: MessageView| GatewayEventView { disposition: disposition_for(mode, status), msg: m },
    )
}

/// All messages merged into the downstream call of a dispatch pass,
/// group order first, in-group arrival order second.
pub open spec fn eligible_msgs(
    mode: DispatchMode,
    groups: Seq<(VerificationStatus, Vec<Message>)>,
) -> Seq<MessageView>
    decreases groups.len(),
{
    if groups.len() == 0 {
        Seq::<MessageView>::empty()
    } else {
        eligible_msgs(mode, groups.drop_last()) + eligible_contribution(mode, groups.last())
    }
}

/// All events emitted by a dispatch pass, concatenated in group order.
pub open spec fn dispatch_events(
    mode: DispatchMode,
    groups: Seq<(VerificationStatus, Vec<Message>)>,
) -> Seq<GatewayEventView>
    decreases groups.len(),
{
    if groups.len() == 0 {
        Seq::<GatewayEventView>::empty()
    } else {
        dispatch_events(mode, groups.drop_last()) + group_event_views(
            mode,
            groups.last().0,
            groups.last().1@,
        )
    }
}

/// Message values are preserved by concatenation.
proof fn lemma_msg_views_add(a: Seq<Message>, b: Seq<Message>)
    ensures
        msg_views(a + b) == msg_views(a) + msg_views(b),
{
    assert(msg_views(a + b) =~= msg_views(a) + msg_views(b));
}

/// Event values are preserved by concatenation.
proof fn lemma_ev_views_add(a: Seq<GatewayEvent>, b: Seq<GatewayEvent>)
    ensures
        ev_views(a + b) == ev_views(a) + ev_views(b),
{
    assert(ev_views(a + b) =~= ev_views(a) + ev_views(b));
}

/// Produce identical copies of all messages of a batch.
pub fn clone_messages(v: &Vec<Message>) -> (r: Vec<Message>)
    ensures
        msg_views(r@) == msg_views(v@),
{
    let mut r: Vec<Message> = Vec::new();
    let mut i: usize = 0;
    while i < v.len()
        invariant
            i <= v.len(),
            r@.len() == i,
            forall|k: int| 0 <= k < i ==> r@[k]@ == v@[k]@,
        decreases v.len() - i,
    {
        r.push(v[i].dup());
        i = i + 1;
    }
    proof {
        assert(msg_views(r@) =~= msg_views(v@));
    }
    r
}

/// Relies on itertools' `duplicates` adaptor: it yields exactly the elements
/// that appear more than once in the input, so the result is empty iff all
/// inputs are pairwise distinct.
#[verifier::external_body]
fn duplicate_ids(ids: &Vec<u64>) -> (r: Vec<u64>)
    ensures
        (r@.len() == 0) <==> (forall|i: int, j: int|
            0 <= i < j < ids@.len() ==> ids@[i] != ids@[j]),
{
    ids.iter().duplicates().copied().collect()
}

/// Reject any batch in which two messages share a cross-chain id; this is
/// the single gate against double-processing a batch. A distinct batch is
/// returned unchanged.
pub fn check_for_duplicates(msgs: Vec<Message>) -> (r: Result<Vec<Message>, GatewayError>)
    ensures
        match r {
            Ok(out) => distinct_cc_ids(msg_views(msgs@)) && out == msgs,
            Err(e) => !distinct_cc_ids(msg_views(msgs@)) && e == GatewayError::DuplicateMessageIds,
        },
{
    let mut ids: Vec<u64> = Vec::new();
    let mut i: usize = 0;
    while i < msgs.len()
        invariant
            i <= msgs.len(),
            ids@.len() == i,
            forall|k: int| 0 <= k < i ==> ids@[k] == msgs@[k].cc_id,
        decreases msgs.len() - i,
    {
        ids.push(msgs[i].cc_id);
        i = i + 1;
    }
    let dups = duplicate_ids(&ids);
    if dups.len() != 0 {
        proof {
            assert(!distinct_cc_ids(msg_views(msgs@))) by {
                let (x, y) = choose|x: int, y: int|
                    0 <= x < y < ids@.len() && ids@[x] == ids@[y];
                assert(msg_views(msgs@)[x].cc_id == msg_views(msgs@)[y].cc_id);
            }
        }
        Err(GatewayError::DuplicateMessageIds)
    } else {
        proof {
            assert(distinct_cc_ids(msg_views(msgs@))) by {
                assert forall|x: int, y: int|
                    0 <= x < y < msg_views(msgs@).len() implies msg_views(msgs@)[x].cc_id
                    != msg_views(msgs@)[y].cc_id by {
                    assert(ids@[x] != ids@[y]);
                }
            }
        }
        Ok(msgs)
    }
}

/// Tag every message of a batch with one disposition, keeping arrival order:
/// one event per message, never two for the same message within one pass.
pub fn messages_into_events(msgs: Vec<Message>, disposition: Disposition) -> (r: Vec<GatewayEvent>)
    ensures
        ev_views(r@) == msg_views(msgs@).map_values(
            |m: MessageView| GatewayEventView { disposition, msg: m },
        ),
{
    let mut r: Vec<GatewayEvent> = Vec::new();
    let mut i: usize = 0;
    while i < msgs.len()
        invariant
            i <= msgs.len(),
            r@.len() == i,
            forall|k: int| 0 <= k < i ==> r@[k]@ == (GatewayEventView {
                disposition,
                msg: msgs@[k]@,
            }),
        decreases msgs.len() - i,
    {
        r.push(GatewayEvent::new(disposition, msgs[i].dup()));
        i = i + 1;
    }
    proof {
        assert(ev_views(r@) =~= msg_views(msgs@).map_values(
            |m: MessageView| GatewayEventView { disposition, msg: m },
        ));
    }
    r
}

/// The messages of a group that may go to the routing network: all of them
/// if the status is routable, none otherwise.
pub fn filter_routable_messages(status: VerificationStatus, msgs: &Vec<Message>) -> (r: Vec<
    Message,
>)
    ensures
        msg_views(r@) == eligible_contribution(DispatchMode::Routing, (status, *msgs)),
{
    if status == VerificationStatus::SucceededOnChain {
        clone_messages(msgs)
    } else {
        Vec::new()
    }
}

/// The messages of a group that may go to the verification network: all of
/// them if no verification outcome is recorded, none otherwise.
pub fn filter_verifiable_messages(status: VerificationStatus, msgs: &Vec<Message>) -> (r: Vec<
    Message,
>)
    ensures
        msg_views(r@) == eligible_contribution(DispatchMode::Verification, (status, *msgs)),
{
    match status {
        VerificationStatus::Unverified => clone_messages(msgs),
        VerificationStatus::NotFound => clone_messages(msgs),
        VerificationStatus::FailedToVerify => clone_messages(msgs),
        _ => Vec::new(),
    }
}

/// The routing-mode events for one group: `Routing` for a routable status,
/// `UnfitForRouting` for every other.
pub fn into_route_events(status: VerificationStatus, msgs: Vec<Message>) -> (r: Vec<GatewayEvent>)
    ensures
        ev_views(r@) == group_event_views(DispatchMode::Routing, status, msgs@),
{
    if status == VerificationStatus::SucceededOnChain {
        messages_into_events(msgs, Disposition::Routing)
    } else {
        messages_into_events(msgs, Disposition::UnfitForRouting)
    }
}

/// The verification-mode events for one group: `Verifying` for statuses
/// still to be settled, `AlreadyVerified` for an on-chain success,
/// `AlreadyRejected` for an on-chain failure.
pub fn into_verify_events(status: VerificationStatus, msgs: Vec<Message>) -> (r: Vec<GatewayEvent>)
    ensures
        ev_views(r@) == group_event_views(DispatchMode::Verification, status, msgs@),
{
    match status {
        VerificationStatus::Unverified => messages_into_events(msgs, Disposition::Verifying),
        VerificationStatus::NotFound => messages_into_events(msgs, Disposition::Verifying),
        VerificationStatus::FailedToVerify => messages_into_events(msgs, Disposition::Verifying),
        VerificationStatus::InProgress => messages_into_events(msgs, Disposition::Verifying),
        VerificationStatus::SucceededOnChain => messages_into_events(
            msgs,
            Disposition::AlreadyVerified,
        ),
        VerificationStatus::FailedOnChain => messages_into_events(
            msgs,
            Disposition::AlreadyRejected,
        ),
    }
}

/// The concatenation of the first elements of a sequence of vector pairs.
pub open spec fn flat_fst<A, B>(s: Seq<(Vec<A>, Vec<B>)>) -> Seq<A>
    decreases s.len(),
{
    if s.len() == 0 {
        Seq::<A>::empty()
    } else {
        flat_fst(s.drop_last()) + s.last().0@
    }
}

/// The concatenation of the second elements of a sequence of vector pairs.
pub open spec fn flat_snd<A, B>(s: Seq<(Vec<A>, Vec<B>)>) -> Seq<B>
    decreases s.len(),
{
    if s.len() == 0 {
        Seq::<B>::empty()
    } else {
        flat_snd(s.drop_last()) + s.last().1@
    }
}

/// Unzip a sequence of vector pairs and flatten each side, keeping pair
/// order first and in-vector order second.
pub fn flat_unzip<A, B>(x: Vec<(Vec<A>, Vec<B>)>) -> (r: (Vec<A>, Vec<B>))
    ensures
        r.0@ == flat_fst(x@),
        r.1@ == flat_snd(x@),
{
    let ghost orig = x@;
    let mut x = x;
    let mut r0: Vec<A> = Vec::new();
    let mut r1: Vec<B> = Vec::new();
    let ghost mut i: int = 0;
    while x.len() > 0
        invariant
            0 <= i <= orig.len(),
            x@ == orig.skip(i),
            r0@ == flat_fst(orig.take(i)),
            r1@ == flat_snd(orig.take(i)),
        decreases x.len(),
    {
        let mut p = x.remove(0);
        r0.append(&mut p.0);
        r1.append(&mut p.1);
        proof {
            assert(orig.take(i + 1).drop_last() =~= orig.take(i));
            assert(orig.take(i + 1).last() == orig[i]);
            assert(x@ =~= orig.skip(i + 1));
            i = i + 1;
        }
    }
    proof {
        assert(orig.take(i) =~= orig);
    }
    (r0, r1)
}

/// Flattening group contributions elementwise agrees with the dispatch
/// specification.
proof fn lemma_dispatch_flatten(
    mode: DispatchMode,
    groups: Seq<(VerificationStatus, Vec<Message>)>,
    pairs: Seq<(Vec<Message>, Vec<GatewayEvent>)>,
)
    requires
        pairs.len() == groups.len(),
        forall|k: int| 0 <= k < groups.len() ==> msg_views(#[trigger] pairs[k].0@)
            == eligible_contribution(mode, groups[k]),
        forall|k: int| 0 <= k < groups.len() ==> ev_views(#[trigger] pairs[k].1@)
            == group_event_views(mode, groups[k].0, groups[k].1@),
    ensures
        msg_views(flat_fst(pairs)) == eligible_msgs(mode, groups),
        ev_views(flat_snd(pairs)) == dispatch_events(mode, groups),
    decreases groups.len(),
{
    if groups.len() == 0 {
        assert(msg_views(flat_fst(pairs)) =~= eligible_msgs(mode, groups));
        assert(ev_views(flat_snd(pairs)) =~= dispatch_events(mode, groups));
    } else {
        let gd = groups.drop_last();
        let pd = pairs.drop_last();
        assert forall|k: int| 0 <= k < gd.len() implies msg_views(#[trigger] pd[k].0@)
            == eligible_contribution(mode, gd[k]) by {
            assert(pd[k] == pairs[k]);
            assert(gd[k] == groups[k]);
        }
        assert forall|k: int| 0 <= k < gd.len() implies ev_views(#[trigger] pd[k].1@)
            == group_event_views(mode, gd[k].0, gd[k].1@) by {
            assert(pd[k] == pairs[k]);
            assert(gd[k] == groups[k]);
        }
        lemma_dispatch_flatten(mode, gd, pd);
        lemma_msg_views_add(flat_fst(pd), pairs.last().0@);
        lemma_ev_views_add(flat_snd(pd), pairs.last().1@);
        assert(pairs.last() == pairs[groups.len() - 1]);
        assert(groups.last() == groups[groups.len() - 1]);
    }
}

/// Run one dispatch pass: per group, split the messages into the eligible
/// subset and one event per message, then flatten the subsets into a single
/// downstream batch and concatenate the events in group order.
pub fn dispatch(mode: DispatchMode, groups: Vec<(VerificationStatus, Vec<Message>)>) -> (r: (
    Vec<Message>,
    Vec<GatewayEvent>,
))
    ensures
        msg_views(r.0@) == eligible_msgs(mode, groups@),
        ev_views(r.1@) == dispatch_events(mode, groups@),
{
    let ghost orig = groups@;
    let mut groups = groups;
    let mut pairs: Vec<(Vec<Message>, Vec<GatewayEvent>)> = Vec::new();
    let ghost mut i: int = 0;
    while groups.len() > 0
        invariant
            0 <= i <= orig.len(),
            groups@ == orig.skip(i),
            pairs@.len() == i,
            forall|k: int| 0 <= k < i ==> msg_views(#[trigger] pairs@[k].0@)
                == eligible_contribution(mode, orig[k]),
            forall|k: int| 0 <= k < i ==> ev_views(#[trigger] pairs@[k].1@)
                == group_event_views(mode, orig[k].0, orig[k].1@),
        decreases groups.len(),
    {
        let (status, msgs) = groups.remove(0);
        let kept = match mode {
            DispatchMode::Routing => filter_routable_messages(status, &msgs),
            DispatchMode::Verification => filter_verifiable_messages(status, &msgs),
        };
        let events = match mode {
            DispatchMode::Routing => into_route_events(status, msgs),
            DispatchMode::Verification => into_verify_events(status, msgs),
        };
        let ghost prev_pairs = pairs@;
        pairs.push((kept, events));
        proof {
            assert(groups@ =~= orig.skip(i + 1));
            assert((status, msgs) == orig[i]);
            assert forall|k: int| 0 <= k < i + 1 implies msg_views(#[trigger] pairs@[k].0@)
                == eligible_contribution(mode, orig[k]) && ev_views(pairs@[k].1@)
                == group_event_views(mode, orig[k].0, orig[k].1@) by {
                if k < i {
                    assert(pairs@[k] == prev_pairs[k]);
                } else {
                    assert(pairs@[k] == (kept, events));
                }
            }
            i = i + 1;
        }
    }
    proof {
        assert(orig.skip(i).len() == 0);
        lemma_dispatch_flatten(mode, orig, pairs@);
    }
    flat_unzip(pairs)
}

/// Routing-mode dispatch: merge the messages of every on-chain-succeeded
/// group into one batch for the routing network and report a disposition
/// for every message.
pub fn route(groups: Vec<(VerificationStatus, Vec<Message>)>) -> (r: (
    Vec<Message>,
    Vec<GatewayEvent>,
))
    ensures
        msg_views(r.0@) == eligible_msgs(DispatchMode::Routing, groups@),
        ev_views(r.1@) == dispatch_events(DispatchMode::Routing, groups@),
{
    dispatch(DispatchMode::Routing, groups)
}

/// Verification-mode dispatch: merge the messages of every unverified group
/// into one batch for the verification network and report a disposition for
/// every message.
pub fn verify(groups: Vec<(VerificationStatus, Vec<Message>)>) -> (r: (
    Vec<Message>,
    Vec<GatewayEvent>,
))
    ensures
        msg_views(r.0@) == eligible_msgs(DispatchMode::Verification, groups@),
        ev_views(r.1@) == dispatch_events(DispatchMode::Verification, groups@),
{
    dispatch(DispatchMode::Verification, groups)
}

/// The rank fixing the explicit total order of statuses, so that grouped
/// output — and with it the order of emitted events — is reproducible
/// across runs on the same input set.
pub open spec fn status_rank(s: VerificationStatus) -> int {
    match s {
        VerificationStatus::Unverified => 0,
        VerificationStatus::NotFound => 1,
        VerificationStatus::FailedToVerify => 2,
        VerificationStatus::InProgress => 3,
        VerificationStatus::SucceededOnChain => 4,
        VerificationStatus::FailedOnChain => 5,
    }
}

/// The status standing at a given rank.
fn status_of_rank(k: usize) -> (r: VerificationStatus)
    requires
        k < 6,
    ensures
        status_rank(r) == k,
{
    match k {
        0 => VerificationStatus::Unverified,
        1 => VerificationStatus::NotFound,
        2 => VerificationStatus::FailedToVerify,
        3 => VerificationStatus::InProgress,
        4 => VerificationStatus::SucceededOnChain,
        _ => VerificationStatus::FailedOnChain,
    }
}

/// The messages of a batch tagged with a given status, in arrival order.
pub open spec fn msgs_with_status(
    pairs: Seq<(Message, VerificationStatus)>,
    s: VerificationStatus,
) -> Seq<MessageView>
    decreases pairs.len(),
{
    if pairs.len() == 0 {
        Seq::<MessageView>::empty()
    } else {
        msgs_with_status(pairs.drop_last(), s) + (if pairs.last().1 == s {
            seq![pairs.last().0@]
        } else {
            Seq::<MessageView>::empty()
        })
    }
}

/// Collect the messages tagged with one status, keeping arrival order.
fn collect_with_status(pairs: &Vec<(Message, VerificationStatus)>, s: VerificationStatus) -> (r:
    Vec<Message>)
    ensures
        msg_views(r@) == msgs_with_status(pairs@, s),
{
    let mut r: Vec<Message> = Vec::new();
    let mut i: usize = 0;
    while i < pairs.len()
        invariant
            i <= pairs@.len(),
            msg_views(r@) == msgs_with_status(pairs@.take(i as int), s),
        decreases pairs@.len() - i,
    {
        let ghost prev = r@;
        if pairs[i].1 == s {
            r.push(pairs[i].0.dup());
        }
        proof {
            let gi = i as int;
            assert(pairs@.take(gi + 1).drop_last() =~= pairs@.take(gi));
            assert(pairs@.take(gi + 1).last() == pairs@[gi]);
            if pairs@[gi].1 == s {
                assert(msg_views(r@) =~= msg_views(prev) + seq![pairs@[gi].0@]);
            } else {
                assert(r@ == prev);
            }
        }
        i = i + 1;
    }
    proof {
        assert(pairs@.take(i as int) =~= pairs@);
    }
    r
}

/// Group a batch of (message, status) pairs by status, deterministically:
/// the groups come out sorted by the explicit status order, only statuses
/// that occur form a group, and messages keep their relative arrival order
/// within their group.
pub fn group_by_status(pairs: &Vec<(Message, VerificationStatus)>) -> (r: Vec<
    (VerificationStatus, Vec<Message>),
>)
    ensures
        forall|a: int|
            0 <= a < r@.len() ==> msg_views((#[trigger] r@[a]).1@) == msgs_with_status(
                pairs@,
                r@[a].0,
            ) && r@[a].1@.len() > 0,
        forall|a: int, b: int|
            0 <= a < b < r@.len() ==> status_rank((#[trigger] r@[a]).0) < status_rank(
                (#[trigger] r@[b]).0,
            ),
        forall|s: VerificationStatus|
            msgs_with_status(pairs@, s).len() > 0 ==> exists|a: int|
                0 <= a < r@.len() && (#[trigger] r@[a]).0 == s,
{
    let mut r: Vec<(VerificationStatus, Vec<Message>)> = Vec::new();
    let mut k: usize = 0;
    while k < 6
        invariant
            k <= 6,
            forall|a: int|
                0 <= a < r@.len() ==> msg_views((#[trigger] r@[a]).1@) == msgs_with_status(
                    pairs@,
                    r@[a].0,
                ) && r@[a].1@.len() > 0,
            forall|a: int, b: int|
                0 <= a < b < r@.len() ==> status_rank((#[trigger] r@[a]).0) < status_rank(
                    (#[trigger] r@[b]).0,
                ),
            forall|a: int| 0 <= a < r@.len() ==> status_rank((#[trigger] r@[a]).0) < k,
            forall|s: VerificationStatus|
                status_rank(s) < k && msgs_with_status(pairs@, s).len() > 0 ==> exists|a: int|
                    0 <= a < r@.len() && (#[trigger] r@[a]).0 == s,
        decreases 6 - k,
    {
        let s = status_of_rank(k);
        let ms = collect_with_status(pairs, s);
        let ghost prev = r@;
        if ms.len() > 0 {
            r.push((s, ms));
            proof {
                assert(forall|a: int| 0 <= a < prev.len() ==> prev[a] == #[trigger] r@[a]);
                assert(r@[prev.len() as int] == (s, ms));
            }
        }
        proof {
            assert forall|t: VerificationStatus|
                status_rank(t) < k + 1 && msgs_with_status(pairs@, t).len() > 0 implies exists|
                a: int,
            |
                0 <= a < r@.len() && (#[trigger] r@[a]).0 == t by {
                if status_rank(t) == k {
                    assert(t == s) by {
                        if t != s {
                            assert(status_rank(t) != status_rank(s));
                        }
                    }
                    assert(r@[r@.len() - 1].0 == s);
                } else {
                    let a = choose|a: int| 0 <= a < prev.len() && (#[trigger] prev[a]).0 == t;
                    assert(r@[a].0 == t);
                }
            }
        }
        k = k + 1;
    }
    proof {
        assert forall|s: VerificationStatus|
            msgs_with_status(pairs@, s).len() > 0 implies exists|a: int|
            0 <= a < r@.len() && (#[trigger] r@[a]).0 == s by {
            assert(status_rank(s) < 6);
        }
    }
    r
}

/// The response of an inbound routing pass: the batch merged into the one
/// downstream call to the routing network, and one event per message.
pub struct RoutedBatch {
    pub call: Vec<Message>,
    pub events: Vec<GatewayEvent>,
}

/// Route a batch arriving from the transport side: reject duplicates, then
/// dispatch the whole batch as a single on-chain-succeeded group — messages
/// arriving through this path are already considered verified by
/// construction, their provenance being the routing network itself.
pub fn route_incoming_messages(msgs: Vec<Message>) -> (r: Result<RoutedBatch, GatewayError>)
    ensures
        match r {
            Ok(b) => distinct_cc_ids(msg_views(msgs@)) && msg_views(b.call@) == msg_views(msgs@)
                && ev_views(b.events@) == msg_views(msgs@).map_values(
                |m: MessageView| GatewayEventView { disposition: Disposition::Routing, msg: m },
            ),
            Err(e) => !distinct_cc_ids(msg_views(msgs@)) && e == GatewayError::DuplicateMessageIds,
        },
{
    let msgs = match check_for_duplicates(msgs) {
        Ok(m) => m,
        Err(e) => {
            return Err(e);
        },
    };
    let ghost mv = msg_views(msgs@);
    let mut groups: Vec<(VerificationStatus, Vec<Message>)> = Vec::new();
    groups.push((VerificationStatus::SucceededOnChain, msgs));
    let (call, events) = route(groups);
    proof {
        let gs = groups@;
        let empty_gs = Seq::<(VerificationStatus, Vec<Message>)>::empty();
        assert(gs.drop_last() =~= empty_gs);
        assert(eligible_msgs(DispatchMode::Routing, empty_gs) == Seq::<MessageView>::empty());
        assert(dispatch_events(DispatchMode::Routing, empty_gs) == Seq::<
            GatewayEventView,
        >::empty());
        assert(eligible_msgs(DispatchMode::Routing, gs) =~= mv);
        assert(dispatch_events(DispatchMode::Routing, gs) =~= mv.map_values(
            |m: MessageView| GatewayEventView { disposition: Disposition::Routing, msg: m },
        ));
    }
    Ok(RoutedBatch { call, events })
}

/// The destination of one outbound message can be resolved: its source
/// network id names a counterparty network, and that network has a channel
/// configuration.
pub open spec fn resolvable(g: CwIbcConnection, m: Message) -> bool {
    match g.counterparty_of(m.source_nid) {
        Option::Some(nid) => g.config_of(nid) is Some,
        Option::None => false,
    }
}

/// Every message of the batch can be resolved to a configured channel.
pub open spec fn all_resolvable(g: CwIbcConnection, msgs: Seq<Message>) -> bool {
    forall|k: int| 0 <= k < msgs.len() ==> resolvable(g, #[trigger] msgs[k])
}

/// One step of the outbound routing loop: the message's counterparty
/// network was resolved and the send succeeded on it.
pub open spec fn send_step(
    pre: CwIbcConnection,
    post: CwIbcConnection,
    m: MessageView,
    h: SendHandle,
) -> bool {
    match pre.counterparty_of(m.source_nid) {
        Option::Some(nid) => send_ok(pre, post, m, nid, h),
        Option::None => false,
    }
}

/// The state change of a whole outbound batch: one successful send per
/// message, in batch order, each from the state the previous send left.
pub open spec fn outgoing_chain(
    pre: CwIbcConnection,
    post: CwIbcConnection,
    msgs: Seq<Message>,
    handles: Seq<SendHandle>,
) -> bool
    decreases msgs.len(),
{
    if msgs.len() == 0 {
        &&& post == pre
        &&& handles.len() == 0
    } else if handles.len() != msgs.len() {
        false
    } else {
        exists|mid: CwIbcConnection|
            #![trigger send_step(mid, post, msgs.last()@, handles.last())]
            outgoing_chain(pre, mid, msgs.drop_last(), handles.drop_last()) && send_step(
                mid,
                post,
                msgs.last()@,
                handles.last(),
            )
    }
}

/// Route a batch arriving from the routing network out over the transport
/// channel: reject duplicates, resolve every message's destination before
/// any send — so a failing batch changes nothing — then build and send one
/// packet per message in order, and report one `Routing` event per
/// message. The whole call fails on the first unresolvable message; there
/// is no partial commit.
pub fn route_outgoing_messages(conn: &mut CwIbcConnection, verified: Vec<Message>) -> (r: Result<
    (Vec<SendHandle>, Vec<GatewayEvent>),
    GatewayError,
>)
    requires
        old(conn).wf(),
        forall|c: u64| old(conn).host.next_seq_of(c) + verified@.len() <= u64::MAX,
    ensures
        final(conn).wf(),
        r is Ok <==> distinct_cc_ids(msg_views(verified@)) && all_resolvable(
            *old(conn),
            verified@,
        ),
        match r {
            Ok((handles, events)) => {
                &&& outgoing_chain(*old(conn), *final(conn), verified@, handles@)
                &&& ev_views(events@) == msg_views(verified@).map_values(
                    |m: MessageView| GatewayEventView {
                        disposition: Disposition::Routing,
                        msg: m,
                    },
                )
            },
            Err(e) => {
                &&& *final(conn) == *old(conn)
                &&& (e == GatewayError::DuplicateMessageIds && !distinct_cc_ids(
                    msg_views(verified@),
                )) || (e == GatewayError::ConfigNotFound && distinct_cc_ids(msg_views(verified@))
                    && !all_resolvable(*old(conn), verified@))
            },
        },
{
    let msgs = match check_for_duplicates(verified) {
        Ok(m) => m,
        Err(e) => {
            return Err(e);
        },
    };
    let mut k: usize = 0;
    while k < msgs.len()
        invariant
            *conn == *old(conn),
            old(conn).wf(),
            msgs@ == verified@,
            distinct_cc_ids(msg_views(verified@)),
            k <= msgs@.len(),
            forall|j: int| 0 <= j < k ==> resolvable(*old(conn), #[trigger] msgs@[j]),
        decreases msgs@.len() - k,
    {
        let ok = match conn.get_counterparty_nid(msgs[k].source_nid) {
            Some(nid) => conn.get_ibc_config(nid).is_some(),
            None => false,
        };
        if !ok {
            proof {
                assert(!resolvable(*old(conn), msgs@[k as int]));
            }
            return Err(GatewayError::ConfigNotFound);
        }
        k = k + 1;
    }
    let mut handles: Vec<SendHandle> = Vec::new();
    let mut i: usize = 0;
    while i < msgs.len()
        invariant
            conn.wf(),
            msgs@ == verified@,
            distinct_cc_ids(msg_views(verified@)),
            i <= msgs@.len(),
            handles@.len() == i,
            conn.configs == old(conn).configs,
            conn.counterparty_nids == old(conn).counterparty_nids,
            all_resolvable(*old(conn), msgs@),
            outgoing_chain(*old(conn), *conn, msgs@.take(i as int), handles@),
            forall|c: u64| conn.host.next_seq_of(c) + (msgs@.len() - i) <= u64::MAX,
        decreases msgs@.len() - i,
    {
        let nid = match conn.get_counterparty_nid(msgs[i].source_nid) {
            Some(nid) => nid,
            None => {
                proof {
                    assert(resolvable(*old(conn), msgs@[i as int]));
                    assert(false);
                }
                return Err(GatewayError::ConfigNotFound);
            },
        };
        let ghost prev = *conn;
        let ghost prev_handles = handles@;
        let h = match conn.send_message(nid, msgs[i].dup()) {
            Ok(h) => h,
            Err(e) => {
                proof {
                    assert(resolvable(*old(conn), msgs@[i as int]));
                    assert(false);
                }
                return Err(e);
            },
        };
        handles.push(h);
        proof {
            let gi = i as int;
            assert(send_ok(prev, *conn, msgs@[gi]@, nid, h));
            assert(send_step(prev, *conn, msgs@[gi]@, h));
            assert(msgs@.take(gi + 1).drop_last() =~= msgs@.take(gi));
            assert(msgs@.take(gi + 1).last() == msgs@[gi]);
            assert(handles@.drop_last() =~= prev_handles);
            assert(handles@.last() == h);
            assert(outgoing_chain(*old(conn), *conn, msgs@.take(gi + 1), handles@));
            assert forall|c: u64| conn.host.next_seq_of(c) + (msgs@.len() - (gi + 1))
                <= u64::MAX by {
                if conn.host.next_seq_of(c) == prev.host.next_seq_of(c) + 1 {
                } else {
                    assert(conn.host.next_seq_of(c) == prev.host.next_seq_of(c));
                }
            }
        }
        i = i + 1;
    }
    proof {
        assert(msgs@.take(i as int) =~= msgs@);
    }
    let events = messages_into_events(msgs, Disposition::Routing);
    Ok((handles, events))
}

/// The messages of all groups of a batch, group order first, arrival order
/// second.
pub open spec fn all_msgs(groups: Seq<(VerificationStatus, Vec<Message>)>) -> Seq<MessageView>
    decreases groups.len(),
{
    if groups.len() == 0 {
        Seq::<MessageView>::empty()
    } else {
        all_msgs(groups.drop_last()) + msg_views(groups.last().1@)
    }
}

/// Classification completeness: in one dispatch pass the messages carried
/// by the emitted events are exactly the messages of all input groups, in
/// order — no message is dropped, and none is reported twice.
pub proof fn lemma_classification_completeness(
    mode: DispatchMode,
    groups: Seq<(VerificationStatus, Vec<Message>)>,
)
    ensures
        dispatch_events(mode, groups).map_values(|e: GatewayEventView| e.msg) == all_msgs(groups),
    decreases groups.len(),
{
    let f = |e: GatewayEventView| e.msg;
    if groups.len() == 0 {
        assert(dispatch_events(mode, groups).map_values(f) =~= all_msgs(groups));
    } else {
        lemma_classification_completeness(mode, groups.drop_last());
        assert(group_event_views(mode, groups.last().0, groups.last().1@).map_values(f)
            =~= msg_views(groups.last().1@));
        assert(dispatch_events(mode, groups).map_values(f) =~= dispatch_events(
            mode,
            groups.drop_last(),
        ).map_values(f) + group_event_views(mode, groups.last().0, groups.last().1@).map_values(
            f,
        ));
    }
}

/// Some group whose status succeeded on chain holds a message of this
/// value.
pub open spec fn in_routable_group(
    groups: Seq<(VerificationStatus, Vec<Message>)>,
    m: MessageView,
) -> bool {
    exists|k: int, j: int|
        #![trigger groups[k].1@[j]]
        0 <= k < groups.len() && routable(groups[k].0) && 0 <= j < groups[k].1@.len()
            && groups[k].1@[j]@ == m
}

/// Routability law, call side: a message value is merged into the outbound
/// routing call iff some group whose status succeeded on chain holds it;
/// a group of any other status contributes nothing to the call.
pub proof fn lemma_routability_call(groups: Seq<(VerificationStatus, Vec<Message>)>)
    ensures
        forall|m: MessageView|
            eligible_msgs(DispatchMode::Routing, groups).contains(m) <==> in_routable_group(
                groups,
                m,
            ),
    decreases groups.len(),
{
    if groups.len() == 0 {
    } else {
        lemma_routability_call(groups.drop_last());
        let n = groups.len() - 1;
        let dl = groups.drop_last();
        assert forall|m: MessageView|
            eligible_msgs(DispatchMode::Routing, groups).contains(m) implies in_routable_group(
            groups,
            m,
        ) by {
            let c = eligible_contribution(DispatchMode::Routing, groups.last());
            let whole = eligible_msgs(DispatchMode::Routing, groups);
            let pre = eligible_msgs(DispatchMode::Routing, dl);
            let x = choose|x: int| 0 <= x < whole.len() && whole[x] == m;
            if x < pre.len() {
                assert(pre[x] == m);
                assert(pre.contains(m));
                assert(in_routable_group(dl, m));
                let (k, j) = choose|k: int, j: int|
                    #![trigger dl[k].1@[j]]
                    0 <= k < dl.len() && routable(dl[k].0) && 0 <= j < dl[k].1@.len()
                        && dl[k].1@[j]@ == m;
                assert(groups[k] == dl[k]);
                assert(groups[k].1@[j]@ == m);
            } else {
                assert(c[x - pre.len()] == m);
                assert(routable(groups[n].0));
                let j = x - pre.len();
                assert(msg_views(groups.last().1@)[j] == m);
                assert(groups[n].1@[j]@ == m);
            }
        }
        assert forall|m: MessageView| in_routable_group(groups, m) implies eligible_msgs(
            DispatchMode::Routing,
            groups,
        ).contains(m) by {
            let (k, j) = choose|k: int, j: int|
                #![trigger groups[k].1@[j]]
                0 <= k < groups.len() && routable(groups[k].0) && 0 <= j < groups[k].1@.len()
                    && groups[k].1@[j]@ == m;
            if k < n {
                assert(dl[k] == groups[k]);
                assert(dl[k].1@[j]@ == m);
                assert(in_routable_group(dl, m));
                assert(eligible_msgs(DispatchMode::Routing, dl).contains(m));
                let x = choose|x: int| 0 <= x < eligible_msgs(DispatchMode::Routing, dl).len()
                    && eligible_msgs(DispatchMode::Routing, dl)[x] == m;
                assert(eligible_msgs(DispatchMode::Routing, groups)[x] == m);
            } else {
                let c = eligible_contribution(DispatchMode::Routing, groups.last());
                assert(c[j] == m);
                assert(eligible_msgs(DispatchMode::Routing, groups)[eligible_msgs(
                    DispatchMode::Routing,
                    dl,
                ).len() + j] == m);
            }
        }
    }
}

/// Every message occurrence of a batch stands among the batch's messages.
proof fn lemma_occurrence_in_all_msgs(
    groups: Seq<(VerificationStatus, Vec<Message>)>,
    k: int,
    j: int,
)
    requires
        0 <= k < groups.len(),
        0 <= j < groups[k].1@.len(),
    ensures
        all_msgs(groups).contains(groups[k].1@[j]@),
    decreases groups.len(),
{
    let n = groups.len() - 1;
    let dl = groups.drop_last();
    if k == n {
        assert(all_msgs(groups)[all_msgs(dl).len() + j] == groups[k].1@[j]@);
    } else {
        lemma_occurrence_in_all_msgs(dl, k, j);
        assert(dl[k] == groups[k]);
        let x = choose|x: int| 0 <= x < all_msgs(dl).len() && all_msgs(dl)[x] == dl[k].1@[j]@;
        assert(all_msgs(groups)[x] == groups[k].1@[j]@);
    }
}

/// The message of every event of a dispatch pass stands among the batch's
/// messages.
proof fn lemma_event_msg_in_all_msgs(
    mode: DispatchMode,
    groups: Seq<(VerificationStatus, Vec<Message>)>,
    e: GatewayEventView,
)
    requires
        dispatch_events(mode, groups).contains(e),
    ensures
        all_msgs(groups).contains(e.msg),
{
    lemma_classification_completeness(mode, groups);
    let f = |ev: GatewayEventView| ev.msg;
    let x = choose|x: int| 0 <= x < dispatch_events(mode, groups).len() && dispatch_events(
        mode,
        groups,
    )[x] == e;
    assert(all_msgs(groups)[x] == e.msg);
}

/// Routability law, event side: after the duplicate gate, every event of a
/// routing pass carries the `Routing` or the `UnfitForRouting` disposition,
/// and it carries `Routing` iff its message stands in a group whose status
/// succeeded on chain — so exactly the messages excluded from the call are
/// reported unfit.
pub proof fn lemma_routability_events(groups: Seq<(VerificationStatus, Vec<Message>)>)
    requires
        distinct_cc_ids(all_msgs(groups)),
    ensures
        forall|e: GatewayEventView|
            dispatch_events(DispatchMode::Routing, groups).contains(e) ==> (e.disposition
                == Disposition::Routing || e.disposition == Disposition::UnfitForRouting),
        forall|e: GatewayEventView|
            dispatch_events(DispatchMode::Routing, groups).contains(e) ==> (e.disposition
                == Disposition::Routing <==> in_routable_group(groups, e.msg)),
    decreases groups.len(),
{
    if groups.len() == 0 {
    } else {
        let n = groups.len() - 1;
        let dl = groups.drop_last();
        assert(forall|k: int| 0 <= k < n ==> dl[k] == #[trigger] groups[k]);
        assert(distinct_cc_ids(all_msgs(dl))) by {
            assert forall|x: int, y: int| 0 <= x < y < all_msgs(dl).len() implies all_msgs(
                dl,
            )[x].cc_id != all_msgs(dl)[y].cc_id by {
                assert(all_msgs(groups)[x] == all_msgs(dl)[x]);
                assert(all_msgs(groups)[y] == all_msgs(dl)[y]);
            }
        }
        lemma_routability_events(dl);
        // messages of earlier groups and of the last group never share an id
        assert forall|x: int, j: int|
            #![trigger all_msgs(dl)[x], groups[n].1@[j]]
            0 <= x < all_msgs(dl).len() && 0 <= j < groups[n].1@.len() implies all_msgs(
            dl,
        )[x].cc_id != groups[n].1@[j]@.cc_id by {
            assert(all_msgs(groups)[x] == all_msgs(dl)[x]);
            assert(all_msgs(groups)[all_msgs(dl).len() + j] == msg_views(groups.last().1@)[j]);
        }
        assert forall|e: GatewayEventView|
            dispatch_events(DispatchMode::Routing, groups).contains(e) implies (e.disposition
            == Disposition::Routing <==> in_routable_group(groups, e.msg)) && (e.disposition
            == Disposition::Routing || e.disposition == Disposition::UnfitForRouting) by {
            let evs = group_event_views(DispatchMode::Routing, groups.last().0, groups.last().1@);
            let whole = dispatch_events(DispatchMode::Routing, groups);
            let pre = dispatch_events(DispatchMode::Routing, dl);
            let x0 = choose|x0: int| 0 <= x0 < whole.len() && whole[x0] == e;
            if x0 < pre.len() {
                assert(pre[x0] == e);
                assert(pre.contains(e));
            } else {
                assert(evs[x0 - pre.len()] == e);
                assert(evs.contains(e));
            }
            if dispatch_events(DispatchMode::Routing, dl).contains(e) {
                lemma_event_msg_in_all_msgs(DispatchMode::Routing, dl, e);
                let x = choose|x: int| 0 <= x < all_msgs(dl).len() && all_msgs(dl)[x] == e.msg;
                if e.disposition == Disposition::Routing {
                    assert(in_routable_group(dl, e.msg));
                    let (k, j) = choose|k: int, j: int|
                        #![trigger dl[k].1@[j]]
                        0 <= k < dl.len() && routable(dl[k].0) && 0 <= j < dl[k].1@.len()
                            && dl[k].1@[j]@ == e.msg;
                    assert(groups[k].1@[j]@ == e.msg);
                    assert(in_routable_group(groups, e.msg));
                } else {
                    if in_routable_group(groups, e.msg) {
                        let (k, j) = choose|k: int, j: int|
                            #![trigger groups[k].1@[j]]
                            0 <= k < groups.len() && routable(groups[k].0) && 0 <= j
                                < groups[k].1@.len() && groups[k].1@[j]@ == e.msg;
                        if k < n {
                            assert(dl[k].1@[j]@ == e.msg);
                            assert(in_routable_group(dl, e.msg));
                        } else {
                            // the last group would hold the same id as an
                            // earlier message, against the duplicate gate
                            assert(all_msgs(dl)[x].cc_id == groups[n].1@[j]@.cc_id);
                            assert(false);
                        }
                    }
                }
            } else {
                let j = choose|j: int| 0 <= j < evs.len() && evs[j] == e;
                assert(e.disposition == disposition_for(DispatchMode::Routing, groups[n].0));
                assert(e.msg == groups[n].1@[j]@);
                if routable(groups[n].0) {
                    assert(in_routable_group(groups, e.msg));
                } else {
                    if in_routable_group(groups, e.msg) {
                        let (k, jj) = choose|k: int, jj: int|
                            #![trigger groups[k].1@[jj]]
                            0 <= k < groups.len() && routable(groups[k].0) && 0 <= jj
                                < groups[k].1@.len() && groups[k].1@[jj]@ == e.msg;
                        assert(k < n);
                        assert(dl[k] == groups[k]);
                        lemma_occurrence_in_all_msgs(dl, k, jj);
                        let x = choose|x: int| 0 <= x < all_msgs(dl).len() && all_msgs(dl)[x]
                            == dl[k].1@[jj]@;
                        assert(all_msgs(dl)[x].cc_id == groups[n].1@[j]@.cc_id);
                        assert(false);
                    }
                }
            }
        }
    }
}

} // verus!
