use vstd::prelude::*;

use crate::codec::{decode_message, encode_message, spec_encode};
use crate::dispatch::{route_incoming_messages, RoutedBatch};
use crate::events::{Disposition, GatewayEventView};
use crate::types::{GatewayError, Message, MessageView};

verus! {

/// Seconds added to the host's wall clock for the relative timeout bound a
/// packet carries.
pub const RELATIVE_TIMEOUT_SECONDS: u64 = 300;

/// Per counterparty-network-id channel record: the two endpoints, the light
/// client backing the channel, and the configured timeout height. Written
/// by configuration operations outside this core; read-only here.
#[derive(Clone, Copy, Debug, PartialEq, Eq, Structural)]
pub struct ChannelConfig {
    /// Local endpoint channel id.
    pub channel_id: u64,
    /// Local endpoint port id.
    pub port_id: u64,
    /// Counterparty endpoint channel id.
    pub destination_channel_id: u64,
    /// Counterparty endpoint port id.
    pub destination_port_id: u64,
    /// The light client backing this channel.
    pub light_client_id: u64,
    /// Configured timeout height for the connection.
    pub timeout_height: u64,
}

/// The timeout a packet carries: both bounds are present, and the later of
/// the two wins — the transport layer enforces it, this core only computes
/// the value.
#[derive(Clone, Copy, Debug, PartialEq, Eq, Structural)]
pub struct PacketTimeout {
    /// Absolute block-height bound.
    pub height_bound: u64,
    /// Absolute wall-clock bound, in seconds.
    pub timestamp_bound: u64,
}

impl PacketTimeout {
    /// Build a timeout from both bounds; each must be present.
    pub fn with_both(height_bound: u64, timestamp_bound: u64) -> (r: PacketTimeout)
        ensures
            r.height_bound == height_bound,
            r.timestamp_bound == timestamp_bound,
    {
        PacketTimeout { height_bound, timestamp_bound }
    }

    /// The later of the two bounds.
    pub open spec fn spec_latest(self) -> u64 {
        if self.height_bound >= self.timestamp_bound {
            self.height_bound
        } else {
            self.timestamp_bound
        }
    }

    /// The later of the two bounds wins.
    pub fn latest(&self) -> (r: u64)
        ensures
            r == self.spec_latest(),
    {
        if self.height_bound >= self.timestamp_bound {
            self.height_bound
        } else {
            self.timestamp_bound
        }
    }
}

/// The wall-clock bound carried by an outbound packet: the host's clock
/// plus the relative timeout, saturating at the largest representable
/// instant.
pub open spec fn wall_clock_bound(now: u64) -> u64 {
    if now + RELATIVE_TIMEOUT_SECONDS <= u64::MAX {
        (now + RELATIVE_TIMEOUT_SECONDS) as u64
    } else {
        u64::MAX
    }
}

/// A transport packet bound for the counterparty endpoint.
pub struct Packet {
    /// The channel the packet is sent on.
    pub channel_id: u64,
    /// The sequence number allocated for this packet on that channel.
    pub sequence: u64,
    /// The serialized routed message.
    pub payload: Vec<u8>,
    /// Timeout for the transport layer's own enforcement.
    pub timeout: PacketTimeout,
}

/// The mathematical value of a [`Packet`].
#[verifier::ext_equal]
pub ghost struct PacketView {
    pub channel_id: u64,
    pub sequence: u64,
    pub payload: Seq<u8>,
    pub timeout: PacketTimeout,
}

impl View for Packet {
    type V = PacketView;

    open spec fn view(&self) -> PacketView {
        PacketView {
            channel_id: self.channel_id,
            sequence: self.sequence,
            payload: self.payload@,
            timeout: self.timeout,
        }
    }
}

impl Packet {
    /// Produce an identical copy of the packet.
    pub fn dup(&self) -> (r: Packet)
        ensures
            r@ == self@,
    {
        Packet {
            channel_id: self.channel_id,
            sequence: self.sequence,
            payload: crate::types::copy_bytes(&self.payload),
            timeout: self.timeout,
        }
    }
}

/// A pending packet record is the sent packet itself, keyed by its
/// `(channel_id, sequence)` pair; it holds what is needed to construct the
/// acknowledgement later.
pub type PendingPacketRecord = Packet;

/// What the transport host was handed: either a packet for dispatch, or an
/// acknowledgement-write directive for a previously received packet.
pub enum SendHandle {
    PacketDispatched { packet: Packet },
    AckWritten { packet: Packet, ack: Vec<u8> },
}

impl SendHandle {
    /// The sequence number of the packet the directive concerns.
    pub open spec fn spec_sequence(self) -> u64 {
        match self {
            SendHandle::PacketDispatched { packet } => packet.sequence,
            SendHandle::AckWritten { packet, .. } => packet.sequence,
        }
    }
}

/// The value found under a key in an association list, scanning from the
/// front, so that the newest entry — entries are pushed at the front — wins.
pub open spec fn assoc<V>(s: Seq<(u64, V)>, k: u64) -> Option<V>
    decreases s.len(),
{
    if s.len() == 0 {
        Option::<V>::None
    } else if s[0].0 == k {
        Option::Some(s[0].1)
    } else {
        assoc(s.skip(1), k)
    }
}

/// A key absent from a prefix is found, if anywhere, past it.
proof fn lemma_assoc_skip<V>(s: Seq<(u64, V)>, k: u64, i: int)
    requires
        0 <= i <= s.len(),
        forall|j: int| 0 <= j < i ==> (#[trigger] s[j]).0 != k,
    ensures
        assoc(s, k) == assoc(s.skip(i), k),
    decreases i,
{
    if i > 0 {
        assert(s[0].0 != k);
        assert forall|j: int| 0 <= j < i - 1 implies (#[trigger] s.skip(1)[j]).0 != k by {
            assert(s.skip(1)[j] == s[j + 1]);
        }
        lemma_assoc_skip(s.skip(1), k, i - 1);
        assert(s.skip(1).skip(i - 1) =~= s.skip(i));
    } else {
        assert(s.skip(0) =~= s);
    }
}

/// Look a key up in an association list held in a vector.
fn assoc_get<V: Copy>(v: &Vec<(u64, V)>, k: u64) -> (r: Option<V>)
    ensures
        r == assoc(v@, k),
{
    let mut i: usize = 0;
    while i < v.len()
        invariant
            i <= v.len(),
            forall|j: int| 0 <= j < i ==> (#[trigger] v@[j]).0 != k,
        decreases v.len() - i,
    {
        if v[i].0 == k {
            proof {
                lemma_assoc_skip(v@, k, i as int);
            }
            return Some(v[i].1);
        }
        i = i + 1;
    }
    proof {
        lemma_assoc_skip(v@, k, i as int);
        assert(v@.skip(i as int) =~= Seq::<(u64, V)>::empty());
    }
    None
}

/// The in-memory model of the transport host this core runs against: the
/// per-channel outgoing sequence counters, the per-channel timeout heights,
/// and the host's wall clock. The core reads the counters; only dispatching
/// a packet advances them.
pub struct TransportHost {
    /// Per-channel next outgoing sequence number; the newest entry for a
    /// channel, nearest the front, is current.
    pub next_sequences: Vec<(u64, u64)>,
    /// Per-channel timeout height applicable to the local endpoint.
    pub timeout_heights: Vec<(u64, u64)>,
    /// The host's wall clock, in seconds.
    pub now: u64,
}

impl TransportHost {
    /// The next outgoing sequence number of a channel; a channel never sent
    /// on starts at zero.
    pub open spec fn next_seq_of(self, channel_id: u64) -> u64 {
        match assoc(self.next_sequences@, channel_id) {
            Option::Some(s) => s,
            Option::None => 0,
        }
    }

    /// The timeout height currently applicable to a channel's local
    /// endpoint; zero when none is recorded.
    pub open spec fn timeout_height_of(self, channel_id: u64) -> u64 {
        match assoc(self.timeout_heights@, channel_id) {
            Option::Some(h) => h,
            Option::None => 0,
        }
    }

    /// Query the next outgoing sequence number to use on a channel.
    pub fn next_sequence(&self, channel_id: u64) -> (r: u64)
        ensures
            r == self.next_seq_of(channel_id),
    {
        match assoc_get(&self.next_sequences, channel_id) {
            Some(s) => s,
            None => 0,
        }
    }

    /// Query the current timeout height applicable to a channel.
    pub fn current_timeout_height(&self, channel_id: u64) -> (r: u64)
        ensures
            r == self.timeout_height_of(channel_id),
    {
        match assoc_get(&self.timeout_heights, channel_id) {
            Some(h) => h,
            None => 0,
        }
    }

    /// Hand a packet to the host for dispatch. The host advances the
    /// packet's channel counter by one and leaves every other channel, the
    /// timeout heights and the clock unchanged.
    pub fn dispatch_packet(&mut self, packet: Packet) -> (h: SendHandle)
        requires
            old(self).next_seq_of(packet.channel_id) < u64::MAX,
        ensures
            final(self).next_seq_of(packet.channel_id) == old(self).next_seq_of(packet.channel_id)
                + 1,
            forall|c: u64|
                c != packet.channel_id ==> final(self).next_seq_of(c) == old(self).next_seq_of(c),
            final(self).timeout_heights == old(self).timeout_heights,
            final(self).now == old(self).now,
            h == (SendHandle::PacketDispatched { packet }),
    {
        let cur = self.next_sequence(packet.channel_id);
        self.next_sequences.insert(0, (packet.channel_id, cur + 1));
        proof {
            assert(self.next_sequences@.skip(1) =~= old(self).next_sequences@);
            assert forall|c: u64| c != packet.channel_id implies self.next_seq_of(c) == old(
                self,
            ).next_seq_of(c) by {
                assert(assoc(self.next_sequences@, c) == assoc(old(self).next_sequences@, c));
            }
        }
        SendHandle::PacketDispatched { packet }
    }

    /// Hand the host an acknowledgement-write directive for a previously
    /// sent packet; the host's own state does not change.
    pub fn write_host_acknowledgement(&self, packet: Packet, ack: Vec<u8>) -> (h: SendHandle)
        ensures
            h == (SendHandle::AckWritten { packet, ack }),
    {
        SendHandle::AckWritten { packet, ack }
    }
}

/// The gateway's connection state: the channel configuration store, the
/// counterparty-network map, the pending packet records awaiting an
/// acknowledgement, and the transport host it runs against.
pub struct CwIbcConnection {
    /// Channel configuration per counterparty network id; the newest entry,
    /// nearest the front, is current.
    pub configs: Vec<(u64, ChannelConfig)>,
    /// Counterparty network id per source network id.
    pub counterparty_nids: Vec<(u64, u64)>,
    /// Pending packet records, at most one per (channel, sequence) pair.
    pub pending: Vec<PendingPacketRecord>,
    /// The transport host.
    pub host: TransportHost,
}

impl CwIbcConnection {
    /// The channel configuration stored for a counterparty network id.
    pub open spec fn config_of(self, nid: u64) -> Option<ChannelConfig> {
        assoc(self.configs@, nid)
    }

    /// The counterparty network id stored for a source network id.
    pub open spec fn counterparty_of(self, source_nid: u64) -> Option<u64> {
        assoc(self.counterparty_nids@, source_nid)
    }

    /// A pending packet record exists for the (channel, sequence) pair.
    pub open spec fn has_pending(self, channel_id: u64, sequence: u64) -> bool {
        exists|i: int|
            #![trigger self.pending@[i]]
            0 <= i < self.pending@.len() && self.pending@[i].channel_id == channel_id
                && self.pending@[i].sequence == sequence
    }

    /// Well-formedness: at most one pending record per (channel, sequence)
    /// pair, and every pending sequence number was allocated — it lies
    /// below the channel's next outgoing sequence number.
    pub open spec fn wf(self) -> bool {
        &&& forall|i: int, j: int|
            #![trigger self.pending@[i], self.pending@[j]]
            0 <= i < j < self.pending@.len() ==> !(self.pending@[i].channel_id
                == self.pending@[j].channel_id && self.pending@[i].sequence
                == self.pending@[j].sequence)
        &&& forall|i: int|
            #![trigger self.pending@[i]]
            0 <= i < self.pending@.len() ==> self.pending@[i].sequence < self.host.next_seq_of(
                self.pending@[i].channel_id,
            )
    }

    /// Look up the channel configuration for a counterparty network id.
    pub fn get_ibc_config(&self, nid: u64) -> (r: Option<ChannelConfig>)
        ensures
            r == self.config_of(nid),
    {
        assoc_get(&self.configs, nid)
    }

    /// Look up the counterparty network id for a source network id.
    pub fn get_counterparty_nid(&self, source_nid: u64) -> (r: Option<u64>)
        ensures
            r == self.counterparty_of(source_nid),
    {
        assoc_get(&self.counterparty_nids, source_nid)
    }
}

/// One successful outbound send, from `pre` to `post`: the channel
/// configuration of `nid` was resolved, the packet was assembled with the
/// channel's next sequence number, the wire-encoded message and the
/// two-bound timeout, a pending record was stored under the packet's
/// (channel, sequence) pair, and the host advanced that channel's counter
/// by one. Nothing else changed.
pub open spec fn send_ok(
    pre: CwIbcConnection,
    post: CwIbcConnection,
    m: MessageView,
    nid: u64,
    h: SendHandle,
) -> bool {
    match (pre.config_of(nid), h) {
        (Option::Some(cfg), SendHandle::PacketDispatched { packet }) => {
            let seqn = pre.host.next_seq_of(cfg.destination_channel_id);
            &&& packet.channel_id == cfg.destination_channel_id
            &&& packet.sequence == seqn
            &&& packet.payload@ == spec_encode(m)
            &&& packet.timeout.height_bound == pre.host.timeout_height_of(cfg.channel_id)
            &&& packet.timeout.timestamp_bound == wall_clock_bound(pre.host.now)
            &&& post.host.next_seq_of(cfg.destination_channel_id) == seqn + 1
            &&& forall|c: u64|
                c != cfg.destination_channel_id ==> post.host.next_seq_of(c)
                    == pre.host.next_seq_of(c)
            &&& post.host.timeout_heights == pre.host.timeout_heights
            &&& post.host.now == pre.host.now
            &&& post.pending@.len() == pre.pending@.len() + 1
            &&& forall|i: int|
                0 <= i < pre.pending@.len() ==> post.pending@[i] == pre.pending@[i]
            &&& post.pending@.last()@ == packet@
            &&& post.configs == pre.configs
            &&& post.counterparty_nids == pre.counterparty_nids
        },
        _ => false,
    }
}

/// One successful acknowledgement resolution, from `pre` to `post`: the
/// pending record under (channel, sequence) was found and removed, and the
/// acknowledgement-write directive carries that packet and the given
/// acknowledgement payload. Nothing else changed.
pub open spec fn resolve_ok(
    pre: CwIbcConnection,
    post: CwIbcConnection,
    channel_id: u64,
    sequence: u64,
    ack: Seq<u8>,
    h: SendHandle,
) -> bool {
    &&& exists|i: int|
        #![trigger pre.pending@[i]]
        {
            &&& 0 <= i < pre.pending@.len()
            &&& pre.pending@[i].channel_id == channel_id
            &&& pre.pending@[i].sequence == sequence
            &&& post.pending@ == pre.pending@.remove(i)
            &&& match h {
                SendHandle::AckWritten { packet, ack: a } => packet@ == pre.pending@[i]@ && a@
                    == ack,
                _ => false,
            }
        }
    &&& post.configs == pre.configs
    &&& post.counterparty_nids == pre.counterparty_nids
    &&& post.host == pre.host
}

impl CwIbcConnection {
    /// Build and send one message over the transport channel: resolve the
    /// destination's channel configuration, allocate the channel's next
    /// outgoing sequence number, compute the timeout, assemble the packet,
    /// store the pending record, and hand the packet to the host. Fails
    /// with `ConfigNotFound` — changing nothing — iff no configuration
    /// exists for `nid`; no other failure is possible here, and no retry is
    /// performed.
    pub fn send_message(&mut self, nid: u64, message: Message) -> (r: Result<
        SendHandle,
        GatewayError,
    >)
        requires
            old(self).wf(),
            forall|c: u64| old(self).host.next_seq_of(c) < u64::MAX,
        ensures
            final(self).wf(),
            r is Ok <==> old(self).config_of(nid) is Some,
            match r {
                Ok(h) => send_ok(*old(self), *final(self), message@, nid, h),
                Err(e) => {
                    &&& e == GatewayError::ConfigNotFound
                    &&& *final(self) == *old(self)
                },
            },
    {
        let cfg = match self.get_ibc_config(nid) {
            Some(cfg) => cfg,
            None => {
                return Err(GatewayError::ConfigNotFound);
            },
        };
        let seqn = self.host.next_sequence(cfg.destination_channel_id);
        let height_bound = self.host.current_timeout_height(cfg.channel_id);
        let timestamp_bound = if self.host.now <= u64::MAX - RELATIVE_TIMEOUT_SECONDS {
            self.host.now + RELATIVE_TIMEOUT_SECONDS
        } else {
            u64::MAX
        };
        let timeout = PacketTimeout::with_both(height_bound, timestamp_bound);
        let payload = encode_message(&message);
        let packet = Packet { channel_id: cfg.destination_channel_id, sequence: seqn, payload, timeout };
        self.pending.push(packet.dup());
        let h = self.host.dispatch_packet(packet);
        proof {
            assert forall|i: int, j: int|
                #![trigger self.pending@[i], self.pending@[j]]
                0 <= i < j < self.pending@.len() implies !(self.pending@[i].channel_id
                == self.pending@[j].channel_id && self.pending@[i].sequence
                == self.pending@[j].sequence) by {
                if j == self.pending@.len() - 1 {
                    assert(self.pending@[i] == old(self).pending@[i]);
                }
            }
            assert forall|i: int|
                #![trigger self.pending@[i]]
                0 <= i < self.pending@.len() implies self.pending@[i].sequence
                < self.host.next_seq_of(self.pending@[i].channel_id) by {
                if i < self.pending@.len() - 1 {
                    assert(self.pending@[i] == old(self).pending@[i]);
                }
            }
        }
        Ok(h)
    }

    /// Resolve the acknowledgement for a previously sent packet: find the
    /// pending record under (channel, sequence), remove it — a second
    /// acknowledgement for the same pair therefore always fails — and hand
    /// the host the acknowledgement-write directive carrying the given
    /// payload. Fails with `UnknownPendingPacket`, changing nothing, iff no
    /// record exists: an ack for a sequence never sent, or already
    /// resolved.
    pub fn write_acknowledgement(&mut self, channel_id: u64, sequence: u64, ack: Vec<u8>) -> (r:
        Result<SendHandle, GatewayError>)
        requires
            old(self).wf(),
        ensures
            final(self).wf(),
            r is Ok <==> old(self).has_pending(channel_id, sequence),
            match r {
                Ok(h) => resolve_ok(*old(self), *final(self), channel_id, sequence, ack@, h),
                Err(e) => {
                    &&& e == GatewayError::UnknownPendingPacket
                    &&& *final(self) == *old(self)
                },
            },
    {
        let mut i: usize = 0;
        while i < self.pending.len()
            invariant
                *self == *old(self),
                old(self).wf(),
                i <= self.pending@.len(),
                forall|j: int|
                    #![trigger self.pending@[j]]
                    0 <= j < i ==> !(self.pending@[j].channel_id == channel_id
                        && self.pending@[j].sequence == sequence),
            decreases self.pending@.len() - i,
        {
            if self.pending[i].channel_id == channel_id && self.pending[i].sequence == sequence {
                let packet = self.pending.remove(i);
                let h = self.host.write_host_acknowledgement(packet, ack);
                proof {
                    let ghost pi = i as int;
                    assert(old(self).pending@[pi].channel_id == channel_id);
                    assert(self.pending@ == old(self).pending@.remove(pi));
                    assert forall|x: int|
                        0 <= x < self.pending@.len() implies self.pending@[x] == old(
                        self,
                    ).pending@[if x < pi {
                        x
                    } else {
                        x + 1
                    }] by {
                        if x < pi {
                            assert(self.pending@[x] == old(self).pending@.subrange(0, pi)[x]);
                        } else {
                            assert(self.pending@[x] == old(self).pending@.subrange(
                                pi + 1,
                                old(self).pending@.len() as int,
                            )[x - pi]);
                        }
                    }
                    assert forall|x: int, y: int|
                        #![trigger self.pending@[x], self.pending@[y]]
                        0 <= x < y < self.pending@.len() implies !(self.pending@[x].channel_id
                        == self.pending@[y].channel_id && self.pending@[x].sequence
                        == self.pending@[y].sequence) by {
                        let ox = if x < pi {
                            x
                        } else {
                            x + 1
                        };
                        let oy = if y < pi {
                            y
                        } else {
                            y + 1
                        };
                        assert(self.pending@[x] == old(self).pending@[ox]);
                        assert(self.pending@[y] == old(self).pending@[oy]);
                    }
                    assert forall|x: int|
                        #![trigger self.pending@[x]]
                        0 <= x < self.pending@.len() implies self.pending@[x].sequence
                        < self.host.next_seq_of(self.pending@[x].channel_id) by {
                        let ox = if x < pi {
                            x
                        } else {
                            x + 1
                        };
                        assert(self.pending@[x] == old(self).pending@[ox]);
                    }
                }
                return Ok(h);
            }
            i = i + 1;
        }
        Err(GatewayError::UnknownPendingPacket)
    }

    /// Assemble a request packet bound for the configured destination
    /// channel: the wire-encoded message, the channel's next sequence
    /// number, and a timeout carrying both the given height bound and the
    /// wall-clock bound from the host's clock. Read-only; fails with
    /// `ConfigNotFound` iff the network id has no channel configuration.
    pub fn create_request_packet(&self, nid: u64, time_out_height: u64, message: &Message) -> (r:
        Result<Packet, GatewayError>)
        ensures
            r is Ok <==> self.config_of(nid) is Some,
            match (r, self.config_of(nid)) {
                (Ok(p), Option::Some(cfg)) => p@ == (PacketView {
                    channel_id: cfg.destination_channel_id,
                    sequence: self.host.next_seq_of(cfg.destination_channel_id),
                    payload: spec_encode(message@),
                    timeout: PacketTimeout {
                        height_bound: time_out_height,
                        timestamp_bound: wall_clock_bound(self.host.now),
                    },
                }),
                (Err(e), Option::None) => e == GatewayError::ConfigNotFound,
                _ => false,
            },
    {
        let cfg = match self.get_ibc_config(nid) {
            Some(cfg) => cfg,
            None => {
                return Err(GatewayError::ConfigNotFound);
            },
        };
        let sequence = self.host.next_sequence(cfg.destination_channel_id);
        let timestamp_bound = if self.host.now <= u64::MAX - RELATIVE_TIMEOUT_SECONDS {
            self.host.now + RELATIVE_TIMEOUT_SECONDS
        } else {
            u64::MAX
        };
        Ok(
            Packet {
                channel_id: cfg.destination_channel_id,
                sequence,
                payload: encode_message(message),
                timeout: PacketTimeout::with_both(time_out_height, timestamp_bound),
            },
        )
    }

    /// Receive a transport packet: decode its payload into a routed
    /// message — failing with `DecodeError` on anything that is not the
    /// wire encoding of a message — and route the decoded message as a
    /// one-element, already-verified batch. The result carries the batch
    /// for the routing network and the single `Routing` event; it
    /// acknowledges receipt, not delivery.
    pub fn do_packet_receive(&self, packet: &Packet) -> (r: Result<RoutedBatch, GatewayError>)
        ensures
            match r {
                Ok(b) => {
                    &&& b.call@.len() == 1
                    &&& packet.payload@ == spec_encode(b.call@[0]@)
                    &&& crate::dispatch::ev_views(b.events@) == seq![
                        GatewayEventView {
                            disposition: Disposition::Routing,
                            msg: b.call@[0]@,
                        },
                    ]
                },
                Err(e) => {
                    &&& e == GatewayError::DecodeError
                    &&& forall|m: MessageView| packet.payload@ != spec_encode(m)
                },
            },
    {
        let msg = match decode_message(&packet.payload) {
            Ok(m) => m,
            Err(e) => {
                return Err(e);
            },
        };
        let ghost mv = msg@;
        let mut batch: Vec<Message> = Vec::new();
        batch.push(msg);
        match route_incoming_messages(batch) {
            Ok(b) => {
                proof {
                    assert(crate::types::msg_views(b.call@) =~= seq![mv]);
                    assert(b.call@.len() == 1);
                    assert(crate::types::msg_views(b.call@)[0] == b.call@[0]@);
                    assert(b.call@[0]@ == mv);
                    assert(crate::dispatch::ev_views(b.events@) =~= seq![
                        GatewayEventView { disposition: Disposition::Routing, msg: mv },
                    ]);
                }
                Ok(b)
            },
            Err(e) => {
                proof {
                    assert(false);
                }
                Err(e)
            },
        }
    }
}

/// Acknowledgement at-most-once: once an acknowledgement for a (channel,
/// sequence) pair has been resolved, no pending record for that pair
/// remains, so a second resolution for the same pair must fail with
/// `UnknownPendingPacket`.
pub proof fn lemma_ack_at_most_once(
    pre: CwIbcConnection,
    post: CwIbcConnection,
    channel_id: u64,
    sequence: u64,
    ack: Seq<u8>,
    h: SendHandle,
)
    requires
        pre.wf(),
        resolve_ok(pre, post, channel_id, sequence, ack, h),
    ensures
        !post.has_pending(channel_id, sequence),
{
    let i = choose|i: int|
        #![trigger pre.pending@[i]]
        {
            &&& 0 <= i < pre.pending@.len()
            &&& pre.pending@[i].channel_id == channel_id
            &&& pre.pending@[i].sequence == sequence
            &&& post.pending@ == pre.pending@.remove(i)
            &&& match h {
                SendHandle::AckWritten { packet, ack: a } => packet@ == pre.pending@[i]@ && a@
                    == ack,
                _ => false,
            }
        };
    if post.has_pending(channel_id, sequence) {
        let k = choose|k: int|
            #![trigger post.pending@[k]]
            0 <= k < post.pending@.len() && post.pending@[k].channel_id == channel_id
                && post.pending@[k].sequence == sequence;
        let ok = if k < i {
            k
        } else {
            k + 1
        };
        assert(post.pending@[k] == pre.pending@[ok]);
        assert(ok != i);
        if ok < i {
            assert(!(pre.pending@[ok].channel_id == pre.pending@[i].channel_id
                && pre.pending@[ok].sequence == pre.pending@[i].sequence));
        } else {
            assert(!(pre.pending@[i].channel_id == pre.pending@[ok].channel_id
                && pre.pending@[i].sequence == pre.pending@[ok].sequence));
        }
        assert(false);
    }
}

/// Sequencing: two consecutive successful sends on the same destination
/// channel allocate strictly increasing sequence numbers — the second is
/// exactly one above the first, so no number is reused.
pub proof fn lemma_sequencing(
    g0: CwIbcConnection,
    g1: CwIbcConnection,
    g2: CwIbcConnection,
    m1: MessageView,
    m2: MessageView,
    nid1: u64,
    nid2: u64,
    h1: SendHandle,
    h2: SendHandle,
    c: u64,
)
    requires
        send_ok(g0, g1, m1, nid1, h1),
        send_ok(g1, g2, m2, nid2, h2),
        dest_channel_of(g0, nid1) == Option::<u64>::Some(c),
        dest_channel_of(g1, nid2) == Option::<u64>::Some(c),
    ensures
        h2.spec_sequence() == h1.spec_sequence() + 1,
        h2.spec_sequence() > h1.spec_sequence(),
{
}

/// The destination channel a network id's configuration names, if any.
pub open spec fn dest_channel_of(g: CwIbcConnection, nid: u64) -> Option<u64> {
    match g.config_of(nid) {
        Option::Some(cfg) => Option::Some(cfg.destination_channel_id),
        Option::None => Option::None,
    }
}

/// The amount carried under a denomination in a list of funds: the first
/// matching coin's amount, zero when none matches.
pub open spec fn spec_amount_for_denom(funds: Seq<Coin>, target_denom: u64) -> u128
    decreases funds.len(),
{
    if funds.len() == 0 {
        0
    } else if funds[0].denom == target_denom {
        funds[0].amount
    } else {
        spec_amount_for_denom(funds.skip(1), target_denom)
    }
}

/// A coin: a denomination and an amount.
#[derive(Clone, Copy, Debug, PartialEq, Eq, Structural)]
pub struct Coin {
    pub denom: u64,
    pub amount: u128,
}

/// A denomination absent from a prefix of the funds is found, if anywhere,
/// past it.
proof fn lemma_amount_skip(funds: Seq<Coin>, target_denom: u64, i: int)
    requires
        0 <= i <= funds.len(),
        forall|j: int| 0 <= j < i ==> (#[trigger] funds[j]).denom != target_denom,
    ensures
        spec_amount_for_denom(funds, target_denom) == spec_amount_for_denom(
            funds.skip(i),
            target_denom,
        ),
    decreases i,
{
    if i > 0 {
        assert(funds[0].denom != target_denom);
        assert forall|j: int| 0 <= j < i - 1 implies (#[trigger] funds.skip(1)[j]).denom
            != target_denom by {
            assert(funds.skip(1)[j] == funds[j + 1]);
        }
        lemma_amount_skip(funds.skip(1), target_denom, i - 1);
        assert(funds.skip(1).skip(i - 1) =~= funds.skip(i));
    } else {
        assert(funds.skip(0) =~= funds);
    }
}

/// The amount carried under a denomination: the first matching coin wins,
/// and missing denominations count as zero.
pub fn get_amount_for_denom(funds: &Vec<Coin>, target_denom: u64) -> (r: u128)
    ensures
        r == spec_amount_for_denom(funds@, target_denom),
{
    let mut i: usize = 0;
    while i < funds.len()
        invariant
            i <= funds.len(),
            forall|j: int| 0 <= j < i ==> (#[trigger] funds@[j]).denom != target_denom,
        decreases funds.len() - i,
    {
        if funds[i].denom == target_denom {
            proof {
                lemma_amount_skip(funds@, target_denom, i as int);
            }
            return funds[i].amount;
        }
        i = i + 1;
    }
    proof {
        lemma_amount_skip(funds@, target_denom, i as int);
        assert(funds@.skip(i as int) =~= Seq::<Coin>::empty());
    }
    0
}

} // verus!
