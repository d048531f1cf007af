use vstd::prelude::*;

verus! {

/// A cross-chain message moving between the routing network and the
/// transport channel. Identity for deduplication is defined solely on
/// `cc_id`.
#[derive(Debug)]
pub struct Message {
    /// Globally unique cross-chain identifier.
    pub cc_id: u64,
    /// Network id of the chain the message originates from.
    pub source_nid: u64,
    /// Network id of the chain the message is destined for.
    pub dest_nid: u64,
    /// Opaque application payload.
    pub payload: Vec<u8>,
}

/// The mathematical value of a [`Message`]: its identifiers together with
/// the payload as a sequence of bytes.
#[verifier::ext_equal]
pub ghost struct MessageView {
    pub cc_id: u64,
    pub source_nid: u64,
    pub dest_nid: u64,
    pub payload: Seq<u8>,
}

impl View for Message {
    type V = MessageView;

    open spec fn view(&self) -> MessageView {
        MessageView {
            cc_id: self.cc_id,
            source_nid: self.source_nid,
            dest_nid: self.dest_nid,
            payload: self.payload@,
        }
    }
}

/// The values of a sequence of messages.
pub open spec fn msg_views(s: Seq<Message>) -> Seq<MessageView> {
    s.map_values(|m: Message| m@)
}

impl Message {
    /// Produce an identical copy of the message.
    pub fn dup(&self) -> (r: Message)
        ensures
            r@ == self@,
    {
        Message {
            cc_id: self.cc_id,
            source_nid: self.source_nid,
            dest_nid: self.dest_nid,
            payload: copy_bytes(&self.payload),
        }
    }
}

/// Produce an identical copy of a byte vector.
pub fn copy_bytes(v: &Vec<u8>) -> (r: Vec<u8>)
    ensures
        r@ == v@,
{
    let mut r: Vec<u8> = Vec::new();
    let mut i: usize = 0;
    while i < v.len()
        invariant
            i <= v.len(),
            r@ == v@.subrange(0, i as int),
        decreases v.len() - i,
    {
        r.push(v[i]);
        i = i + 1;
        proof {
            assert(r@ =~= v@.subrange(0, i as int));
        }
    }
    proof {
        assert(r@ =~= v@);
    }
    r
}

/// Verification status attached to a message by the verification network
/// before it reaches the classification engine; the gateway never computes
/// it itself.
#[derive(Clone, Copy, Debug, PartialEq, Eq, Structural)]
pub enum VerificationStatus {
    /// No verification has been recorded for the message.
    Unverified,
    NotFound,
    FailedToVerify,
    InProgress,
    SucceededOnChain,
    FailedOnChain,
}

/// Every failure the gateway core can surface. Errors of the host or
/// transport layer propagate unchanged around this core and are not listed
/// here.
#[derive(Clone, Copy, Debug, PartialEq, Eq, Structural)]
pub enum GatewayError {
    /// The batch contains at least two messages sharing a cross-chain id;
    /// the whole batch is rejected.
    DuplicateMessageIds,
    /// No channel configuration exists for a destination network id.
    ConfigNotFound,
    /// An inbound packet payload does not match the wire encoding.
    DecodeError,
    /// An acknowledgement references a (channel, sequence) pair with no
    /// matching pending record.
    UnknownPendingPacket,
}

} // verus!
