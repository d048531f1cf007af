use vstd::prelude::*;

use crate::types::{Message, MessageView};

verus! {

/// The disposition the routing dispatcher chose for one message.
#[derive(Clone, Copy, Debug, PartialEq, Eq, Structural)]
pub enum Disposition {
    Verifying,
    AlreadyVerified,
    AlreadyRejected,
    Routing,
    UnfitForRouting,
}

/// An observability record tagged with a disposition and the message it
/// concerns. One event is emitted per message per classification pass.
pub enum GatewayEvent {
    Verifying { msg: Message },
    AlreadyVerified { msg: Message },
    AlreadyRejected { msg: Message },
    Routing { msg: Message },
    UnfitForRouting { msg: Message },
}

/// The mathematical value of a [`GatewayEvent`].
#[verifier::ext_equal]
pub ghost struct GatewayEventView {
    pub disposition: Disposition,
    pub msg: MessageView,
}

impl View for GatewayEvent {
    type V = GatewayEventView;

    open spec fn view(&self) -> GatewayEventView {
        match *self {
            GatewayEvent::Verifying { msg } => GatewayEventView {
                disposition: Disposition::Verifying,
                msg: msg@,
            },
            GatewayEvent::AlreadyVerified { msg } => GatewayEventView {
                disposition: Disposition::AlreadyVerified,
                msg: msg@,
            },
            GatewayEvent::AlreadyRejected { msg } => GatewayEventView {
                disposition: Disposition::AlreadyRejected,
                msg: msg@,
            },
            GatewayEvent::Routing { msg } => GatewayEventView {
                disposition: Disposition::Routing,
                msg: msg@,
            },
            GatewayEvent::UnfitForRouting { msg } => GatewayEventView {
                disposition: Disposition::UnfitForRouting,
                msg: msg@,
            },
        }
    }
}

impl GatewayEvent {
    /// Tag a message with the given disposition.
    pub fn new(disposition: Disposition, msg: Message) -> (r: GatewayEvent)
        ensures
            r@ == (GatewayEventView { disposition, msg: msg@ }),
    {
        match disposition {
            Disposition::Verifying => GatewayEvent::Verifying { msg },
            Disposition::AlreadyVerified => GatewayEvent::AlreadyVerified { msg },
            Disposition::AlreadyRejected => GatewayEvent::AlreadyRejected { msg },
            Disposition::Routing => GatewayEvent::Routing { msg },
            Disposition::UnfitForRouting => GatewayEvent::UnfitForRouting { msg },
        }
    }

    /// The message the event concerns.
    pub fn message(&self) -> (r: &Message)
        ensures
            r@ == self@.msg,
    {
        match self {
            GatewayEvent::Verifying { msg } => msg,
            GatewayEvent::AlreadyVerified { msg } => msg,
            GatewayEvent::AlreadyRejected { msg } => msg,
            GatewayEvent::Routing { msg } => msg,
            GatewayEvent::UnfitForRouting { msg } => msg,
        }
    }

    /// The name under which the event is reported to the host.
    pub fn event_name(&self) -> (r: &'static str)
        ensures
            r@ == spec_event_name(self@.disposition),
    {
        match self {
            GatewayEvent::Verifying { .. } => "verifying",
            GatewayEvent::AlreadyVerified { .. } => "already_verified",
            GatewayEvent::AlreadyRejected { .. } => "already_rejected",
            GatewayEvent::Routing { .. } => "routing",
            GatewayEvent::UnfitForRouting { .. } => "unfit_for_routing",
        }
    }
}

#[verifier::external_type_specification]
pub struct ExAttribute(cosmwasm_std::Attribute);

#[verifier::external_type_specification]
pub struct ExEvent(cosmwasm_std::Event);

/// Names the decimal rendering std's formatting gives an integer; the
/// result depends on the value alone.
pub uninterp spec fn decimal_repr(v: u64) -> Seq<char>;

/// Relies on u64's std Display implementation: the decimal digits of the
/// value, a pure function of the value.
#[verifier::external_body]
pub(crate) fn u64_string(v: u64) -> (r: String)
    ensures
        r@ == decimal_repr(v),
{
    v.to_string()
}

/// Relies on cosmwasm_std::Event::new: an event of the given type with an
/// empty attribute list.
#[verifier::external_body]
fn event_new(ty: &str) -> (r: cosmwasm_std::Event)
    ensures
        r.ty@ == ty@,
        r.attributes@.len() == 0,
{
    cosmwasm_std::Event::new(ty)
}

/// Relies on cosmwasm_std::Event::add_attribute: appends one key/value
/// attribute and leaves the rest of the event unchanged.
#[verifier::external_body]
fn event_add_attribute(e: cosmwasm_std::Event, key: &str, value: String) -> (r:
    cosmwasm_std::Event)
    ensures
        r.ty@ == e.ty@,
        r.attributes@.len() == e.attributes@.len() + 1,
        forall|i: int| 0 <= i < e.attributes@.len() ==> r.attributes@[i] == e.attributes@[i],
        r.attributes@[e.attributes@.len() as int].key@ == key@,
        r.attributes@[e.attributes@.len() as int].value@ == value@,
{
    e.add_attribute(key, value)
}

/// Render a gateway event as a host event record: the event name for its
/// disposition plus one attribute for each identifier of the message it
/// concerns.
pub fn to_event(e: &GatewayEvent) -> (r: cosmwasm_std::Event)
    ensures
        r.ty@ == spec_event_name(e@.disposition),
        r.attributes@.len() == 3,
        r.attributes@[0].key@ == "cc_id"@,
        r.attributes@[0].value@ == decimal_repr(e@.msg.cc_id),
        r.attributes@[1].key@ == "source_nid"@,
        r.attributes@[1].value@ == decimal_repr(e@.msg.source_nid),
        r.attributes@[2].key@ == "dest_nid"@,
        r.attributes@[2].value@ == decimal_repr(e@.msg.dest_nid),
{
    let name = e.event_name();
    let msg = e.message();
    let ev = event_new(name);
    let ev = event_add_attribute(ev, "cc_id", u64_string(msg.cc_id));
    let ev = event_add_attribute(ev, "source_nid", u64_string(msg.source_nid));
    let ev = event_add_attribute(ev, "dest_nid", u64_string(msg.dest_nid));
    ev
}

/// The event name reported for each disposition.
pub open spec fn spec_event_name(d: Disposition) -> Seq<char> {
    match d {
        Disposition::Verifying => "verifying"@,
        Disposition::AlreadyVerified => "already_verified"@,
        Disposition::AlreadyRejected => "already_rejected"@,
        Disposition::Routing => "routing"@,
        Disposition::UnfitForRouting => "unfit_for_routing"@,
    }
}

} // verus!
