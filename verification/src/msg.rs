use vstd::prelude::*;

use crate::channel::{ChannelConfig, Packet};
use crate::events::decimal_repr;
use crate::types::Message;

verus! {

/// The message that instantiates the gateway: the transport host to talk
/// to, the port to bind, and the application and routing-network
/// addresses.
pub struct InstantiateMsg {
    pub ibc_host: String,
    pub port_id: String,
    pub xcall_address: String,
    pub router_address: String,
    pub denom: String,
}

/// Every operation the gateway accepts: administration, connection
/// configuration, outbound routing, and the transport host's channel and
/// packet callbacks.
pub enum ExecuteMsg {
    SetAdmin { address: String },
    ConfigureConnection {
        connection_id: u64,
        counterparty_port_id: u64,
        counterparty_nid: u64,
        client_id: u64,
        timeout_height: u64,
    },
    OverrideConnection {
        connection_id: u64,
        counterparty_port_id: u64,
        counterparty_nid: u64,
        client_id: u64,
        timeout_height: u64,
    },
    RouteMessages(Vec<Message>),
    IbcChannelOpen { msg: Vec<u8> },
    IbcChannelConnect { msg: Vec<u8> },
    IbcChannelClose { msg: Vec<u8> },
    IbcPacketReceive { packet: Packet },
    IbcPacketAck { channel_id: u64, sequence: u64, acknowledgement: Vec<u8> },
    IbcPacketTimeout { channel_id: u64, sequence: u64 },
}

/// The queries the gateway answers.
pub enum QueryMsg {
    GetAdmin {},
    GetTimeoutHeight { channel_id: u64 },
    GetIbcConfig { nid: u64 },
}

/// The answer to a channel-configuration query, every identifier rendered
/// in its decimal form.
pub struct ConfigResponse {
    pub channel_id: String,
    pub port: String,
    pub destination_channel_id: String,
    pub destination_port_id: String,
    pub light_client_id: String,
    pub timeout_height: u64,
}

impl ConfigResponse {
    /// Render a stored channel configuration for a query answer.
    pub fn from_config(cfg: &ChannelConfig) -> (r: ConfigResponse)
        ensures
            r.channel_id@ == decimal_repr(cfg.channel_id),
            r.port@ == decimal_repr(cfg.port_id),
            r.destination_channel_id@ == decimal_repr(cfg.destination_channel_id),
            r.destination_port_id@ == decimal_repr(cfg.destination_port_id),
            r.light_client_id@ == decimal_repr(cfg.light_client_id),
            r.timeout_height == cfg.timeout_height,
    {
        ConfigResponse {
            channel_id: crate::events::u64_string(cfg.channel_id),
            port: crate::events::u64_string(cfg.port_id),
            destination_channel_id: crate::events::u64_string(cfg.destination_channel_id),
            destination_port_id: crate::events::u64_string(cfg.destination_port_id),
            light_client_id: crate::events::u64_string(cfg.light_client_id),
            timeout_height: cfg.timeout_height,
        }
    }
}

} // verus!
