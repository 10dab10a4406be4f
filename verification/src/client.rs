//! The per-connection protocol state and the choice of handler for a packet.
use vstd::hash_map::StringHashMap;
use vstd::prelude::*;

use crate::mpacket::{Packet, ReadError};
use crate::muuid::Muuid;
use crate::varint::VarInt;

verus! {

/// The protocol state of a connection.
#[derive(Debug, Clone, Copy, PartialEq, Eq, Structural)]
pub enum StateClient {
    Handshaking,
    Status,
    Login,
    Configuration,
    Play,
    Target,
    Transfer,
}

/// The client settings sent during configuration.
#[derive(Debug)]
pub struct ClientInfo {
    pub locale: String,
    pub view_distance: u8,
    pub chat_mode: VarInt,
    pub chat_color: bool,
    pub displayed_skin_parts: u8,
    pub main_hand: VarInt,
    pub text_filtering: bool,
    pub server_listings: bool,
}

impl Default for ClientInfo {
    fn default() -> (r: Self)
        ensures
            r.locale@ == Seq::<char>::empty(),
            r.view_distance == 0,
            r.chat_mode == VarInt(0),
            r.chat_color == false,
            r.displayed_skin_parts == 0,
            r.main_hand == VarInt(0),
            r.text_filtering == false,
            r.server_listings == false,
    {
        ClientInfo {
            locale: String::new(),
            view_distance: 0,
            chat_mode: VarInt(0),
            chat_color: false,
            displayed_skin_parts: 0,
            main_hand: VarInt(0),
            text_filtering: false,
            server_listings: false,
        }
    }
}

/// What a connection knows about its client; the socket itself stays with the caller.
pub struct Client {
    pub status: StateClient,
    pub prot_version: VarInt,
    pub server_address: String,
    pub server_port: u16,
    pub username: String,
    pub uuid: Muuid,
    pub client_info: ClientInfo,
    pub plugin_message: StringHashMap<String>,
    /// Bytes received and not yet taken as packets.
    pub bytes: Vec<u8>,
}

impl Client {
    /// The state of a freshly accepted connection.
    pub fn new() -> (r: Self)
        ensures
            r.status == StateClient::Handshaking,
            r.prot_version == VarInt(0),
            r.server_address@ == Seq::<char>::empty(),
            r.server_port == 0,
            r.username@ == Seq::<char>::empty(),
            r.uuid.bytes() == Seq::new(16, |_i: int| 0u8),
            r.client_info.locale@ == Seq::<char>::empty(),
            r.client_info.view_distance == 0,
            r.client_info.chat_mode == VarInt(0),
            r.client_info.chat_color == false,
            r.client_info.displayed_skin_parts == 0,
            r.client_info.main_hand == VarInt(0),
            r.client_info.text_filtering == false,
            r.client_info.server_listings == false,
            r.plugin_message@ == Map::<Seq<char>, String>::empty(),
            r.bytes@ == Seq::<u8>::empty(),
    {
        Client {
            status: StateClient::Handshaking,
            prot_version: VarInt(0),
            server_address: String::new(),
            server_port: 0,
            username: String::new(),
            uuid: Muuid::nil(),
            client_info: ClientInfo::default(),
            plugin_message: StringHashMap::new(),
            bytes: Vec::new(),
        }
    }
}

/// What the caller has to do after a packet was handled.
#[derive(Debug)]
pub enum Reply {
    /// Nothing to send.
    Nothing,
    /// Send these bytes to the client.
    Send(Vec<u8>),
    /// Send the server status: serialise it to JSON and send `status_response` of it.
    StatusRequested,
}

/// Why a packet cannot be handled (the server gives up on the connection).
#[derive(Debug, Clone, Copy, PartialEq, Eq, Structural)]
pub enum HandlerError {
    /// No handler for this packet id in this state.
    NoHandler,
    /// A field of the packet could not be read.
    Read(ReadError),
    /// The handshake asked for a next state other than 1, 2 or 3.
    UnknownNextState(i64),
    /// A teleport confirmation carried another id than the one sent.
    UnexpectedTeleportId(i64),
}

/// The handlers of the protocol.
#[derive(Debug, Clone, Copy, PartialEq, Eq, Structural)]
pub enum Handler {
    SetProtocol,
    StatusRequest,
    PingRequest,
    LoginStart,
    LoginAck,
    CookieRequest,
    ClientInfo,
    ServPluginMessage,
    FinishConfigAck,
    ConfirmTeleportation,
}

/// Which handler takes packet `packet_id` in state `status`.
pub open spec fn handler_table(status: StateClient, packet_id: i64) -> Option<Handler> {
    match status {
        StateClient::Handshaking => if packet_id == 0x00 {
            Some(Handler::SetProtocol)
        } else {
            None
        },
        StateClient::Status => if packet_id == 0x00 {
            Some(Handler::StatusRequest)
        } else if packet_id == 0x01 {
            Some(Handler::PingRequest)
        } else {
            None
        },
        StateClient::Login => if packet_id == 0x00 {
            Some(Handler::LoginStart)
        } else if packet_id == 0x03 {
            Some(Handler::LoginAck)
        } else if packet_id == 0x05 {
            Some(Handler::CookieRequest)
        } else {
            None
        },
        StateClient::Configuration => if packet_id == 0x00 {
            Some(Handler::ClientInfo)
        } else if packet_id == 0x02 {
            Some(Handler::ServPluginMessage)
        } else if packet_id == 0x03 {
            Some(Handler::FinishConfigAck)
        } else {
            None
        },
        StateClient::Play => None,
        StateClient::Target => if packet_id == 0x00 {
            Some(Handler::ConfirmTeleportation)
        } else {
            None
        },
        StateClient::Transfer => None,
    }
}

/// Which handler takes packet `packet_id` in state `status`.
pub fn handler_for(status: StateClient, packet_id: i64) -> (r: Option<Handler>)
    ensures
        r == handler_table(status, packet_id),
{
    match status {
        StateClient::Handshaking => if packet_id == 0x00 {
            Some(Handler::SetProtocol)
        } else {
            None
        },
        StateClient::Status => if packet_id == 0x00 {
            Some(Handler::StatusRequest)
        } else if packet_id == 0x01 {
            Some(Handler::PingRequest)
        } else {
            None
        },
        StateClient::Login => if packet_id == 0x00 {
            Some(Handler::LoginStart)
        } else if packet_id == 0x03 {
            Some(Handler::LoginAck)
        } else if packet_id == 0x05 {
            Some(Handler::CookieRequest)
        } else {
            None
        },
        StateClient::Configuration => if packet_id == 0x00 {
            Some(Handler::ClientInfo)
        } else if packet_id == 0x02 {
            Some(Handler::ServPluginMessage)
        } else if packet_id == 0x03 {
            Some(Handler::FinishConfigAck)
        } else {
            None
        },
        StateClient::Play => None,
        StateClient::Target => if packet_id == 0x00 {
            Some(Handler::ConfirmTeleportation)
        } else {
            None
        },
        StateClient::Transfer => None,
    }
}

/// The packet after reads that left the cursor at `pos`.
pub open spec fn moved_to(p0: Packet, p1: Packet, pos: int) -> bool {
    &&& p1.data@ == p0.data@
    &&& p1.length == p0.length
    &&& p1.packet_id == p0.packet_id
    &&& p1.pos == pos
}

} // verus!
