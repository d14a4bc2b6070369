//! Message type ids, user-control event codes and chunk stream ids.

use vstd::prelude::*;

verus! {

pub const MSG_SET_CHUNK_SIZE: u8 = 1;

pub const MSG_ABORT: u8 = 2;

pub const MSG_ACK: u8 = 3;

pub const MSG_USER_CONTROL: u8 = 4;

pub const MSG_WINDOW_ACK_SIZE: u8 = 5;

pub const MSG_SET_PEER_BANDWIDTH: u8 = 6;

pub const MSG_AUDIO: u8 = 8;

pub const MSG_VIDEO: u8 = 9;

pub const MSG_DATA_AMF3: u8 = 15;

pub const MSG_SHARED_OBJECT_AMF3: u8 = 16;

pub const MSG_COMMAND_AMF3: u8 = 17;

pub const MSG_DATA_AMF0: u8 = 18;

pub const MSG_SHARED_OBJECT_AMF0: u8 = 19;

pub const MSG_COMMAND_AMF0: u8 = 20;

pub const MSG_AGGREGATE: u8 = 22;

pub const USR_STREAM_BEGIN: u16 = 0;

pub const USR_STREAM_EOF: u16 = 1;

pub const USR_STREAM_DRY: u16 = 2;

pub const USR_SET_BUFFER_LENGTH: u16 = 3;

pub const USR_STREAM_IS_RECORDED: u16 = 4;

pub const USR_PING_REQUEST: u16 = 6;

pub const USR_PING_RESPONSE: u16 = 7;

/// The status code of a request to connect anew.
pub const RECONNECT_REQUEST_CODE: &'static str = "NetConnection.Connect.ReconnectRequest";

/// Protocol control.
pub const CSID_PROTOCOL_CONTROL: u32 = 2;

/// Commands.
pub const CSID_COMMAND: u32 = 3;

/// Audio.
pub const CSID_AUDIO: u32 = 4;

/// Video.
pub const CSID_VIDEO: u32 = 5;

/// Data.
pub const CSID_DATA: u32 = 6;

} // verus!
