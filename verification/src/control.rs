//! The control protocol: commands, answers and the frames that carry them.
use crate::cache::CacheDump;
use crate::codec::wire;
use crate::json_doc::JsonValue;
use crate::text;
use vstd::prelude::*;

verus! {

pub const CONTROL_PROTOCOL_VERSION: u16 = 1;

/// The most bytes that a frame carries.
pub const MAX_FRAME_BYTES: usize = 8388608;

pub const CODE_OK: &'static str = "ok";

pub const CODE_UNAUTHORIZED: &'static str = "unauthorized";

pub const CODE_INVALID_REQUEST: &'static str = "invalid_request";

pub const CODE_UNSUPPORTED_VERSION: &'static str = "unsupported_version";

pub const CODE_START_FAILED: &'static str = "start_failed";

pub const CODE_STOP_FAILED: &'static str = "stop_failed";

pub const CODE_ADMIN_PROXY_FAILED: &'static str = "admin_proxy_failed";

pub const CODE_IO_FAILED: &'static str = "io_failed";

pub enum ControlCommand {
    Start,
    Stop,
    StopAll,
    Reload,
    Stats,
    Health,
    Ready,
    Version,
    CacheFreezeAll { enabled: bool },
    CacheFreezeDomain { domain: String, enabled: bool },
    CacheClearAll,
    CacheClearDomain { domain: String },
    CacheExport,
    CacheImport { dump: CacheDump },
    TopQueries { n: usize, window_secs: u64 },
    TopClients { n: usize, window_secs: u64 },
}

pub struct ControlRequest {
    pub version: u16,
    pub token: Option<String>,
    pub command: ControlCommand,
}

pub struct ControlResponse {
    pub version: u16,
    pub status: String,
    pub code: String,
    pub message: String,
    pub data: Option<JsonValue>,
}

impl ControlResponse {
    /// The answer to a command that went well.
    pub fn ok(message: &str, data: Option<JsonValue>) -> (r: Self)
        ensures
            r.version == CONTROL_PROTOCOL_VERSION,
            r.status@ == "ok"@,
            r.code@ == "ok"@,
            r.message@ == message@,
            r.data == data,
    {
        ControlResponse {
            version: CONTROL_PROTOCOL_VERSION,
            status: "ok".to_owned(),
            code: "ok".to_owned(),
            message: message.to_owned(),
            data,
        }
    }

    /// The answer to a command that failed.
    pub fn error(code: &str, message: &str) -> (r: Self)
        ensures
            r.version == CONTROL_PROTOCOL_VERSION,
            r.status@ == "error"@,
            r.code@ == code@,
            r.message@ == message@,
            r.data is None,
    {
        ControlResponse {
            version: CONTROL_PROTOCOL_VERSION,
            status: "error".to_owned(),
            code: code.to_owned(),
            message: message.to_owned(),
            data: None,
        }
    }
}

/// Why a frame is refused.
#[derive(Debug, Clone, Copy, PartialEq, Eq, Structural)]
pub enum FrameError {
    EmptyFrame,
    FrameTooLarge(u32),
    EmptyPayload,
    PayloadTooLarge(usize),
    Truncated,
}

impl FrameError {
    pub open spec fn text(self) -> Seq<char> {
        match self {
            FrameError::EmptyFrame => "empty frame"@,
            FrameError::FrameTooLarge(n) => "frame too large: "@ + text::decimal(n as nat),
            FrameError::EmptyPayload => "empty payload"@,
            FrameError::PayloadTooLarge(n) => "payload too large: "@ + text::decimal(n as nat),
            FrameError::Truncated => "early eof"@,
        }
    }

    /// The reason in words.
    pub fn message(self) -> (r: String)
        ensures
            r@ == self.text(),
    {
        match self {
            FrameError::EmptyFrame => "empty frame".to_owned(),
            FrameError::FrameTooLarge(n) => text::concat(
                "frame too large: ",
                text::decimal_of(n as u64).as_str(),
            ),
            FrameError::EmptyPayload => "empty payload".to_owned(),
            FrameError::PayloadTooLarge(n) => text::concat(
                "payload too large: ",
                text::decimal_of(n as u64).as_str(),
            ),
            FrameError::Truncated => "early eof".to_owned(),
        }
    }
}

/// How many bytes follow a length in front of a frame.
pub open spec fn announced(len: u32) -> Result<nat, FrameError> {
    if len == 0 {
        Err(FrameError::EmptyFrame)
    } else if len > MAX_FRAME_BYTES {
        Err(FrameError::FrameTooLarge(len))
    } else {
        Ok(len as nat)
    }
}

/// How many bytes follow a length in front of a frame.
pub fn frame_length(len: u32) -> (r: Result<usize, FrameError>)
    ensures
        announced(len) == (match r {
            Ok(n) => Ok(n as nat),
            Err(e) => Err(e),
        }),
{
    if len == 0 {
        Err(FrameError::EmptyFrame)
    } else if len as usize > MAX_FRAME_BYTES {
        Err(FrameError::FrameTooLarge(len))
    } else {
        Ok(len as usize)
    }
}

/// The frame of a payload: its length in four bytes, and the payload.
pub open spec fn framed(payload: Seq<u8>) -> Result<Seq<u8>, FrameError> {
    if payload.len() == 0 {
        Err(FrameError::EmptyPayload)
    } else if payload.len() > MAX_FRAME_BYTES {
        Err(FrameError::PayloadTooLarge(payload.len() as usize))
    } else {
        Ok(wire::bytes32(payload.len() as u32) + payload)
    }
}

/// The payload at the start of a stream of bytes.
pub open spec fn unframed(bytes: Seq<u8>) -> Result<Seq<u8>, FrameError> {
    if bytes.len() < 4 {
        Err(FrameError::Truncated)
    } else {
        match announced(wire::be32(bytes, 0)) {
            Err(e) => Err(e),
            Ok(n) => if bytes.len() < 4 + n {
                Err(FrameError::Truncated)
            } else {
                Ok(bytes.subrange(4, 4 + n as int))
            },
        }
    }
}

/// What is framed can be read back, whatever follows it.
pub proof fn lemma_frame_round_trip(payload: Seq<u8>, rest: Seq<u8>)
    requires
        framed(payload) is Ok,
    ensures
        unframed(framed(payload)->Ok_0 + rest) == Ok::<Seq<u8>, FrameError>(payload),
{
    let n = payload.len() as u32;
    let bytes = framed(payload)->Ok_0 + rest;
    assert(bytes.subrange(0, 4) =~= wire::bytes32(n));
    wire::lemma_be32_bytes(bytes, 0, n);
    assert(bytes.subrange(4, 4 + payload.len() as int) =~= payload);
}

/// The frame of a payload.
pub fn write_frame(payload: &[u8]) -> (r: Result<Vec<u8>, FrameError>)
    ensures
        framed(payload@) == (match r {
            Ok(v) => Ok(v@),
            Err(e) => Err(e),
        }),
{
    if payload.len() == 0 {
        return Err(FrameError::EmptyPayload);
    }
    if payload.len() > MAX_FRAME_BYTES {
        return Err(FrameError::PayloadTooLarge(payload.len()));
    }
    let mut out: Vec<u8> = Vec::new();
    wire::push_u32(&mut out, payload.len() as u32);
    wire::push_bytes(&mut out, payload);
    assert(out@ =~= wire::bytes32(payload@.len() as u32) + payload@);
    Ok(out)
}

/// The payload at the start of a stream of bytes.
pub fn read_frame(bytes: &[u8]) -> (r: Result<Vec<u8>, FrameError>)
    ensures
        unframed(bytes@) == (match r {
            Ok(v) => Ok(v@),
            Err(e) => Err(e),
        }),
{
    if bytes.len() < 4 {
        return Err(FrameError::Truncated);
    }
    let len = wire::read_u32(bytes, 0);
    match frame_length(len) {
        Err(e) => Err(e),
        Ok(n) => {
            if bytes.len() - 4 < n {
                return Err(FrameError::Truncated);
            }
            let payload = vstd::slice::slice_to_vec(
                vstd::slice::slice_subrange(bytes, 4, 4 + n),
            );
            Ok(payload)
        },
    }
}

} // verus!
