//! The wire-protocol messages and their one-byte type codes.
use vstd::prelude::*;

use super::error::ProtocolError;

verus! {

/// Message type code for `Hello` (0x01)
pub const MSG_TYPE_HELLO: u8 = 0x01;
/// Message type code for `TransferOffer` (0x02)
pub const MSG_TYPE_TRANSFER_OFFER: u8 = 0x02;
/// Message type code for `TransferAccept` (0x03)
pub const MSG_TYPE_TRANSFER_ACCEPT: u8 = 0x03;
/// Message type code for `TransferReject` (0x04)
pub const MSG_TYPE_TRANSFER_REJECT: u8 = 0x04;
/// Message type code for `ChunkData` (0x05)
pub const MSG_TYPE_CHUNK_DATA: u8 = 0x05;
/// Message type code for `ChunkAck` (0x06)
pub const MSG_TYPE_CHUNK_ACK: u8 = 0x06;
/// Message type code for `ChunkNack` (0x07)
pub const MSG_TYPE_CHUNK_NACK: u8 = 0x07;
/// Message type code for `Pause` (0x08)
pub const MSG_TYPE_PAUSE: u8 = 0x08;
/// Message type code for `Resume` (0x09)
pub const MSG_TYPE_RESUME: u8 = 0x09;
/// Message type code for `Cancel` (0x0A)
pub const MSG_TYPE_CANCEL: u8 = 0x0A;
/// Message type code for `Complete` (0x0B)
pub const MSG_TYPE_COMPLETE: u8 = 0x0B;
/// Message type code for `Heartbeat` (0x0C)
pub const MSG_TYPE_HEARTBEAT: u8 = 0x0C;
/// Message type code for `BatchChunkAck` (0x0D)
pub const MSG_TYPE_BATCH_CHUNK_ACK: u8 = 0x0D;

/// Identity announcement exchanged when a link comes up.
#[derive(Debug, Clone, PartialEq, Eq)]
pub struct HelloData {
    pub device_id: u128,
    pub device_name: String,
    pub protocol_version: u32,
}

/// A sender's offer of a file.
#[derive(Debug, Clone, PartialEq, Eq)]
pub struct TransferOfferData {
    pub transfer_id: u128,
    pub file_id: u128,
    pub file_name: String,
    pub file_size: u64,
    pub chunk_size: u32,
    pub total_chunks: u32,
    pub checksum_algo: String,
}

/// A receiver's acceptance, with the ranges it already holds when resuming.
#[derive(Debug, Clone, PartialEq, Eq)]
pub struct TransferAcceptData {
    pub transfer_id: u128,
    /// Completed range list stored as inclusive [start, end] chunk-id pairs.
    pub resume_from: Option<Vec<(u32, u32)>>,
}

/// A receiver's refusal.
#[derive(Debug, Clone, PartialEq, Eq)]
pub struct TransferRejectData {
    pub transfer_id: u128,
    pub reason: String,
}

/// One chunk of file data.
#[derive(Debug, Clone, PartialEq, Eq)]
pub struct ChunkDataPayload {
    pub transfer_id: u128,
    pub file_id: u128,
    pub chunk_id: u32,
    pub file_offset: u64,
    pub payload_length: u32,
    pub checksum: u64,
    pub payload: Vec<u8>,
}

/// Acknowledgment of one chunk.
#[derive(Debug, Clone, PartialEq, Eq, Structural)]
pub struct ChunkAckData {
    pub transfer_id: u128,
    pub chunk_id: u32,
    pub receiver_verify_us: Option<u32>,
}

/// Negative acknowledgment of one chunk.
#[derive(Debug, Clone, PartialEq, Eq)]
pub struct ChunkNackData {
    pub transfer_id: u128,
    pub chunk_id: u32,
    pub reason: String,
}

/// Pause request.
#[derive(Debug, Clone, PartialEq, Eq, Structural)]
pub struct PauseData {
    pub transfer_id: u128,
}

/// Resume request.
#[derive(Debug, Clone, PartialEq, Eq, Structural)]
pub struct ResumeData {
    pub transfer_id: u128,
}

/// Cancel request.
#[derive(Debug, Clone, PartialEq, Eq, Structural)]
pub struct CancelData {
    pub transfer_id: u128,
}

/// Completion notice with the whole-file CRC32C.
#[derive(Debug, Clone, PartialEq, Eq, Structural)]
pub struct CompleteData {
    pub transfer_id: u128,
    pub file_checksum: u32,
}

/// Liveness probe.
#[derive(Debug, Clone, PartialEq, Eq, Structural)]
pub struct HeartbeatData {
    pub sequence: u64,
}

/// Acknowledgment of several chunks at once.
#[derive(Debug, Clone, PartialEq, Eq)]
pub struct BatchChunkAckData {
    pub transfer_id: u128,
    pub chunk_ids: Vec<u32>,
    pub sum_receiver_verify_us: Option<u32>,
}

/// The thirteen wire-protocol message types.
#[derive(Debug, Clone, PartialEq, Eq)]
pub enum Message {
    Hello(HelloData),
    TransferOffer(TransferOfferData),
    TransferAccept(TransferAcceptData),
    TransferReject(TransferRejectData),
    ChunkData(ChunkDataPayload),
    ChunkAck(ChunkAckData),
    ChunkNack(ChunkNackData),
    Pause(PauseData),
    Resume(ResumeData),
    Cancel(CancelData),
    Complete(CompleteData),
    Heartbeat(HeartbeatData),
    BatchChunkAck(BatchChunkAckData),
}

/// The variant of a message, without its data.
#[derive(Debug, Clone, Copy, PartialEq, Eq, Structural)]
pub enum MessageKind {
    Hello,
    TransferOffer,
    TransferAccept,
    TransferReject,
    ChunkData,
    ChunkAck,
    ChunkNack,
    Pause,
    Resume,
    Cancel,
    Complete,
    Heartbeat,
    BatchChunkAck,
}

/// The one-byte type code of each message kind.
pub open spec fn spec_kind_code(kind: MessageKind) -> u8 {
    match kind {
        MessageKind::Hello => 0x01,
        MessageKind::TransferOffer => 0x02,
        MessageKind::TransferAccept => 0x03,
        MessageKind::TransferReject => 0x04,
        MessageKind::ChunkData => 0x05,
        MessageKind::ChunkAck => 0x06,
        MessageKind::ChunkNack => 0x07,
        MessageKind::Pause => 0x08,
        MessageKind::Resume => 0x09,
        MessageKind::Cancel => 0x0A,
        MessageKind::Complete => 0x0B,
        MessageKind::Heartbeat => 0x0C,
        MessageKind::BatchChunkAck => 0x0D,
    }
}

/// The kind of a message.
pub open spec fn spec_message_kind(msg: &Message) -> MessageKind {
    match msg {
        Message::Hello(_) => MessageKind::Hello,
        Message::TransferOffer(_) => MessageKind::TransferOffer,
        Message::TransferAccept(_) => MessageKind::TransferAccept,
        Message::TransferReject(_) => MessageKind::TransferReject,
        Message::ChunkData(_) => MessageKind::ChunkData,
        Message::ChunkAck(_) => MessageKind::ChunkAck,
        Message::ChunkNack(_) => MessageKind::ChunkNack,
        Message::Pause(_) => MessageKind::Pause,
        Message::Resume(_) => MessageKind::Resume,
        Message::Cancel(_) => MessageKind::Cancel,
        Message::Complete(_) => MessageKind::Complete,
        Message::Heartbeat(_) => MessageKind::Heartbeat,
        Message::BatchChunkAck(_) => MessageKind::BatchChunkAck,
    }
}

impl MessageKind {
    /// Returns the 1-byte message type code for this kind.
    pub fn code(&self) -> (c: u8)
        ensures
            c == spec_kind_code(*self),
    {
        match self {
            MessageKind::Hello => MSG_TYPE_HELLO,
            MessageKind::TransferOffer => MSG_TYPE_TRANSFER_OFFER,
            MessageKind::TransferAccept => MSG_TYPE_TRANSFER_ACCEPT,
            MessageKind::TransferReject => MSG_TYPE_TRANSFER_REJECT,
            MessageKind::ChunkData => MSG_TYPE_CHUNK_DATA,
            MessageKind::ChunkAck => MSG_TYPE_CHUNK_ACK,
            MessageKind::ChunkNack => MSG_TYPE_CHUNK_NACK,
            MessageKind::Pause => MSG_TYPE_PAUSE,
            MessageKind::Resume => MSG_TYPE_RESUME,
            MessageKind::Cancel => MSG_TYPE_CANCEL,
            MessageKind::Complete => MSG_TYPE_COMPLETE,
            MessageKind::Heartbeat => MSG_TYPE_HEARTBEAT,
            MessageKind::BatchChunkAck => MSG_TYPE_BATCH_CHUNK_ACK,
        }
    }

    /// The kind a type code names; an unknown code is an `InvalidMessageType` error.
    pub fn from_code(code: u8) -> (r: Result<MessageKind, ProtocolError>)
        ensures
            match r {
                Ok(k) => spec_kind_code(k) == code,
                Err(e) => (e matches ProtocolError::InvalidMessageType(c) && c == code) && (code
                    < 1 || code > 13),
            },
            1 <= code <= 13 ==> r is Ok,
    {
        match code {
            MSG_TYPE_HELLO => Ok(MessageKind::Hello),
            MSG_TYPE_TRANSFER_OFFER => Ok(MessageKind::TransferOffer),
            MSG_TYPE_TRANSFER_ACCEPT => Ok(MessageKind::TransferAccept),
            MSG_TYPE_TRANSFER_REJECT => Ok(MessageKind::TransferReject),
            MSG_TYPE_CHUNK_DATA => Ok(MessageKind::ChunkData),
            MSG_TYPE_CHUNK_ACK => Ok(MessageKind::ChunkAck),
            MSG_TYPE_CHUNK_NACK => Ok(MessageKind::ChunkNack),
            MSG_TYPE_PAUSE => Ok(MessageKind::Pause),
            MSG_TYPE_RESUME => Ok(MessageKind::Resume),
            MSG_TYPE_CANCEL => Ok(MessageKind::Cancel),
            MSG_TYPE_COMPLETE => Ok(MessageKind::Complete),
            MSG_TYPE_HEARTBEAT => Ok(MessageKind::Heartbeat),
            MSG_TYPE_BATCH_CHUNK_ACK => Ok(MessageKind::BatchChunkAck),
            other => Err(ProtocolError::InvalidMessageType(other)),
        }
    }
}

/// The type code of a kind names that kind back.
pub proof fn lemma_kind_code_roundtrip(kind: MessageKind)
    ensures
        1 <= spec_kind_code(kind) <= 13,
        forall|k2: MessageKind| spec_kind_code(k2) == spec_kind_code(kind) ==> k2 == kind,
{
}

impl Message {
    /// The kind of this message.
    pub fn kind(&self) -> (k: MessageKind)
        ensures
            k == spec_message_kind(self),
    {
        match self {
            Message::Hello(_) => MessageKind::Hello,
            Message::TransferOffer(_) => MessageKind::TransferOffer,
            Message::TransferAccept(_) => MessageKind::TransferAccept,
            Message::TransferReject(_) => MessageKind::TransferReject,
            Message::ChunkData(_) => MessageKind::ChunkData,
            Message::ChunkAck(_) => MessageKind::ChunkAck,
            Message::ChunkNack(_) => MessageKind::ChunkNack,
            Message::Pause(_) => MessageKind::Pause,
            Message::Resume(_) => MessageKind::Resume,
            Message::Cancel(_) => MessageKind::Cancel,
            Message::Complete(_) => MessageKind::Complete,
            Message::Heartbeat(_) => MessageKind::Heartbeat,
            Message::BatchChunkAck(_) => MessageKind::BatchChunkAck,
        }
    }

    /// Returns the 1-byte message type code for this message.
    pub fn message_type(&self) -> (c: u8)
        ensures
            c == spec_kind_code(spec_message_kind(self)),
    {
        self.kind().code()
    }

    /// Data-plane messages are written without an explicit flush on split write halves.
    pub fn is_bulk(&self) -> (b: bool)
        ensures
            b <==> (self is ChunkData || self is ChunkAck || self is BatchChunkAck),
    {
        match self {
            Message::ChunkData(_) | Message::ChunkAck(_) | Message::BatchChunkAck(_) => true,
            _ => false,
        }
    }
}

} // verus!
