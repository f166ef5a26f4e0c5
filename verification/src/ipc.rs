//! Agent and daemon protocol.
//!
//! Framing: `u32 BE length` + `u8 type` + payload. Control messages carry a
//! JSON payload; stream data is raw bytes. No message holds a pair code.

use vstd::prelude::*;
use vstd::string::*;
use vstd::utf8::*;

use crate::config::{loopback, loopback_view};
use crate::digits::{dec_seq, push_dec};
use crate::fault::{fault, fault_view, FaultView, IoFault, IoKind};
use crate::octets::{be32, from_be32, get_be32, lemma_be32, push_be32, push_bytes, sub_bytes};
use crate::protocol::{early_eof, ByteReader};
use crate::registry::{DeviceEntry, DeviceSnapshot, EntryView};
use crate::text::{opt_view, views};

verus! {

pub const PROTOCOL_VERSION: u32 = 1;

/// Abstract Unix socket name used when `/run` is unavailable.
pub const DEFAULT_CONTROL_ABSTRACT: &'static str = "adb-hubd";

/// Filesystem control socket path when the daemon can manage `/run`.
pub const DEFAULT_CONTROL_PATH: &'static str = "/run/adb-hubd/control.sock";

/// The longest frame that is read, in bytes after the length.
pub const MAX_FRAME: u32 = 0x100_0000;

/// The kinds of message.
#[derive(Clone, Copy, Debug, PartialEq, Eq, Structural)]
pub enum MsgType {
    RegisterAgent,
    DeviceSnapshot,
    DeviceSnapshotChanged,
    OpenPrivateStream,
    OpenResult,
    StreamData,
    StreamClose,
    Ping,
    Pong,
}

impl MsgType {
    /// The byte that stands for a kind of message.
    pub open spec fn code(self) -> u8 {
        match self {
            MsgType::RegisterAgent => 1,
            MsgType::DeviceSnapshot => 2,
            MsgType::DeviceSnapshotChanged => 3,
            MsgType::OpenPrivateStream => 4,
            MsgType::OpenResult => 5,
            MsgType::StreamData => 6,
            MsgType::StreamClose => 7,
            MsgType::Ping => 8,
            MsgType::Pong => 9,
        }
    }

    /// The byte that stands for a kind of message.
    pub fn as_u8(self) -> (v: u8)
        ensures
            v == self.code(),
    {
        match self {
            MsgType::RegisterAgent => 1,
            MsgType::DeviceSnapshot => 2,
            MsgType::DeviceSnapshotChanged => 3,
            MsgType::OpenPrivateStream => 4,
            MsgType::OpenResult => 5,
            MsgType::StreamData => 6,
            MsgType::StreamClose => 7,
            MsgType::Ping => 8,
            MsgType::Pong => 9,
        }
    }

    /// The kind of message that a byte stands for.
    pub fn from_u8(v: u8) -> (r: Option<Self>)
        ensures
            match r {
                Some(t) => t.code() == v,
                None => v == 0 || v > 9,
            },
    {
        match v {
            1 => Some(MsgType::RegisterAgent),
            2 => Some(MsgType::DeviceSnapshot),
            3 => Some(MsgType::DeviceSnapshotChanged),
            4 => Some(MsgType::OpenPrivateStream),
            5 => Some(MsgType::OpenResult),
            6 => Some(MsgType::StreamData),
            7 => Some(MsgType::StreamClose),
            8 => Some(MsgType::Ping),
            9 => Some(MsgType::Pong),
            _ => None,
        }
    }
}

/// Device metadata reported by an agent.
#[derive(Clone, Debug, PartialEq, Eq)]
pub struct SanitizedDevice {
    pub public_serial: String,
    pub upstream_serial: String,
    pub state: String,
    pub extras: String,
    pub backend_name: String,
    /// Opaque to the daemon; the agent maps it to an address and a pair code.
    pub route_id: String,
}

/// Model of [`SanitizedDevice`].
pub struct SanitizedView {
    pub public_serial: Seq<char>,
    pub upstream_serial: Seq<char>,
    pub state: Seq<char>,
    pub extras: Seq<char>,
    pub backend_name: Seq<char>,
    pub route_id: Seq<char>,
}

impl View for SanitizedDevice {
    type V = SanitizedView;

    open spec fn view(&self) -> SanitizedView {
        SanitizedView {
            public_serial: self.public_serial@,
            upstream_serial: self.upstream_serial@,
            state: self.state@,
            extras: self.extras@,
            backend_name: self.backend_name@,
            route_id: self.route_id@,
        }
    }
}

/// The models of a list of reported devices.
pub open spec fn sanitized_views(s: Seq<SanitizedDevice>) -> Seq<SanitizedView> {
    Seq::new(s.len(), |i: int| s[i]@)
}

#[derive(Clone, Debug)]
pub struct RegisterAgent {
    pub version: u32,
    pub capabilities: Vec<String>,
    pub instance_token: String,
}

#[derive(Clone, Debug)]
pub struct DeviceSnapshotMsg {
    pub generation: u64,
    pub devices: Vec<SanitizedDevice>,
}

#[derive(Clone, Debug)]
pub struct OpenPrivateStream {
    pub stream_id: u32,
    pub route_id: String,
    pub service: String,
}

#[derive(Clone, Debug)]
pub struct OpenResult {
    pub stream_id: u32,
    pub ok: bool,
    pub fail_reason: Option<String>,
}

#[derive(Clone, Debug)]
pub struct StreamClose {
    pub stream_id: u32,
    pub reason: String,
}

#[derive(Clone, Debug)]
pub enum IpcMessage {
    RegisterAgent(RegisterAgent),
    DeviceSnapshot(DeviceSnapshotMsg),
    DeviceSnapshotChanged(DeviceSnapshotMsg),
    OpenPrivateStream(OpenPrivateStream),
    OpenResult(OpenResult),
    /// Bytes of one stream.
    StreamData { stream_id: u32, data: Vec<u8> },
    StreamClose(StreamClose),
    Ping,
    Pong,
}

/// Model of [`IpcMessage`].
pub enum MessageView {
    RegisterAgent { version: u32, capabilities: Seq<Seq<char>>, instance_token: Seq<char> },
    DeviceSnapshot { generation: u64, devices: Seq<SanitizedView> },
    DeviceSnapshotChanged { generation: u64, devices: Seq<SanitizedView> },
    OpenPrivateStream { stream_id: u32, route_id: Seq<char>, service: Seq<char> },
    OpenResult { stream_id: u32, ok: bool, fail_reason: Option<Seq<char>> },
    StreamData { stream_id: u32, data: Seq<u8> },
    StreamClose { stream_id: u32, reason: Seq<char> },
    Ping,
    Pong,
}

impl View for IpcMessage {
    type V = MessageView;

    open spec fn view(&self) -> MessageView {
        match self {
            IpcMessage::RegisterAgent(m) => MessageView::RegisterAgent {
                version: m.version,
                capabilities: views(m.capabilities@),
                instance_token: m.instance_token@,
            },
            IpcMessage::DeviceSnapshot(m) => MessageView::DeviceSnapshot {
                generation: m.generation,
                devices: sanitized_views(m.devices@),
            },
            IpcMessage::DeviceSnapshotChanged(m) => MessageView::DeviceSnapshotChanged {
                generation: m.generation,
                devices: sanitized_views(m.devices@),
            },
            IpcMessage::OpenPrivateStream(m) => MessageView::OpenPrivateStream {
                stream_id: m.stream_id,
                route_id: m.route_id@,
                service: m.service@,
            },
            IpcMessage::OpenResult(m) => MessageView::OpenResult {
                stream_id: m.stream_id,
                ok: m.ok,
                fail_reason: opt_view(m.fail_reason),
            },
            IpcMessage::StreamData { stream_id, data } => MessageView::StreamData {
                stream_id: *stream_id,
                data: data@,
            },
            IpcMessage::StreamClose(m) => MessageView::StreamClose {
                stream_id: m.stream_id,
                reason: m.reason@,
            },
            IpcMessage::Ping => MessageView::Ping,
            IpcMessage::Pong => MessageView::Pong,
        }
    }
}

impl MessageView {
    /// The kind of a message.
    pub open spec fn msg_type(self) -> MsgType {
        match self {
            MessageView::RegisterAgent { .. } => MsgType::RegisterAgent,
            MessageView::DeviceSnapshot { .. } => MsgType::DeviceSnapshot,
            MessageView::DeviceSnapshotChanged { .. } => MsgType::DeviceSnapshotChanged,
            MessageView::OpenPrivateStream { .. } => MsgType::OpenPrivateStream,
            MessageView::OpenResult { .. } => MsgType::OpenResult,
            MessageView::StreamData { .. } => MsgType::StreamData,
            MessageView::StreamClose { .. } => MsgType::StreamClose,
            MessageView::Ping => MsgType::Ping,
            MessageView::Pong => MsgType::Pong,
        }
    }
}

/// The bytes of a frame.
pub open spec fn frame_bytes(ty: MsgType, payload: Seq<u8>) -> Seq<u8> {
    be32((1 + payload.len()) as u32) + seq![ty.code()] + payload
}

/// The number of bytes that follow a frame's length, or why it is refused.
pub open spec fn body_len(header: Seq<u8>) -> Result<nat, FaultView> {
    let len = from_be32(header) as nat;
    if len == 0 {
        Err(fault_view(IoKind::InvalidData, "empty IPC frame"@))
    } else if len > MAX_FRAME {
        Err(fault_view(IoKind::InvalidData, "IPC frame too large: "@ + dec_seq(len)))
    } else {
        Ok(len)
    }
}

/// The kind and the payload of a frame, or why it is refused.
pub open spec fn body_parts(body: Seq<u8>) -> Result<(MsgType, Seq<u8>), FaultView> {
    match type_of(body[0]) {
        Some(ty) => Ok((ty, body.skip(1))),
        None => Err(
            fault_view(IoKind::InvalidData, "unknown IPC type "@ + dec_seq(body[0] as nat)),
        ),
    }
}

/// The kind of message that a byte stands for.
pub open spec fn type_of(v: u8) -> Option<MsgType> {
    if v == 1 {
        Some(MsgType::RegisterAgent)
    } else if v == 2 {
        Some(MsgType::DeviceSnapshot)
    } else if v == 3 {
        Some(MsgType::DeviceSnapshotChanged)
    } else if v == 4 {
        Some(MsgType::OpenPrivateStream)
    } else if v == 5 {
        Some(MsgType::OpenResult)
    } else if v == 6 {
        Some(MsgType::StreamData)
    } else if v == 7 {
        Some(MsgType::StreamClose)
    } else if v == 8 {
        Some(MsgType::Ping)
    } else if v == 9 {
        Some(MsgType::Pong)
    } else {
        None
    }
}

/// What reading a frame from `input` gives: its kind, its payload and what
/// follows it, or why there is none.
pub open spec fn take_frame(input: Seq<u8>) -> Result<((MsgType, Seq<u8>), Seq<u8>), FaultView> {
    if input.len() < 4 {
        Err(early_eof())
    } else {
        match body_len(input.take(4)) {
            Err(f) => Err(f),
            Ok(len) => if input.len() < 4 + len {
                Err(early_eof())
            } else {
                match body_parts(input.subrange(4, 4 + len as int)) {
                    Err(f) => Err(f),
                    Ok(p) => Ok((p, input.skip(4 + len as int))),
                }
            },
        }
    }
}

/// What is left of `input` after reading a frame has failed: a frame that is
/// complete is taken even so.
pub open spec fn left_after_bad_frame(input: Seq<u8>) -> Seq<u8> {
    if input.len() < 4 {
        input
    } else {
        match body_len(input.take(4)) {
            Ok(len) if input.len() >= 4 + len => input.skip(4 + len as int),
            _ => input,
        }
    }
}

/// Append a frame.
pub fn write_frame(writer: &mut Vec<u8>, ty: MsgType, payload: &[u8])
    requires
        payload@.len() < u32::MAX,
    ensures
        final(writer)@ == old(writer)@ + frame_bytes(ty, payload@),
{
    let len: u32 = 1 + payload.len() as u32;
    push_be32(writer, len);
    writer.push(ty.as_u8());
    push_bytes(writer, payload);
    assert(writer@ =~= old(writer)@ + frame_bytes(ty, payload@));
}

/// The number of bytes that follow a frame's length.
pub fn frame_len(header: &[u8; 4]) -> (r: Result<usize, IoFault>)
    ensures
        match body_len(header@) {
            Ok(n) => r matches Ok(len) && len == n,
            Err(e) => r matches Err(f) && f@ == e,
        },
{
    let len = get_be32(header.as_slice(), 0);
    assert(header@.subrange(0, 4) =~= header@);
    if len == 0 {
        return Err(fault(IoKind::InvalidData, "empty IPC frame"));
    }
    if len > MAX_FRAME {
        let mut m = "IPC frame too large: ".to_owned();
        push_dec(&mut m, len as u128);
        return Err(fault(IoKind::InvalidData, m.as_str()));
    }
    Ok(len as usize)
}

/// The kind and the payload of a frame.
pub fn frame_parts(body: &[u8]) -> (r: Result<(MsgType, Vec<u8>), IoFault>)
    requires
        body@.len() > 0,
    ensures
        match body_parts(body@) {
            Ok((ty, payload)) => r matches Ok(p) && p.0 == ty && p.1@ == payload,
            Err(e) => r matches Err(f) && f@ == e,
        },
{
    match MsgType::from_u8(body[0]) {
        Some(ty) => {
            let payload = sub_bytes(body, 1, body.len());
            assert(payload@ =~= body@.skip(1));
            Ok((ty, payload))
        },
        None => {
            let mut m = "unknown IPC type ".to_owned();
            push_dec(&mut m, body[0] as u128);
            Err(fault(IoKind::InvalidData, m.as_str()))
        },
    }
}

/// Read a frame.
pub fn read_frame(reader: &mut ByteReader<'_>) -> (r: Result<(MsgType, Vec<u8>), IoFault>)
    requires
        old(reader).wf(),
    ensures
        final(reader).wf(),
        final(reader).buf@ == old(reader).buf@,
        match take_frame(old(reader).rest()) {
            Ok(((ty, payload), tail)) => (r matches Ok(p) && p.0 == ty && p.1@ == payload)
                && final(reader).rest() == tail,
            Err(e) => (r matches Err(f) && f@ == e) && final(reader).rest()
                == left_after_bad_frame(old(reader).rest()),
        },
{
    let left = reader.buf.len() - reader.pos;
    let pos = reader.pos;
    let ghost input = reader.rest();
    if left < 4 {
        return Err(fault(IoKind::UnexpectedEof, "early eof"));
    }
    let header: [u8; 4] = [
        reader.buf[pos],
        reader.buf[pos + 1],
        reader.buf[pos + 2],
        reader.buf[pos + 3],
    ];
    assert(header@ =~= input.take(4));
    let len = match frame_len(&header) {
        Ok(n) => n,
        Err(f) => {
            return Err(f);
        },
    };
    if left - 4 < len {
        return Err(fault(IoKind::UnexpectedEof, "early eof"));
    }
    let body = sub_bytes(reader.buf, pos + 4, pos + 4 + len);
    assert(body@ =~= input.subrange(4, 4 + len as int));
    let parts = frame_parts(body.as_slice());
    reader.pos = pos + 4 + len;
    assert(reader.rest() =~= input.skip(4 + len as int));
    parts
}

/// The payload of stream data.
pub open spec fn stream_payload(stream_id: u32, data: Seq<u8>) -> Seq<u8> {
    be32(stream_id) + data
}

/// The payload of a message, where `json` is the JSON form of its fields.
pub open spec fn message_payload(msg: MessageView, json: Seq<u8>) -> Seq<u8> {
    match msg {
        MessageView::StreamData { stream_id, data } => stream_payload(stream_id, data),
        MessageView::Ping => Seq::empty(),
        MessageView::Pong => Seq::empty(),
        _ => json,
    }
}

/// Whether a message is sent without JSON.
pub open spec fn raw_message(msg: MessageView) -> bool {
    msg is StreamData || msg is Ping || msg is Pong
}

/// The kind and the payload of a message. `json` is the JSON form of its
/// fields; stream data, `Ping` and `Pong` do not use it.
pub fn encode_message(msg: &IpcMessage, json: Result<Vec<u8>, String>) -> (r: Result<
    (MsgType, Vec<u8>),
    IoFault,
>)
    ensures
        if raw_message(msg@) || json is Ok {
            r matches Ok(p) && p.0 == msg@.msg_type() && p.1@ == message_payload(
                msg@,
                json->Ok_0@,
            )
        } else {
            r matches Err(f) && f@ == fault_view(IoKind::InvalidData, json->Err_0@)
        },
{
    let ty = match msg {
        IpcMessage::StreamData { stream_id, data } => {
            let mut payload: Vec<u8> = Vec::new();
            push_be32(&mut payload, *stream_id);
            push_bytes(&mut payload, data.as_slice());
            assert(payload@ =~= stream_payload(*stream_id, data@));
            return Ok((MsgType::StreamData, payload));
        },
        IpcMessage::Ping => {
            return Ok((MsgType::Ping, Vec::new()));
        },
        IpcMessage::Pong => {
            return Ok((MsgType::Pong, Vec::new()));
        },
        IpcMessage::RegisterAgent(_) => MsgType::RegisterAgent,
        IpcMessage::DeviceSnapshot(_) => MsgType::DeviceSnapshot,
        IpcMessage::DeviceSnapshotChanged(_) => MsgType::DeviceSnapshotChanged,
        IpcMessage::OpenPrivateStream(_) => MsgType::OpenPrivateStream,
        IpcMessage::OpenResult(_) => MsgType::OpenResult,
        IpcMessage::StreamClose(_) => MsgType::StreamClose,
    };
    match json {
        Ok(j) => Ok((ty, j)),
        Err(e) => Err(fault(IoKind::InvalidData, e.as_str())),
    }
}

/// Append a message. `json` is the JSON form of its fields.
pub fn write_message(writer: &mut Vec<u8>, msg: &IpcMessage, json: Result<Vec<u8>, String>) -> (r:
    Result<(), IoFault>)
    requires
        json matches Ok(j) ==> j@.len() < u32::MAX,
        msg@ matches MessageView::StreamData { data, .. } ==> data.len() < u32::MAX - 4,
    ensures
        match r {
            Ok(_) => final(writer)@ == old(writer)@ + frame_bytes(
                msg@.msg_type(),
                message_payload(msg@, json->Ok_0@),
            ) && (json is Ok || raw_message(msg@)),
            Err(f) => !raw_message(msg@) && json is Err && f@ == fault_view(
                IoKind::InvalidData,
                json->Err_0@,
            ) && final(writer)@ == old(writer)@,
        },
{
    match encode_message(msg, json) {
        Ok((ty, payload)) => {
            write_frame(writer, ty, payload.as_slice());
            Ok(())
        },
        Err(f) => Err(f),
    }
}

/// What a frame holds.
#[derive(Debug)]
pub enum Decoded {
    /// A message without JSON.
    Message(IpcMessage),
    /// The JSON of a message of this kind.
    Json(MsgType, Vec<u8>),
}

/// Model of [`Decoded`].
pub enum DecodedView {
    Message(MessageView),
    Json(MsgType, Seq<u8>),
}

impl View for Decoded {
    type V = DecodedView;

    open spec fn view(&self) -> DecodedView {
        match self {
            Decoded::Message(m) => DecodedView::Message(m@),
            Decoded::Json(ty, b) => DecodedView::Json(*ty, b@),
        }
    }
}

/// What the payload of a frame holds, or why it is refused.
pub open spec fn decoded(ty: MsgType, payload: Seq<u8>) -> Result<DecodedView, FaultView> {
    match ty {
        MsgType::StreamData => if payload.len() < 4 {
            Err(fault_view(IoKind::InvalidData, "StreamData too short"@))
        } else {
            Ok(
                DecodedView::Message(
                    MessageView::StreamData {
                        stream_id: from_be32(payload.take(4)) as u32,
                        data: payload.skip(4),
                    },
                ),
            )
        },
        MsgType::Ping => Ok(DecodedView::Message(MessageView::Ping)),
        MsgType::Pong => Ok(DecodedView::Message(MessageView::Pong)),
        _ => Ok(DecodedView::Json(ty, payload)),
    }
}

/// Decode the payload of a frame as far as it is not JSON.
pub fn decode_message(ty: MsgType, payload: Vec<u8>) -> (r: Result<Decoded, IoFault>)
    ensures
        match decoded(ty, payload@) {
            Ok(d) => r matches Ok(v) && v@ == d,
            Err(e) => r matches Err(f) && f@ == e,
        },
{
    match ty {
        MsgType::StreamData => {
            if payload.len() < 4 {
                return Err(fault(IoKind::InvalidData, "StreamData too short"));
            }
            let stream_id = get_be32(payload.as_slice(), 0);
            let data = sub_bytes(payload.as_slice(), 4, payload.len());
            assert(payload@.subrange(0, 4) =~= payload@.take(4));
            assert(data@ =~= payload@.skip(4));
            Ok(Decoded::Message(IpcMessage::StreamData { stream_id, data }))
        },
        MsgType::Ping => Ok(Decoded::Message(IpcMessage::Ping)),
        MsgType::Pong => Ok(Decoded::Message(IpcMessage::Pong)),
        _ => Ok(Decoded::Json(ty, payload)),
    }
}

/// What reading a message from `input` gives, with what follows it.
pub open spec fn take_message(input: Seq<u8>) -> Result<(DecodedView, Seq<u8>), FaultView> {
    match take_frame(input) {
        Err(f) => Err(f),
        Ok(((ty, payload), tail)) => match decoded(ty, payload) {
            Err(f) => Err(f),
            Ok(d) => Ok((d, tail)),
        },
    }
}

/// Read a message, as far as it is not JSON.
pub fn read_message(reader: &mut ByteReader<'_>) -> (r: Result<Decoded, IoFault>)
    requires
        old(reader).wf(),
    ensures
        final(reader).wf(),
        final(reader).buf@ == old(reader).buf@,
        match take_message(old(reader).rest()) {
            Ok((d, tail)) => (r matches Ok(v) && v@ == d) && final(reader).rest() == tail,
            Err(e) => (r matches Err(f) && f@ == e) && final(reader).rest()
                == left_after_bad_frame(old(reader).rest()),
        },
{
    match read_frame(reader) {
        Ok((ty, payload)) => decode_message(ty, payload),
        Err(f) => Err(f),
    }
}

/// The path bytes of an abstract Unix socket: a zero byte and then the name.
/// `capacity` is the size of the path in a socket address.
pub fn abstract_path(name: &str, capacity: usize) -> (r: Result<Vec<u8>, IoFault>)
    ensures
        if encode_utf8(name@).len() + 1 >= capacity {
            r matches Err(f) && f@ == fault_view(
                IoKind::InvalidInput,
                "abstract socket name too long"@,
            )
        } else {
            r matches Ok(b) && b@ == seq![0u8] + encode_utf8(name@)
        },
{
    let bytes = name.as_bytes();
    if capacity == 0 || bytes.len() >= capacity - 1 {
        return Err(fault(IoKind::InvalidInput, "abstract socket name too long"));
    }
    let mut b: Vec<u8> = Vec::new();
    b.push(0);
    push_bytes(&mut b, bytes);
    assert(b@ =~= seq![0u8] + encode_utf8(name@));
    Ok(b)
}

/// The entry of a device that an agent reports.
pub open spec fn private_entry(d: SanitizedView) -> EntryView {
    EntryView {
        public_serial: d.public_serial,
        upstream_serial: d.upstream_serial,
        state: d.state,
        extras: d.extras,
        backend_name: d.backend_name,
        backend_addr: loopback_view(0),
        pair_code: None,
        route_id: Some(d.route_id),
    }
}

/// The entries of the devices that an agent reports.
pub open spec fn private_entries(s: Seq<SanitizedView>) -> Seq<EntryView> {
    Seq::new(s.len(), |i: int| private_entry(s[i]))
}

/// The entries of the devices that an agent reports. Private streams go
/// through the agent, so the address is a placeholder.
pub fn sanitized_to_snapshot(devices: &[SanitizedDevice]) -> (snap: DeviceSnapshot)
    ensures
        snap@ == private_entries(sanitized_views(devices@)),
{
    let mut entries: Vec<DeviceEntry> = Vec::new();
    let mut i: usize = 0;
    while i < devices.len()
        invariant
            i <= devices@.len(),
            entries@.len() == i,
            forall|j: int|
                0 <= j < i ==> (#[trigger] entries@[j])@ == private_entry(devices@[j]@),
        decreases devices@.len() - i,
    {
        let d = &devices[i];
        entries.push(
            DeviceEntry {
                public_serial: d.public_serial.clone(),
                upstream_serial: d.upstream_serial.clone(),
                state: d.state.clone(),
                extras: d.extras.clone(),
                backend_name: d.backend_name.clone(),
                backend_addr: loopback(0),
                pair_code: None,
                route_id: Some(d.route_id.clone()),
            },
        );
        i += 1;
    }
    let snap = DeviceSnapshot { devices: entries };
    assert(snap@ =~= private_entries(sanitized_views(devices@)));
    snap
}

/// Every kind of message is told apart by its byte.
pub proof fn kinds_round_trip(ty: MsgType, v: u8)
    ensures
        type_of(ty.code()) == Some(ty),
        type_of(v) matches Some(t) ==> t.code() == v,
{
}

/// A frame is read back as it was written, whatever follows it.
pub proof fn frame_round_trip(ty: MsgType, payload: Seq<u8>, tail: Seq<u8>)
    requires
        payload.len() < MAX_FRAME,
    ensures
        take_frame(frame_bytes(ty, payload) + tail) == Ok::<
            ((MsgType, Seq<u8>), Seq<u8>),
            FaultView,
        >(((ty, payload), tail)),
{
    let len = (1 + payload.len()) as u32;
    lemma_be32(len);
    let input = frame_bytes(ty, payload) + tail;
    assert(input.take(4) =~= be32(len));
    let body = input.subrange(4, 4 + len as int);
    assert(body =~= seq![ty.code()] + payload);
    assert(body.skip(1) =~= payload);
    assert(input.skip(4 + len as int) =~= tail);
}

/// A frame that has not arrived in full is not taken for one.
pub proof fn partial_frame_is_not_taken(ty: MsgType, payload: Seq<u8>, k: int)
    requires
        payload.len() < MAX_FRAME,
        0 <= k < frame_bytes(ty, payload).len(),
    ensures
        take_frame(frame_bytes(ty, payload).take(k)) == Err::<
            ((MsgType, Seq<u8>), Seq<u8>),
            FaultView,
        >(early_eof()),
{
    let len = (1 + payload.len()) as u32;
    lemma_be32(len);
    let input = frame_bytes(ty, payload).take(k);
    if k >= 4 {
        assert(input.take(4) =~= be32(len));
    }
}

/// A message that was written is read back: raw messages as they are, others
/// as the JSON of their kind.
pub proof fn message_round_trip(msg: MessageView, json: Seq<u8>, tail: Seq<u8>)
    requires
        message_payload(msg, json).len() < MAX_FRAME,
    ensures
        take_message(frame_bytes(msg.msg_type(), message_payload(msg, json)) + tail) == Ok::<
            (DecodedView, Seq<u8>),
            FaultView,
        >(
            (
                if raw_message(msg) {
                    DecodedView::Message(msg)
                } else {
                    DecodedView::Json(msg.msg_type(), json)
                },
                tail,
            ),
        ),
{
    frame_round_trip(msg.msg_type(), message_payload(msg, json), tail);
    if let MessageView::StreamData { stream_id, data } = msg {
        lemma_be32(stream_id);
        let p = stream_payload(stream_id, data);
        assert(p.take(4) =~= be32(stream_id));
        assert(p.skip(4) =~= data);
    }
}

/// Devices that an agent reports are entered with a route and without a pair
/// code.
pub proof fn reported_devices_hold_no_pair_code(s: Seq<SanitizedView>, i: int)
    requires
        0 <= i < s.len(),
    ensures
        private_entries(s)[i].pair_code is None,
        private_entries(s)[i].route_id == Some(s[i].route_id),
{
}

/// A reported device is entered as it was reported: every serial, the state, the
/// extra columns, the backend's name and the route.
pub proof fn reported_devices_are_entered_as_they_are(s: Seq<SanitizedView>, i: int)
    requires
        0 <= i < s.len(),
    ensures
        private_entries(s).len() == s.len(),
        private_entries(s)[i].public_serial == s[i].public_serial,
        private_entries(s)[i].upstream_serial == s[i].upstream_serial,
        private_entries(s)[i].state == s[i].state,
        private_entries(s)[i].extras == s[i].extras,
        private_entries(s)[i].backend_name == s[i].backend_name,
        private_entries(s)[i].route_id == Some(s[i].route_id),
        private_entries(s)[i].pair_code is None,
{
}

/// The bytes that stand for the kinds of message on the wire.
pub proof fn kinds_have_fixed_bytes()
    ensures
        MsgType::RegisterAgent.code() == 1,
        MsgType::DeviceSnapshot.code() == 2,
        MsgType::DeviceSnapshotChanged.code() == 3,
        MsgType::OpenPrivateStream.code() == 4,
        MsgType::OpenResult.code() == 5,
        MsgType::StreamData.code() == 6,
        MsgType::StreamClose.code() == 7,
        MsgType::Ping.code() == 8,
        MsgType::Pong.code() == 9,
        forall|v: u8| (#[trigger] type_of(v)) is None <==> v == 0 || v > 9,
{
}

/// A frame is its length in four bytes, the highest first, then the byte for its
/// kind and the payload.
pub proof fn frames_state_their_length(ty: MsgType, payload: Seq<u8>)
    requires
        payload.len() < u32::MAX,
    ensures
        ({
            let b = frame_bytes(ty, payload);
            &&& b.len() == 5 + payload.len()
            &&& b[0] * 0x100_0000 + b[1] * 0x1_0000 + b[2] * 0x100 + b[3] == 1 + payload.len()
            &&& b[4] == ty.code()
            &&& b.skip(5) == payload
        }),
{
    let len = (1 + payload.len()) as u32;
    lemma_be32(len);
    let b = frame_bytes(ty, payload);
    assert(b.take(4) =~= be32(len));
    assert(b[0] == be32(len)[0] && b[1] == be32(len)[1]);
    assert(b[2] == be32(len)[2] && b[3] == be32(len)[3]);
    assert(b.skip(5) =~= payload);
}

/// Frames that are empty, too long or of an unknown kind are refused, and every
/// other one that has arrived in full is taken.
pub proof fn bad_frames_are_refused(input: Seq<u8>)
    requires
        input.len() >= 4,
    ensures
        ({
            let len = input[0] * 0x100_0000 + input[1] * 0x1_0000 + input[2] * 0x100 + input[3];
            &&& len == 0 ==> take_frame(input) == Err::<((MsgType, Seq<u8>), Seq<u8>), FaultView>(
                fault_view(IoKind::InvalidData, "empty IPC frame"@),
            )
            &&& len > 0x100_0000 ==> take_frame(input) == Err::<
                ((MsgType, Seq<u8>), Seq<u8>),
                FaultView,
            >(fault_view(IoKind::InvalidData, "IPC frame too large: "@ + dec_seq(len as nat)))
            &&& 0 < len <= 0x100_0000 && input.len() < 4 + len ==> take_frame(input) == Err::<
                ((MsgType, Seq<u8>), Seq<u8>),
                FaultView,
            >(early_eof())
            &&& 0 < len <= 0x100_0000 && input.len() >= 4 + len ==> (take_frame(input) is Ok <==> 1
                <= input[4] <= 9) && (take_frame(input) matches Ok(((ty, payload), tail))
                ==> ty.code() == input[4] && payload == input.subrange(5, 4 + len) && tail
                == input.skip(4 + len))
        }),
{
    let h = input.take(4);
    assert(h[0] == input[0] && h[1] == input[1] && h[2] == input[2] && h[3] == input[3]);
    let len = input[0] * 0x100_0000 + input[1] * 0x1_0000 + input[2] * 0x100 + input[3];
    assert(from_be32(h) == len);
    if 0 < len <= 0x100_0000 && input.len() >= 4 + len {
        let body = input.subrange(4, 4 + len);
        assert(body[0] == input[4]);
        assert(body.skip(1) =~= input.subrange(5, 4 + len));
    }
}

/// The bytes of a stream are carried unchanged behind the stream's id.
pub proof fn stream_bytes_are_carried_unchanged(stream_id: u32, data: Seq<u8>, json: Seq<u8>)
    ensures
        decoded(
            MsgType::StreamData,
            message_payload(MessageView::StreamData { stream_id, data }, json),
        ) == Ok::<DecodedView, FaultView>(
            DecodedView::Message(MessageView::StreamData { stream_id, data }),
        ),
        message_payload(MessageView::StreamData { stream_id, data }, json).skip(4) == data,
        message_payload(MessageView::Ping, json).len() == 0,
        message_payload(MessageView::Pong, json).len() == 0,
{
    lemma_be32(stream_id);
    let p = stream_payload(stream_id, data);
    assert(p.take(4) =~= be32(stream_id));
    assert(p.skip(4) =~= data);
}

/// A frame that has arrived in full is taken even if it is refused, so that the next
/// one can be read; otherwise nothing is taken.
pub proof fn refused_frames_are_taken(input: Seq<u8>)
    ensures
        input.len() < 4 ==> left_after_bad_frame(input) == input,
        input.len() >= 4 ==> {
            let len = input[0] * 0x100_0000 + input[1] * 0x1_0000 + input[2] * 0x100 + input[3];
            left_after_bad_frame(input) == (if 0 < len <= 0x100_0000 && input.len() >= 4 + len {
                input.skip(4 + len)
            } else {
                input
            })
        },
{
    if input.len() >= 4 {
        let h = input.take(4);
        assert(h[0] == input[0] && h[1] == input[1] && h[2] == input[2] && h[3] == input[3]);
    }
}

/// A frame that one side writes, the other reads with its kind and payload, and
/// nothing of what follows.
pub proof fn written_frames_are_read(
    w: &mut Vec<u8>,
    ty: MsgType,
    payload: &[u8],
    rd: &mut ByteReader<'_>,
    r: Result<(MsgType, Vec<u8>), IoFault>,
    tail: Seq<u8>,
)
    requires
        payload@.len() < MAX_FRAME,
        call_ensures(write_frame, (w, ty, payload), ()),
        old(rd).wf(),
        old(rd).rest() == final(w)@.skip(old(w)@.len() as int) + tail,
        call_ensures(read_frame, (rd,), r),
    ensures
        final(w)@.take(old(w)@.len() as int) == old(w)@,
        r matches Ok(p) && p.0 == ty && p.1@ == payload@,
        final(rd).rest() == tail,
{
    assert(final(w)@.skip(old(w)@.len() as int) =~= frame_bytes(ty, payload@));
    assert(final(w)@.take(old(w)@.len() as int) =~= old(w)@);
    frame_round_trip(ty, payload@, tail);
}

} // verus!
