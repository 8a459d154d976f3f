//! Message catalog: the closed set of protocol messages and their wire
//! rules.
//!
//! Every message travels as one definite-length array of items: the channel
//! identifier, the lowercase operation name, then the fields of that
//! operation.  The operation name is the leading discriminator, so a decoder
//! needs no external context.  Stream-data payloads are either a text string
//! or the explicit null marker, which keeps "no data" distinguishable from
//! "empty data".

use vstd::prelude::*;
use vstd::slice::{slice_subrange, slice_to_vec};
use vstd::string::{StrSliceExecFns, StringSliceAdditionalSpecFns};

use crate::cbor::{
    lemma_header_round_trip, lemma_pow256_unfold, pow256, push_header, read_header, spec_header,
    spec_read_header,
};

verus! {

/// Error taxonomy of the protocol layer.
///
/// `ParseError` marks bytes the wire codec cannot read; `MessageParseError`
/// marks a well-formed envelope whose fields match no known operation;
/// `MessageCreationError` marks a local fault while building an outgoing
/// message; `ProtocolStateError` marks a message that is invalid for the
/// session's current state; `ChecksumMismatchError` marks a completed file
/// transfer whose checksum does not match the accumulated bytes.
#[derive(Debug)]
pub enum ProtocolError {
    ParseError { err: String },
    MessageParseError { err: String },
    MessageCreationError { message: String },
    ProtocolStateError { err: String },
    ChecksumMismatchError { err: String },
}

/// One generic payload item of a decoded envelope.
#[derive(Debug)]
pub enum PayloadValue {
    Uint(u64),
    Bytes(Vec<u8>),
    Text(Vec<u8>),
    Null,
}

/// Mathematical model of a payload item.
pub enum PayloadValueV {
    Uint(nat),
    Bytes(Seq<u8>),
    Text(Seq<u8>),
    Null,
}

impl View for PayloadValue {
    type V = PayloadValueV;

    open spec fn view(&self) -> PayloadValueV {
        match self {
            PayloadValue::Uint(n) => PayloadValueV::Uint(*n as nat),
            PayloadValue::Bytes(b) => PayloadValueV::Bytes(b@),
            PayloadValue::Text(t) => PayloadValueV::Text(t@),
            PayloadValue::Null => PayloadValueV::Null,
        }
    }
}

/// A decoded envelope: the channel, the operation name, and the remaining
/// payload items, not yet resolved to a message variant.
#[derive(Debug)]
pub struct ChannelMessage {
    pub channel_id: u32,
    pub name: Vec<u8>,
    pub payload: Vec<PayloadValue>,
}

/// Mathematical model of a decoded envelope.
pub struct ChannelMessageV {
    pub channel_id: u32,
    pub name: Seq<u8>,
    pub payload: Seq<PayloadValueV>,
}

pub open spec fn payload_views(p: Seq<PayloadValue>) -> Seq<PayloadValueV> {
    p.map_values(|v: PayloadValue| v@)
}

impl View for ChannelMessage {
    type V = ChannelMessageV;

    open spec fn view(&self) -> ChannelMessageV {
        ChannelMessageV {
            channel_id: self.channel_id,
            name: self.name@,
            payload: payload_views(self.payload@),
        }
    }
}

/// One protocol message.  Exactly one spawn-class message
/// (`Spawn`/`ExportRequest`/`ImportRequest`) opens a channel's session; the
/// stream and file-chunk messages carry data; `Eof`, `FileComplete` and
/// `Error` end it.  Stream data is `None` for an absent payload, which is
/// distinct from `Some` of an empty payload.
#[derive(Debug)]
pub enum Message {
    Spawn { channel_id: u32, command: Vec<u8>, args: Vec<Vec<u8>> },
    Stdin { channel_id: u32, data: Option<Vec<u8>> },
    Stdout { channel_id: u32, data: Option<Vec<u8>> },
    Stderr { channel_id: u32, data: Option<Vec<u8>> },
    Eof { channel_id: u32 },
    Error { channel_id: u32, message: Vec<u8> },
    Ack { channel_id: u32 },
    ExportRequest { channel_id: u32, path: Vec<u8> },
    ImportRequest { channel_id: u32, path: Vec<u8> },
    FileChunk { channel_id: u32, offset: u64, data: Vec<u8> },
    FileComplete { channel_id: u32, checksum: u32 },
}

/// Mathematical model of a protocol message.
pub enum MessageV {
    Spawn { channel_id: u32, command: Seq<u8>, args: Seq<Seq<u8>> },
    Stdin { channel_id: u32, data: Option<Seq<u8>> },
    Stdout { channel_id: u32, data: Option<Seq<u8>> },
    Stderr { channel_id: u32, data: Option<Seq<u8>> },
    Eof { channel_id: u32 },
    Error { channel_id: u32, message: Seq<u8> },
    Ack { channel_id: u32 },
    ExportRequest { channel_id: u32, path: Seq<u8> },
    ImportRequest { channel_id: u32, path: Seq<u8> },
    FileChunk { channel_id: u32, offset: u64, data: Seq<u8> },
    FileComplete { channel_id: u32, checksum: u32 },
}

pub open spec fn arg_views(args: Seq<Vec<u8>>) -> Seq<Seq<u8>> {
    args.map_values(|a: Vec<u8>| a@)
}

pub open spec fn data_view(d: Option<Vec<u8>>) -> Option<Seq<u8>> {
    match d {
        Some(v) => Some(v@),
        None => None,
    }
}

impl View for Message {
    type V = MessageV;

    open spec fn view(&self) -> MessageV {
        match self {
            Message::Spawn { channel_id, command, args } => MessageV::Spawn {
                channel_id: *channel_id,
                command: command@,
                args: arg_views(args@),
            },
            Message::Stdin { channel_id, data } => MessageV::Stdin {
                channel_id: *channel_id,
                data: data_view(*data),
            },
            Message::Stdout { channel_id, data } => MessageV::Stdout {
                channel_id: *channel_id,
                data: data_view(*data),
            },
            Message::Stderr { channel_id, data } => MessageV::Stderr {
                channel_id: *channel_id,
                data: data_view(*data),
            },
            Message::Eof { channel_id } => MessageV::Eof { channel_id: *channel_id },
            Message::Error { channel_id, message } => MessageV::Error {
                channel_id: *channel_id,
                message: message@,
            },
            Message::Ack { channel_id } => MessageV::Ack { channel_id: *channel_id },
            Message::ExportRequest { channel_id, path } => MessageV::ExportRequest {
                channel_id: *channel_id,
                path: path@,
            },
            Message::ImportRequest { channel_id, path } => MessageV::ImportRequest {
                channel_id: *channel_id,
                path: path@,
            },
            Message::FileChunk { channel_id, offset, data } => MessageV::FileChunk {
                channel_id: *channel_id,
                offset: *offset,
                data: data@,
            },
            Message::FileComplete { channel_id, checksum } => MessageV::FileComplete {
                channel_id: *channel_id,
                checksum: *checksum,
            },
        }
    }
}

/// The channel a message belongs to.
pub open spec fn spec_channel_of(m: MessageV) -> u32 {
    match m {
        MessageV::Spawn { channel_id, .. } => channel_id,
        MessageV::Stdin { channel_id, .. } => channel_id,
        MessageV::Stdout { channel_id, .. } => channel_id,
        MessageV::Stderr { channel_id, .. } => channel_id,
        MessageV::Eof { channel_id } => channel_id,
        MessageV::Error { channel_id, .. } => channel_id,
        MessageV::Ack { channel_id } => channel_id,
        MessageV::ExportRequest { channel_id, .. } => channel_id,
        MessageV::ImportRequest { channel_id, .. } => channel_id,
        MessageV::FileChunk { channel_id, .. } => channel_id,
        MessageV::FileComplete { channel_id, .. } => channel_id,
    }
}

pub fn channel_of(m: &Message) -> (c: u32)
    ensures
        c == spec_channel_of(m@),
{
    match m {
        Message::Spawn { channel_id, .. } => *channel_id,
        Message::Stdin { channel_id, .. } => *channel_id,
        Message::Stdout { channel_id, .. } => *channel_id,
        Message::Stderr { channel_id, .. } => *channel_id,
        Message::Eof { channel_id } => *channel_id,
        Message::Error { channel_id, .. } => *channel_id,
        Message::Ack { channel_id } => *channel_id,
        Message::ExportRequest { channel_id, .. } => *channel_id,
        Message::ImportRequest { channel_id, .. } => *channel_id,
        Message::FileChunk { channel_id, .. } => *channel_id,
        Message::FileComplete { channel_id, .. } => *channel_id,
    }
}

// Operation names: lowercase seven-bit text, the wire discriminator of each
// message variant.
/// "spawn"
pub open spec fn op_spawn() -> Seq<u8> {
    seq![115u8, 112u8, 97u8, 119u8, 110u8]
}

/// "stdin"
pub open spec fn op_stdin() -> Seq<u8> {
    seq![115u8, 116u8, 100u8, 105u8, 110u8]
}

/// "stdout"
pub open spec fn op_stdout() -> Seq<u8> {
    seq![115u8, 116u8, 100u8, 111u8, 117u8, 116u8]
}

/// "stderr"
pub open spec fn op_stderr() -> Seq<u8> {
    seq![115u8, 116u8, 100u8, 101u8, 114u8, 114u8]
}

/// "eof"
pub open spec fn op_eof() -> Seq<u8> {
    seq![101u8, 111u8, 102u8]
}

/// "error"
pub open spec fn op_error() -> Seq<u8> {
    seq![101u8, 114u8, 114u8, 111u8, 114u8]
}

/// "ack"
pub open spec fn op_ack() -> Seq<u8> {
    seq![97u8, 99u8, 107u8]
}

/// "export"
pub open spec fn op_export() -> Seq<u8> {
    seq![101u8, 120u8, 112u8, 111u8, 114u8, 116u8]
}

/// "import"
pub open spec fn op_import() -> Seq<u8> {
    seq![105u8, 109u8, 112u8, 111u8, 114u8, 116u8]
}

/// "chunk"
pub open spec fn op_chunk() -> Seq<u8> {
    seq![99u8, 104u8, 117u8, 110u8, 107u8]
}

/// "complete"
pub open spec fn op_complete() -> Seq<u8> {
    seq![99u8, 111u8, 109u8, 112u8, 108u8, 101u8, 116u8, 101u8]
}

/// The operation name of a message.
pub open spec fn spec_op_of(m: MessageV) -> Seq<u8> {
    match m {
        MessageV::Spawn { .. } => op_spawn(),
        MessageV::Stdin { .. } => op_stdin(),
        MessageV::Stdout { .. } => op_stdout(),
        MessageV::Stderr { .. } => op_stderr(),
        MessageV::Eof { .. } => op_eof(),
        MessageV::Error { .. } => op_error(),
        MessageV::Ack { .. } => op_ack(),
        MessageV::ExportRequest { .. } => op_export(),
        MessageV::ImportRequest { .. } => op_import(),
        MessageV::FileChunk { .. } => op_chunk(),
        MessageV::FileComplete { .. } => op_complete(),
    }
}

// Item forms over the wire codec.
pub open spec fn spec_uint_item(n: nat) -> Seq<u8> {
    spec_header(0, n)
}

pub open spec fn spec_bytes_item(d: Seq<u8>) -> Seq<u8> {
    spec_header(2, d.len()) + d
}

pub open spec fn spec_text_item(d: Seq<u8>) -> Seq<u8> {
    spec_header(3, d.len()) + d
}

pub open spec fn spec_null_item() -> Seq<u8> {
    seq![246u8]
}

/// The items of a stream payload: the data as text, or the null marker.
pub open spec fn spec_stream_payload(data: Option<Seq<u8>>) -> Seq<u8> {
    match data {
        Some(d) => spec_text_item(d),
        None => spec_null_item(),
    }
}

/// One text item per sequence element, in order.
pub open spec fn spec_text_items(args: Seq<Seq<u8>>) -> Seq<u8>
    decreases args.len(),
{
    if args.len() == 0 {
        Seq::empty()
    } else {
        spec_text_item(args[0]) + spec_text_items(args.drop_first())
    }
}

/// How many payload items a message carries after the channel and the name.
pub open spec fn spec_payload_count(m: MessageV) -> nat {
    match m {
        MessageV::Spawn { args, .. } => 1 + args.len(),
        MessageV::Stdin { .. } => 1,
        MessageV::Stdout { .. } => 1,
        MessageV::Stderr { .. } => 1,
        MessageV::Eof { .. } => 0,
        MessageV::Error { .. } => 1,
        MessageV::Ack { .. } => 0,
        MessageV::ExportRequest { .. } => 1,
        MessageV::ImportRequest { .. } => 1,
        MessageV::FileChunk { .. } => 2,
        MessageV::FileComplete { .. } => 1,
    }
}

/// The payload bytes of a message.
pub open spec fn spec_payload_bytes(m: MessageV) -> Seq<u8> {
    match m {
        MessageV::Spawn { command, args, .. } => spec_text_item(command) + spec_text_items(args),
        MessageV::Stdin { data, .. } => spec_stream_payload(data),
        MessageV::Stdout { data, .. } => spec_stream_payload(data),
        MessageV::Stderr { data, .. } => spec_stream_payload(data),
        MessageV::Eof { .. } => Seq::empty(),
        MessageV::Error { message, .. } => spec_text_item(message),
        MessageV::Ack { .. } => Seq::empty(),
        MessageV::ExportRequest { path, .. } => spec_text_item(path),
        MessageV::ImportRequest { path, .. } => spec_text_item(path),
        MessageV::FileChunk { offset, data, .. } => spec_uint_item(offset as nat) + spec_bytes_item(
            data,
        ),
        MessageV::FileComplete { checksum, .. } => spec_uint_item(checksum as nat),
    }
}

/// The full encoding of a message: an array of the channel identifier, the
/// operation name, and the operation's fields.  Encoding is deterministic:
/// it is a function.
pub open spec fn spec_encode(m: MessageV) -> Seq<u8> {
    spec_header(4, 2 + spec_payload_count(m)) + spec_uint_item(spec_channel_of(m) as nat)
        + spec_text_item(spec_op_of(m)) + spec_payload_bytes(m)
}

/// Field sizes the wire format can carry.  Every value built from real
/// vectors satisfies these bounds.
pub open spec fn msg_wf(m: MessageV) -> bool {
    match m {
        MessageV::Spawn { command, args, .. } => {
            &&& command.len() < pow256(8)
            &&& 3 + args.len() < pow256(8)
            &&& forall|i: int| 0 <= i < args.len() ==> (#[trigger] args[i]).len() < pow256(8)
        },
        MessageV::Stdin { data, .. } => data matches Some(d) ==> d.len() < pow256(8),
        MessageV::Stdout { data, .. } => data matches Some(d) ==> d.len() < pow256(8),
        MessageV::Stderr { data, .. } => data matches Some(d) ==> d.len() < pow256(8),
        MessageV::Error { message, .. } => message.len() < pow256(8),
        MessageV::ExportRequest { path, .. } => path.len() < pow256(8),
        MessageV::ImportRequest { path, .. } => path.len() < pow256(8),
        MessageV::FileChunk { data, .. } => data.len() < pow256(8),
        _ => true,
    }
}

// Executable encoders.
fn push_uint_item(out: &mut Vec<u8>, n: u64)
    ensures
        final(out)@ == old(out)@ + spec_uint_item(n as nat),
{
    push_header(out, 0, n);
}

fn push_bytes_item(out: &mut Vec<u8>, d: &Vec<u8>)
    ensures
        final(out)@ == old(out)@ + spec_bytes_item(d@),
{
    push_header(out, 2, d.len() as u64);
    let mut tail = slice_to_vec(d.as_slice());
    out.append(&mut tail);
    assert(out@ =~= old(out)@ + spec_bytes_item(d@));
}

fn push_text_item(out: &mut Vec<u8>, d: &Vec<u8>)
    ensures
        final(out)@ == old(out)@ + spec_text_item(d@),
{
    push_header(out, 3, d.len() as u64);
    let mut tail = slice_to_vec(d.as_slice());
    out.append(&mut tail);
    assert(out@ =~= old(out)@ + spec_text_item(d@));
}

fn push_null_item(out: &mut Vec<u8>)
    ensures
        final(out)@ == old(out)@ + spec_null_item(),
{
    out.push(246);
    assert(out@ =~= old(out)@ + spec_null_item());
}

fn push_stream_payload(out: &mut Vec<u8>, data: &Option<Vec<u8>>)
    ensures
        final(out)@ == old(out)@ + spec_stream_payload(data_view(*data)),
{
    match data {
        Some(d) => push_text_item(out, d),
        None => push_null_item(out),
    }
}

/// Builds one operation name as bytes.
fn op_spawn_vec() -> (r: Vec<u8>)
    ensures
        r@ == op_spawn(),
{
    let mut r: Vec<u8> = Vec::new();
    r.push(115);
    r.push(112);
    r.push(97);
    r.push(119);
    r.push(110);
    assert(r@ =~= op_spawn());
    r
}

/// Builds one operation name as bytes.
fn op_stdin_vec() -> (r: Vec<u8>)
    ensures
        r@ == op_stdin(),
{
    let mut r: Vec<u8> = Vec::new();
    r.push(115);
    r.push(116);
    r.push(100);
    r.push(105);
    r.push(110);
    assert(r@ =~= op_stdin());
    r
}

/// Builds one operation name as bytes.
fn op_stdout_vec() -> (r: Vec<u8>)
    ensures
        r@ == op_stdout(),
{
    let mut r: Vec<u8> = Vec::new();
    r.push(115);
    r.push(116);
    r.push(100);
    r.push(111);
    r.push(117);
    r.push(116);
    assert(r@ =~= op_stdout());
    r
}

/// Builds one operation name as bytes.
fn op_stderr_vec() -> (r: Vec<u8>)
    ensures
        r@ == op_stderr(),
{
    let mut r: Vec<u8> = Vec::new();
    r.push(115);
    r.push(116);
    r.push(100);
    r.push(101);
    r.push(114);
    r.push(114);
    assert(r@ =~= op_stderr());
    r
}

/// Builds one operation name as bytes.
fn op_eof_vec() -> (r: Vec<u8>)
    ensures
        r@ == op_eof(),
{
    let mut r: Vec<u8> = Vec::new();
    r.push(101);
    r.push(111);
    r.push(102);
    assert(r@ =~= op_eof());
    r
}

/// Builds one operation name as bytes.
fn op_error_vec() -> (r: Vec<u8>)
    ensures
        r@ == op_error(),
{
    let mut r: Vec<u8> = Vec::new();
    r.push(101);
    r.push(114);
    r.push(114);
    r.push(111);
    r.push(114);
    assert(r@ =~= op_error());
    r
}

/// Builds one operation name as bytes.
fn op_ack_vec() -> (r: Vec<u8>)
    ensures
        r@ == op_ack(),
{
    let mut r: Vec<u8> = Vec::new();
    r.push(97);
    r.push(99);
    r.push(107);
    assert(r@ =~= op_ack());
    r
}

/// Builds one operation name as bytes.
fn op_export_vec() -> (r: Vec<u8>)
    ensures
        r@ == op_export(),
{
    let mut r: Vec<u8> = Vec::new();
    r.push(101);
    r.push(120);
    r.push(112);
    r.push(111);
    r.push(114);
    r.push(116);
    assert(r@ =~= op_export());
    r
}

/// Builds one operation name as bytes.
fn op_import_vec() -> (r: Vec<u8>)
    ensures
        r@ == op_import(),
{
    let mut r: Vec<u8> = Vec::new();
    r.push(105);
    r.push(109);
    r.push(112);
    r.push(111);
    r.push(114);
    r.push(116);
    assert(r@ =~= op_import());
    r
}

/// Builds one operation name as bytes.
fn op_chunk_vec() -> (r: Vec<u8>)
    ensures
        r@ == op_chunk(),
{
    let mut r: Vec<u8> = Vec::new();
    r.push(99);
    r.push(104);
    r.push(117);
    r.push(110);
    r.push(107);
    assert(r@ =~= op_chunk());
    r
}

/// Builds one operation name as bytes.
fn op_complete_vec() -> (r: Vec<u8>)
    ensures
        r@ == op_complete(),
{
    let mut r: Vec<u8> = Vec::new();
    r.push(99);
    r.push(111);
    r.push(109);
    r.push(112);
    r.push(108);
    r.push(101);
    r.push(116);
    r.push(101);
    assert(r@ =~= op_complete());
    r
}

/// The operation name of a message, as bytes.
fn op_vec_of(m: &Message) -> (r: Vec<u8>)
    ensures
        r@ == spec_op_of(m@),
{
    match m {
        Message::Spawn { .. } => op_spawn_vec(),
        Message::Stdin { .. } => op_stdin_vec(),
        Message::Stdout { .. } => op_stdout_vec(),
        Message::Stderr { .. } => op_stderr_vec(),
        Message::Eof { .. } => op_eof_vec(),
        Message::Error { .. } => op_error_vec(),
        Message::Ack { .. } => op_ack_vec(),
        Message::ExportRequest { .. } => op_export_vec(),
        Message::ImportRequest { .. } => op_import_vec(),
        Message::FileChunk { .. } => op_chunk_vec(),
        Message::FileComplete { .. } => op_complete_vec(),
    }
}

/// The view of a real vector always fits the wire format's length field.
proof fn lemma_vec_len_bound(v: Vec<u8>)
    ensures
        v@.len() <= usize::MAX,
{
    broadcast use vstd::std_specs::vec::axiom_spec_len;

    assert(vstd::std_specs::vec::spec_vec_len(&v) == v@.len());
}

/// Every message built from real vectors is well formed, up to the spawn
/// argument count, which the encoder checks at run time.
pub proof fn lemma_msg_wf(m: Message)
    ensures
        (match m@ {
            MessageV::Spawn { args, .. } => 3 + args.len() < pow256(8),
            _ => true,
        }) ==> msg_wf(m@),
{
    lemma_pow256_unfold();
    match m {
        Message::Spawn { command, args, .. } => {
            lemma_vec_len_bound(command);
            assert forall|j: int| 0 <= j < arg_views(args@).len() implies (
            #[trigger] arg_views(args@)[j]).len() < pow256(8) by {
                lemma_vec_len_bound(args@[j]);
            }
        },
        Message::Stdin { data, .. } => {
            match data {
                Some(d) => lemma_vec_len_bound(d),
                None => {},
            }
        },
        Message::Stdout { data, .. } => {
            match data {
                Some(d) => lemma_vec_len_bound(d),
                None => {},
            }
        },
        Message::Stderr { data, .. } => {
            match data {
                Some(d) => lemma_vec_len_bound(d),
                None => {},
            }
        },
        Message::Error { message, .. } => lemma_vec_len_bound(message),
        Message::ExportRequest { path, .. } => lemma_vec_len_bound(path),
        Message::ImportRequest { path, .. } => lemma_vec_len_bound(path),
        Message::FileChunk { data, .. } => lemma_vec_len_bound(data),
        _ => {},
    }
}

/// `spec_text_items` over one more element appends one more item.
proof fn lemma_text_items_snoc(args: Seq<Seq<u8>>, a: Seq<u8>)
    ensures
        spec_text_items(args.push(a)) == spec_text_items(args) + spec_text_item(a),
    decreases args.len(),
{
    if args.len() == 0 {
        assert(args.push(a)[0] == a);
        assert(args.push(a).drop_first() =~= Seq::<Seq<u8>>::empty());
        assert(spec_text_items(args.push(a)) == spec_text_item(a) + spec_text_items(
            Seq::<Seq<u8>>::empty(),
        ));
        assert(spec_text_items(args.push(a)) =~= spec_text_items(args) + spec_text_item(a));
    } else {
        assert(args.push(a).drop_first() =~= args.drop_first().push(a));
        lemma_text_items_snoc(args.drop_first(), a);
        assert(args.push(a)[0] == args[0]);
        assert(spec_text_items(args.push(a)) == spec_text_item(args[0]) + spec_text_items(
            args.drop_first().push(a),
        ));
        assert(spec_text_items(args.push(a)) == spec_text_item(args[0]) + (spec_text_items(
            args.drop_first(),
        ) + spec_text_item(a)));
        assert(spec_text_items(args.push(a)) =~= spec_text_items(args) + spec_text_item(a));
    }
}

/// Encodes a message to its wire bytes.  Encoding succeeds on every message
/// the wire format can carry; the one defensive failure is a spawn whose
/// argument list cannot be counted in the array header.
pub fn encode_message(m: &Message) -> (r: Result<Vec<u8>, ProtocolError>)
    ensures
        msg_wf(m@) ==> (r matches Ok(v) && v@ == spec_encode(m@)),
        !msg_wf(m@) ==> (r matches Err(e) && e matches ProtocolError::MessageCreationError { .. }),
{
    proof {
        lemma_pow256_unfold();
        lemma_msg_wf(*m);
    }
    let mut out: Vec<u8> = Vec::new();
    match m {
        Message::Spawn { channel_id, command, args } => {
            if args.len() as u64 > u64::MAX - 3 {
                proof {
                    assert(arg_views(args@).len() == args@.len());
                    assert(!msg_wf(m@));
                }
                return Err(
                    ProtocolError::MessageCreationError { message: "spawn".to_owned() },
                );
            }
            push_header(&mut out, 4, 3 + args.len() as u64);
            push_uint_item(&mut out, *channel_id as u64);
            let name = op_vec_of(m);
            push_text_item(&mut out, &name);
            push_text_item(&mut out, command);
            let ghost argviews = arg_views(args@);
            let ghost prefix = out@;
            let mut i: usize = 0;
            assert(spec_text_items(argviews.take(0)) =~= Seq::<u8>::empty());
            assert(out@ =~= prefix + spec_text_items(argviews.take(0)));
            while i < args.len()
                invariant
                    i <= args.len(),
                    argviews == arg_views(args@),
                    argviews.len() == args@.len(),
                    forall|j: int| 0 <= j < args@.len() ==> argviews[j] == args@[j]@,
                    out@ == prefix + spec_text_items(argviews.take(i as int)),
                decreases args@.len() - i,
            {
                push_text_item(&mut out, &args[i]);
                proof {
                    lemma_text_items_snoc(argviews.take(i as int), argviews[i as int]);
                    assert(argviews.take(i + 1) =~= argviews.take(i as int).push(
                        argviews[i as int],
                    ));
                    assert(out@ =~= prefix + spec_text_items(argviews.take(i + 1)));
                }
                i = i + 1;
            }
            assert(argviews.take(args@.len() as int) =~= argviews);
            assert(msg_wf(m@));
            assert(out@ =~= spec_encode(m@));
            Ok(out)
        },
        Message::Stdin { channel_id, data } => {
            push_header(&mut out, 4, 3);
            push_uint_item(&mut out, *channel_id as u64);
            let name = op_vec_of(m);
            push_text_item(&mut out, &name);
            push_stream_payload(&mut out, data);
            assert(out@ =~= spec_encode(m@));
            Ok(out)
        },
        Message::Stdout { channel_id, data } => {
            push_header(&mut out, 4, 3);
            push_uint_item(&mut out, *channel_id as u64);
            let name = op_vec_of(m);
            push_text_item(&mut out, &name);
            push_stream_payload(&mut out, data);
            assert(out@ =~= spec_encode(m@));
            Ok(out)
        },
        Message::Stderr { channel_id, data } => {
            push_header(&mut out, 4, 3);
            push_uint_item(&mut out, *channel_id as u64);
            let name = op_vec_of(m);
            push_text_item(&mut out, &name);
            push_stream_payload(&mut out, data);
            assert(out@ =~= spec_encode(m@));
            Ok(out)
        },
        Message::Eof { channel_id } => {
            push_header(&mut out, 4, 2);
            push_uint_item(&mut out, *channel_id as u64);
            let name = op_vec_of(m);
            push_text_item(&mut out, &name);
            assert(out@ =~= spec_encode(m@));
            Ok(out)
        },
        Message::Error { channel_id, message } => {
            push_header(&mut out, 4, 3);
            push_uint_item(&mut out, *channel_id as u64);
            let name = op_vec_of(m);
            push_text_item(&mut out, &name);
            push_text_item(&mut out, message);
            assert(out@ =~= spec_encode(m@));
            Ok(out)
        },
        Message::Ack { channel_id } => {
            push_header(&mut out, 4, 2);
            push_uint_item(&mut out, *channel_id as u64);
            let name = op_vec_of(m);
            push_text_item(&mut out, &name);
            assert(out@ =~= spec_encode(m@));
            Ok(out)
        },
        Message::ExportRequest { channel_id, path } => {
            push_header(&mut out, 4, 3);
            push_uint_item(&mut out, *channel_id as u64);
            let name = op_vec_of(m);
            push_text_item(&mut out, &name);
            push_text_item(&mut out, path);
            assert(out@ =~= spec_encode(m@));
            Ok(out)
        },
        Message::ImportRequest { channel_id, path } => {
            push_header(&mut out, 4, 3);
            push_uint_item(&mut out, *channel_id as u64);
            let name = op_vec_of(m);
            push_text_item(&mut out, &name);
            push_text_item(&mut out, path);
            assert(out@ =~= spec_encode(m@));
            Ok(out)
        },
        Message::FileChunk { channel_id, offset, data } => {
            push_header(&mut out, 4, 4);
            push_uint_item(&mut out, *channel_id as u64);
            let name = op_vec_of(m);
            push_text_item(&mut out, &name);
            push_uint_item(&mut out, *offset);
            push_bytes_item(&mut out, data);
            assert(out@ =~= spec_encode(m@));
            Ok(out)
        },
        Message::FileComplete { channel_id, checksum } => {
            push_header(&mut out, 4, 3);
            push_uint_item(&mut out, *channel_id as u64);
            let name = op_vec_of(m);
            push_text_item(&mut out, &name);
            push_uint_item(&mut out, *checksum as u64);
            assert(out@ =~= spec_encode(m@));
            Ok(out)
        },
    }
}



// Decoding: from wire bytes back to messages.
/// Reads one payload item.
pub open spec fn spec_read_item(s: Seq<u8>) -> Option<(PayloadValueV, Seq<u8>)> {
    match spec_read_header(s) {
        Some((major, val, rest)) => {
            if major == 0 {
                Some((PayloadValueV::Uint(val), rest))
            } else if major == 2 {
                if rest.len() >= val {
                    Some((PayloadValueV::Bytes(rest.take(val as int)), rest.skip(val as int)))
                } else {
                    None
                }
            } else if major == 3 {
                if rest.len() >= val {
                    Some((PayloadValueV::Text(rest.take(val as int)), rest.skip(val as int)))
                } else {
                    None
                }
            } else if major == 7 && val == 22 {
                Some((PayloadValueV::Null, rest))
            } else {
                None
            }
        },
        None => None,
    }
}

/// Reads `k` payload items in order.
pub open spec fn spec_read_items(k: nat, s: Seq<u8>) -> Option<(Seq<PayloadValueV>, Seq<u8>)>
    decreases k,
{
    if k == 0 {
        Some((Seq::empty(), s))
    } else {
        match spec_read_item(s) {
            Some((v, rest)) => {
                match spec_read_items((k - 1) as nat, rest) {
                    Some((vs, r2)) => Some((seq![v] + vs, r2)),
                    None => None,
                }
            },
            None => None,
        }
    }
}

/// Reads the envelope of a message: the array header, the channel, the
/// operation name, then the payload items, consuming all input.
pub open spec fn spec_parse_envelope(s: Seq<u8>) -> Option<ChannelMessageV> {
    match spec_read_header(s) {
        Some((m0, n, r1)) => {
            if m0 == 4 && n >= 2 {
                match spec_read_header(r1) {
                    Some((m1, ch, r2)) => {
                        if m1 == 0 && ch <= 0xffff_ffff {
                            match spec_read_header(r2) {
                                Some((m2, namelen, r3)) => {
                                    if m2 == 3 && r3.len() >= namelen {
                                        match spec_read_items(
                                            (n - 2) as nat,
                                            r3.skip(namelen as int),
                                        ) {
                                            Some((items, r4)) => {
                                                if r4.len() == 0 {
                                                    Some(
                                                        ChannelMessageV {
                                                            channel_id: ch as u32,
                                                            name: r3.take(namelen as int),
                                                            payload: items,
                                                        },
                                                    )
                                                } else {
                                                    None
                                                }
                                            },
                                            None => None,
                                        }
                                    } else {
                                        None
                                    }
                                },
                                None => None,
                            }
                        } else {
                            None
                        }
                    },
                    None => None,
                }
            } else {
                None
            }
        },
        None => None,
    }
}

/// Reads one payload item at `pos`.
fn read_item(buf: &Vec<u8>, pos: usize) -> (r: Option<(PayloadValue, usize)>)
    requires
        pos <= buf@.len(),
    ensures
        match r {
            Some((v, end)) => {
                &&& spec_read_item(buf@.skip(pos as int)) == Some((v@, buf@.skip(end as int)))
                &&& pos < end <= buf@.len()
            },
            None => spec_read_item(buf@.skip(pos as int)) is None,
        },
{
    match read_header(buf, pos) {
        Some((major, val, end)) => {
            if major == 0 {
                Some((PayloadValue::Uint(val), end))
            } else if major == 2 || major == 3 {
                if val <= (buf.len() - end) as u64 {
                    let end2: usize = end + val as usize;
                    let content = slice_to_vec(slice_subrange(buf.as_slice(), end, end2));
                    proof {
                        assert(buf@.skip(end as int).take(val as int) =~= buf@.subrange(
                            end as int,
                            end2 as int,
                        ));
                        assert(buf@.skip(end as int).skip(val as int) =~= buf@.skip(end2 as int));
                    }
                    if major == 2 {
                        Some((PayloadValue::Bytes(content), end2))
                    } else {
                        Some((PayloadValue::Text(content), end2))
                    }
                } else {
                    None
                }
            } else if major == 7 && val == 22 {
                Some((PayloadValue::Null, end))
            } else {
                None
            }
        },
        None => None,
    }
}

/// Parses the envelope of a message from wire bytes.  Parsing is total:
/// every failure is a `ParseError`, never a panic.
#[verifier::rlimit(80)]
#[verifier::loop_isolation(false)]
pub fn parse_message(raw: &Vec<u8>) -> (r: Result<ChannelMessage, ProtocolError>)
    ensures
        match r {
            Ok(cm) => spec_parse_envelope(raw@) == Some(cm@),
            Err(e) => {
                &&& spec_parse_envelope(raw@) is None
                &&& e matches ProtocolError::ParseError { .. }
            },
        },
{
    assert(raw@.skip(0) =~= raw@);
    let h0 = read_header(raw, 0);
    match h0 {
        None => Err(ProtocolError::ParseError { err: "no envelope header".to_owned() }),
        Some((m0, n, p1)) => {
            if m0 != 4 || n < 2 {
                return Err(ProtocolError::ParseError { err: "not a message array".to_owned() });
            }
            match read_header(raw, p1) {
                None => Err(ProtocolError::ParseError { err: "no channel".to_owned() }),
                Some((m1, ch, p2)) => {
                    if m1 != 0 || ch > 0xffff_ffff {
                        return Err(
                            ProtocolError::ParseError { err: "bad channel".to_owned() },
                        );
                    }
                    match read_header(raw, p2) {
                        None => Err(
                            ProtocolError::ParseError { err: "no operation name".to_owned() },
                        ),
                        Some((m2, namelen, p3)) => {
                            if m2 != 3 {
                                return Err(
                                    ProtocolError::ParseError {
                                        err: "operation name is not text".to_owned(),
                                    },
                                );
                            }
                            if namelen > (raw.len() - p3) as u64 {
                                return Err(
                                    ProtocolError::ParseError {
                                        err: "operation name truncated".to_owned(),
                                    },
                                );
                            }
                            let p4: usize = p3 + namelen as usize;
                            let name = slice_to_vec(slice_subrange(raw.as_slice(), p3, p4));
                            proof {
                                assert(raw@.skip(p3 as int).take(namelen as int) =~= raw@.subrange(
                                    p3 as int,
                                    p4 as int,
                                ));
                                assert(raw@.skip(p3 as int).skip(namelen as int) =~= raw@.skip(
                                    p4 as int,
                                ));
                            }
                            let count: u64 = n - 2;
                            let ghost s_items = raw@.skip(p4 as int);
                            let ghost nm = raw@.skip(p3 as int).take(namelen as int);
                            proof {
                                assert(spec_parse_envelope(raw@) == (match spec_read_items(
                                    count as nat,
                                    s_items,
                                ) {
                                    Some((vs, r4)) => {
                                        if r4.len() == 0 {
                                            Some(
                                                ChannelMessageV {
                                                    channel_id: ch as u32,
                                                    name: nm,
                                                    payload: vs,
                                                },
                                            )
                                        } else {
                                            None
                                        }
                                    },
                                    None => None,
                                }));
                            }
                            let mut items: Vec<PayloadValue> = Vec::new();
                            let mut pos: usize = p4;
                            let mut i: u64 = 0;
                            assert(payload_views(items@) =~= Seq::<PayloadValueV>::empty());
                            while i < count
                                invariant
                                    i <= count,
                                    pos <= raw@.len(),
                                    payload_views(items@).len() == i,
                                    match spec_read_items(
                                        (count - i) as nat,
                                        raw@.skip(pos as int),
                                    ) {
                                        Some((vs, rest)) => spec_read_items((count) as nat, s_items)
                                            == Some((payload_views(items@) + vs, rest)),
                                        None => spec_read_items((count) as nat, s_items) is None,
                                    },
                                decreases count - i,
                            {
                                match read_item(raw, pos) {
                                    None => {
                                        proof {
                                            assert(spec_read_item(raw@.skip(pos as int)) is None);
                                            assert(spec_read_items(
                                                (count - i) as nat,
                                                raw@.skip(pos as int),
                                            ) is None);
                                            assert(spec_read_items(count as nat, s_items) is None);
                                            assert(spec_parse_envelope(raw@) is None);
                                        }
                                        return Err(
                                            ProtocolError::ParseError {
                                                err: "bad payload item".to_owned(),
                                            },
                                        );
                                    },
                                    Some((v, end)) => {
                                        proof {
                                            let vs_rest = spec_read_items(
                                                (count - i - 1) as nat,
                                                raw@.skip(end as int),
                                            );
                                            if vs_rest is Some {
                                                let (vs, rest) = vs_rest->Some_0;
                                                assert(payload_views(items@.push(v)) =~= (
                                                payload_views(items@) + seq![v@]));
                                                assert((payload_views(items@) + (seq![v@] + vs))
                                                    =~= (payload_views(items@.push(v)) + vs));
                                            }
                                        }
                                        items.push(v);
                                        pos = end;
                                        i = i + 1;
                                    },
                                }
                            }
                            assert(spec_read_items(0, raw@.skip(pos as int)) == Some((
                                Seq::<PayloadValueV>::empty(),
                                raw@.skip(pos as int),
                            )));
                            proof {
                                assert((payload_views(items@) + Seq::<PayloadValueV>::empty())
                                    =~= payload_views(items@));
                            }
                            if pos != raw.len() {
                                return Err(
                                    ProtocolError::ParseError {
                                        err: "trailing bytes".to_owned(),
                                    },
                                );
                            }
                            assert(raw@.skip(pos as int).len() == 0);
                            let cm = ChannelMessage { channel_id: ch as u32, name, payload: items };
                            assert(cm@.name =~= raw@.skip(p3 as int).take(namelen as int));
                            Ok(cm)
                        },
                    }
                },
            }
        },
    }
}


// Resolution: from a decoded envelope to exactly one message variant.
/// Every item is a text string.
pub open spec fn all_texts(items: Seq<PayloadValueV>) -> bool {
    forall|i: int| 0 <= i < items.len() ==> items[i] is Text
}

/// The text content of each item, in order.
pub open spec fn text_contents(items: Seq<PayloadValueV>) -> Seq<Seq<u8>> {
    items.map_values(|p: PayloadValueV| p->Text_0)
}

/// The stream payload carried by the items: present data, absent data, or
/// an unresolvable shape.
pub open spec fn spec_stream_data(items: Seq<PayloadValueV>) -> Option<Option<Seq<u8>>> {
    if items.len() == 1 {
        match items[0] {
            PayloadValueV::Text(d) => Some(Some(d)),
            PayloadValueV::Null => Some(None),
            _ => None,
        }
    } else {
        None
    }
}

/// The single text item carried by the items, if that is their shape.
pub open spec fn spec_single_text(items: Seq<PayloadValueV>) -> Option<Seq<u8>> {
    if items.len() == 1 && items[0] is Text {
        Some(items[0]->Text_0)
    } else {
        None
    }
}

/// Resolves a decoded envelope to exactly one message variant, by the
/// operation name; `None` is an envelope whose name or payload shape matches
/// no variant.
pub open spec fn spec_resolve(cm: ChannelMessageV) -> Option<MessageV> {
    if cm.name == op_spawn() {
        if cm.payload.len() >= 1 && cm.payload[0] is Text && all_texts(cm.payload.drop_first()) {
            Some(
                MessageV::Spawn {
                    channel_id: cm.channel_id,
                    command: cm.payload[0]->Text_0,
                    args: text_contents(cm.payload.drop_first()),
                },
            )
        } else {
            None
        }
    } else if cm.name == op_stdin() {
        match spec_stream_data(cm.payload) {
            Some(d) => Some(MessageV::Stdin { channel_id: cm.channel_id, data: d }),
            None => None,
        }
    } else if cm.name == op_stdout() {
        match spec_stream_data(cm.payload) {
            Some(d) => Some(MessageV::Stdout { channel_id: cm.channel_id, data: d }),
            None => None,
        }
    } else if cm.name == op_stderr() {
        match spec_stream_data(cm.payload) {
            Some(d) => Some(MessageV::Stderr { channel_id: cm.channel_id, data: d }),
            None => None,
        }
    } else if cm.name == op_eof() {
        if cm.payload.len() == 0 {
            Some(MessageV::Eof { channel_id: cm.channel_id })
        } else {
            None
        }
    } else if cm.name == op_error() {
        match spec_single_text(cm.payload) {
            Some(t) => Some(MessageV::Error { channel_id: cm.channel_id, message: t }),
            None => None,
        }
    } else if cm.name == op_ack() {
        if cm.payload.len() == 0 {
            Some(MessageV::Ack { channel_id: cm.channel_id })
        } else {
            None
        }
    } else if cm.name == op_export() {
        match spec_single_text(cm.payload) {
            Some(t) => Some(MessageV::ExportRequest { channel_id: cm.channel_id, path: t }),
            None => None,
        }
    } else if cm.name == op_import() {
        match spec_single_text(cm.payload) {
            Some(t) => Some(MessageV::ImportRequest { channel_id: cm.channel_id, path: t }),
            None => None,
        }
    } else if cm.name == op_chunk() {
        if cm.payload.len() == 2 && cm.payload[0] is Uint && cm.payload[0]->Uint_0 < pow256(8)
            && cm.payload[1] is Bytes {
            Some(
                MessageV::FileChunk {
                    channel_id: cm.channel_id,
                    offset: cm.payload[0]->Uint_0 as u64,
                    data: cm.payload[1]->Bytes_0,
                },
            )
        } else {
            None
        }
    } else if cm.name == op_complete() {
        if cm.payload.len() == 1 && cm.payload[0] is Uint && cm.payload[0]->Uint_0
            <= 0xffff_ffff {
            Some(
                MessageV::FileComplete {
                    channel_id: cm.channel_id,
                    checksum: cm.payload[0]->Uint_0 as u32,
                },
            )
        } else {
            None
        }
    } else {
        None
    }
}

/// Byte-wise vector equality.
fn vec_u8_eq(a: &Vec<u8>, b: &Vec<u8>) -> (r: bool)
    ensures
        r == (a@ == b@),
{
    if a.len() != b.len() {
        return false;
    }
    let mut i: usize = 0;
    while i < a.len()
        invariant
            i <= a@.len(),
            a@.len() == b@.len(),
            forall|j: int| 0 <= j < i ==> a@[j] == b@[j],
        decreases a@.len() - i,
    {
        if a[i] != b[i] {
            return false;
        }
        i = i + 1;
    }
    proof {
        assert(a@ =~= b@);
    }
    true
}

/// The stream payload of an envelope: data, absent data, or a shape error.
/// Relied on by the stream message variants.
fn stream_data_of(cm: &ChannelMessage) -> (r: Result<Option<Vec<u8>>, ProtocolError>)
    ensures
        match r {
            Ok(d) => spec_stream_data(cm@.payload) == Some(data_view(d)),
            Err(e) => {
                &&& spec_stream_data(cm@.payload) is None
                &&& e matches ProtocolError::MessageParseError { .. }
            },
        },
{
    if cm.payload.len() != 1 {
        return Err(
            ProtocolError::MessageParseError { err: "No stream data found".to_owned() },
        );
    }
    assert(cm@.payload[0] == cm.payload@[0]@);
    match &cm.payload[0] {
        PayloadValue::Text(d) => Ok(Some(slice_to_vec(d.as_slice()))),
        PayloadValue::Null => Ok(None),
        _ => Err(ProtocolError::MessageParseError { err: "No stream data found".to_owned() }),
    }
}

/// The single text item of an envelope, or a shape error.
fn single_text_of(cm: &ChannelMessage) -> (r: Result<Vec<u8>, ProtocolError>)
    ensures
        match r {
            Ok(t) => spec_single_text(cm@.payload) == Some(t@),
            Err(e) => {
                &&& spec_single_text(cm@.payload) is None
                &&& e matches ProtocolError::MessageParseError { .. }
            },
        },
{
    if cm.payload.len() != 1 {
        return Err(
            ProtocolError::MessageParseError { err: "No text field found".to_owned() },
        );
    }
    assert(cm@.payload[0] == cm.payload@[0]@);
    match &cm.payload[0] {
        PayloadValue::Text(t) => Ok(slice_to_vec(t.as_slice())),
        _ => Err(ProtocolError::MessageParseError { err: "No text field found".to_owned() }),
    }
}

/// Resolves a decoded envelope into a standard-output stream message: the
/// payload is the output bytes, or null for output not present.
pub fn from_cbor(message: &ChannelMessage) -> (r: Result<Message, ProtocolError>)
    ensures
        match r {
            Ok(m) => {
                &&& spec_stream_data(message@.payload) is Some
                &&& m@ == (MessageV::Stdout {
                    channel_id: message@.channel_id,
                    data: spec_stream_data(message@.payload)->Some_0,
                })
            },
            Err(e) => {
                &&& spec_stream_data(message@.payload) is None
                &&& e matches ProtocolError::MessageParseError { .. }
            },
        },
{
    match stream_data_of(message) {
        Ok(d) => Ok(Message::Stdout { channel_id: message.channel_id, data: d }),
        Err(_) => Err(
            ProtocolError::MessageParseError { err: "No stdout data found".to_owned() },
        ),
    }
}

/// Resolves a decoded envelope to exactly one message variant, or fails
/// naming what was missing.
#[verifier::loop_isolation(false)]
pub fn resolve_message(cm: &ChannelMessage) -> (r: Result<Message, ProtocolError>)
    ensures
        match r {
            Ok(m) => spec_resolve(cm@) == Some(m@),
            Err(e) => {
                &&& spec_resolve(cm@) is None
                &&& e matches ProtocolError::MessageParseError { .. }
            },
        },
{
    let ch = cm.channel_id;
    if vec_u8_eq(&cm.name, &op_spawn_vec()) {
        if cm.payload.len() == 0 {
            return Err(
                ProtocolError::MessageParseError { err: "No command found".to_owned() },
            );
        }
        assert(cm@.payload[0] == cm.payload@[0]@);
        match &cm.payload[0] {
            PayloadValue::Text(c) => {
                let command = slice_to_vec(c.as_slice());
                let mut args: Vec<Vec<u8>> = Vec::new();
                let mut i: usize = 1;
                while i < cm.payload.len()
                    invariant
                        1 <= i <= cm.payload@.len(),
                        arg_views(args@).len() == i - 1,
                        forall|j: int| 1 <= j < i ==> cm@.payload[j] is Text,
                        forall|j: int|
                            0 <= j < i - 1 ==> arg_views(args@)[j] == cm@.payload[j + 1]->Text_0,
                    decreases cm.payload@.len() - i,
                {
                    assert(cm@.payload[i as int] == cm.payload@[i as int]@);
                    match &cm.payload[i] {
                        PayloadValue::Text(t) => {
                            let ghost old_args = args@;
                            args.push(slice_to_vec(t.as_slice()));
                            proof {
                                assert(arg_views(args@) =~= arg_views(old_args).push(t@));
                            }
                            i = i + 1;
                        },
                        _ => {
                            proof {
                                assert(cm@.payload.drop_first()[i - 1] == cm@.payload[i as int]);
                                assert(!all_texts(cm@.payload.drop_first()));
                            }
                            return Err(
                                ProtocolError::MessageParseError {
                                    err: "Spawn argument is not text".to_owned(),
                                },
                            );
                        },
                    }
                }
                proof {
                    assert forall|j: int|
                        0 <= j < cm@.payload.drop_first().len() implies (#[trigger] cm@.payload
                        .drop_first()[j]) is Text by {
                        assert(cm@.payload.drop_first()[j] == cm@.payload[j + 1]);
                    }
                    assert(all_texts(cm@.payload.drop_first()));
                    assert(arg_views(args@) =~= text_contents(cm@.payload.drop_first()));
                }
                Ok(Message::Spawn { channel_id: ch, command, args })
            },
            _ => Err(
                ProtocolError::MessageParseError { err: "No command found".to_owned() },
            ),
        }
    } else if vec_u8_eq(&cm.name, &op_stdin_vec()) {
        match stream_data_of(cm) {
            Ok(d) => Ok(Message::Stdin { channel_id: ch, data: d }),
            Err(e) => Err(e),
        }
    } else if vec_u8_eq(&cm.name, &op_stdout_vec()) {
        from_cbor(cm)
    } else if vec_u8_eq(&cm.name, &op_stderr_vec()) {
        match stream_data_of(cm) {
            Ok(d) => Ok(Message::Stderr { channel_id: ch, data: d }),
            Err(e) => Err(e),
        }
    } else if vec_u8_eq(&cm.name, &op_eof_vec()) {
        if cm.payload.len() == 0 {
            Ok(Message::Eof { channel_id: ch })
        } else {
            Err(ProtocolError::MessageParseError { err: "Unexpected eof payload".to_owned() })
        }
    } else if vec_u8_eq(&cm.name, &op_error_vec()) {
        match single_text_of(cm) {
            Ok(t) => Ok(Message::Error { channel_id: ch, message: t }),
            Err(e) => Err(e),
        }
    } else if vec_u8_eq(&cm.name, &op_ack_vec()) {
        if cm.payload.len() == 0 {
            Ok(Message::Ack { channel_id: ch })
        } else {
            Err(ProtocolError::MessageParseError { err: "Unexpected ack payload".to_owned() })
        }
    } else if vec_u8_eq(&cm.name, &op_export_vec()) {
        match single_text_of(cm) {
            Ok(t) => Ok(Message::ExportRequest { channel_id: ch, path: t }),
            Err(e) => Err(e),
        }
    } else if vec_u8_eq(&cm.name, &op_import_vec()) {
        match single_text_of(cm) {
            Ok(t) => Ok(Message::ImportRequest { channel_id: ch, path: t }),
            Err(e) => Err(e),
        }
    } else if vec_u8_eq(&cm.name, &op_chunk_vec()) {
        proof {
            lemma_pow256_unfold();
        }
        if cm.payload.len() != 2 {
            return Err(
                ProtocolError::MessageParseError { err: "No chunk fields found".to_owned() },
            );
        }
        assert(cm@.payload[0] == cm.payload@[0]@);
        assert(cm@.payload[1] == cm.payload@[1]@);
        let offset: u64 = match &cm.payload[0] {
            PayloadValue::Uint(off) => *off,
            _ => {
                return Err(
                    ProtocolError::MessageParseError { err: "No chunk offset found".to_owned() },
                );
            },
        };
        match &cm.payload[1] {
            PayloadValue::Bytes(d) => Ok(
                Message::FileChunk { channel_id: ch, offset, data: slice_to_vec(d.as_slice()) },
            ),
            _ => Err(
                ProtocolError::MessageParseError { err: "No chunk data found".to_owned() },
            ),
        }
    } else if vec_u8_eq(&cm.name, &op_complete_vec()) {
        if cm.payload.len() != 1 {
            return Err(
                ProtocolError::MessageParseError { err: "No checksum found".to_owned() },
            );
        }
        assert(cm@.payload[0] == cm.payload@[0]@);
        match &cm.payload[0] {
            PayloadValue::Uint(c) => {
                if *c > 0xffff_ffff {
                    Err(
                        ProtocolError::MessageParseError {
                            err: "Checksum out of range".to_owned(),
                        },
                    )
                } else {
                    Ok(Message::FileComplete { channel_id: ch, checksum: *c as u32 })
                }
            },
            _ => Err(
                ProtocolError::MessageParseError { err: "No checksum found".to_owned() },
            ),
        }
    } else {
        Err(ProtocolError::MessageParseError { err: "Unknown operation".to_owned() })
    }
}

/// What decoding wire bytes yields, if anything.
pub open spec fn spec_decode(s: Seq<u8>) -> Option<MessageV> {
    match spec_parse_envelope(s) {
        Some(cm) => spec_resolve(cm),
        None => None,
    }
}

/// Decodes wire bytes into a message.  Decoding is total: bytes the codec
/// cannot read yield `ParseError`; a readable envelope that matches no
/// variant yields `MessageParseError`; nothing panics.
pub fn decode_message(raw: &Vec<u8>) -> (r: Result<Message, ProtocolError>)
    ensures
        match r {
            Ok(m) => spec_decode(raw@) == Some(m@),
            Err(e) => {
                &&& spec_decode(raw@) is None
                &&& (e matches ProtocolError::ParseError { .. } <==> spec_parse_envelope(raw@)
                    is None)
                &&& (e matches ProtocolError::MessageParseError { .. } <==> (spec_parse_envelope(
                    raw@,
                ) is Some && spec_resolve(spec_parse_envelope(raw@)->Some_0) is None))
            },
        },
{
    match parse_message(raw) {
        Err(e) => Err(e),
        Ok(cm) => resolve_message(&cm),
    }
}

/// Builds the wire bytes of a standard-output stream message; `None` data is
/// sent as the explicit null marker.  Building never fails.
pub fn to_cbor(channel_id: u32, data: Option<&str>) -> (r: Result<Vec<u8>, ProtocolError>)
    ensures
        r matches Ok(v) && v@ == spec_encode(
            MessageV::Stdout { channel_id, data: str_data_view(data) },
        ),
{
    let m = match data {
        Some(s) => Message::Stdout { channel_id, data: Some(s.as_bytes_vec()) },
        None => Message::Stdout { channel_id, data: None },
    };
    proof {
        lemma_msg_wf(m);
    }
    match encode_message(&m) {
        Ok(v) => Ok(v),
        Err(e) => {
            proof {
                assert(false);
            }
            Err(e)
        },
    }
}

/// The byte content a caller-supplied stream payload stands for.
pub open spec fn str_data_view(data: Option<&str>) -> Option<Seq<u8>> {
    match data {
        Some(s) => Some(s.spec_bytes()),
        None => None,
    }
}


// Round trip: reading undoes writing, item by item and for whole messages.
proof fn lemma_uint_item_read(n: nat, rest: Seq<u8>)
    requires
        n < pow256(8),
    ensures
        spec_read_item(spec_uint_item(n) + rest) == Some((PayloadValueV::Uint(n), rest)),
{
    lemma_header_round_trip(0, n, rest);
}

proof fn lemma_text_item_read(d: Seq<u8>, rest: Seq<u8>)
    requires
        d.len() < pow256(8),
    ensures
        spec_read_item(spec_text_item(d) + rest) == Some((PayloadValueV::Text(d), rest)),
{
    assert(spec_text_item(d) + rest =~= spec_header(3, d.len()) + (d + rest));
    lemma_header_round_trip(3, d.len(), d + rest);
    assert((d + rest).take(d.len() as int) =~= d);
    assert((d + rest).skip(d.len() as int) =~= rest);
}

proof fn lemma_bytes_item_read(d: Seq<u8>, rest: Seq<u8>)
    requires
        d.len() < pow256(8),
    ensures
        spec_read_item(spec_bytes_item(d) + rest) == Some((PayloadValueV::Bytes(d), rest)),
{
    assert(spec_bytes_item(d) + rest =~= spec_header(2, d.len()) + (d + rest));
    lemma_header_round_trip(2, d.len(), d + rest);
    assert((d + rest).take(d.len() as int) =~= d);
    assert((d + rest).skip(d.len() as int) =~= rest);
}

proof fn lemma_null_item_read(rest: Seq<u8>)
    ensures
        spec_read_item(spec_null_item() + rest) == Some((PayloadValueV::Null, rest)),
{
    let s = spec_null_item() + rest;
    assert(s[0] == 246);
    assert(s.skip(1) =~= rest);
}

/// Each element as a text payload item.
pub open spec fn texts_payload(args: Seq<Seq<u8>>) -> Seq<PayloadValueV> {
    args.map_values(|a: Seq<u8>| PayloadValueV::Text(a))
}

proof fn lemma_text_items_read(args: Seq<Seq<u8>>, rest: Seq<u8>)
    requires
        forall|i: int| 0 <= i < args.len() ==> (#[trigger] args[i]).len() < pow256(8),
    ensures
        spec_read_items(args.len(), spec_text_items(args) + rest) == Some(
            (texts_payload(args), rest),
        ),
    decreases args.len(),
{
    if args.len() == 0 {
        assert(spec_text_items(args) + rest =~= rest);
        assert(texts_payload(args) =~= Seq::<PayloadValueV>::empty());
    } else {
        let tail = args.drop_first();
        assert(spec_text_items(args) + rest =~= spec_text_item(args[0]) + (spec_text_items(tail)
            + rest));
        lemma_text_item_read(args[0], spec_text_items(tail) + rest);
        assert(forall|i: int| 0 <= i < tail.len() ==> (#[trigger] tail[i]).len() < pow256(8));
        lemma_text_items_read(tail, rest);
        assert(seq![PayloadValueV::Text(args[0])] + texts_payload(tail) =~= texts_payload(args));
    }
}

/// The items of a stream payload.
pub open spec fn stream_items(data: Option<Seq<u8>>) -> Seq<PayloadValueV> {
    match data {
        Some(d) => seq![PayloadValueV::Text(d)],
        None => seq![PayloadValueV::Null],
    }
}

/// The payload items a message encodes to.
pub open spec fn spec_payload_items(m: MessageV) -> Seq<PayloadValueV> {
    match m {
        MessageV::Spawn { command, args, .. } => seq![PayloadValueV::Text(command)]
            + texts_payload(args),
        MessageV::Stdin { data, .. } => stream_items(data),
        MessageV::Stdout { data, .. } => stream_items(data),
        MessageV::Stderr { data, .. } => stream_items(data),
        MessageV::Eof { .. } => Seq::empty(),
        MessageV::Error { message, .. } => seq![PayloadValueV::Text(message)],
        MessageV::Ack { .. } => Seq::empty(),
        MessageV::ExportRequest { path, .. } => seq![PayloadValueV::Text(path)],
        MessageV::ImportRequest { path, .. } => seq![PayloadValueV::Text(path)],
        MessageV::FileChunk { offset, data, .. } => seq![
            PayloadValueV::Uint(offset as nat),
            PayloadValueV::Bytes(data),
        ],
        MessageV::FileComplete { checksum, .. } => seq![PayloadValueV::Uint(checksum as nat)],
    }
}

proof fn lemma_stream_payload_read(data: Option<Seq<u8>>, rest: Seq<u8>)
    requires
        data matches Some(d) ==> d.len() < pow256(8),
    ensures
        spec_read_items(1, spec_stream_payload(data) + rest) == Some((stream_items(data), rest)),
{
    assert(spec_read_items(0, rest) == Some((Seq::<PayloadValueV>::empty(), rest)));
    match data {
        Some(d) => {
            lemma_text_item_read(d, rest);
            assert(seq![PayloadValueV::Text(d)] + Seq::<PayloadValueV>::empty() =~= seq![
                PayloadValueV::Text(d),
            ]);
        },
        None => {
            lemma_null_item_read(rest);
            assert(seq![PayloadValueV::Null] + Seq::<PayloadValueV>::empty() =~= seq![
                PayloadValueV::Null,
            ]);
        },
    }
}

proof fn lemma_single_text_read(t: Seq<u8>, rest: Seq<u8>)
    requires
        t.len() < pow256(8),
    ensures
        spec_read_items(1, spec_text_item(t) + rest) == Some((seq![PayloadValueV::Text(t)], rest)),
{
    assert(spec_read_items(0, rest) == Some((Seq::<PayloadValueV>::empty(), rest)));
    lemma_text_item_read(t, rest);
    assert(seq![PayloadValueV::Text(t)] + Seq::<PayloadValueV>::empty() =~= seq![
        PayloadValueV::Text(t),
    ]);
}

/// Reading a message's payload bytes yields its payload items, whatever
/// follows them.
#[verifier::rlimit(100)]
proof fn lemma_payload_read(m: MessageV, rest: Seq<u8>)
    requires
        msg_wf(m),
    ensures
        spec_read_items(spec_payload_count(m), spec_payload_bytes(m) + rest) == Some(
            (spec_payload_items(m), rest),
        ),
{
    lemma_pow256_unfold();
    match m {
        MessageV::Spawn { command, args, .. } => {
            assert(spec_payload_bytes(m) + rest =~= spec_text_item(command) + (spec_text_items(
                args,
            ) + rest));
            lemma_text_item_read(command, spec_text_items(args) + rest);
            lemma_text_items_read(args, rest);
            assert(spec_payload_count(m) == 1 + args.len());
            assert(seq![PayloadValueV::Text(command)] + texts_payload(args)
                =~= spec_payload_items(m));
        },
        MessageV::Stdin { data, .. } => {
            lemma_stream_payload_read(data, rest);
        },
        MessageV::Stdout { data, .. } => {
            lemma_stream_payload_read(data, rest);
        },
        MessageV::Stderr { data, .. } => {
            lemma_stream_payload_read(data, rest);
        },
        MessageV::Eof { .. } => {
            assert(spec_payload_bytes(m) + rest =~= rest);
        },
        MessageV::Error { message, .. } => {
            lemma_single_text_read(message, rest);
        },
        MessageV::Ack { .. } => {
            assert(spec_payload_bytes(m) + rest =~= rest);
        },
        MessageV::ExportRequest { path, .. } => {
            lemma_single_text_read(path, rest);
        },
        MessageV::ImportRequest { path, .. } => {
            lemma_single_text_read(path, rest);
        },
        MessageV::FileChunk { offset, data, .. } => {
            assert(spec_payload_bytes(m) + rest =~= spec_uint_item(offset as nat) + (
            spec_bytes_item(data) + rest));
            lemma_uint_item_read(offset as nat, spec_bytes_item(data) + rest);
            lemma_bytes_item_read(data, rest);
            assert(spec_read_items(0, rest) == Some((Seq::<PayloadValueV>::empty(), rest)));
            assert(seq![PayloadValueV::Bytes(data)] + Seq::<PayloadValueV>::empty() =~= seq![
                PayloadValueV::Bytes(data),
            ]);
            assert(spec_read_items(1, spec_bytes_item(data) + rest) == Some(
                (seq![PayloadValueV::Bytes(data)], rest),
            ));
            assert(seq![PayloadValueV::Uint(offset as nat)] + seq![PayloadValueV::Bytes(data)]
                =~= spec_payload_items(m));
        },
        MessageV::FileComplete { checksum, .. } => {
            lemma_uint_item_read(checksum as nat, rest);
            assert(spec_read_items(0, rest) == Some((Seq::<PayloadValueV>::empty(), rest)));
            assert(seq![PayloadValueV::Uint(checksum as nat)] + Seq::<PayloadValueV>::empty()
                =~= spec_payload_items(m));
        },
    }
}

/// Reading a whole encoded envelope yields its channel, name and items.
#[verifier::rlimit(100)]
proof fn lemma_envelope_read(
    ch: u32,
    op: Seq<u8>,
    count: nat,
    payload: Seq<u8>,
    items: Seq<PayloadValueV>,
)
    requires
        op.len() < 24,
        2 + count < pow256(8),
        spec_read_items(count, payload) == Some((items, Seq::<u8>::empty())),
    ensures
        spec_parse_envelope(
            spec_header(4, 2 + count) + spec_uint_item(ch as nat) + spec_text_item(op) + payload,
        ) == Some(ChannelMessageV { channel_id: ch, name: op, payload: items }),
{
    lemma_pow256_unfold();
    let s = spec_header(4, 2 + count) + spec_uint_item(ch as nat) + spec_text_item(op) + payload;
    let r1 = spec_uint_item(ch as nat) + (spec_text_item(op) + payload);
    assert(s =~= spec_header(4, 2 + count) + r1);
    lemma_header_round_trip(4, 2 + count, r1);
    let r2 = spec_text_item(op) + payload;
    assert(r1 =~= spec_header(0, ch as nat) + r2);
    lemma_header_round_trip(0, ch as nat, r2);
    let r3 = op + payload;
    assert(r2 =~= spec_header(3, op.len()) + r3);
    lemma_header_round_trip(3, op.len(), r3);
    assert(r3.take(op.len() as int) =~= op);
    assert(r3.skip(op.len() as int) =~= payload);
    assert((2 + count - 2) as nat == count);
}

/// Resolving the payload items of an encoded message yields the message.
proof fn lemma_resolve_items(m: MessageV)
    requires
        msg_wf(m),
    ensures
        spec_resolve(
            ChannelMessageV {
                channel_id: spec_channel_of(m),
                name: spec_op_of(m),
                payload: spec_payload_items(m),
            },
        ) == Some(m),
{
    lemma_pow256_unfold();
    assert(op_spawn().len() == 5 && op_spawn()[0] == 115 && op_spawn()[1] == 112);
    assert(op_stdin().len() == 5 && op_stdin()[0] == 115 && op_stdin()[1] == 116 && op_stdin()[3]
        == 105);
    assert(op_stdout().len() == 6 && op_stdout()[0] == 115 && op_stdout()[1] == 116
        && op_stdout()[3] == 111);
    assert(op_stderr().len() == 6 && op_stderr()[0] == 115 && op_stderr()[1] == 116
        && op_stderr()[3] == 101);
    assert(op_eof().len() == 3 && op_eof()[0] == 101 && op_eof()[1] == 111);
    assert(op_error().len() == 5 && op_error()[0] == 101 && op_error()[1] == 114);
    assert(op_ack().len() == 3 && op_ack()[0] == 97 && op_ack()[1] == 99);
    assert(op_export().len() == 6 && op_export()[0] == 101 && op_export()[1] == 120);
    assert(op_import().len() == 6 && op_import()[0] == 105 && op_import()[1] == 109);
    assert(op_chunk().len() == 5 && op_chunk()[0] == 99 && op_chunk()[1] == 104);
    assert(op_complete().len() == 8 && op_complete()[0] == 99 && op_complete()[1] == 111);
    let cm = ChannelMessageV {
        channel_id: spec_channel_of(m),
        name: spec_op_of(m),
        payload: spec_payload_items(m),
    };
    match m {
        MessageV::Spawn { channel_id, command, args } => {
            assert(cm.payload[0] == PayloadValueV::Text(command));
            assert(cm.payload.drop_first() =~= texts_payload(args));
            assert forall|i: int| 0 <= i < texts_payload(args).len() implies (
            #[trigger] texts_payload(args)[i]) is Text by {}
            assert(all_texts(cm.payload.drop_first()));
            assert(text_contents(texts_payload(args)) =~= args);
        },
        MessageV::Stdin { channel_id, data } => {
            assert(spec_stream_data(stream_items(data)) == Some(data));
        },
        MessageV::Stdout { channel_id, data } => {
            assert(spec_stream_data(stream_items(data)) == Some(data));
        },
        MessageV::Stderr { channel_id, data } => {
            assert(spec_stream_data(stream_items(data)) == Some(data));
        },
        MessageV::Eof { .. } => {},
        MessageV::Error { channel_id, message } => {
            assert(spec_single_text(cm.payload) == Some(message));
        },
        MessageV::Ack { .. } => {},
        MessageV::ExportRequest { channel_id, path } => {
            assert(spec_single_text(cm.payload) == Some(path));
        },
        MessageV::ImportRequest { channel_id, path } => {
            assert(spec_single_text(cm.payload) == Some(path));
        },
        MessageV::FileChunk { channel_id, offset, data } => {
            assert(cm.payload[0] == PayloadValueV::Uint(offset as nat));
            assert(cm.payload[1] == PayloadValueV::Bytes(data));
            assert((offset as nat) < pow256(8));
        },
        MessageV::FileComplete { channel_id, checksum } => {
            assert(cm.payload[0] == PayloadValueV::Uint(checksum as nat));
        },
    }
}

/// Round trip: decoding an encoded message yields the message back, for
/// every variant and every field value the wire format carries, including an
/// empty-but-present stream payload and the absent-payload marker.
#[verifier::rlimit(100)]
pub proof fn lemma_round_trip(m: MessageV)
    requires
        msg_wf(m),
    ensures
        spec_decode(spec_encode(m)) == Some(m),
{
    lemma_pow256_unfold();
    lemma_payload_read(m, Seq::empty());
    assert(spec_payload_bytes(m) + Seq::<u8>::empty() =~= spec_payload_bytes(m));
    assert(spec_read_items(spec_payload_count(m), spec_payload_bytes(m)) == Some(
        (spec_payload_items(m), Seq::<u8>::empty()),
    ));
    assert(spec_op_of(m).len() < 24);
    assert(2 + spec_payload_count(m) < pow256(8));
    lemma_envelope_read(
        spec_channel_of(m),
        spec_op_of(m),
        spec_payload_count(m),
        spec_payload_bytes(m),
        spec_payload_items(m),
    );
    lemma_resolve_items(m);
}


/// Element-wise equality of argument lists.
fn vecs_u8_eq(a: &Vec<Vec<u8>>, b: &Vec<Vec<u8>>) -> (r: bool)
    ensures
        r == (arg_views(a@) == arg_views(b@)),
{
    if a.len() != b.len() {
        proof {
            assert(arg_views(a@).len() != arg_views(b@).len());
        }
        return false;
    }
    let mut i: usize = 0;
    while i < a.len()
        invariant
            i <= a@.len(),
            a@.len() == b@.len(),
            forall|j: int| 0 <= j < i ==> a@[j]@ == b@[j]@,
        decreases a@.len() - i,
    {
        if !vec_u8_eq(&a[i], &b[i]) {
            proof {
                assert(arg_views(a@)[i as int] == a@[i as int]@);
                assert(arg_views(b@)[i as int] == b@[i as int]@);
            }
            return false;
        }
        i = i + 1;
    }
    proof {
        assert(arg_views(a@) =~= arg_views(b@));
    }
    true
}

/// Equality of optional stream payloads.
fn option_data_eq(a: &Option<Vec<u8>>, b: &Option<Vec<u8>>) -> (r: bool)
    ensures
        r == (data_view(*a) == data_view(*b)),
{
    match (a, b) {
        (Some(x), Some(y)) => vec_u8_eq(x, y),
        (None, None) => true,
        _ => false,
    }
}

impl PartialEq for Message {
    /// Two messages are equal when they are the same variant with equal
    /// fields.
    fn eq(&self, other: &Self) -> (r: bool) {
        match (self, other) {
            (
                Message::Spawn { channel_id: c1, command: k1, args: a1 },
                Message::Spawn { channel_id: c2, command: k2, args: a2 },
            ) => *c1 == *c2 && vec_u8_eq(k1, k2) && vecs_u8_eq(a1, a2),
            (
                Message::Stdin { channel_id: c1, data: d1 },
                Message::Stdin { channel_id: c2, data: d2 },
            ) => *c1 == *c2 && option_data_eq(d1, d2),
            (
                Message::Stdout { channel_id: c1, data: d1 },
                Message::Stdout { channel_id: c2, data: d2 },
            ) => *c1 == *c2 && option_data_eq(d1, d2),
            (
                Message::Stderr { channel_id: c1, data: d1 },
                Message::Stderr { channel_id: c2, data: d2 },
            ) => *c1 == *c2 && option_data_eq(d1, d2),
            (Message::Eof { channel_id: c1 }, Message::Eof { channel_id: c2 }) => *c1 == *c2,
            (
                Message::Error { channel_id: c1, message: m1 },
                Message::Error { channel_id: c2, message: m2 },
            ) => *c1 == *c2 && vec_u8_eq(m1, m2),
            (Message::Ack { channel_id: c1 }, Message::Ack { channel_id: c2 }) => *c1 == *c2,
            (
                Message::ExportRequest { channel_id: c1, path: p1 },
                Message::ExportRequest { channel_id: c2, path: p2 },
            ) => *c1 == *c2 && vec_u8_eq(p1, p2),
            (
                Message::ImportRequest { channel_id: c1, path: p1 },
                Message::ImportRequest { channel_id: c2, path: p2 },
            ) => *c1 == *c2 && vec_u8_eq(p1, p2),
            (
                Message::FileChunk { channel_id: c1, offset: o1, data: d1 },
                Message::FileChunk { channel_id: c2, offset: o2, data: d2 },
            ) => *c1 == *c2 && *o1 == *o2 && vec_u8_eq(d1, d2),
            (
                Message::FileComplete { channel_id: c1, checksum: s1 },
                Message::FileComplete { channel_id: c2, checksum: s2 },
            ) => *c1 == *c2 && *s1 == *s2,
            _ => false,
        }
    }
}

impl vstd::std_specs::cmp::PartialEqSpecImpl for Message {
    open spec fn obeys_eq_spec() -> bool {
        true
    }

    open spec fn eq_spec(&self, other: &Message) -> bool {
        self@ == other@
    }
}

} // verus!
