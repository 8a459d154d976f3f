//! Per-channel session state machine.
//!
//! A session is the live state of one remote operation on one channel.  It
//! starts in `AwaitingSpawn`, runs after exactly one spawn-class message,
//! buffers stream and file-chunk data in arrival order, drains after the end
//! of stream, and is terminal once `Closed`.  Messages that are invalid for
//! the current state are rejected as typed errors, never dropped silently.

use vstd::prelude::*;

use crate::message::{spec_channel_of, Message, MessageV, ProtocolError};

verus! {

/// Which remote operation a session runs.
#[derive(Clone, Copy, PartialEq, Eq, Structural, Debug)]
pub enum OperationKind {
    Shell,
    FileExport,
    FileImport,
}

/// Lifecycle of one session.
#[derive(Clone, Copy, PartialEq, Eq, Structural, Debug)]
pub enum SessionStatus {
    AwaitingSpawn,
    Running,
    Draining,
    Closed,
}

/// What one injected message did to a session.
#[derive(Clone, Copy, PartialEq, Eq, Structural, Debug)]
pub enum StepOutcome {
    Accepted,
    RejectedState,
    RejectedChecksum,
}

/// One step of the content checksum: a 32-bit polynomial accumulator.
pub open spec fn spec_checksum_step(acc: u32, b: u8) -> u32 {
    (((acc as int) * 31 + (b as int)) % 0x1_0000_0000) as u32
}

/// The checksum continued from `acc` over the bytes of `s`.
pub open spec fn spec_checksum_from(acc: u32, s: Seq<u8>) -> u32
    decreases s.len(),
{
    if s.len() == 0 {
        acc
    } else {
        spec_checksum_step(spec_checksum_from(acc, s.drop_last()), s.last())
    }
}

/// The content checksum of a byte sequence.
pub open spec fn spec_checksum(s: Seq<u8>) -> u32 {
    spec_checksum_from(0, s)
}

/// Folding a concatenation equals folding the parts in order.
pub proof fn lemma_checksum_from_concat(acc: u32, a: Seq<u8>, b: Seq<u8>)
    ensures
        spec_checksum_from(acc, a + b) == spec_checksum_from(spec_checksum_from(acc, a), b),
    decreases b.len(),
{
    if b.len() == 0 {
        assert(a + b =~= a);
    } else {
        assert((a + b).drop_last() =~= a + b.drop_last());
        assert((a + b).last() == b.last());
        lemma_checksum_from_concat(acc, a, b.drop_last());
    }
}

/// Continues the checksum over the bytes of `data`.
fn checksum_fold(acc: u32, data: &Vec<u8>) -> (c: u32)
    ensures
        c == spec_checksum_from(acc, data@),
{
    let mut c: u32 = acc;
    let mut i: usize = 0;
    assert(data@.take(0) =~= Seq::<u8>::empty());
    while i < data.len()
        invariant
            i <= data@.len(),
            c == spec_checksum_from(acc, data@.take(i as int)),
        decreases data@.len() - i,
    {
        let b: u8 = data[i];
        let next: u32 = (((c as u64) * 31 + (b as u64)) % 0x1_0000_0000) as u32;
        proof {
            assert(data@.take(i + 1).drop_last() =~= data@.take(i as int));
            assert(data@.take(i + 1).last() == b);
        }
        c = next;
        i = i + 1;
    }
    proof {
        assert(data@.take(data@.len() as int) =~= data@);
    }
    c
}

/// Computes the content checksum of `data`.
pub fn checksum_of(data: &Vec<u8>) -> (c: u32)
    ensures
        c == spec_checksum(data@),
{
    checksum_fold(0, data)
}

/// Mathematical model of a session.
pub struct SessionV {
    pub channel_id: u32,
    pub op: Option<OperationKind>,
    pub buffer: Seq<u8>,
    pub received: nat,
    pub check: u32,
    pub status: SessionStatus,
}

/// The live state of one remote operation bound to one channel: the
/// operation it runs, the data buffered for the caller in arrival order, the
/// count and running checksum of all accepted data bytes, and its lifecycle
/// status.
pub struct Session {
    channel_id: u32,
    op: Option<OperationKind>,
    buffer: Vec<u8>,
    received: u64,
    check: u32,
    status: SessionStatus,
}

impl View for Session {
    type V = SessionV;

    closed spec fn view(&self) -> SessionV {
        SessionV {
            channel_id: self.channel_id,
            op: self.op,
            buffer: self.buffer@,
            received: self.received as nat,
            check: self.check,
            status: self.status,
        }
    }
}

/// Entering the terminal state releases the buffered data.
pub open spec fn spec_close(s: SessionV) -> SessionV {
    SessionV { buffer: Seq::empty(), status: SessionStatus::Closed, ..s }
}

/// A spawn-class message opens the one session of the channel; anywhere but
/// `AwaitingSpawn` it is rejected without altering state.
pub open spec fn spec_open(s: SessionV, kind: OperationKind) -> (SessionV, StepOutcome) {
    if s.status is AwaitingSpawn {
        (
            SessionV { op: Some(kind), status: SessionStatus::Running, ..s },
            StepOutcome::Accepted,
        )
    } else {
        (s, StepOutcome::RejectedState)
    }
}

/// Stream data is appended to the buffer in arrival order while `Running`;
/// absent data appends nothing; anywhere else it is an unexpected-state
/// transition, which closes the session.
pub open spec fn spec_stream(s: SessionV, data: Option<Seq<u8>>) -> (SessionV, StepOutcome) {
    if s.status is Running {
        let d = match data {
            Some(d) => d,
            None => Seq::<u8>::empty(),
        };
        if s.received + d.len() <= u64::MAX {
            (
                SessionV {
                    buffer: s.buffer + d,
                    received: (s.received + d.len()) as nat,
                    check: spec_checksum_from(s.check, d),
                    ..s
                },
                StepOutcome::Accepted,
            )
        } else {
            (spec_close(s), StepOutcome::RejectedState)
        }
    } else {
        (spec_close(s), StepOutcome::RejectedState)
    }
}

/// A file chunk is accepted only at the exact accumulated offset, so
/// reassembly can never silently misplace bytes; anything else closes the
/// session with a protocol-state error.
pub open spec fn spec_chunk(s: SessionV, offset: u64, data: Seq<u8>) -> (SessionV, StepOutcome) {
    if s.status is Running && offset == s.received && s.received + data.len() <= u64::MAX {
        (
            SessionV {
                buffer: s.buffer + data,
                received: (s.received + data.len()) as nat,
                check: spec_checksum_from(s.check, data),
                ..s
            },
            StepOutcome::Accepted,
        )
    } else {
        (spec_close(s), StepOutcome::RejectedState)
    }
}

/// End of stream moves a running session to `Draining`.
pub open spec fn spec_eof(s: SessionV) -> (SessionV, StepOutcome) {
    if s.status is Running {
        (SessionV { status: SessionStatus::Draining, ..s }, StepOutcome::Accepted)
    } else {
        (spec_close(s), StepOutcome::RejectedState)
    }
}

/// Completion is accepted only when the checksum matches the accumulated
/// bytes; a mismatch discards them and closes the session.
pub open spec fn spec_complete(s: SessionV, checksum: u32) -> (SessionV, StepOutcome) {
    if s.status is Running {
        if checksum == s.check {
            (SessionV { status: SessionStatus::Draining, ..s }, StepOutcome::Accepted)
        } else {
            (spec_close(s), StepOutcome::RejectedChecksum)
        }
    } else {
        (spec_close(s), StepOutcome::RejectedState)
    }
}

/// A fatal error closes the session at once, discarding undelivered data.
pub open spec fn spec_error(s: SessionV) -> (SessionV, StepOutcome) {
    if s.status is Running || s.status is Draining {
        (spec_close(s), StepOutcome::Accepted)
    } else {
        (spec_close(s), StepOutcome::RejectedState)
    }
}

/// The session state machine: the next state and the outcome of one
/// arriving message.  `Closed` is absorbing: every arrival there is
/// rejected and the recorded state is unchanged.
pub open spec fn spec_step(s: SessionV, m: MessageV) -> (SessionV, StepOutcome) {
    if s.status is Closed {
        (s, StepOutcome::RejectedState)
    } else {
        match m {
            MessageV::Spawn { .. } => spec_open(s, OperationKind::Shell),
            MessageV::ExportRequest { .. } => spec_open(s, OperationKind::FileExport),
            MessageV::ImportRequest { .. } => spec_open(s, OperationKind::FileImport),
            MessageV::Stdin { data, .. } => spec_stream(s, data),
            MessageV::Stdout { data, .. } => spec_stream(s, data),
            MessageV::Stderr { data, .. } => spec_stream(s, data),
            MessageV::FileChunk { offset, data, .. } => spec_chunk(s, offset, data),
            MessageV::Eof { .. } => spec_eof(s),
            MessageV::FileComplete { checksum, .. } => spec_complete(s, checksum),
            MessageV::Error { .. } => spec_error(s),
            MessageV::Ack { .. } => (s, StepOutcome::Accepted),
        }
    }
}

impl Session {
    /// A fresh session bound to `channel_id`, awaiting its opening message.
    pub fn new(channel_id: u32) -> (s: Session)
        ensures
            s@ == (SessionV {
                channel_id,
                op: None,
                buffer: Seq::<u8>::empty(),
                received: 0,
                check: 0,
                status: SessionStatus::AwaitingSpawn,
            }),
    {
        Session {
            channel_id,
            op: None,
            buffer: Vec::new(),
            received: 0,
            check: 0,
            status: SessionStatus::AwaitingSpawn,
        }
    }

    pub fn channel_id(&self) -> (c: u32)
        ensures
            c == self@.channel_id,
    {
        self.channel_id
    }

    pub fn status(&self) -> (st: SessionStatus)
        ensures
            st == self@.status,
    {
        self.status
    }

    pub fn operation(&self) -> (op: Option<OperationKind>)
        ensures
            op == self@.op,
    {
        self.op
    }

    /// Discards the buffer and enters the terminal state.
    fn close_now(&mut self)
        ensures
            final(self)@ == spec_close(old(self)@),
    {
        self.buffer = Vec::new();
        self.status = SessionStatus::Closed;
    }

    /// Appends accepted data bytes, advancing the count and the running
    /// checksum.
    fn accept_data(&mut self, data: &Vec<u8>)
        requires
            old(self)@.received + data@.len() <= u64::MAX,
        ensures
            final(self)@ == (SessionV {
                buffer: old(self)@.buffer + data@,
                received: (old(self)@.received + data@.len()) as nat,
                check: spec_checksum_from(old(self)@.check, data@),
                ..old(self)@
            }),
    {
        let mut tail = vstd::slice::slice_to_vec(data.as_slice());
        self.buffer.append(&mut tail);
        self.received = self.received + data.len() as u64;
        self.check = checksum_fold(self.check, data);
    }

    /// Advances the session by one arriving message for its channel.  The
    /// transition taken and the outcome are exactly `spec_step`; a rejected
    /// state yields `ProtocolStateError`, a failed completion check yields
    /// `ChecksumMismatchError`.
    pub fn handle_message(&mut self, m: &Message) -> (r: Result<(), ProtocolError>)
        requires
            spec_channel_of(m@) == old(self)@.channel_id,
        ensures
            ({
                let (s2, out) = spec_step(old(self)@, m@);
                &&& final(self)@ == s2
                &&& (match out {
                    StepOutcome::Accepted => r is Ok,
                    StepOutcome::RejectedState => r matches Err(
                        ProtocolError::ProtocolStateError { .. },
                    ),
                    StepOutcome::RejectedChecksum => r matches Err(
                        ProtocolError::ChecksumMismatchError { .. },
                    ),
                })
            }),
    {
        if self.status == SessionStatus::Closed {
            return Err(
                ProtocolError::ProtocolStateError { err: "session is closed".to_owned() },
            );
        }
        match m {
            Message::Spawn { .. } => self.open_with(OperationKind::Shell),
            Message::ExportRequest { .. } => self.open_with(OperationKind::FileExport),
            Message::ImportRequest { .. } => self.open_with(OperationKind::FileImport),
            Message::Stdin { data, .. } => self.stream_data(data),
            Message::Stdout { data, .. } => self.stream_data(data),
            Message::Stderr { data, .. } => self.stream_data(data),
            Message::FileChunk { offset, data, .. } => {
                if self.status == SessionStatus::Running && *offset == self.received && data.len()
                    as u64 <= u64::MAX - self.received {
                    self.accept_data(data);
                    Ok(())
                } else {
                    self.close_now();
                    Err(
                        ProtocolError::ProtocolStateError {
                            err: "unexpected file chunk".to_owned(),
                        },
                    )
                }
            },
            Message::Eof { .. } => {
                if self.status == SessionStatus::Running {
                    self.status = SessionStatus::Draining;
                    Ok(())
                } else {
                    self.close_now();
                    Err(
                        ProtocolError::ProtocolStateError { err: "unexpected eof".to_owned() },
                    )
                }
            },
            Message::FileComplete { checksum, .. } => {
                if self.status == SessionStatus::Running {
                    if *checksum == self.check {
                        self.status = SessionStatus::Draining;
                        Ok(())
                    } else {
                        self.close_now();
                        Err(
                            ProtocolError::ChecksumMismatchError {
                                err: "file checksum does not match".to_owned(),
                            },
                        )
                    }
                } else {
                    self.close_now();
                    Err(
                        ProtocolError::ProtocolStateError {
                            err: "unexpected completion".to_owned(),
                        },
                    )
                }
            },
            Message::Error { .. } => {
                if self.status == SessionStatus::Running || self.status == SessionStatus::Draining {
                    self.close_now();
                    Ok(())
                } else {
                    self.close_now();
                    Err(
                        ProtocolError::ProtocolStateError { err: "unexpected error".to_owned() },
                    )
                }
            },
            Message::Ack { .. } => Ok(()),
        }
    }

    /// One spawn-class arrival: accepted only before any operation opened
    /// the session.
    fn open_with(&mut self, kind: OperationKind) -> (r: Result<(), ProtocolError>)
        requires
            !(old(self)@.status is Closed),
        ensures
            ({
                let (s2, out) = spec_open(old(self)@, kind);
                &&& final(self)@ == s2
                &&& (out is Accepted <==> r is Ok)
                &&& (r matches Err(e) ==> e matches ProtocolError::ProtocolStateError { .. })
            }),
    {
        if self.status == SessionStatus::AwaitingSpawn {
            self.op = Some(kind);
            self.status = SessionStatus::Running;
            Ok(())
        } else {
            Err(
                ProtocolError::ProtocolStateError {
                    err: "session already has an operation".to_owned(),
                },
            )
        }
    }

    /// One stream-data arrival.
    fn stream_data(&mut self, data: &Option<Vec<u8>>) -> (r: Result<(), ProtocolError>)
        requires
            !(old(self)@.status is Closed),
        ensures
            ({
                let (s2, out) = spec_stream(old(self)@, crate::message::data_view(*data));
                &&& final(self)@ == s2
                &&& (out is Accepted <==> r is Ok)
                &&& (r matches Err(e) ==> e matches ProtocolError::ProtocolStateError { .. })
            }),
    {
        if self.status == SessionStatus::Running {
            match data {
                Some(d) => {
                    if d.len() as u64 <= u64::MAX - self.received {
                        self.accept_data(d);
                        Ok(())
                    } else {
                        self.close_now();
                        Err(
                            ProtocolError::ProtocolStateError {
                                err: "stream data overflows the session".to_owned(),
                            },
                        )
                    }
                },
                None => {
                    proof {
                        assert(self@.buffer + Seq::<u8>::empty() =~= self@.buffer);
                    }
                    Ok(())
                },
            }
        } else {
            self.close_now();
            Err(
                ProtocolError::ProtocolStateError { err: "unexpected stream data".to_owned() },
            )
        }
    }

    /// Hands the caller everything buffered so far, in arrival order.
    /// Draining the buffered data of a session past its end of stream
    /// closes it.
    pub fn take_output(&mut self) -> (out: Vec<u8>)
        ensures
            out@ == old(self)@.buffer,
            final(self)@ == (SessionV {
                buffer: Seq::<u8>::empty(),
                status: if old(self)@.status is Draining {
                    SessionStatus::Closed
                } else {
                    old(self)@.status
                },
                ..old(self)@
            }),
    {
        let out = self.buffer.split_off(0);
        proof {
            assert(out@ =~= old(self)@.buffer);
            assert(self.buffer@ =~= Seq::<u8>::empty());
        }
        if self.status == SessionStatus::Draining {
            self.status = SessionStatus::Closed;
        }
        out
    }

    /// Cancels the session locally, releasing its buffer and closing it,
    /// whether or not the peer ever answers.
    pub fn force_close(&mut self)
        ensures
            final(self)@ == spec_close(old(self)@),
    {
        self.close_now();
    }
}

/// The session state after a sequence of arrivals.
pub open spec fn spec_run(s: SessionV, ms: Seq<MessageV>) -> SessionV
    decreases ms.len(),
{
    if ms.len() == 0 {
        s
    } else {
        spec_run(spec_step(s, ms[0]).0, ms.drop_first())
    }
}

/// Every arrival in the sequence is accepted.
pub open spec fn spec_run_accepted(s: SessionV, ms: Seq<MessageV>) -> bool
    decreases ms.len(),
{
    if ms.len() == 0 {
        true
    } else {
        spec_step(s, ms[0]).1 is Accepted && spec_run_accepted(spec_step(s, ms[0]).0, ms.drop_first())
    }
}

/// Once a session is `Closed`, any further injected message yields the
/// protocol-state rejection and leaves the recorded state unchanged.
pub proof fn lemma_closed_is_terminal(s: SessionV, m: MessageV)
    requires
        s.status is Closed,
    ensures
        spec_step(s, m) == (s, StepOutcome::RejectedState),
{
}

/// The total length of a sequence of byte sequences.
pub open spec fn total_len(datas: Seq<Seq<u8>>) -> nat
    decreases datas.len(),
{
    if datas.len() == 0 {
        0
    } else {
        datas[0].len() + total_len(datas.drop_first())
    }
}

/// The file-chunk messages carrying `datas` in order, with offsets starting
/// at `base` and advancing by each chunk's length.
pub open spec fn chunk_msgs(ch: u32, base: nat, datas: Seq<Seq<u8>>) -> Seq<MessageV>
    decreases datas.len(),
{
    if datas.len() == 0 {
        Seq::empty()
    } else {
        seq![MessageV::FileChunk { channel_id: ch, offset: base as u64, data: datas[0] }]
            + chunk_msgs(ch, base + datas[0].len(), datas.drop_first())
    }
}

/// Ordering law: file chunks whose offsets equal the accumulated length are
/// all accepted, the session stays `Running`, and the buffer reassembles the
/// original byte sequence exactly, in order.
pub proof fn lemma_chunks_reassemble(s: SessionV, datas: Seq<Seq<u8>>)
    requires
        s.status is Running,
        s.received + total_len(datas) <= u64::MAX,
    ensures
        ({
            let ms = chunk_msgs(s.channel_id, s.received, datas);
            let s2 = spec_run(s, ms);
            &&& spec_run_accepted(s, ms)
            &&& s2 == (SessionV {
                buffer: s.buffer + datas.flatten(),
                received: (s.received + total_len(datas)) as nat,
                check: spec_checksum_from(s.check, datas.flatten()),
                ..s
            })
        }),
    decreases datas.len(),
{
    let ms = chunk_msgs(s.channel_id, s.received, datas);
    if datas.len() == 0 {
        assert(datas.flatten() =~= Seq::<u8>::empty());
        assert(s.buffer + datas.flatten() =~= s.buffer);
        assert(spec_run(s, ms) == s);
        assert(spec_run(s, ms) == (SessionV {
            buffer: s.buffer + datas.flatten(),
            received: (s.received + total_len(datas)) as nat,
            check: spec_checksum_from(s.check, datas.flatten()),
            ..s
        }));
    } else {
        let d0 = datas[0];
        let m0 = MessageV::FileChunk { channel_id: s.channel_id, offset: s.received as u64, data: d0 };
        assert(ms[0] == m0);
        let (s1, out0) = spec_step(s, m0);
        assert(out0 is Accepted);
        assert(ms.drop_first() =~= chunk_msgs(s.channel_id, s.received + d0.len(), datas.drop_first()));
        assert(s1.received == s.received + d0.len());
        lemma_chunks_reassemble(s1, datas.drop_first());
        assert(datas.flatten() == d0 + datas.drop_first().flatten());
        assert((s.buffer + d0) + datas.drop_first().flatten() =~= s.buffer + datas.flatten());
        lemma_checksum_from_concat(s.check, d0, datas.drop_first().flatten());
        assert(spec_checksum_from(s.check, datas.flatten()) == spec_checksum_from(
            spec_checksum_from(s.check, d0),
            datas.drop_first().flatten(),
        ));
    }
}

/// An out-of-order file chunk is rejected as a protocol-state error and
/// closes the session, instead of being silently misassembled.
pub proof fn lemma_out_of_order_chunk_rejected(s: SessionV, offset: u64, data: Seq<u8>)
    requires
        s.status is Running,
        offset != s.received,
    ensures
        spec_step(s, MessageV::FileChunk { channel_id: s.channel_id, offset, data }) == (
            spec_close(s),
            StepOutcome::RejectedState,
        ),
{
}

/// Checksum enforcement: after a contiguous transfer, completion with the
/// checksum of the received bytes drains the session with the reassembled
/// file intact; completion with any other checksum yields the
/// checksum-mismatch rejection, closes the session and discards the bytes,
/// so no mismatched file is ever visible to the caller.
pub proof fn lemma_checksum_enforced(s: SessionV, datas: Seq<Seq<u8>>, c: u32)
    requires
        s.status is Running,
        s.received == 0,
        s.check == 0,
        s.buffer == Seq::<u8>::empty(),
        total_len(datas) <= u64::MAX,
    ensures
        ({
            let s1 = spec_run(s, chunk_msgs(s.channel_id, 0, datas));
            let (s2, out) = spec_step(
                s1,
                MessageV::FileComplete { channel_id: s.channel_id, checksum: c },
            );
            &&& spec_run_accepted(s, chunk_msgs(s.channel_id, 0, datas))
            &&& (c == spec_checksum(datas.flatten()) ==> out is Accepted && s2.status is Draining
                && s2.buffer == datas.flatten())
            &&& (c != spec_checksum(datas.flatten()) ==> out is RejectedChecksum && s2.status
                is Closed && s2.buffer == Seq::<u8>::empty())
        }),
{
    lemma_chunks_reassemble(s, datas);
    let s1 = spec_run(s, chunk_msgs(s.channel_id, 0, datas));
    assert(s1.buffer =~= datas.flatten());
    assert(s1.check == spec_checksum(datas.flatten()));
}

} // verus!
