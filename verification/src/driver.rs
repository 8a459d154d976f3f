//! Protocol driver: many independent sessions, one per channel, over one
//! shared transport.
//!
//! The driver owns the session of every channel it serves.  It routes each
//! arriving message to the session of the message's own channel and to no
//! other, builds and encodes outgoing messages, and hands the caller the
//! wire bytes to give to the transport.  It never performs transport
//! input or output itself and never retries: a failed operation is returned
//! to the caller as a typed error.

use vstd::prelude::*;
use vstd::slice::slice_to_vec;

use crate::message::{
    encode_message, spec_channel_of, spec_encode, msg_wf, Message, MessageV, ProtocolError,
};
use crate::session::{
    spec_step, OperationKind, Session, SessionStatus, SessionV, StepOutcome,
};

verus! {

/// The views of a sequence of sessions.
pub open spec fn session_views(v: Seq<Session>) -> Seq<SessionV> {
    v.map_values(|s: Session| s@)
}

/// The first session bound to `ch`, if any.  The driver never creates a
/// second session for a channel it already serves, so the first is the only
/// one.
pub open spec fn seq_find(dv: Seq<SessionV>, ch: u32) -> Option<SessionV>
    decreases dv.len(),
{
    if dv.len() == 0 {
        None
    } else if dv[0].channel_id == ch {
        Some(dv[0])
    } else {
        seq_find(dv.drop_first(), ch)
    }
}

/// The operation a spawn-class message requests, if it is one.
pub open spec fn spawn_kind(m: MessageV) -> Option<OperationKind> {
    match m {
        MessageV::Spawn { .. } => Some(OperationKind::Shell),
        MessageV::ExportRequest { .. } => Some(OperationKind::FileExport),
        MessageV::ImportRequest { .. } => Some(OperationKind::FileImport),
        _ => None,
    }
}

/// A session freshly opened by an accepted spawn-class message.
pub open spec fn spec_open_fresh(ch: u32, kind: OperationKind) -> SessionV {
    SessionV {
        channel_id: ch,
        op: Some(kind),
        buffer: Seq::empty(),
        received: 0,
        check: 0,
        status: SessionStatus::Running,
    }
}

/// Delivery of one arriving message: it steps the session of the message's
/// channel, opens a fresh session when a spawn-class message names a new
/// channel, and touches no other session.
pub open spec fn spec_deliver(dv: Seq<SessionV>, m: MessageV) -> (Seq<SessionV>, StepOutcome)
    decreases dv.len(),
{
    if dv.len() == 0 {
        match spawn_kind(m) {
            Some(k) => (seq![spec_open_fresh(spec_channel_of(m), k)], StepOutcome::Accepted),
            None => (dv, StepOutcome::RejectedState),
        }
    } else if dv[0].channel_id == spec_channel_of(m) {
        let (s2, out) = spec_step(dv[0], m);
        (seq![s2] + dv.drop_first(), out)
    } else {
        let (rest2, out) = spec_deliver(dv.drop_first(), m);
        (seq![dv[0]] + rest2, out)
    }
}

/// The driver state after a sequence of arrivals.
pub open spec fn spec_deliver_all(dv: Seq<SessionV>, ms: Seq<MessageV>) -> Seq<SessionV>
    decreases ms.len(),
{
    if ms.len() == 0 {
        dv
    } else {
        spec_deliver_all(spec_deliver(dv, ms[0]).0, ms.drop_first())
    }
}

/// The messages of one channel, in arrival order.
pub open spec fn msgs_for(ms: Seq<MessageV>, ch: u32) -> Seq<MessageV>
    decreases ms.len(),
{
    if ms.len() == 0 {
        Seq::empty()
    } else if spec_channel_of(ms[0]) == ch {
        seq![ms[0]] + msgs_for(ms.drop_first(), ch)
    } else {
        msgs_for(ms.drop_first(), ch)
    }
}

/// Delivering a message leaves every other channel's session untouched.
pub proof fn lemma_deliver_frame(dv: Seq<SessionV>, m: MessageV, ch: u32)
    requires
        ch != spec_channel_of(m),
    ensures
        seq_find(spec_deliver(dv, m).0, ch) == seq_find(dv, ch),
    decreases dv.len(),
{
    if dv.len() == 0 {
        match spawn_kind(m) {
            Some(k) => {
                let fresh = seq![spec_open_fresh(spec_channel_of(m), k)];
                assert(fresh[0] == spec_open_fresh(spec_channel_of(m), k));
                assert(fresh[0].channel_id != ch);
                assert(fresh.drop_first() =~= Seq::<SessionV>::empty());
                assert(seq_find(fresh, ch) == seq_find(Seq::<SessionV>::empty(), ch));
                assert(seq_find(Seq::<SessionV>::empty(), ch) is None);
            },
            None => {},
        }
    } else if dv[0].channel_id == spec_channel_of(m) {
        let (s2, _out) = spec_step(dv[0], m);
        let dv2 = seq![s2] + dv.drop_first();
        assert(dv2[0] == s2);
        assert(s2.channel_id == dv[0].channel_id);
        assert(dv2.drop_first() =~= dv.drop_first());
        assert(seq_find(dv2, ch) == seq_find(dv.drop_first(), ch));
        assert(seq_find(dv, ch) == seq_find(dv.drop_first(), ch));
    } else {
        lemma_deliver_frame(dv.drop_first(), m, ch);
        let (rest2, _out) = spec_deliver(dv.drop_first(), m);
        let dv2 = seq![dv[0]] + rest2;
        assert(dv2[0] == dv[0]);
        assert(dv2.drop_first() =~= rest2);
        if dv[0].channel_id == ch {
            assert(seq_find(dv2, ch) == Some(dv2[0]));
            assert(seq_find(dv, ch) == Some(dv[0]));
        } else {
            assert(seq_find(dv2, ch) == seq_find(rest2, ch));
            assert(seq_find(dv, ch) == seq_find(dv.drop_first(), ch));
        }
    }
}

/// What delivering a message does to its own channel's session, seen
/// through `seq_find` alone.
pub proof fn lemma_deliver_effect(dv: Seq<SessionV>, m: MessageV)
    ensures
        seq_find(spec_deliver(dv, m).0, spec_channel_of(m)) == (match seq_find(
            dv,
            spec_channel_of(m),
        ) {
            Some(s) => Some(spec_step(s, m).0),
            None => {
                match spawn_kind(m) {
                    Some(k) => Some(spec_open_fresh(spec_channel_of(m), k)),
                    None => None,
                }
            },
        }),
        spec_deliver(dv, m).1 == (match seq_find(dv, spec_channel_of(m)) {
            Some(s) => spec_step(s, m).1,
            None => {
                match spawn_kind(m) {
                    Some(k) => StepOutcome::Accepted,
                    None => StepOutcome::RejectedState,
                }
            },
        }),
    decreases dv.len(),
{
    let ch = spec_channel_of(m);
    if dv.len() == 0 {
        match spawn_kind(m) {
            Some(k) => {
                let fresh = seq![spec_open_fresh(ch, k)];
                assert(fresh[0].channel_id == ch);
            },
            None => {},
        }
    } else if dv[0].channel_id == ch {
        let (s2, _out) = spec_step(dv[0], m);
        let dv2 = seq![s2] + dv.drop_first();
        assert(dv2[0] == s2);
        assert(s2.channel_id == dv[0].channel_id);
        assert(seq_find(dv2, ch) == Some(s2));
        assert(seq_find(dv, ch) == Some(dv[0]));
    } else {
        lemma_deliver_effect(dv.drop_first(), m);
        let (rest2, _out) = spec_deliver(dv.drop_first(), m);
        let dv2 = seq![dv[0]] + rest2;
        assert(dv2[0] == dv[0]);
        assert(dv2.drop_first() =~= rest2);
        assert(seq_find(dv2, ch) == seq_find(rest2, ch));
        assert(seq_find(dv, ch) == seq_find(dv.drop_first(), ch));
    }
}

/// A channel's session after a run depends only on what `seq_find` sees for
/// that channel at the start, when every message in the run is the
/// channel's own.
proof fn lemma_run_depends_on_channel(
    dv1: Seq<SessionV>,
    dv2: Seq<SessionV>,
    ms: Seq<MessageV>,
    ch: u32,
)
    requires
        forall|i: int| 0 <= i < ms.len() ==> spec_channel_of(#[trigger] ms[i]) == ch,
        seq_find(dv1, ch) == seq_find(dv2, ch),
    ensures
        seq_find(spec_deliver_all(dv1, ms), ch) == seq_find(spec_deliver_all(dv2, ms), ch),
    decreases ms.len(),
{
    if ms.len() > 0 {
        lemma_deliver_effect(dv1, ms[0]);
        lemma_deliver_effect(dv2, ms[0]);
        assert(forall|i: int|
            0 <= i < ms.drop_first().len() ==> spec_channel_of(#[trigger] ms.drop_first()[i])
                == ch);
        lemma_run_depends_on_channel(
            spec_deliver(dv1, ms[0]).0,
            spec_deliver(dv2, ms[0]).0,
            ms.drop_first(),
            ch,
        );
    }
}

/// Concurrency law: channels are independent.  Whatever messages of other
/// channels are interleaved with a channel's own, the channel's session ends
/// in the same state as if only its own messages, in the same order, had
/// arrived: one channel's state machine never observes another channel's
/// messages.
pub proof fn lemma_channel_independence(dv: Seq<SessionV>, ms: Seq<MessageV>, ch: u32)
    ensures
        seq_find(spec_deliver_all(dv, ms), ch) == seq_find(
            spec_deliver_all(dv, msgs_for(ms, ch)),
            ch,
        ),
    decreases ms.len(),
{
    if ms.len() > 0 {
        let h = ms[0];
        let tail = ms.drop_first();
        if spec_channel_of(h) == ch {
            let own = msgs_for(ms, ch);
            assert(own == seq![h] + msgs_for(tail, ch));
            assert(own.len() > 0 && own[0] == h);
            assert(own.drop_first() =~= msgs_for(tail, ch));
            lemma_channel_independence(spec_deliver(dv, h).0, tail, ch);
        } else {
            assert(msgs_for(ms, ch) == msgs_for(tail, ch));
            lemma_channel_independence(spec_deliver(dv, h).0, tail, ch);
            lemma_deliver_frame(dv, h, ch);
            assert forall|i: int|
                0 <= i < msgs_for(tail, ch).len() implies spec_channel_of(
                #[trigger] msgs_for(tail, ch)[i],
            ) == ch by {
                lemma_msgs_for_all(tail, ch);
            }
            lemma_run_depends_on_channel(
                spec_deliver(dv, h).0,
                dv,
                msgs_for(tail, ch),
                ch,
            );
        }
    }
}

/// Every message `msgs_for` keeps is the channel's own.
proof fn lemma_msgs_for_all(ms: Seq<MessageV>, ch: u32)
    ensures
        forall|i: int|
            0 <= i < msgs_for(ms, ch).len() ==> spec_channel_of(#[trigger] msgs_for(ms, ch)[i])
                == ch,
    decreases ms.len(),
{
    if ms.len() > 0 {
        lemma_msgs_for_all(ms.drop_first(), ch);
        if spec_channel_of(ms[0]) == ch {
            assert(msgs_for(ms, ch) == seq![ms[0]] + msgs_for(ms.drop_first(), ch));
        }
    }
}

/// One driver instance: the sessions of the channels it serves, each owned
/// exclusively.
pub struct ProtocolDriver {
    sessions: Vec<Session>,
}

impl View for ProtocolDriver {
    type V = Seq<SessionV>;

    closed spec fn view(&self) -> Seq<SessionV> {
        session_views(self.sessions@)
    }
}

impl ProtocolDriver {
    /// A driver serving no channels yet.
    pub fn new() -> (d: ProtocolDriver)
        ensures
            d@ == Seq::<SessionV>::empty(),
    {
        let d = ProtocolDriver { sessions: Vec::new() };
        proof {
            assert(d@ =~= Seq::<SessionV>::empty());
        }
        d
    }

    /// The index of the channel's session.
    fn find_session(&self, ch: u32) -> (r: Option<usize>)
        ensures
            match r {
                Some(i) => {
                    &&& i < self@.len()
                    &&& self@[i as int].channel_id == ch
                    &&& forall|j: int| 0 <= j < i ==> self@[j].channel_id != ch
                },
                None => forall|j: int| 0 <= j < self@.len() ==> self@[j].channel_id != ch,
            },
    {
        let mut i: usize = 0;
        while i < self.sessions.len()
            invariant
                i <= self@.len(),
                self@.len() == self.sessions@.len(),
                forall|j: int| 0 <= j < i ==> self@[j].channel_id != ch,
            decreases self@.len() - i,
        {
            assert(self@[i as int] == self.sessions@[i as int]@);
            if self.sessions[i].channel_id() == ch {
                return Some(i);
            }
            i = i + 1;
        }
        None
    }

    /// How `seq_find` relates to a found index: the first hit is the found
    /// session.
    proof fn lemma_find_some(dv: Seq<SessionV>, ch: u32, i: int)
        requires
            0 <= i < dv.len(),
            dv[i].channel_id == ch,
            forall|j: int| 0 <= j < i ==> dv[j].channel_id != ch,
        ensures
            seq_find(dv, ch) == Some(dv[i]),
        decreases i,
    {
        if i > 0 {
            Self::lemma_find_some(dv.drop_first(), ch, i - 1);
        }
    }

    proof fn lemma_find_none(dv: Seq<SessionV>, ch: u32)
        requires
            forall|j: int| 0 <= j < dv.len() ==> dv[j].channel_id != ch,
        ensures
            seq_find(dv, ch) == None::<SessionV>,
        decreases dv.len(),
    {
        if dv.len() > 0 {
            Self::lemma_find_none(dv.drop_first(), ch);
        }
    }

    /// How `spec_deliver` relates to an update at the first found index.
    proof fn lemma_deliver_at(dv: Seq<SessionV>, m: MessageV, i: int)
        requires
            0 <= i < dv.len(),
            dv[i].channel_id == spec_channel_of(m),
            forall|j: int| 0 <= j < i ==> dv[j].channel_id != spec_channel_of(m),
        ensures
            spec_deliver(dv, m) == (
                dv.update(i, spec_step(dv[i], m).0),
                spec_step(dv[i], m).1,
            ),
        decreases i,
    {
        if i == 0 {
            let (s2, _out) = spec_step(dv[0], m);
            assert(seq![s2] + dv.drop_first() =~= dv.update(0, s2));
        } else {
            Self::lemma_deliver_at(dv.drop_first(), m, i - 1);
            let (s2, _out) = spec_step(dv[i], m);
            assert(dv.drop_first()[i - 1] == dv[i]);
            assert(seq![dv[0]] + dv.drop_first().update(i - 1, s2) =~= dv.update(i, s2));
        }
    }

    /// How `spec_deliver` behaves when the channel is not served yet.
    proof fn lemma_deliver_new(dv: Seq<SessionV>, m: MessageV)
        requires
            forall|j: int| 0 <= j < dv.len() ==> dv[j].channel_id != spec_channel_of(m),
        ensures
            spec_deliver(dv, m) == (match spawn_kind(m) {
                Some(k) => (
                    dv + seq![spec_open_fresh(spec_channel_of(m), k)],
                    StepOutcome::Accepted,
                ),
                None => (dv, StepOutcome::RejectedState),
            }),
        decreases dv.len(),
    {
        if dv.len() == 0 {
            match spawn_kind(m) {
                Some(k) => {
                    assert(seq![spec_open_fresh(spec_channel_of(m), k)] =~= dv + seq![
                        spec_open_fresh(spec_channel_of(m), k),
                    ]);
                },
                None => {},
            }
        } else {
            Self::lemma_deliver_new(dv.drop_first(), m);
            match spawn_kind(m) {
                Some(k) => {
                    assert(seq![dv[0]] + (dv.drop_first() + seq![
                        spec_open_fresh(spec_channel_of(m), k),
                    ]) =~= dv + seq![spec_open_fresh(spec_channel_of(m), k)]);
                },
                None => {
                    assert(seq![dv[0]] + dv.drop_first() =~= dv);
                },
            }
        }
    }

    /// Routes one arriving, already decoded message to the session of its
    /// channel.  A spawn-class message for a new channel opens that
    /// channel's session; any other message for an unknown channel is a
    /// protocol-state error.  No other channel's session changes.
    #[verifier::rlimit(100)]
    pub fn deliver(&mut self, m: &Message) -> (r: Result<(), ProtocolError>)
        ensures
            ({
                let (dv2, out) = spec_deliver(old(self)@, m@);
                &&& final(self)@ == dv2
                &&& (match out {
                    StepOutcome::Accepted => r is Ok,
                    StepOutcome::RejectedState => r matches Err(
                        ProtocolError::ProtocolStateError { .. },
                    ),
                    StepOutcome::RejectedChecksum => r matches Err(
                        ProtocolError::ChecksumMismatchError { .. },
                    ),
                })
            }),
    {
        let ch = crate::message::channel_of(m);
        match self.find_session(ch) {
            Some(i) => {
                proof {
                    Self::lemma_deliver_at(self@, m@, i as int);
                }
                let ghost old_views = self@;
                let mut s = self.sessions.remove(i);
                let r = s.handle_message(m);
                self.sessions.insert(i, s);
                proof {
                    assert(self@ =~= old_views.update(i as int, s@));
                }
                r
            },
            None => {
                proof {
                    Self::lemma_deliver_new(self@, m@);
                }
                let ghost old_views = self@;
                match m {
                    Message::Spawn { .. } | Message::ExportRequest { .. }
                        | Message::ImportRequest { .. } => {
                        let mut s = Session::new(ch);
                        let opened = s.handle_message(m);
                        proof {
                            assert(opened is Ok);
                            assert(s@ == spec_open_fresh(ch, spawn_kind(m@)->Some_0));
                        }
                        self.sessions.push(s);
                        proof {
                            assert(self@ =~= old_views + seq![s@]);
                        }
                        Ok(())
                    },
                    _ => {
                        proof {
                            assert(spawn_kind(m@) is None);
                        }
                        Err(
                            ProtocolError::ProtocolStateError {
                                err: "message for an unknown channel".to_owned(),
                            },
                        )
                    },
                }
            },
        }
    }

    /// Decodes one raw arrival from the transport and routes it.  Malformed
    /// bytes are reported and discarded without touching any session.
    pub fn receive_bytes(&mut self, raw: &Vec<u8>) -> (r: Result<(), ProtocolError>)
        ensures
            crate::message::spec_decode(raw@) is None ==> ({
                &&& final(self)@ == old(self)@
                &&& (r matches Err(e) && (e matches ProtocolError::ParseError { .. } || e matches
                    ProtocolError::MessageParseError { .. }))
            }),
            crate::message::spec_decode(raw@) matches Some(mv) ==> ({
                let (dv2, out) = spec_deliver(old(self)@, mv);
                &&& final(self)@ == dv2
                &&& (match out {
                    StepOutcome::Accepted => r is Ok,
                    StepOutcome::RejectedState => r matches Err(
                        ProtocolError::ProtocolStateError { .. },
                    ),
                    StepOutcome::RejectedChecksum => r matches Err(
                        ProtocolError::ChecksumMismatchError { .. },
                    ),
                })
            }),
    {
        match crate::message::decode_message(raw) {
            Ok(m) => self.deliver(&m),
            Err(e) => Err(e),
        }
    }

    /// Opens a session locally: binds the channel to the requested
    /// operation and hands back the encoded spawn-class message for the
    /// transport.  A channel whose session is still retained is never
    /// reused: the request is rejected.
    pub fn open_session(&mut self, m: &Message) -> (r: Result<Vec<u8>, ProtocolError>)
        requires
            spawn_kind(m@) is Some,
        ensures
            seq_find(old(self)@, spec_channel_of(m@)) is Some ==> final(self)@ == old(self)@ && r
                matches Err(ProtocolError::ProtocolStateError { .. }),
            seq_find(old(self)@, spec_channel_of(m@)) is None && msg_wf(m@) ==> ({
                &&& final(self)@ == old(self)@ + seq![
                    spec_open_fresh(spec_channel_of(m@), spawn_kind(m@)->Some_0),
                ]
                &&& r matches Ok(v) && v@ == spec_encode(m@)
            }),
            seq_find(old(self)@, spec_channel_of(m@)) is None && !msg_wf(m@) ==> final(self)@
                == old(self)@ && r matches Err(ProtocolError::MessageCreationError { .. }),
    {
        let ch = crate::message::channel_of(m);
        match self.find_session(ch) {
            Some(i) => {
                proof {
                    Self::lemma_find_some(self@, ch, i as int);
                }
                Err(
                    ProtocolError::ProtocolStateError {
                        err: "channel is already in use".to_owned(),
                    },
                )
            },
            None => {
                proof {
                    Self::lemma_find_none(self@, ch);
                }
                let ghost old_views = self@;
                match encode_message(m) {
                    Err(e) => Err(e),
                    Ok(bytes) => {
                        let mut s = Session::new(ch);
                        let opened = s.handle_message(m);
                        proof {
                            assert(opened is Ok);
                            assert(s@ == spec_open_fresh(ch, spawn_kind(m@)->Some_0));
                        }
                        self.sessions.push(s);
                        proof {
                            assert(self@ =~= old_views + seq![s@]);
                        }
                        Ok(bytes)
                    },
                }
            },
        }
    }

    /// Builds and encodes one outgoing standard-input chunk for a running
    /// session; the session's own state is unchanged, since it records what
    /// was received, not what was sent.
    pub fn write_stdin(&mut self, channel_id: u32, data: Option<&Vec<u8>>) -> (r: Result<
        Vec<u8>,
        ProtocolError,
    >)
        ensures
            final(self)@ == old(self)@,
            ({
                match seq_find(old(self)@, channel_id) {
                    Some(s) => {
                        &&& (s.status is Running ==> (r matches Ok(v) && v@ == spec_encode(
                            MessageV::Stdin {
                                channel_id,
                                data: match data {
                                    Some(d) => Some(d@),
                                    None => None,
                                },
                            },
                        )))
                        &&& (!(s.status is Running) ==> r matches Err(
                            ProtocolError::ProtocolStateError { .. },
                        ))
                    },
                    None => r matches Err(ProtocolError::ProtocolStateError { .. }),
                }
            }),
    {
        match self.find_session(channel_id) {
            None => {
                proof {
                    Self::lemma_find_none(self@, channel_id);
                }
                Err(
                    ProtocolError::ProtocolStateError { err: "unknown channel".to_owned() },
                )
            },
            Some(i) => {
                proof {
                    Self::lemma_find_some(self@, channel_id, i as int);
                }
                if !matches!(self.sessions[i].status(), SessionStatus::Running) {
                    return Err(
                        ProtocolError::ProtocolStateError {
                            err: "session is not running".to_owned(),
                        },
                    );
                }
                let owned: Option<Vec<u8>> = match data {
                    Some(d) => Some(slice_to_vec(d.as_slice())),
                    None => None,
                };
                let m = Message::Stdin { channel_id, data: owned };
                proof {
                    crate::message::lemma_msg_wf(m);
                }
                match encode_message(&m) {
                    Ok(v) => Ok(v),
                    Err(e) => {
                        proof {
                            assert(false);
                        }
                        Err(e)
                    },
                }
            },
        }
    }

    /// Hands the caller the data buffered for the channel, in arrival
    /// order; draining a session past its end of stream closes it.
    pub fn read_output(&mut self, channel_id: u32) -> (r: Result<Vec<u8>, ProtocolError>)
        ensures
            ({
                match seq_find(old(self)@, channel_id) {
                    Some(s) => {
                        &&& r matches Ok(v) && v@ == s.buffer
                        &&& seq_find(final(self)@, channel_id) == Some(
                            SessionV {
                                buffer: Seq::<u8>::empty(),
                                status: if s.status is Draining {
                                    SessionStatus::Closed
                                } else {
                                    s.status
                                },
                                ..s
                            },
                        )
                    },
                    None => r matches Err(ProtocolError::ProtocolStateError { .. })
                        && final(self)@ == old(self)@,
                }
            }),
    {
        match self.find_session(channel_id) {
            None => {
                proof {
                    Self::lemma_find_none(self@, channel_id);
                }
                Err(
                    ProtocolError::ProtocolStateError { err: "unknown channel".to_owned() },
                )
            },
            Some(i) => {
                proof {
                    Self::lemma_find_some(self@, channel_id, i as int);
                }
                let ghost old_views = self@;
                let mut s = self.sessions.remove(i);
                let out = s.take_output();
                self.sessions.insert(i, s);
                proof {
                    assert(self@ =~= old_views.update(i as int, s@));
                    Self::lemma_find_some(self@, channel_id, i as int);
                }
                Ok(out)
            },
        }
    }

    /// Builds the graceful-shutdown message for the channel: the encoded
    /// end-of-stream marker to hand to the transport.
    pub fn close_session(&mut self, channel_id: u32) -> (r: Result<Vec<u8>, ProtocolError>)
        ensures
            final(self)@ == old(self)@,
            seq_find(old(self)@, channel_id) is Some ==> (r matches Ok(v) && v@ == spec_encode(
                MessageV::Eof { channel_id },
            )),
            seq_find(old(self)@, channel_id) is None ==> r matches Err(
                ProtocolError::ProtocolStateError { .. },
            ),
    {
        match self.find_session(channel_id) {
            None => {
                proof {
                    Self::lemma_find_none(self@, channel_id);
                }
                Err(
                    ProtocolError::ProtocolStateError { err: "unknown channel".to_owned() },
                )
            },
            Some(i) => {
                proof {
                    Self::lemma_find_some(self@, channel_id, i as int);
                }
                let m = Message::Eof { channel_id };
                proof {
                    crate::message::lemma_msg_wf(m);
                }
                match encode_message(&m) {
                    Ok(v) => Ok(v),
                    Err(e) => {
                        proof {
                            assert(false);
                        }
                        Err(e)
                    },
                }
            },
        }
    }

    /// Forces the channel's session closed locally, releasing its buffers,
    /// whether or not the peer ever answers.  This is the cancellation hook;
    /// timers, if any, belong to the caller.
    pub fn force_close(&mut self, channel_id: u32) -> (r: Result<(), ProtocolError>)
        ensures
            ({
                match seq_find(old(self)@, channel_id) {
                    Some(s) => r is Ok && seq_find(final(self)@, channel_id) == Some(
                        crate::session::spec_close(s),
                    ),
                    None => r matches Err(ProtocolError::ProtocolStateError { .. })
                        && final(self)@ == old(self)@,
                }
            }),
    {
        match self.find_session(channel_id) {
            None => {
                proof {
                    Self::lemma_find_none(self@, channel_id);
                }
                Err(
                    ProtocolError::ProtocolStateError { err: "unknown channel".to_owned() },
                )
            },
            Some(i) => {
                proof {
                    Self::lemma_find_some(self@, channel_id, i as int);
                }
                let ghost old_views = self@;
                let mut s = self.sessions.remove(i);
                s.force_close();
                self.sessions.insert(i, s);
                proof {
                    assert(self@ =~= old_views.update(i as int, s@));
                    Self::lemma_find_some(self@, channel_id, i as int);
                }
                Ok(())
            },
        }
    }

    /// The status of the channel's session, if the channel is served.
    pub fn session_status(&self, channel_id: u32) -> (r: Option<SessionStatus>)
        ensures
            r == (match seq_find(self@, channel_id) {
                Some(s) => Some(s.status),
                None => None::<SessionStatus>,
            }),
    {
        match self.find_session(channel_id) {
            None => {
                proof {
                    Self::lemma_find_none(self@, channel_id);
                }
                None
            },
            Some(i) => {
                proof {
                    Self::lemma_find_some(self@, channel_id, i as int);
                }
                Some(self.sessions[i].status())
            },
        }
    }
}

} // verus!
