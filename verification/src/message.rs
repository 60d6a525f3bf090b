use vstd::prelude::*;
use vstd::slice::{slice_subrange, slice_to_vec};
use vstd::utf8::{decode_utf8, encode_utf8, valid_utf8};
use crate::decode::{
    decode_frame, lemma_decode_complete_wf, spec_decode, Decoded, SpecOutcome,
};
use crate::error::FrameError;
use crate::encode::encode_frame;
use crate::frame::{frame_bytes, frame_wf, is_control, Frame, Opcode, Role, SpecFrame};
use crate::keys::random_bytes;
use crate::text::string_from_utf8;

verus! {

/// The two kinds of data message.
#[derive(Debug, Clone, Copy, PartialEq, Eq, Structural)]
pub enum MessageKind {
    Text,
    Binary,
}

/// A reassembled application message: text that proved to be valid
/// UTF-8, or raw bytes.
#[derive(Debug, PartialEq, Eq)]
pub enum Message {
    Text(String),
    Binary(Vec<u8>),
}

/// The mathematical image of a message.
#[verifier::ext_equal]
pub enum SpecMessage {
    Text(Seq<char>),
    Binary(Seq<u8>),
}

impl View for Message {
    type V = SpecMessage;

    open spec fn view(&self) -> SpecMessage {
        match self {
            Message::Text(t) => SpecMessage::Text(t@),
            Message::Binary(b) => SpecMessage::Binary(b@),
        }
    }
}

/// What one round of decoding hands the application: a whole data
/// message, or a control frame's payload.
#[derive(Debug, PartialEq, Eq)]
pub enum Event {
    Message(Message),
    Ping(Vec<u8>),
    Pong(Vec<u8>),
    Close(Vec<u8>),
}

/// The mathematical image of an event.
#[verifier::ext_equal]
pub enum SpecEvent {
    Message(SpecMessage),
    Ping(Seq<u8>),
    Pong(Seq<u8>),
    Close(Seq<u8>),
}

impl View for Event {
    type V = SpecEvent;

    open spec fn view(&self) -> SpecEvent {
        match self {
            Event::Message(m) => SpecEvent::Message(m@),
            Event::Ping(p) => SpecEvent::Ping(p@),
            Event::Pong(p) => SpecEvent::Pong(p@),
            Event::Close(p) => SpecEvent::Close(p@),
        }
    }
}

/// The decoder's model: the receiver's role, the unconsumed wire
/// bytes, and the open fragmentation run, if any, with the payload
/// assembled so far.
#[verifier::ext_equal]
pub struct DecoderModel {
    pub role: Role,
    pub buffer: Seq<u8>,
    pub frag: Option<(MessageKind, Seq<u8>)>,
}

/// What one step of the decoder yields.
#[verifier::ext_equal]
pub enum SpecStep {
    /// No whole frame is buffered; more bytes must be fed.
    NeedData,
    /// A protocol violation; the decoder stops here.
    Fail(FrameError),
    /// An event for the application.
    Event(SpecEvent),
    /// A non-final fragment was consumed; stepping again may yield
    /// more.
    Continue,
}

/// Close a fragmentation run: a Text run must be valid UTF-8.
pub open spec fn spec_close_run(
    m: DecoderModel,
    m2: DecoderModel,
    kind: MessageKind,
    payload: Seq<u8>,
) -> (DecoderModel, SpecStep) {
    match kind {
        MessageKind::Text => {
            if valid_utf8(payload) {
                (m2, SpecStep::Event(SpecEvent::Message(SpecMessage::Text(decode_utf8(payload)))))
            } else {
                (m, SpecStep::Fail(FrameError::InvalidUtf8))
            }
        },
        MessageKind::Binary => {
            (m2, SpecStep::Event(SpecEvent::Message(SpecMessage::Binary(payload))))
        },
    }
}

/// One step of the decoder: parse one frame off the buffer and run
/// the fragmentation rules on it. Control frames pass through even
/// while a run is open; a failing step leaves the state as it was.
pub open spec fn spec_step(m: DecoderModel) -> (DecoderModel, SpecStep) {
    match spec_decode(m.buffer, m.role) {
        SpecOutcome::Incomplete => (m, SpecStep::NeedData),
        SpecOutcome::Invalid(e) => (m, SpecStep::Fail(e)),
        SpecOutcome::Complete(f, n) => {
            let rest = m.buffer.skip(n as int);
            match f.opcode {
                Opcode::Ping => (
                    DecoderModel { buffer: rest, ..m },
                    SpecStep::Event(SpecEvent::Ping(f.payload)),
                ),
                Opcode::Pong => (
                    DecoderModel { buffer: rest, ..m },
                    SpecStep::Event(SpecEvent::Pong(f.payload)),
                ),
                Opcode::Close => (
                    DecoderModel { buffer: rest, ..m },
                    SpecStep::Event(SpecEvent::Close(f.payload)),
                ),
                Opcode::Text | Opcode::Binary => {
                    let kind = if f.opcode is Text {
                        MessageKind::Text
                    } else {
                        MessageKind::Binary
                    };
                    if m.frag is Some {
                        (m, SpecStep::Fail(FrameError::DataFrameDuringFragmentation))
                    } else if f.fin {
                        spec_close_run(
                            m,
                            DecoderModel { buffer: rest, frag: Option::None, ..m },
                            kind,
                            f.payload,
                        )
                    } else {
                        (
                            DecoderModel {
                                buffer: rest,
                                frag: Option::Some((kind, f.payload)),
                                ..m
                            },
                            SpecStep::Continue,
                        )
                    }
                },
                Opcode::Continuation => {
                    match m.frag {
                        Option::None => (m, SpecStep::Fail(FrameError::UnexpectedContinuation)),
                        Option::Some(run) => {
                            let assembled = run.1 + f.payload;
                            if f.fin {
                                spec_close_run(
                                    m,
                                    DecoderModel { buffer: rest, frag: Option::None, ..m },
                                    run.0,
                                    assembled,
                                )
                            } else {
                                (
                                    DecoderModel {
                                        buffer: rest,
                                        frag: Option::Some((run.0, assembled)),
                                        ..m
                                    },
                                    SpecStep::Continue,
                                )
                            }
                        },
                    }
                },
                Opcode::Reserved(_) => (m, SpecStep::Fail(FrameError::UnknownOpcode)),
            }
        },
    }
}

/// Step until something other than a consumed fragment comes out.
pub open spec fn spec_drain(m: DecoderModel) -> (DecoderModel, SpecStep)
    decreases m.buffer.len(),
    via spec_drain_dec
{
    let once = spec_step(m);
    if once.1 is Continue {
        spec_drain(once.0)
    } else {
        once
    }
}

#[via_fn]
proof fn spec_drain_dec(m: DecoderModel) {
    if spec_decode(m.buffer, m.role) is Complete {
        lemma_decode_complete_wf(m.buffer, m.role);
    }
}

/// The incremental message decoder of one connection: it owns the
/// partial-read buffer and the open fragmentation run exclusively.
pub struct MessageDecoder {
    /// The receiver's own role; it fixes which mask bit is legal.
    pub role: Role,
    /// Unconsumed wire bytes.
    pub buffer: Vec<u8>,
    /// The kind of the open fragmentation run, if one is open.
    pub frag_kind: Option<MessageKind>,
    /// The payload bytes assembled so far for the open run.
    pub frag_payload: Vec<u8>,
}

impl View for MessageDecoder {
    type V = DecoderModel;

    open spec fn view(&self) -> DecoderModel {
        DecoderModel {
            role: self.role,
            buffer: self.buffer@,
            frag: match self.frag_kind {
                Option::Some(k) => Option::Some((k, self.frag_payload@)),
                Option::None => Option::None,
            },
        }
    }
}

/// The executable step outcome agrees with the specification one.
pub open spec fn step_matches(r: Option<Result<Option<Event>, FrameError>>, s: SpecStep) -> bool {
    match r {
        Option::None => s is Continue,
        Option::Some(Result::Ok(Option::None)) => s is NeedData,
        Option::Some(Result::Ok(Option::Some(ev))) => s == SpecStep::Event(ev@),
        Option::Some(Result::Err(e)) => s == SpecStep::Fail(e),
    }
}

impl MessageDecoder {
    /// A fresh decoder for a receiver of the given role.
    pub fn new(role: Role) -> (r: Self)
        ensures
            r@ == (DecoderModel {
                role,
                buffer: Seq::<u8>::empty(),
                frag: Option::<(MessageKind, Seq<u8>)>::None,
            }),
    {
        MessageDecoder {
            role,
            buffer: Vec::new(),
            frag_kind: Option::None,
            frag_payload: Vec::new(),
        }
    }

    /// A decoder already holding bytes that arrived with the end of
    /// the handshake.
    pub fn with_leftover(role: Role, leftover: Vec<u8>) -> (r: Self)
        ensures
            r@ == (DecoderModel {
                role,
                buffer: leftover@,
                frag: Option::<(MessageKind, Seq<u8>)>::None,
            }),
    {
        MessageDecoder {
            role,
            buffer: leftover,
            frag_kind: Option::None,
            frag_payload: Vec::new(),
        }
    }

    /// Take in the bytes one read returned; they are only buffered.
    pub fn feed(&mut self, chunk: &[u8])
        ensures
            final(self)@ == (DecoderModel { buffer: old(self)@.buffer + chunk@, ..old(self)@ }),
    {
        self.buffer.extend_from_slice(chunk);
    }

    /// One decoding step. `None` means a non-final fragment was
    /// consumed and stepping again may yield more; `Ok(None)` means
    /// more bytes must be fed; `Ok(Some(event))` is an event;
    /// `Err` is a fatal protocol error, the state left as it was.
    pub fn step(&mut self) -> (r: Option<Result<Option<Event>, FrameError>>)
        ensures
            final(self)@ == spec_step(old(self)@).0,
            step_matches(r, spec_step(old(self)@).1),
    {
        let n = self.buffer.len();
        match decode_frame(self.buffer.as_slice(), self.role) {
            Decoded::Incomplete => Option::Some(Result::Ok(Option::None)),
            Decoded::Invalid(e) => Option::Some(Result::Err(e)),
            Decoded::Complete(f, used) => {
                let ghost prior = self@;
                let rest = slice_to_vec(slice_subrange(self.buffer.as_slice(), used, n));
                proof {
                    assert(rest@ =~= prior.buffer.skip(used as int));
                }
                match f.opcode {
                    Opcode::Ping => {
                        self.buffer = rest;
                        proof {
                            assert(self@ =~= spec_step(prior).0);
                        }
                        Option::Some(Result::Ok(Option::Some(Event::Ping(f.payload))))
                    },
                    Opcode::Pong => {
                        self.buffer = rest;
                        proof {
                            assert(self@ =~= spec_step(prior).0);
                        }
                        Option::Some(Result::Ok(Option::Some(Event::Pong(f.payload))))
                    },
                    Opcode::Close => {
                        self.buffer = rest;
                        proof {
                            assert(self@ =~= spec_step(prior).0);
                        }
                        Option::Some(Result::Ok(Option::Some(Event::Close(f.payload))))
                    },
                    Opcode::Text | Opcode::Binary => {
                        let kind = match f.opcode {
                            Opcode::Text => MessageKind::Text,
                            _ => MessageKind::Binary,
                        };
                        if self.frag_kind.is_some() {
                            proof {
                                assert(self@ =~= spec_step(prior).0);
                            }
                            Option::Some(
                                Result::Err(FrameError::DataFrameDuringFragmentation),
                            )
                        } else if f.fin {
                            match kind {
                                MessageKind::Text => {
                                    match string_from_utf8(f.payload) {
                                        Option::Some(text) => {
                                            self.buffer = rest;
                                            proof {
                                                assert(self@ =~= spec_step(prior).0);
                                            }
                                            Option::Some(
                                                Result::Ok(
                                                    Option::Some(
                                                        Event::Message(Message::Text(text)),
                                                    ),
                                                ),
                                            )
                                        },
                                        Option::None => {
                                            proof {
                                                assert(self@ =~= spec_step(prior).0);
                                            }
                                            Option::Some(Result::Err(FrameError::InvalidUtf8))
                                        },
                                    }
                                },
                                MessageKind::Binary => {
                                    self.buffer = rest;
                                    proof {
                                        assert(self@ =~= spec_step(prior).0);
                                    }
                                    Option::Some(
                                        Result::Ok(
                                            Option::Some(
                                                Event::Message(Message::Binary(f.payload)),
                                            ),
                                        ),
                                    )
                                },
                            }
                        } else {
                            self.buffer = rest;
                            self.frag_kind = Option::Some(kind);
                            self.frag_payload = f.payload;
                            proof {
                                assert(self@ =~= spec_step(prior).0);
                            }
                            Option::None
                        }
                    },
                    Opcode::Continuation => {
                        match self.frag_kind {
                            Option::None => {
                                proof {
                                    assert(self@ =~= spec_step(prior).0);
                                }
                                Option::Some(Result::Err(FrameError::UnexpectedContinuation))
                            },
                            Option::Some(kind) => {
                                if f.fin {
                                    let mut assembled: Vec<u8> = Vec::new();
                                    assembled.extend_from_slice(self.frag_payload.as_slice());
                                    assembled.extend_from_slice(f.payload.as_slice());
                                    proof {
                                        assert(assembled@ =~= self.frag_payload@ + f@.payload);
                                    }
                                    match kind {
                                        MessageKind::Text => {
                                            match string_from_utf8(assembled) {
                                                Option::Some(text) => {
                                                    self.buffer = rest;
                                                    self.frag_kind = Option::None;
                                                    self.frag_payload = Vec::new();
                                                    proof {
                                                        assert(self@ =~= spec_step(prior).0);
                                                    }
                                                    Option::Some(
                                                        Result::Ok(
                                                            Option::Some(
                                                                Event::Message(
                                                                    Message::Text(text),
                                                                ),
                                                            ),
                                                        ),
                                                    )
                                                },
                                                Option::None => {
                                                    proof {
                                                        assert(self@ =~= spec_step(prior).0);
                                                    }
                                                    Option::Some(
                                                        Result::Err(FrameError::InvalidUtf8),
                                                    )
                                                },
                                            }
                                        },
                                        MessageKind::Binary => {
                                            self.buffer = rest;
                                            self.frag_kind = Option::None;
                                            self.frag_payload = Vec::new();
                                            proof {
                                                assert(self@ =~= spec_step(prior).0);
                                            }
                                            Option::Some(
                                                Result::Ok(
                                                    Option::Some(
                                                        Event::Message(
                                                            Message::Binary(assembled),
                                                        ),
                                                    ),
                                                ),
                                            )
                                        },
                                    }
                                } else {
                                    self.buffer = rest;
                                    self.frag_payload.extend_from_slice(f.payload.as_slice());
                                    proof {
                                        assert(self.frag_payload@ =~= prior.frag->Some_0.1
                                            + f@.payload);
                                        assert(self@ =~= spec_step(prior).0);
                                    }
                                    Option::None
                                }
                            },
                        }
                    },
                    Opcode::Reserved(_) => {
                        proof {
                            assert(self@ =~= spec_step(prior).0);
                        }
                        Option::Some(Result::Err(FrameError::UnknownOpcode))
                    },
                }
            },
        }
    }

    /// Step until an answer for the caller comes out: an event, the
    /// need for more bytes, or a protocol error.
    pub fn next_event(&mut self) -> (r: Result<Option<Event>, FrameError>)
        ensures
            final(self)@ == spec_drain(old(self)@).0,
            step_matches(Option::Some(r), spec_drain(old(self)@).1),
    {
        loop
            invariant
                spec_drain(old(self)@) == spec_drain(self@),
            decreases self@.buffer.len(),
        {
            proof {
                if spec_decode(self@.buffer, self@.role) is Complete {
                    lemma_decode_complete_wf(self@.buffer, self@.role);
                }
            }
            match self.step() {
                Option::Some(out) => {
                    return out;
                },
                Option::None => {
                },
            }
        }
    }
}


/// The single frame this side sends for a message: FIN set, no
/// fragmentation, the payload of a Text message being its UTF-8
/// bytes.
pub open spec fn message_frame(msg: SpecMessage, mask: Option<Seq<u8>>) -> SpecFrame {
    SpecFrame {
        fin: true,
        opcode: match msg {
            SpecMessage::Text(_) => Opcode::Text,
            SpecMessage::Binary(_) => Opcode::Binary,
        },
        mask,
        payload: match msg {
            SpecMessage::Text(t) => encode_utf8(t),
            SpecMessage::Binary(b) => b,
        },
    }
}

/// The payload bytes a message would put on the wire.
pub open spec fn spec_message_len(msg: SpecMessage) -> nat {
    match msg {
        SpecMessage::Text(t) => encode_utf8(t).len(),
        SpecMessage::Binary(b) => b.len(),
    }
}

/// Serialize one message as a single frame: a client masks it with a
/// fresh random four-byte key, a server sends it unmasked.
pub fn encode_message(msg: &Message, sender: Role) -> (r: Vec<u8>)
    requires
        spec_message_len(msg@) < 0x8000000000000000,
    ensures
        match sender {
            Role::Server => r@ == frame_bytes(message_frame(msg@, Option::None)),
            Role::Client => exists|k: Seq<u8>|
                k.len() == 4 && r@ == frame_bytes(message_frame(msg@, Option::Some(k))),
        },
{
    let opcode = match msg {
        Message::Text(_) => Opcode::Text,
        Message::Binary(_) => Opcode::Binary,
    };
    let payload: Vec<u8> = match msg {
        Message::Text(t) => t.as_str().as_bytes_vec(),
        Message::Binary(b) => slice_to_vec(b.as_slice()),
    };
    match sender {
        Role::Server => {
            let f = Frame { fin: true, opcode, mask: Option::None, payload };
            encode_frame(&f)
        },
        Role::Client => {
            let key = random_bytes(4);
            let ghost key_view = key@;
            let f = Frame { fin: true, opcode, mask: Option::Some(key), payload };
            let out = encode_frame(&f);
            proof {
                assert(f@ == message_frame(msg@, Option::Some(key_view)));
            }
            out
        },
    }
}

/// Serialize one control frame — Close, Ping or Pong — masked or not
/// by the sender's role. The payload may hold at most 125 bytes.
pub fn encode_control(opcode: Opcode, payload: &[u8], sender: Role) -> (r: Vec<u8>)
    requires
        is_control(opcode),
        payload@.len() <= 125,
    ensures
        ({
            match sender {
                Role::Server => r@ == frame_bytes(
                    (SpecFrame { fin: true, opcode, mask: Option::None, payload: payload@ }),
                ),
                Role::Client => exists|k: Seq<u8>|
                    k.len() == 4 && r@ == frame_bytes(
                        (SpecFrame {
                            fin: true,
                            opcode,
                            mask: Option::Some(k),
                            payload: payload@,
                        }),
                    ),
            }
        }),
{
    let body = slice_to_vec(payload);
    match sender {
        Role::Server => {
            let f = Frame { fin: true, opcode, mask: Option::None, payload: body };
            encode_frame(&f)
        },
        Role::Client => {
            let key = random_bytes(4);
            let f = Frame { fin: true, opcode, mask: Option::Some(key), payload: body };
            encode_frame(&f)
        },
    }
}


/// A message put on the wire comes back as itself: the single frame
/// `encode_message` would build — masked or not — parses back to a
/// frame of the same opcode, carrying exactly the message's payload
/// bytes, whatever later traffic follows it.
pub proof fn lemma_message_round_trip(
    msg: SpecMessage,
    mask: Option<Seq<u8>>,
    receiver: Role,
    rest: Seq<u8>,
)
    requires
        spec_message_len(msg) < 0x8000000000000000,
        mask matches Some(k) ==> k.len() == 4,
        crate::decode::mask_allowed(receiver, mask is Some),
    ensures
        ({
            let f = message_frame(msg, mask);
            let w = frame_bytes(f);
            &&& spec_decode(w + rest, receiver) == SpecOutcome::Complete(f, w.len())
            &&& f.opcode == (match msg {
                SpecMessage::Text(_) => Opcode::Text,
                SpecMessage::Binary(_) => Opcode::Binary,
            })
            &&& f.payload == (match msg {
                SpecMessage::Text(t) => encode_utf8(t),
                SpecMessage::Binary(b) => b,
            })
        }),
{
    let f = message_frame(msg, mask);
    assert(frame_wf(f));
    crate::decode::lemma_decode_frame_bytes(f, rest, receiver);
}


/// A buffer holding exactly one whole message frame, with no run
/// open, drains to exactly that message and an empty buffer.
pub proof fn lemma_drain_single_message(msg: SpecMessage, mask: Option<Seq<u8>>, role: Role)
    requires
        spec_message_len(msg) < 0x8000000000000000,
        mask matches Some(k) ==> k.len() == 4,
        crate::decode::mask_allowed(role, mask is Some),
    ensures
        ({
            let m = DecoderModel {
                role,
                buffer: frame_bytes(message_frame(msg, mask)),
                frag: Option::None,
            };
            spec_drain(m) == (
                DecoderModel { role, buffer: Seq::<u8>::empty(), frag: Option::None },
                SpecStep::Event(SpecEvent::Message(msg)),
            )
        }),
{
    broadcast use vstd::utf8::encode_utf8_valid_utf8, vstd::utf8::encode_utf8_decode_utf8;

    let f = message_frame(msg, mask);
    let w = frame_bytes(f);
    lemma_message_round_trip(msg, mask, role, Seq::empty());
    assert(w + Seq::<u8>::empty() =~= w);
    let m = DecoderModel { role, buffer: w, frag: Option::None };
    assert(w.skip(w.len() as int) =~= Seq::<u8>::empty());
    match msg {
        SpecMessage::Text(t) => {
            assert(valid_utf8(encode_utf8(t)));
            assert(spec_step(m).1 == SpecStep::Event(
                SpecEvent::Message(SpecMessage::Text(decode_utf8(encode_utf8(t)))),
            ));
        },
        SpecMessage::Binary(_) => {},
    }
}

/// Receive-side fragmentation: a data frame with FIN clear followed
/// by a final Continuation frame reassembles to one message holding
/// both payloads in order — for a Text run, provided the joined bytes
/// are valid UTF-8.
#[verifier::rlimit(100)]
pub proof fn lemma_two_fragments_reassemble(
    kind: MessageKind,
    p1: Seq<u8>,
    p2: Seq<u8>,
    mask1: Option<Seq<u8>>,
    mask2: Option<Seq<u8>>,
    role: Role,
)
    requires
        p1.len() < 0x8000000000000000,
        p2.len() < 0x8000000000000000,
        mask1 matches Some(k) ==> k.len() == 4,
        mask2 matches Some(k) ==> k.len() == 4,
        crate::decode::mask_allowed(role, mask1 is Some),
        crate::decode::mask_allowed(role, mask2 is Some),
        kind is Text ==> valid_utf8(p1 + p2),
    ensures
        ({
            let opener = SpecFrame {
                fin: false,
                opcode: match kind {
                    MessageKind::Text => Opcode::Text,
                    MessageKind::Binary => Opcode::Binary,
                },
                mask: mask1,
                payload: p1,
            };
            let closer = SpecFrame {
                fin: true,
                opcode: Opcode::Continuation,
                mask: mask2,
                payload: p2,
            };
            let m = DecoderModel {
                role,
                buffer: frame_bytes(opener) + frame_bytes(closer),
                frag: Option::None,
            };
            spec_drain(m) == (
                DecoderModel { role, buffer: Seq::<u8>::empty(), frag: Option::None },
                SpecStep::Event(
                    SpecEvent::Message(
                        match kind {
                            MessageKind::Text => SpecMessage::Text(decode_utf8(p1 + p2)),
                            MessageKind::Binary => SpecMessage::Binary(p1 + p2),
                        },
                    ),
                ),
            )
        }),
{
    let opener = SpecFrame {
        fin: false,
        opcode: match kind {
            MessageKind::Text => Opcode::Text,
            MessageKind::Binary => Opcode::Binary,
        },
        mask: mask1,
        payload: p1,
    };
    let closer = SpecFrame {
        fin: true,
        opcode: Opcode::Continuation,
        mask: mask2,
        payload: p2,
    };
    let w1 = frame_bytes(opener);
    let w2 = frame_bytes(closer);
    let m = DecoderModel { role, buffer: w1 + w2, frag: Option::None };
    assert(frame_wf(opener));
    assert(frame_wf(closer));
    crate::decode::lemma_decode_frame_bytes(opener, w2, role);
    assert(spec_decode(m.buffer, role) == SpecOutcome::Complete(opener, w1.len()));
    assert((w1 + w2).skip(w1.len() as int) =~= w2);
    let mid = DecoderModel { role, buffer: w2, frag: Option::Some((kind, p1)) };
    assert(spec_step(m) == (mid, SpecStep::Continue));
    crate::decode::lemma_decode_frame_bytes(closer, Seq::empty(), role);
    assert(w2 + Seq::<u8>::empty() =~= w2);
    assert(spec_decode(w2, role) == SpecOutcome::Complete(closer, w2.len()));
    assert(w2.skip(w2.len() as int) =~= Seq::<u8>::empty());
    let ending = DecoderModel { role, buffer: Seq::<u8>::empty(), frag: Option::None };
    match kind {
        MessageKind::Text => {
            assert(spec_step(mid) == (
                ending,
                SpecStep::Event(SpecEvent::Message(SpecMessage::Text(decode_utf8(p1 + p2)))),
            ));
        },
        MessageKind::Binary => {
            assert(spec_step(mid) == (
                ending,
                SpecStep::Event(SpecEvent::Message(SpecMessage::Binary(p1 + p2))),
            ));
        },
    }
    assert(spec_drain(m) == spec_drain(mid));
}


/// Partial reads at the message layer: while the buffer holds only a
/// proper prefix of a frame's wire bytes, a step asks for more data
/// and changes nothing, whatever run is open.
pub proof fn lemma_prefix_needs_data(
    f: SpecFrame,
    role: Role,
    k: int,
    frag: Option<(MessageKind, Seq<u8>)>,
)
    requires
        frame_wf(f),
        crate::decode::mask_allowed(role, f.mask is Some),
        0 <= k < frame_bytes(f).len(),
    ensures
        ({
            let m = DecoderModel { role, buffer: frame_bytes(f).take(k), frag };
            spec_step(m) == (m, SpecStep::NeedData)
        }),
{
    crate::decode::lemma_decode_prefix(f, role, k);
}

} // verus!
