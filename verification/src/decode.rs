use vstd::prelude::*;
use vstd::slice::{slice_subrange, slice_to_vec};
use vstd::utf8::{decode_utf8, valid_utf8};
use crate::error::FrameError;
use crate::frame::{
    be2_val, be8_val, ext_len_bytes, frame_bytes, frame_wf, get_opcode, is_control, len_code,
    lemma_be2_inverse, lemma_be8_high_bit, lemma_be8_inverse, lemma_mask_involution,
    lemma_nibble_opcode_inverse, lemma_opcode_nibble_inverse, masked_bytes, opcode_nibble,
    spec_opcode_of_nibble, unmask_payload, Frame, Opcode, Role, SpecFrame,
};
use crate::text::string_from_utf8;

verus! {

/// What a byte prefix of the stream parses to, at specification level.
#[verifier::ext_equal]
pub enum SpecOutcome {
    /// The bytes so far are a proper prefix of a frame.
    Incomplete,
    /// The bytes already read violate the protocol.
    Invalid(FrameError),
    /// One whole frame — fields unmasked — and the number of bytes it
    /// occupies at the front of the input.
    Complete(SpecFrame, nat),
}

/// The mask bit a receiver accepts: a server only takes masked frames,
/// a client only unmasked ones.
pub open spec fn mask_allowed(receiver: Role, masked: bool) -> bool {
    masked == (receiver is Server)
}

/// Parse the tail of a frame once the header's first two bytes are
/// read: `off` bytes of header (including any extended length field)
/// precede the masking key, which precedes `len` payload bytes.
pub open spec fn spec_decode_rest(
    b: Seq<u8>,
    off: int,
    len: nat,
    fin: bool,
    nibble: u8,
    masked: bool,
) -> SpecOutcome {
    let op = spec_opcode_of_nibble(nibble);
    if is_control(op) && !fin {
        SpecOutcome::Invalid(FrameError::FragmentedControlFrame)
    } else if is_control(op) && len > 125 {
        SpecOutcome::Invalid(FrameError::OversizedControlFrame)
    } else {
        let key_len: int = if masked {
            4
        } else {
            0
        };
        if b.len() < off + key_len + len {
            SpecOutcome::Incomplete
        } else {
            let key = b.subrange(off, off + key_len);
            let raw = b.subrange(off + key_len, off + key_len + len);
            SpecOutcome::Complete(
                SpecFrame {
                    fin,
                    opcode: op,
                    mask: if masked {
                        Option::Some(key)
                    } else {
                        Option::None
                    },
                    payload: if masked {
                        masked_bytes(raw, key)
                    } else {
                        raw
                    },
                },
                (off + key_len + len) as nat,
            )
        }
    }
}

/// Parse one frame from the front of `b`, as seen by `receiver`.
/// Byte 0 carries FIN, three reserved bits that must be zero, and the
/// opcode nibble; byte 1 carries the mask bit and the base length,
/// whose values 126 and 127 call for a 16-bit or 64-bit big-endian
/// extension. A 64-bit length with its high bit set is rejected.
pub open spec fn spec_decode(b: Seq<u8>, receiver: Role) -> SpecOutcome {
    if b.len() < 2 {
        SpecOutcome::Incomplete
    } else {
        let b0 = b[0];
        let b1 = b[1];
        let fin = b0 >= 128;
        let rsv = b0 / 16 % 8;
        let nibble = b0 % 16;
        let masked = b1 >= 128;
        let code = b1 % 128;
        if rsv != 0 {
            SpecOutcome::Invalid(FrameError::ReservedBitsSet)
        } else if !mask_allowed(receiver, masked) {
            SpecOutcome::Invalid(FrameError::ForbiddenMaskBit)
        } else if code < 126 {
            spec_decode_rest(b, 2, code as nat, fin, nibble, masked)
        } else if code == 126 {
            if b.len() < 4 {
                SpecOutcome::Incomplete
            } else {
                spec_decode_rest(b, 4, be2_val(b.subrange(2, 4)), fin, nibble, masked)
            }
        } else {
            if b.len() < 10 {
                SpecOutcome::Incomplete
            } else if b[2] >= 128 {
                SpecOutcome::Invalid(FrameError::PayloadTooLarge)
            } else {
                spec_decode_rest(b, 10, be8_val(b.subrange(2, 10)), fin, nibble, masked)
            }
        }
    }
}

/// The header-byte arithmetic of a well-formed frame: how the packed
/// first two bytes of `frame_bytes` read back, and where the sections
/// of the encoding lie.
proof fn lemma_header_bytes(f: SpecFrame)
    requires
        frame_wf(f),
    ensures
        ({
            let w = frame_bytes(f);
            let n = f.payload.len();
            let key_len: int = if f.mask is Some {
                4
            } else {
                0
            };
            let off: int = if n < 126 {
                2
            } else if n <= 0xFFFF {
                4
            } else {
                10
            };
            &&& w.len() == off + key_len + n
            &&& w[0] >= 128 <==> f.fin
            &&& w[0] / 16 % 8 == 0
            &&& w[0] % 16 == opcode_nibble(f.opcode)
            &&& w[1] >= 128 <==> f.mask is Some
            &&& w[1] % 128 == len_code(n)
            &&& w.subrange(2, off) =~= ext_len_bytes(n)
            &&& w.subrange(off, off + key_len) =~= (match f.mask {
                Option::Some(k) => k,
                Option::None => Seq::empty(),
            })
            &&& w.subrange(off + key_len, off + key_len + n) =~= (match f.mask {
                Option::Some(k) => masked_bytes(f.payload, k),
                Option::None => f.payload,
            })
        }),
{
    let w = frame_bytes(f);
    let n = f.payload.len();
    let nib = opcode_nibble(f.opcode);
    lemma_opcode_nibble_inverse(f.opcode);
    let fin_part: int = if f.fin {
        128
    } else {
        0
    };
    let mask_part: int = if f.mask is Some {
        128
    } else {
        0
    };
    let b0 = (fin_part + nib) as u8;
    let b1 = (mask_part + len_code(n)) as u8;
    vstd::arithmetic::div_mod::lemma_fundamental_div_mod_converse(
        b0 as int,
        16,
        if f.fin {
            8
        } else {
            0
        },
        nib as int,
    );
    vstd::arithmetic::div_mod::lemma_fundamental_div_mod_converse(
        b1 as int,
        128,
        if f.mask is Some {
            1
        } else {
            0
        },
        len_code(n) as int,
    );
}

/// Decoding inverts encoding: the wire bytes of a well-formed frame,
/// however many bytes of later traffic follow them, parse back to that
/// very frame, consuming exactly the frame's bytes.
pub proof fn lemma_decode_frame_bytes(f: SpecFrame, rest: Seq<u8>, receiver: Role)
    requires
        frame_wf(f),
        mask_allowed(receiver, f.mask is Some),
    ensures
        spec_decode(frame_bytes(f) + rest, receiver) == SpecOutcome::Complete(
            f,
            frame_bytes(f).len(),
        ),
{
    let w = frame_bytes(f);
    let b = w + rest;
    let n = f.payload.len();
    let key_len: int = if f.mask is Some {
        4
    } else {
        0
    };
    let off: int = if n < 126 {
        2
    } else if n <= 0xFFFF {
        4
    } else {
        10
    };
    lemma_header_bytes(f);
    lemma_opcode_nibble_inverse(f.opcode);
    assert(b[0] == w[0] && b[1] == w[1]);
    assert(b.subrange(2, off) =~= w.subrange(2, off));
    assert(b.subrange(off, off + key_len) =~= w.subrange(off, off + key_len));
    assert(b.subrange(off + key_len, off + key_len + n) =~= w.subrange(
        off + key_len,
        off + key_len + n,
    ));
    if n < 126 {
    } else if n <= 0xFFFF {
        assert(b.len() >= 4);
        lemma_be2_inverse(n);
    } else {
        assert(b.len() >= 10);
        lemma_be8_high_bit(n);
        assert(b[2] == ext_len_bytes(n)[0]);
        lemma_be8_inverse(n);
    }
    let outcome = spec_decode_rest(
        b,
        off,
        n,
        f.fin,
        opcode_nibble(f.opcode),
        f.mask is Some,
    );
    assert(spec_decode(b, receiver) == outcome);
    match f.mask {
        Option::Some(k) => {
            lemma_mask_involution(f.payload, k);
            assert(outcome matches SpecOutcome::Complete(sf, cnt) && sf =~= f && cnt == w.len());
        },
        Option::None => {
            assert(outcome matches SpecOutcome::Complete(sf, cnt) && sf =~= f && cnt == w.len());
        },
    }
}

/// Partial reads are safe: every proper prefix of a well-formed
/// frame's wire bytes parses to `Incomplete`, never to an error or to
/// a frame.
pub proof fn lemma_decode_prefix(f: SpecFrame, receiver: Role, k: int)
    requires
        frame_wf(f),
        mask_allowed(receiver, f.mask is Some),
        0 <= k < frame_bytes(f).len(),
    ensures
        spec_decode(frame_bytes(f).take(k), receiver) is Incomplete,
{
    let w = frame_bytes(f);
    let b = w.take(k);
    let n = f.payload.len();
    let key_len: int = if f.mask is Some {
        4
    } else {
        0
    };
    let off: int = if n < 126 {
        2
    } else if n <= 0xFFFF {
        4
    } else {
        10
    };
    lemma_header_bytes(f);
    lemma_opcode_nibble_inverse(f.opcode);
    if k < 2 {
    } else {
        assert(b[0] == w[0] && b[1] == w[1]);
        if n < 126 {
            assert(b.len() < off + key_len + n);
        } else if n <= 0xFFFF {
            if k >= 4 {
                assert(b.subrange(2, 4) =~= w.subrange(2, 4));
                lemma_be2_inverse(n);
                assert(b.len() < off + key_len + n);
            }
        } else {
            if k >= 10 {
                assert(b.subrange(2, 10) =~= w.subrange(2, 10));
                lemma_be8_high_bit(n);
                assert(b[2] == ext_len_bytes(n)[0]);
                lemma_be8_inverse(n);
                assert(b.len() < off + key_len + n);
            }
        }
    }
}

/// Whatever a byte sequence parses to as a complete frame is
/// well-formed, spans at least the two header bytes, and lies within
/// the input.
pub proof fn lemma_decode_complete_wf(b: Seq<u8>, receiver: Role)
    requires
        spec_decode(b, receiver) is Complete,
    ensures
        ({
            let s = spec_decode(b, receiver);
            s matches SpecOutcome::Complete(sf, cnt) ==> {
                &&& frame_wf(sf)
                &&& mask_allowed(receiver, sf.mask is Some)
                &&& 2 <= cnt <= b.len()
            }
        }),
{
    let b0 = b[0];
    lemma_nibble_opcode_inverse(b0 % 16);
    let b1 = b[1];
    let code = b1 % 128;
    if code == 127 && b.len() >= 10 && b[2] < 128 {
        let len = be8_val(b.subrange(2, 10));
        assert(len < 0x8000000000000000);
    }
}

/// Outcome of the executable decoder.
pub enum Decoded {
    /// More bytes must arrive before the frame can be judged.
    Incomplete,
    /// The bytes already read violate the protocol.
    Invalid(FrameError),
    /// One whole frame, and how many bytes of the buffer it consumed.
    Complete(Frame, usize),
}

/// The executable outcome agrees with the specification outcome.
pub open spec fn decoded_matches(r: Decoded, s: SpecOutcome) -> bool {
    match r {
        Decoded::Incomplete => s is Incomplete,
        Decoded::Invalid(e) => s == SpecOutcome::Invalid(e),
        Decoded::Complete(f, n) => s == SpecOutcome::Complete(f@, n as nat),
    }
}

/// Parse one frame from the front of `buf`, never reading past the
/// bytes that are actually there: a short buffer yields `Incomplete`,
/// not an out-of-bounds access.
pub fn decode_frame(buf: &[u8], receiver: Role) -> (r: Decoded)
    ensures
        decoded_matches(r, spec_decode(buf@, receiver)),
{
    if buf.len() < 2 {
        return Decoded::Incomplete;
    }
    let b0 = buf[0];
    let b1 = buf[1];
    let fin = b0 >= 128;
    let rsv = b0 / 16 % 8;
    let masked = b1 >= 128;
    let code = b1 % 128;
    if rsv != 0 {
        return Decoded::Invalid(FrameError::ReservedBitsSet);
    }
    let mask_ok = match receiver {
        Role::Server => masked,
        Role::Client => !masked,
    };
    if !mask_ok {
        return Decoded::Invalid(FrameError::ForbiddenMaskBit);
    }
    let off: usize;
    let len: u64;
    if code < 126 {
        off = 2;
        len = code as u64;
    } else if code == 126 {
        if buf.len() < 4 {
            return Decoded::Incomplete;
        }
        len = (buf[2] as u64) * 0x100 + (buf[3] as u64);
        off = 4;
        proof {
            assert(len as nat == be2_val(buf@.subrange(2, 4)));
        }
    } else {
        if buf.len() < 10 {
            return Decoded::Incomplete;
        }
        let d0 = buf[2];
        let d1 = buf[3];
        let d2 = buf[4];
        let d3 = buf[5];
        let d4 = buf[6];
        let d5 = buf[7];
        let d6 = buf[8];
        let d7 = buf[9];
        if d0 >= 128 {
            return Decoded::Invalid(FrameError::PayloadTooLarge);
        }
        len = (d0 as u64) * 0x100000000000000 + (d1 as u64) * 0x1000000000000 + (d2 as u64)
            * 0x10000000000 + (d3 as u64) * 0x100000000 + (d4 as u64) * 0x1000000 + (d5 as u64)
            * 0x10000 + (d6 as u64) * 0x100 + (d7 as u64);
        off = 10;
        proof {
            assert(len as nat == be8_val(buf@.subrange(2, 10)));
        }
    }
    let op = get_opcode(b0);
    let ctrl = match op {
        Opcode::Close | Opcode::Ping | Opcode::Pong => true,
        _ => false,
    };
    if ctrl && !fin {
        return Decoded::Invalid(FrameError::FragmentedControlFrame);
    }
    if ctrl && len > 125 {
        return Decoded::Invalid(FrameError::OversizedControlFrame);
    }
    let key_len: usize = if masked {
        4
    } else {
        0
    };
    let total: u64 = off as u64 + key_len as u64 + len;
    if (buf.len() as u64) < total {
        return Decoded::Incomplete;
    }
    let key_end: usize = off + key_len;
    let end: usize = key_end + len as usize;
    if masked {
        let key_slice = slice_subrange(buf, off, key_end);
        let raw = slice_subrange(buf, key_end, end);
        let payload = unmask_payload(raw, key_slice);
        let key = slice_to_vec(key_slice);
        Decoded::Complete(
            Frame { fin, opcode: op, mask: Option::Some(key), payload },
            end,
        )
    } else {
        let raw = slice_subrange(buf, key_end, end);
        let payload = slice_to_vec(raw);
        Decoded::Complete(Frame { fin, opcode: op, mask: Option::None, payload }, end)
    }
}

/// The payload length a buffer's length field announces.
pub open spec fn spec_payload_len(b: Seq<u8>) -> nat {
    let code = b[1] % 128;
    if code == 126 {
        be2_val(b.subrange(2, 4))
    } else if code == 127 {
        be8_val(b.subrange(2, 10))
    } else {
        code as nat
    }
}

/// Where the four masking-key bytes of a masked frame start: right
/// after the two header bytes and the extended length field the
/// length code selects.
pub open spec fn spec_mask_offset(b: Seq<u8>) -> int {
    let code = b[1] % 128;
    if code == 126 {
        4
    } else if code == 127 {
        10
    } else {
        2
    }
}

/// Read the payload length out of a frame header: the base length
/// byte, or the 16-bit or 64-bit big-endian extension it announces.
pub fn get_payload_len(buffer: &[u8]) -> (r: u64)
    requires
        buffer@.len() >= 2,
        buffer@[1] % 128 == 126 ==> buffer@.len() >= 4,
        buffer@[1] % 128 == 127 ==> buffer@.len() >= 10,
    ensures
        r as nat == spec_payload_len(buffer@),
{
    let code = buffer[1] % 128;
    if code == 126 {
        let r = (buffer[2] as u64) * 0x100 + (buffer[3] as u64);
        proof {
            assert(r as nat == be2_val(buffer@.subrange(2, 4)));
        }
        r
    } else if code == 127 {
        let r = (buffer[2] as u64) * 0x100000000000000 + (buffer[3] as u64) * 0x1000000000000
            + (buffer[4] as u64) * 0x10000000000 + (buffer[5] as u64) * 0x100000000
            + (buffer[6] as u64) * 0x1000000 + (buffer[7] as u64) * 0x10000
            + (buffer[8] as u64) * 0x100 + (buffer[9] as u64);
        proof {
            assert(r as nat == be8_val(buffer@.subrange(2, 10)));
        }
        r
    } else {
        code as u64
    }
}

/// The four masking-key bytes of a masked frame.
pub fn get_mask(buffer: &[u8]) -> (r: &[u8])
    requires
        buffer@.len() >= 2,
        buffer@.len() >= spec_mask_offset(buffer@) + 4,
    ensures
        r@ == buffer@.subrange(spec_mask_offset(buffer@), spec_mask_offset(buffer@) + 4),
{
    let code = buffer[1] % 128;
    let off: usize = if code == 126 {
        4
    } else if code == 127 {
        10
    } else {
        2
    };
    slice_subrange(buffer, off, off + 4)
}

/// The still-masked payload bytes of a masked frame: `len` bytes
/// following the header, length extension and masking key.
pub fn extract_payload(buffer: &[u8], len: usize) -> (r: &[u8])
    requires
        buffer@.len() >= 2,
        spec_mask_offset(buffer@) + 4 + len <= buffer@.len(),
    ensures
        r@ == buffer@.subrange(
            spec_mask_offset(buffer@) + 4,
            spec_mask_offset(buffer@) + 4 + len,
        ),
{
    let code = buffer[1] % 128;
    let start: usize = if code == 126 {
        8
    } else if code == 127 {
        14
    } else {
        6
    };
    slice_subrange(buffer, start, start + len)
}

/// Decode a buffer that should hold one whole masked Text frame and
/// hand back its unmasked payload as a string. Everything else is an
/// error: a short buffer, a protocol violation, a frame of another
/// opcode, or payload bytes that are not valid UTF-8.
pub fn get_payload(buffer: &[u8]) -> (r: Result<String, FrameError>)
    ensures
        ({
            let s = spec_decode(buffer@, Role::Server);
            match r {
                Result::Ok(text) => {
                    &&& s matches SpecOutcome::Complete(f, _)
                    &&& f.opcode is Text
                    &&& valid_utf8(f.payload)
                    &&& text@ == decode_utf8(f.payload)
                },
                Result::Err(e) => match s {
                    SpecOutcome::Incomplete => e == FrameError::IncompleteFrame,
                    SpecOutcome::Invalid(e2) => e == e2,
                    SpecOutcome::Complete(f, _) => {
                        if f.opcode is Text {
                            !valid_utf8(f.payload) && e == FrameError::InvalidUtf8
                        } else {
                            e == FrameError::UnsupportedOpcode
                        }
                    },
                },
            }
        }),
{
    match decode_frame(buffer, Role::Server) {
        Decoded::Incomplete => Result::Err(FrameError::IncompleteFrame),
        Decoded::Invalid(e) => Result::Err(e),
        Decoded::Complete(f, _) => match f.opcode {
            Opcode::Text => match string_from_utf8(f.payload) {
                Option::Some(text) => Result::Ok(text),
                Option::None => Result::Err(FrameError::InvalidUtf8),
            },
            _ => Result::Err(FrameError::UnsupportedOpcode),
        },
    }
}

} // verus!
