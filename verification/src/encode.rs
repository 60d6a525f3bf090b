use vstd::prelude::*;
use crate::frame::{
    ext_len_bytes, frame_bytes, frame_wf, len_code, lemma_opcode_nibble_inverse,
    opcode_to_nibble, unmask_payload, Frame,
};

verus! {

/// Append the first header byte of a single-frame message: FIN set,
/// opcode still to be merged in.
pub fn encode_fin(frame: &mut Vec<u8>)
    ensures
        final(frame)@ == old(frame)@ + seq![0x80u8],
{
    frame.push(0x80);
    proof {
        assert(frame@ =~= old(frame)@ + seq![0x80u8]);
    }
}

/// Merge the Text opcode into the header byte last appended, keeping
/// its FIN bit.
pub fn encode_opcode(frame: &mut Vec<u8>)
    requires
        old(frame)@.len() > 0,
    ensures
        final(frame)@ == old(frame)@.update(
            old(frame)@.len() - 1,
            old(frame)@.last() | 0x81,
        ),
{
    let first_byte = frame.pop().unwrap();
    frame.push(first_byte | 0x81);
    proof {
        assert(frame@ =~= old(frame)@.update(old(frame)@.len() - 1, old(frame)@.last() | 0x81));
    }
}

/// Append the length byte and, for payloads of 126 bytes or more, the
/// big-endian extended length field. `mask_bit` sets the MASK flag in
/// the length byte.
pub fn push_len_field(n: usize, mask_bit: bool, frame: &mut Vec<u8>)
    requires
        n < 0x8000000000000000,
    ensures
        final(frame)@ == old(frame)@ + seq![
            (((if mask_bit {
                128int
            } else {
                0int
            }) + len_code(n as nat)) as u8),
        ] + ext_len_bytes(n as nat),
{
    let flag: u8 = if mask_bit {
        128
    } else {
        0
    };
    if n < 126 {
        frame.push(flag + n as u8);
    } else if n <= 65535 {
        frame.push(flag + 126);
        frame.push((n / 0x100 % 0x100) as u8);
        frame.push((n % 0x100) as u8);
    } else {
        frame.push(flag + 127);
        let v = n as u64;
        frame.push((v / 0x100000000000000 % 0x100) as u8);
        frame.push((v / 0x1000000000000 % 0x100) as u8);
        frame.push((v / 0x10000000000 % 0x100) as u8);
        frame.push((v / 0x100000000 % 0x100) as u8);
        frame.push((v / 0x1000000 % 0x100) as u8);
        frame.push((v / 0x10000 % 0x100) as u8);
        frame.push((v / 0x100 % 0x100) as u8);
        frame.push((v % 0x100) as u8);
    }
    proof {
        assert(frame@ =~= old(frame)@ + seq![
            (((if mask_bit {
                128int
            } else {
                0int
            }) + len_code(n as nat)) as u8),
        ] + ext_len_bytes(n as nat));
    }
}

/// Append the length field of an unmasked frame: the variant the
/// payload length selects, the 16-bit or 64-bit extension big-endian.
pub fn encode_length(payload_bytes: &[u8], frame: &mut Vec<u8>)
    requires
        payload_bytes@.len() < 0x8000000000000000,
    ensures
        final(frame)@ == old(frame)@ + seq![len_code(payload_bytes@.len())] + ext_len_bytes(
            payload_bytes@.len(),
        ),
{
    push_len_field(payload_bytes.len(), false, frame);
}

/// Append the payload bytes unchanged.
pub fn add_payload(frame: &mut Vec<u8>, payload_bytes: &[u8])
    ensures
        final(frame)@ == old(frame)@ + payload_bytes@,
{
    frame.extend_from_slice(payload_bytes);
}

/// Serialize a well-formed frame to its wire bytes, masking the payload
/// iff the frame carries a masking key.
pub fn encode_frame(f: &Frame) -> (r: Vec<u8>)
    requires
        frame_wf(f@),
    ensures
        r@ == frame_bytes(f@),
{
    proof {
        lemma_opcode_nibble_inverse(f@.opcode);
    }
    let mut out: Vec<u8> = Vec::new();
    let nibble = opcode_to_nibble(&f.opcode);
    let b0: u8 = if f.fin {
        128 + nibble
    } else {
        nibble
    };
    out.push(b0);
    let masked = match &f.mask {
        Option::Some(_) => true,
        Option::None => false,
    };
    push_len_field(f.payload.len(), masked, &mut out);
    match &f.mask {
        Option::Some(key) => {
            add_payload(&mut out, key.as_slice());
            let body = unmask_payload(f.payload.as_slice(), key.as_slice());
            add_payload(&mut out, body.as_slice());
        },
        Option::None => {
            add_payload(&mut out, f.payload.as_slice());
        },
    }
    proof {
        assert(out@ =~= frame_bytes(f@));
    }
    out
}

} // verus!
