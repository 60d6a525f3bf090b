use vstd::prelude::*;

verus! {

/// Which endpoint of the connection this side is. A client masks every
/// frame it sends and expects unmasked frames back; a server expects
/// masked frames and sends unmasked ones.
#[derive(Debug, Clone, Copy, PartialEq, Eq, Structural)]
pub enum Role {
    Client,
    Server,
}

/// The opcode nibble of a frame header.
#[derive(Debug, Clone, Copy, PartialEq, Eq, Structural)]
pub enum Opcode {
    Continuation,
    Text,
    Binary,
    Close,
    Ping,
    Pong,
    /// One of the nibbles RFC 6455 keeps reserved: 3 to 7 and 11 to 15.
    Reserved(u8),
}

/// The wire value of an opcode.
pub open spec fn opcode_nibble(op: Opcode) -> u8 {
    match op {
        Opcode::Continuation => 0,
        Opcode::Text => 1,
        Opcode::Binary => 2,
        Opcode::Close => 8,
        Opcode::Ping => 9,
        Opcode::Pong => 10,
        Opcode::Reserved(n) => n,
    }
}

/// A `Reserved` value may only carry a nibble that none of the named
/// opcodes already owns.
pub open spec fn opcode_wf(op: Opcode) -> bool {
    match op {
        Opcode::Reserved(n) => n < 16 && n != 0 && n != 1 && n != 2 && n != 8 && n != 9 && n
            != 10,
        _ => true,
    }
}

/// The opcode a nibble denotes.
pub open spec fn spec_opcode_of_nibble(n: u8) -> Opcode {
    if n == 0 {
        Opcode::Continuation
    } else if n == 1 {
        Opcode::Text
    } else if n == 2 {
        Opcode::Binary
    } else if n == 8 {
        Opcode::Close
    } else if n == 9 {
        Opcode::Ping
    } else if n == 10 {
        Opcode::Pong
    } else {
        Opcode::Reserved(n)
    }
}

pub open spec fn is_control(op: Opcode) -> bool {
    op is Close || op is Ping || op is Pong
}

/// The two nibble maps invert one another on well-formed opcodes.
pub proof fn lemma_opcode_nibble_inverse(op: Opcode)
    requires
        opcode_wf(op),
    ensures
        spec_opcode_of_nibble(opcode_nibble(op)) == op,
        opcode_nibble(op) < 16,
{
}

/// The two nibble maps invert one another on in-range nibbles.
pub proof fn lemma_nibble_opcode_inverse(n: u8)
    requires
        n < 16,
    ensures
        opcode_nibble(spec_opcode_of_nibble(n)) == n,
        opcode_wf(spec_opcode_of_nibble(n)),
{
}

/// The opcode held in the low four bits of a frame's first byte.
pub fn get_opcode(byte: u8) -> (op: Opcode)
    ensures
        op == spec_opcode_of_nibble(byte % 16),
        opcode_wf(op),
{
    let nibble = byte % 16;
    match nibble {
        0 => Opcode::Continuation,
        1 => Opcode::Text,
        2 => Opcode::Binary,
        8 => Opcode::Close,
        9 => Opcode::Ping,
        10 => Opcode::Pong,
        _ => Opcode::Reserved(nibble),
    }
}

/// The wire nibble of an opcode.
pub fn opcode_to_nibble(op: &Opcode) -> (n: u8)
    ensures
        n == opcode_nibble(*op),
{
    match op {
        Opcode::Continuation => 0,
        Opcode::Text => 1,
        Opcode::Binary => 2,
        Opcode::Close => 8,
        Opcode::Ping => 9,
        Opcode::Pong => 10,
        Opcode::Reserved(n) => *n,
    }
}

/// The mathematical image of a frame: logical fields with the payload
/// already unmasked.
#[verifier::ext_equal]
pub struct SpecFrame {
    pub fin: bool,
    pub opcode: Opcode,
    pub mask: Option<Seq<u8>>,
    pub payload: Seq<u8>,
}

/// A decoded frame. `payload` holds the unmasked bytes; `mask` records
/// the four-byte masking key a masked frame arrived with, or is used to
/// mask an outgoing one.
pub struct Frame {
    pub fin: bool,
    pub opcode: Opcode,
    pub mask: Option<Vec<u8>>,
    pub payload: Vec<u8>,
}

impl View for Frame {
    type V = SpecFrame;

    open spec fn view(&self) -> SpecFrame {
        SpecFrame {
            fin: self.fin,
            opcode: self.opcode,
            mask: match self.mask {
                Option::Some(k) => Option::Some(k@),
                Option::None => Option::None,
            },
            payload: self.payload@,
        }
    }
}

/// Well-formedness of a frame: a legal opcode, a payload length the
/// 63-bit length field can carry, a four-byte key if any, and the
/// control-frame limits (no fragmentation, at most 125 payload bytes).
pub open spec fn frame_wf(f: SpecFrame) -> bool {
    &&& opcode_wf(f.opcode)
    &&& f.payload.len() < 0x8000000000000000
    &&& (f.mask matches Some(k) ==> k.len() == 4)
    &&& (is_control(f.opcode) ==> f.fin && f.payload.len() <= 125)
}

/// The value of byte 1's low seven bits for a payload of `n` bytes:
/// the length itself, or the marker for a 16-bit or 64-bit field.
pub open spec fn len_code(n: nat) -> u8 {
    if n < 126 {
        n as u8
    } else if n <= 0xFFFF {
        126
    } else {
        127
    }
}

/// A 16-bit value as two big-endian bytes.
pub open spec fn be2(n: nat) -> Seq<u8> {
    seq![(n / 0x100 % 0x100) as u8, (n % 0x100) as u8]
}

/// A 64-bit value as eight big-endian bytes.
pub open spec fn be8(n: nat) -> Seq<u8> {
    seq![
        (n / 0x100000000000000 % 0x100) as u8,
        (n / 0x1000000000000 % 0x100) as u8,
        (n / 0x10000000000 % 0x100) as u8,
        (n / 0x100000000 % 0x100) as u8,
        (n / 0x1000000 % 0x100) as u8,
        (n / 0x10000 % 0x100) as u8,
        (n / 0x100 % 0x100) as u8,
        (n % 0x100) as u8,
    ]
}

/// The value of two big-endian bytes.
pub open spec fn be2_val(b: Seq<u8>) -> nat
    recommends
        b.len() == 2,
{
    (b[0] * 0x100 + b[1]) as nat
}

/// The value of eight big-endian bytes.
pub open spec fn be8_val(b: Seq<u8>) -> nat
    recommends
        b.len() == 8,
{
    (b[0] * 0x100000000000000 + b[1] * 0x1000000000000 + b[2] * 0x10000000000 + b[3] * 0x100000000
        + b[4] * 0x1000000 + b[5] * 0x10000 + b[6] * 0x100 + b[7]) as nat
}

/// The extended length bytes that follow the two header bytes.
pub open spec fn ext_len_bytes(n: nat) -> Seq<u8> {
    if n < 126 {
        Seq::empty()
    } else if n <= 0xFFFF {
        be2(n)
    } else {
        be8(n)
    }
}

/// XOR of every payload byte with the key byte at its index modulo 4.
/// Applying it twice with one key restores the payload.
pub open spec fn masked_bytes(p: Seq<u8>, k: Seq<u8>) -> Seq<u8>
    recommends
        k.len() == 4,
{
    Seq::new(p.len(), |i: int| p[i] ^ k[i % 4])
}

/// The wire bytes of a frame: two header bytes, the extended length
/// field if the payload asks for one, the masking key if the frame is
/// masked, then the payload, masked iff a key is present.
pub open spec fn frame_bytes(f: SpecFrame) -> Seq<u8> {
    let b0 = ((if f.fin {
        128int
    } else {
        0int
    }) + opcode_nibble(f.opcode)) as u8;
    let b1 = ((if f.mask is Some {
        128int
    } else {
        0int
    }) + len_code(f.payload.len())) as u8;
    let key_part = match f.mask {
        Option::Some(k) => k,
        Option::None => Seq::empty(),
    };
    let body = match f.mask {
        Option::Some(k) => masked_bytes(f.payload, k),
        Option::None => f.payload,
    };
    seq![b0, b1] + ext_len_bytes(f.payload.len()) + key_part + body
}

/// Reading two big-endian bytes back gives the encoded value.
pub proof fn lemma_be2_inverse(n: nat)
    requires
        n <= 0xFFFF,
    ensures
        be2_val(be2(n)) == n,
{
    vstd::arithmetic::div_mod::lemma_fundamental_div_mod(n as int, 0x100);
}

/// Reading eight big-endian bytes back gives the encoded value.
pub proof fn lemma_be8_inverse(n: nat)
    requires
        n < 0x10000000000000000,
    ensures
        be8_val(be8(n)) == n,
{
    let q1 = n as int / 0x100;
    let q2 = n as int / 0x10000;
    let q3 = n as int / 0x1000000;
    let q4 = n as int / 0x100000000;
    let q5 = n as int / 0x10000000000;
    let q6 = n as int / 0x1000000000000;
    let q7 = n as int / 0x100000000000000;
    vstd::arithmetic::div_mod::lemma_div_denominator(n as int, 0x100, 0x100);
    vstd::arithmetic::div_mod::lemma_div_denominator(n as int, 0x10000, 0x100);
    vstd::arithmetic::div_mod::lemma_div_denominator(n as int, 0x1000000, 0x100);
    vstd::arithmetic::div_mod::lemma_div_denominator(n as int, 0x100000000, 0x100);
    vstd::arithmetic::div_mod::lemma_div_denominator(n as int, 0x10000000000, 0x100);
    vstd::arithmetic::div_mod::lemma_div_denominator(n as int, 0x1000000000000, 0x100);
    vstd::arithmetic::div_mod::lemma_fundamental_div_mod(n as int, 0x100);
    vstd::arithmetic::div_mod::lemma_fundamental_div_mod(q1, 0x100);
    vstd::arithmetic::div_mod::lemma_fundamental_div_mod(q2, 0x100);
    vstd::arithmetic::div_mod::lemma_fundamental_div_mod(q3, 0x100);
    vstd::arithmetic::div_mod::lemma_fundamental_div_mod(q4, 0x100);
    vstd::arithmetic::div_mod::lemma_fundamental_div_mod(q5, 0x100);
    vstd::arithmetic::div_mod::lemma_fundamental_div_mod(q6, 0x100);
    vstd::arithmetic::div_mod::lemma_fundamental_div_mod(q7, 0x100);
    assert(q7 < 0x100) by {
        vstd::arithmetic::div_mod::lemma_multiply_divide_lt(
            n as int,
            0x100,
            0x100000000000000,
        );
    }
    vstd::arithmetic::div_mod::lemma_small_mod(q7 as nat, 0x100);
}

/// The leading length byte of a payload the length field can carry
/// keeps its high bit clear.
pub proof fn lemma_be8_high_bit(n: nat)
    requires
        n < 0x8000000000000000,
    ensures
        be8(n)[0] < 128,
{
    assert(n as int / 0x100000000000000 < 0x80) by {
        vstd::arithmetic::div_mod::lemma_multiply_divide_lt(
            n as int,
            0x80,
            0x100000000000000,
        );
    }
    vstd::arithmetic::div_mod::lemma_small_mod(
        (n as int / 0x100000000000000) as nat,
        0x100,
    );
}

/// XOR a payload with a four-byte masking key. The same operation both
/// masks and unmasks, byte `i` against key byte `i % 4`.
pub fn unmask_payload(payload: &[u8], mask: &[u8]) -> (r: Vec<u8>)
    requires
        mask@.len() == 4,
    ensures
        r@ == masked_bytes(payload@, mask@),
{
    let mut out: Vec<u8> = Vec::new();
    let mut i: usize = 0;
    while i < payload.len()
        invariant
            mask@.len() == 4,
            i <= payload@.len(),
            out@.len() == i,
            forall|j: int| 0 <= j < i ==> out@[j] == payload@[j] ^ mask@[j % 4],
        decreases payload@.len() - i,
    {
        let b = payload[i] ^ mask[i % 4];
        out.push(b);
        i += 1;
    }
    proof {
        assert(out@ =~= masked_bytes(payload@, mask@));
    }
    out
}

/// Masking is an involution: masking twice with one key gives the
/// payload back.
pub proof fn lemma_mask_involution(p: Seq<u8>, k: Seq<u8>)
    requires
        k.len() == 4,
    ensures
        masked_bytes(masked_bytes(p, k), k) == p,
{
    assert forall|i: int| 0 <= i < p.len() implies masked_bytes(masked_bytes(p, k), k)[i] == p[i] by {
        let x = p[i];
        let y = k[i % 4];
        assert((x ^ y) ^ y == x) by (bit_vector);
    }
    assert(masked_bytes(masked_bytes(p, k), k) =~= p);
}

} // verus!
