use vstd::prelude::*;

use crate::addr::WorkerAddr;
use crate::controller::{CoordinationMessage, CoordinationPayload};

verus! {

pub const TAG_REGISTER: u8 = 0;

pub const TAG_HEARTBEAT: u8 = 1;

pub const TAG_EXTENSION: u8 = 2;

/// The six bytes an address occupies on the wire: the four octets in
/// order, then the port big-endian.
pub open spec fn addr_bytes(a: WorkerAddr) -> Seq<u8> {
    seq![a.oct0, a.oct1, a.oct2, a.oct3, (a.port / 256) as u8, (a.port % 256) as u8]
}

/// The tag byte of each payload variant.
pub open spec fn payload_tag(p: CoordinationPayload) -> u8 {
    match p {
        CoordinationPayload::Register(_) => TAG_REGISTER,
        CoordinationPayload::Heartbeat => TAG_HEARTBEAT,
        CoordinationPayload::Extension => TAG_EXTENSION,
    }
}

/// The wire form of a coordination message: the source address, one tag
/// byte, then — for a registration — the callback address.
pub open spec fn msg_bytes(m: CoordinationMessage) -> Seq<u8> {
    match m.payload {
        CoordinationPayload::Register(cb) => addr_bytes(m.source) + seq![TAG_REGISTER]
            + addr_bytes(cb),
        CoordinationPayload::Heartbeat => addr_bytes(m.source) + seq![TAG_HEARTBEAT],
        CoordinationPayload::Extension => addr_bytes(m.source) + seq![TAG_EXTENSION],
    }
}

proof fn lemma_msg_bytes_shape(m: CoordinationMessage)
    ensures
        msg_bytes(m).len() == if m.payload is Register {
            13int
        } else {
            7int
        },
        msg_bytes(m)[6] == payload_tag(m.payload),
        msg_bytes(m).subrange(0, 6) == addr_bytes(m.source),
        m.payload matches CoordinationPayload::Register(cb) ==> msg_bytes(m).subrange(7, 13)
            == addr_bytes(cb),
{
    match m.payload {
        CoordinationPayload::Register(cb) => {
            assert(msg_bytes(m).subrange(0, 6) =~= addr_bytes(m.source));
            assert(msg_bytes(m).subrange(7, 13) =~= addr_bytes(cb));
        },
        CoordinationPayload::Heartbeat => {
            assert(msg_bytes(m).subrange(0, 6) =~= addr_bytes(m.source));
        },
        CoordinationPayload::Extension => {
            assert(msg_bytes(m).subrange(0, 6) =~= addr_bytes(m.source));
        },
    }
}

/// Law: an address has exactly one wire form.  Equal address bytes mean
/// equal addresses, so decoding loses nothing.
pub proof fn lemma_addr_bytes_injective(a1: WorkerAddr, a2: WorkerAddr)
    ensures
        addr_bytes(a1) == addr_bytes(a2) ==> a1 == a2,
{
    if addr_bytes(a1) == addr_bytes(a2) {
        assert(addr_bytes(a1)[0] == addr_bytes(a2)[0]);
        assert(addr_bytes(a1)[1] == addr_bytes(a2)[1]);
        assert(addr_bytes(a1)[2] == addr_bytes(a2)[2]);
        assert(addr_bytes(a1)[3] == addr_bytes(a2)[3]);
        assert(addr_bytes(a1)[4] == addr_bytes(a2)[4]);
        assert(addr_bytes(a1)[5] == addr_bytes(a2)[5]);
        assert(a1.port == 256 * (a1.port as int / 256) + a1.port as int % 256) by (nonlinear_arith);
        assert(a2.port == 256 * (a2.port as int / 256) + a2.port as int % 256) by (nonlinear_arith);
    }
}

/// Law: the wire form is unambiguous — two messages with the same bytes
/// are the same message.  Together with the contracts of [`encode`] and
/// [`decode`], this makes the codec an exact round trip: decoding what was
/// encoded yields the original message, addresses included.
pub proof fn lemma_msg_bytes_injective(m1: CoordinationMessage, m2: CoordinationMessage)
    ensures
        msg_bytes(m1) == msg_bytes(m2) ==> m1 == m2,
{
    if msg_bytes(m1) == msg_bytes(m2) {
        lemma_msg_bytes_shape(m1);
        lemma_msg_bytes_shape(m2);
        lemma_addr_bytes_injective(m1.source, m2.source);
        match m1.payload {
            CoordinationPayload::Register(cb1) => {
                match m2.payload {
                    CoordinationPayload::Register(cb2) => {
                        lemma_addr_bytes_injective(cb1, cb2);
                    },
                    _ => {},
                }
            },
            _ => {},
        }
    }
}

/// How many bytes a frame whose tag byte is `tag` occupies on the wire —
/// so a reader that has the first seven bytes of a frame knows how many
/// more to wait for — or `None` when no message carries that tag.
pub fn frame_len(tag: u8) -> (r: Option<usize>)
    ensures
        forall|m: CoordinationMessage|
            #[trigger] payload_tag(m.payload) == tag ==> r == Some(msg_bytes(m).len() as usize),
        r is None ==> forall|m: CoordinationMessage| #[trigger] payload_tag(m.payload) != tag,
{
    let r = if tag == TAG_REGISTER {
        Some(13)
    } else if tag == TAG_HEARTBEAT || tag == TAG_EXTENSION {
        Some(7)
    } else {
        None
    };
    proof {
        assert forall|m: CoordinationMessage| #[trigger] payload_tag(m.payload) == tag implies r
            == Some(msg_bytes(m).len() as usize) by {
            lemma_msg_bytes_shape(m);
        }
    }
    r
}

fn push_addr(out: &mut Vec<u8>, a: WorkerAddr)
    ensures
        final(out)@ == old(out)@ + addr_bytes(a),
{
    out.push(a.oct0);
    out.push(a.oct1);
    out.push(a.oct2);
    out.push(a.oct3);
    out.push((a.port / 256) as u8);
    out.push((a.port % 256) as u8);
    proof {
        assert(out@ =~= old(out)@ + addr_bytes(a));
    }
}

/// Encode a coordination message for the wire.
pub fn encode(msg: &CoordinationMessage) -> (out: Vec<u8>)
    ensures
        out@ == msg_bytes(*msg),
{
    let mut out: Vec<u8> = Vec::new();
    push_addr(&mut out, msg.source);
    match msg.payload {
        CoordinationPayload::Register(cb) => {
            out.push(TAG_REGISTER);
            push_addr(&mut out, cb);
        },
        CoordinationPayload::Heartbeat => {
            out.push(TAG_HEARTBEAT);
        },
        CoordinationPayload::Extension => {
            out.push(TAG_EXTENSION);
        },
    }
    proof {
        assert(out@ =~= msg_bytes(*msg));
    }
    out
}

fn read_addr(b: &Vec<u8>, off: usize) -> (a: WorkerAddr)
    requires
        off + 6 <= b@.len(),
    ensures
        addr_bytes(a) == b@.subrange(off as int, off as int + 6),
{
    // the length call bounds b@.len() by usize::MAX, so off + 5 cannot overflow
    let _n: usize = b.len();
    let hi = b[off + 4];
    let lo = b[off + 5];
    let port: u16 = (hi as u16) * 256 + (lo as u16);
    proof {
        assert(port as int / 256 == hi as int && port as int % 256 == lo as int)
            by (nonlinear_arith)
            requires
                port == hi as int * 256 + lo as int,
                0 <= hi < 256,
                0 <= lo < 256,
        ;
    }
    let a = WorkerAddr { oct0: b[off], oct1: b[off + 1], oct2: b[off + 2], oct3: b[off + 3], port };
    proof {
        assert(addr_bytes(a) =~= b@.subrange(off as int, off as int + 6));
    }
    a
}

/// Decode one coordination message from the wire.
///
/// `Some(m)` comes back exactly when the bytes are the wire form of some
/// message — and then of `m` itself; anything else (short, long, or an
/// unknown tag) is `None`.
pub fn decode(b: &Vec<u8>) -> (r: Option<CoordinationMessage>)
    ensures
        r matches Some(m) ==> b@ == msg_bytes(m),
        r is None ==> forall|m: CoordinationMessage| b@ != msg_bytes(m),
{
    if b.len() != 7 && b.len() != 13 {
        proof {
            assert forall|m: CoordinationMessage| b@ != msg_bytes(m) by {
                lemma_msg_bytes_shape(m);
            }
        }
        return None;
    }
    let source = read_addr(b, 0);
    let tag = b[6];
    if tag == TAG_REGISTER && b.len() == 13 {
        let cb = read_addr(b, 7);
        let m = CoordinationMessage { source, payload: CoordinationPayload::Register(cb) };
        proof {
            lemma_msg_bytes_shape(m);
            assert forall|i: int| 0 <= i < 13 implies b@[i] == msg_bytes(m)[i] by {
                if i < 6 {
                    assert(b@.subrange(0, 6)[i] == b@[i]);
                    assert(msg_bytes(m).subrange(0, 6)[i] == msg_bytes(m)[i]);
                } else if i >= 7 {
                    assert(b@.subrange(7, 13)[i - 7] == b@[i]);
                    assert(msg_bytes(m).subrange(7, 13)[i - 7] == msg_bytes(m)[i]);
                }
            }
            assert(b@ =~= msg_bytes(m));
        }
        Some(m)
    } else if tag == TAG_HEARTBEAT && b.len() == 7 {
        let m = CoordinationMessage { source, payload: CoordinationPayload::Heartbeat };
        proof {
            lemma_msg_bytes_shape(m);
            assert forall|i: int| 0 <= i < 7 implies b@[i] == msg_bytes(m)[i] by {
                if i < 6 {
                    assert(b@.subrange(0, 6)[i] == b@[i]);
                    assert(msg_bytes(m).subrange(0, 6)[i] == msg_bytes(m)[i]);
                }
            }
            assert(b@ =~= msg_bytes(m));
        }
        Some(m)
    } else if tag == TAG_EXTENSION && b.len() == 7 {
        let m = CoordinationMessage { source, payload: CoordinationPayload::Extension };
        proof {
            lemma_msg_bytes_shape(m);
            assert forall|i: int| 0 <= i < 7 implies b@[i] == msg_bytes(m)[i] by {
                if i < 6 {
                    assert(b@.subrange(0, 6)[i] == b@[i]);
                    assert(msg_bytes(m).subrange(0, 6)[i] == msg_bytes(m)[i]);
                }
            }
            assert(b@ =~= msg_bytes(m));
        }
        Some(m)
    } else {
        proof {
            assert forall|m: CoordinationMessage| b@ != msg_bytes(m) by {
                lemma_msg_bytes_shape(m);
                if b@ == msg_bytes(m) {
                    assert(payload_tag(m.payload) == tag);
                }
            }
        }
        None
    }
}

} // verus!
