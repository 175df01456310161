//! Wire codecs for the per-packet and per-fragment headers.
//!
//! Both headers open with a one-byte prefix whose low bit tells them apart:
//! bit 0 clear means a regular packet header, bit 0 set means a fragment
//! header. The packet header is variable length (3 to 9 bytes): prefix bit 5
//! elides the ack field when it equals `sequence - 1`, and prefix bits 1
//! through 4 each flag one byte of `ack_bits` as present, an absent byte
//! being zero. The fragment header is 5 bytes — prefix, sequence
//! (little-endian), fragment id, fragment count minus one — followed, on
//! fragment zero only, by the full packet header of the outer packet.

use vstd::prelude::*;

use crate::error::ReliableError;
use crate::sequence::sequence_sub;
use crate::sequence::spec_sequence_sub;

verus! {

/// Low byte of a 16-bit value.
pub open spec fn spec_u16_lo(x: u16) -> u8 {
    (x & 0xFF) as u8
}

/// High byte of a 16-bit value.
pub open spec fn spec_u16_hi(x: u16) -> u8 {
    (x >> 8) as u8
}

/// A 16-bit value from its little-endian bytes.
pub open spec fn spec_u16_of_bytes(lo: u8, hi: u8) -> u16 {
    (lo as u16) | ((hi as u16) << 8)
}

/// Byte `0` (lowest) of a 32-bit value.
pub open spec fn spec_u32_byte0(x: u32) -> u8 {
    (x & 0xFF) as u8
}

/// Byte `1` of a 32-bit value.
pub open spec fn spec_u32_byte1(x: u32) -> u8 {
    ((x >> 8) & 0xFF) as u8
}

/// Byte `2` of a 32-bit value.
pub open spec fn spec_u32_byte2(x: u32) -> u8 {
    ((x >> 16) & 0xFF) as u8
}

/// Byte `3` (highest) of a 32-bit value.
pub open spec fn spec_u32_byte3(x: u32) -> u8 {
    (x >> 24) as u8
}

/// Splitting a 16-bit value into bytes and rejoining them restores it,
/// and each piece fits a byte.
pub proof fn lemma_u16_bytes(x: u16)
    by (bit_vector)
    ensures
        spec_u16_of_bytes(spec_u16_lo(x), spec_u16_hi(x)) == x,
        x & 0xFF < 256,
        x >> 8 < 256,
{
}

/// Splitting a 32-bit value into bytes and rejoining them restores it,
/// and each piece fits a byte.
pub proof fn lemma_u32_bytes(x: u32)
    by (bit_vector)
    ensures
        (spec_u32_byte0(x) as u32) | ((spec_u32_byte1(x) as u32) << 8) | ((spec_u32_byte2(
            x,
        ) as u32) << 16) | ((spec_u32_byte3(x) as u32) << 24) == x,
        x & 0xFF < 256,
        (x >> 8) & 0xFF < 256,
        (x >> 16) & 0xFF < 256,
        x >> 24 < 256,
{
}

/// The packet-header prefix byte built from its five flags reads back
/// flag by flag, and its low bit is clear.
pub proof fn lemma_prefix_bits(b1: bool, b2: bool, b3: bool, b4: bool, b5: bool)
    by (bit_vector)
    ensures
        ({
            let p = (if b1 {
                2u8
            } else {
                0u8
            }) | (if b2 {
                4u8
            } else {
                0u8
            }) | (if b3 {
                8u8
            } else {
                0u8
            }) | (if b4 {
                16u8
            } else {
                0u8
            }) | (if b5 {
                32u8
            } else {
                0u8
            });
            &&& p & 1 == 0
            &&& ((p & 2 != 0) <==> b1)
            &&& ((p & 4 != 0) <==> b2)
            &&& ((p & 8 != 0) <==> b3)
            &&& ((p & 16 != 0) <==> b4)
            &&& ((p & 32 != 0) <==> b5)
        }),
{
}

/// Per-packet metadata: this packet's sequence, plus the receive-side
/// feedback (`ack`, `ack_bits`) it carries back to the peer.
#[derive(Clone, Copy, Debug, PartialEq, Eq, Structural)]
pub struct PacketHeader {
    /// Sequence number of the packet this header starts.
    pub sequence: u16,
    /// Most recent sequence received from the peer.
    pub ack: u16,
    /// Bit `i` acknowledges sequence `ack - i`.
    pub ack_bits: u32,
}

impl PacketHeader {
    /// A header with the given fields.
    pub fn new(sequence: u16, ack: u16, ack_bits: u32) -> (r: Self)
        ensures
            r == (PacketHeader { sequence, ack, ack_bits }),
    {
        PacketHeader { sequence, ack, ack_bits }
    }

    /// Sequence number of the packet this header starts.
    pub fn sequence(&self) -> (r: u16)
        ensures
            r == self.sequence,
    {
        self.sequence
    }

    /// Most recent sequence received from the peer.
    pub fn ack(&self) -> (r: u16)
        ensures
            r == self.ack,
    {
        self.ack
    }

    /// Bit `i` acknowledges sequence `ack - i`.
    pub fn ack_bits(&self) -> (r: u32)
        ensures
            r == self.ack_bits,
    {
        self.ack_bits
    }

    /// The ack field is elided on the wire: it is inferable as
    /// `sequence - 1`.
    pub open spec fn spec_ack_elided(self) -> bool {
        self.ack == spec_sequence_sub(self.sequence, 1)
    }

    /// The prefix byte this header writes.
    pub open spec fn spec_prefix(self) -> u8 {
        (if spec_u32_byte0(self.ack_bits) != 0 {
            2u8
        } else {
            0u8
        }) | (if spec_u32_byte1(self.ack_bits) != 0 {
            4u8
        } else {
            0u8
        }) | (if spec_u32_byte2(self.ack_bits) != 0 {
            8u8
        } else {
            0u8
        }) | (if spec_u32_byte3(self.ack_bits) != 0 {
            16u8
        } else {
            0u8
        }) | (if self.spec_ack_elided() {
            32u8
        } else {
            0u8
        })
    }

    /// The exact bytes this header writes: prefix, sequence, then the ack
    /// unless elided, then each non-zero `ack_bits` byte low to high.
    pub open spec fn spec_write(self) -> Seq<u8> {
        let head = seq![
            self.spec_prefix(),
            spec_u16_lo(self.sequence),
            spec_u16_hi(self.sequence),
        ];
        let with_ack = if self.spec_ack_elided() {
            head
        } else {
            head + seq![spec_u16_lo(self.ack), spec_u16_hi(self.ack)]
        };
        let w1 = if spec_u32_byte0(self.ack_bits) != 0 {
            with_ack + seq![spec_u32_byte0(self.ack_bits)]
        } else {
            with_ack
        };
        let w2 = if spec_u32_byte1(self.ack_bits) != 0 {
            w1 + seq![spec_u32_byte1(self.ack_bits)]
        } else {
            w1
        };
        let w3 = if spec_u32_byte2(self.ack_bits) != 0 {
            w2 + seq![spec_u32_byte2(self.ack_bits)]
        } else {
            w2
        };
        if spec_u32_byte3(self.ack_bits) != 0 {
            w3 + seq![spec_u32_byte3(self.ack_bits)]
        } else {
            w3
        }
    }

    /// What parsing a byte sequence as a packet header yields: the header
    /// and how many bytes it occupied, or nothing when the input is not a
    /// packet header or is too short.
    pub open spec fn spec_parse(data: Seq<u8>) -> Option<(PacketHeader, int)> {
        if data.len() < 3 {
            None
        } else {
            let p = data[0];
            if p & 1 != 0 {
                None
            } else {
                let n = 3 + (if p & 32 != 0 {
                    0int
                } else {
                    2int
                }) + (if p & 2 != 0 {
                    1int
                } else {
                    0int
                }) + (if p & 4 != 0 {
                    1int
                } else {
                    0int
                }) + (if p & 8 != 0 {
                    1int
                } else {
                    0int
                }) + (if p & 16 != 0 {
                    1int
                } else {
                    0int
                });
                if data.len() < n {
                    None
                } else {
                    let sequence = spec_u16_of_bytes(data[1], data[2]);
                    let (ack, o0) = if p & 32 != 0 {
                        (spec_sequence_sub(sequence, 1), 3int)
                    } else {
                        (spec_u16_of_bytes(data[3], data[4]), 5int)
                    };
                    let (bits0, o1) = if p & 2 != 0 {
                        (data[o0] as u32, o0 + 1)
                    } else {
                        (0u32, o0)
                    };
                    let (bits1, o2) = if p & 4 != 0 {
                        (bits0 | ((data[o1] as u32) << 8), o1 + 1)
                    } else {
                        (bits0, o1)
                    };
                    let (bits2, o3) = if p & 8 != 0 {
                        (bits1 | ((data[o2] as u32) << 16), o2 + 1)
                    } else {
                        (bits1, o2)
                    };
                    let (bits3, o4) = if p & 16 != 0 {
                        (bits2 | ((data[o3] as u32) << 24), o3 + 1)
                    } else {
                        (bits2, o3)
                    };
                    Some((PacketHeader { sequence, ack, ack_bits: bits3 }, o4))
                }
            }
        }
    }

    /// Bytes `write` will produce, without writing them.
    pub fn size(&self) -> (r: usize)
        ensures
            r == self.spec_write().len(),
    {
        proof {
            lemma_u32_bytes(self.ack_bits);
        }
        let mut n: usize = 3;
        if !(self.ack == sequence_sub(self.sequence, 1)) {
            n += 2;
        }
        if (self.ack_bits & 0xFF) as u8 != 0 {
            n += 1;
        }
        if ((self.ack_bits >> 8) & 0xFF) as u8 != 0 {
            n += 1;
        }
        if ((self.ack_bits >> 16) & 0xFF) as u8 != 0 {
            n += 1;
        }
        if (self.ack_bits >> 24) as u8 != 0 {
            n += 1;
        }
        n
    }

    /// Appends this header's wire bytes to `out`.
    pub fn write(&self, out: &mut Vec<u8>)
        ensures
            final(out)@ == old(out)@ + self.spec_write(),
    {
        proof {
            lemma_u16_bytes(self.sequence);
            lemma_u16_bytes(self.ack);
            lemma_u32_bytes(self.ack_bits);
        }
        let b0 = (self.ack_bits & 0xFF) as u8;
        let b1 = ((self.ack_bits >> 8) & 0xFF) as u8;
        let b2 = ((self.ack_bits >> 16) & 0xFF) as u8;
        let b3 = (self.ack_bits >> 24) as u8;
        let elided = self.ack == sequence_sub(self.sequence, 1);
        let prefix: u8 = (if b0 != 0 {
            2u8
        } else {
            0u8
        }) | (if b1 != 0 {
            4u8
        } else {
            0u8
        }) | (if b2 != 0 {
            8u8
        } else {
            0u8
        }) | (if b3 != 0 {
            16u8
        } else {
            0u8
        }) | (if elided {
            32u8
        } else {
            0u8
        });
        out.push(prefix);
        out.push((self.sequence & 0xFF) as u8);
        out.push((self.sequence >> 8) as u8);
        if !elided {
            out.push((self.ack & 0xFF) as u8);
            out.push((self.ack >> 8) as u8);
        }
        if b0 != 0 {
            out.push(b0);
        }
        if b1 != 0 {
            out.push(b1);
        }
        if b2 != 0 {
            out.push(b2);
        }
        if b3 != 0 {
            out.push(b3);
        }
        proof {
            assert(out@ =~= old(out)@ + self.spec_write());
        }
    }

    /// Reads a packet header from the front of `data`; returns the header
    /// and the bytes consumed, or `InvalidHeader` when `data` does not
    /// start with a complete packet header.
    pub fn parse(data: &[u8]) -> (r: Result<(PacketHeader, usize), ReliableError>)
        ensures
            r is Ok <==> Self::spec_parse(data@) is Some,
            r is Ok ==> Self::spec_parse(data@).unwrap().0 == r.unwrap().0 && Self::spec_parse(
                data@,
            ).unwrap().1 == r.unwrap().1 as int,
            r is Ok ==> r.unwrap().1 as int <= data@.len(),
            r is Err ==> r == Err::<(PacketHeader, usize), ReliableError>(
                ReliableError::InvalidHeader,
            ),
    {
        if data.len() < 3 {
            return Err(ReliableError::InvalidHeader);
        }
        let prefix = data[0];
        if prefix & 1 != 0 {
            return Err(ReliableError::InvalidHeader);
        }
        let mut n: usize = 3;
        if prefix & 32 == 0 {
            n += 2;
        }
        if prefix & 2 != 0 {
            n += 1;
        }
        if prefix & 4 != 0 {
            n += 1;
        }
        if prefix & 8 != 0 {
            n += 1;
        }
        if prefix & 16 != 0 {
            n += 1;
        }
        if data.len() < n {
            return Err(ReliableError::InvalidHeader);
        }
        let sequence = (data[1] as u16) | ((data[2] as u16) << 8);
        let mut offset: usize = 3;
        let ack: u16;
        if prefix & 32 != 0 {
            ack = sequence_sub(sequence, 1);
        } else {
            ack = (data[3] as u16) | ((data[4] as u16) << 8);
            offset = 5;
        }
        let mut ack_bits: u32 = 0;
        if prefix & 2 != 0 {
            ack_bits = data[offset] as u32;
            offset += 1;
        }
        if prefix & 4 != 0 {
            ack_bits = ack_bits | ((data[offset] as u32) << 8);
            offset += 1;
        }
        if prefix & 8 != 0 {
            ack_bits = ack_bits | ((data[offset] as u32) << 16);
            offset += 1;
        }
        if prefix & 16 != 0 {
            ack_bits = ack_bits | ((data[offset] as u32) << 24);
            offset += 1;
        }
        Ok((PacketHeader { sequence, ack, ack_bits }, offset))
    }
}

/// The four `ack_bits` bytes, OR-ed back together in the way the parser
/// does — skipping the zero bytes — restore the original word.
pub proof fn lemma_u32_bytes_reassemble(x: u32)
    by (bit_vector)
    ensures
        ({
            let b0 = spec_u32_byte0(x);
            let b1 = spec_u32_byte1(x);
            let b2 = spec_u32_byte2(x);
            let b3 = spec_u32_byte3(x);
            let t0 = if b0 != 0 {
                b0 as u32
            } else {
                0u32
            };
            let t1 = if b1 != 0 {
                t0 | ((b1 as u32) << 8)
            } else {
                t0
            };
            let t2 = if b2 != 0 {
                t1 | ((b2 as u32) << 16)
            } else {
                t1
            };
            let t3 = if b3 != 0 {
                t2 | ((b3 as u32) << 24)
            } else {
                t2
            };
            t3 == x
        }),
{
}

/// Writing a packet header and parsing it back — with anything at all
/// after it — yields the same header and consumes exactly its bytes.
#[verifier::rlimit(60)]
pub proof fn lemma_packet_header_round_trip(h: PacketHeader, rest: Seq<u8>)
    ensures
        PacketHeader::spec_parse(h.spec_write() + rest) == Some(
            (h, h.spec_write().len() as int),
        ),
{
    lemma_u16_bytes(h.sequence);
    lemma_u16_bytes(h.ack);
    lemma_u32_bytes(h.ack_bits);
    lemma_u32_bytes_reassemble(h.ack_bits);
    let b0 = spec_u32_byte0(h.ack_bits);
    let b1 = spec_u32_byte1(h.ack_bits);
    let b2 = spec_u32_byte2(h.ack_bits);
    let b3 = spec_u32_byte3(h.ack_bits);
    let el = h.spec_ack_elided();
    lemma_prefix_bits(b0 != 0, b1 != 0, b2 != 0, b3 != 0, el);
    let p = h.spec_prefix();
    let head = seq![p, spec_u16_lo(h.sequence), spec_u16_hi(h.sequence)];
    let with_ack = if el {
        head
    } else {
        head + seq![spec_u16_lo(h.ack), spec_u16_hi(h.ack)]
    };
    let w1 = if b0 != 0 {
        with_ack + seq![b0]
    } else {
        with_ack
    };
    let w2 = if b1 != 0 {
        w1 + seq![b1]
    } else {
        w1
    };
    let w3 = if b2 != 0 {
        w2 + seq![b2]
    } else {
        w2
    };
    let w = h.spec_write();
    assert(w == if b3 != 0 {
        w3 + seq![b3]
    } else {
        w3
    });
    let o0 = if el {
        3int
    } else {
        5int
    };
    let o1 = o0 + if b0 != 0 {
        1int
    } else {
        0int
    };
    let o2 = o1 + if b1 != 0 {
        1int
    } else {
        0int
    };
    let o3 = o2 + if b2 != 0 {
        1int
    } else {
        0int
    };
    let o4 = o3 + if b3 != 0 {
        1int
    } else {
        0int
    };
    assert(with_ack.len() == o0);
    assert(w1.len() == o1);
    assert(w2.len() == o2);
    assert(w3.len() == o3);
    assert(w.len() == o4);
    let data = w + rest;
    assert(data[0] == p);
    assert(data[1] == spec_u16_lo(h.sequence));
    assert(data[2] == spec_u16_hi(h.sequence));
    assert(spec_u16_of_bytes(data[1], data[2]) == h.sequence);
    if !el {
        assert(data[3] == spec_u16_lo(h.ack));
        assert(data[4] == spec_u16_hi(h.ack));
        assert(spec_u16_of_bytes(data[3], data[4]) == h.ack);
    }
    if b0 != 0 {
        assert(data[o0] == b0);
    }
    if b1 != 0 {
        assert(data[o1] == b1);
    }
    if b2 != 0 {
        assert(data[o2] == b2);
    }
    if b3 != 0 {
        assert(data[o3] == b3);
    }
    assert(PacketHeader::spec_parse(data) == Some((h, w.len() as int)));
}

/// Per-fragment metadata: the outer packet's sequence, this fragment's id
/// and the total fragment count, plus — on fragment zero only — the outer
/// packet header itself.
#[derive(Clone, Copy, Debug, PartialEq)]
pub struct FragmentHeader {
    /// Sequence number of the packet being fragmented.
    pub sequence: u16,
    /// Position of this fragment, `0 .. num_fragments`.
    pub id: u8,
    /// How many fragments the packet was split into (1 to 256).
    pub num_fragments: u16,
    /// The outer packet header, carried on fragment zero only.
    pub packet_header: Option<PacketHeader>,
}

impl FragmentHeader {
    /// A fragment header that the wire format can carry: the count fits
    /// the count-minus-one byte, the id is in range, and the embedded
    /// packet header rides on fragment zero alone and agrees on the
    /// sequence.
    pub open spec fn wf(self) -> bool {
        &&& 1 <= self.num_fragments <= 256
        &&& (self.id as u16) < self.num_fragments
        &&& (self.packet_header is Some <==> self.id == 0)
        &&& self.packet_header is Some ==> self.packet_header.unwrap().sequence == self.sequence
    }

    /// The header for fragment `id` of a packet split into `num_fragments`
    /// parts; fragment zero embeds the packet's own header.
    pub fn new(id: u8, num_fragments: u16, packet_header: PacketHeader) -> (r: Self)
        requires
            1 <= num_fragments <= 256,
            (id as u16) < num_fragments,
        ensures
            r.wf(),
            r.sequence == packet_header.sequence,
            r.id == id,
            r.num_fragments == num_fragments,
            id == 0 ==> r.packet_header == Some(packet_header),
            id != 0 ==> r.packet_header is None,
    {
        FragmentHeader {
            sequence: packet_header.sequence,
            id,
            num_fragments,
            packet_header: if id == 0 {
                Some(packet_header)
            } else {
                None
            },
        }
    }

    /// A bare fragment header (no embedded packet header), for fragments
    /// other than fragment zero.
    pub fn new_fragment(id: u8, num_fragments: u8, sequence: u16) -> (r: Self)
        requires
            id != 0,
            id < num_fragments,
        ensures
            r.wf(),
            r.sequence == sequence,
            r.id == id,
            r.num_fragments == num_fragments as u16,
            r.packet_header is None,
    {
        FragmentHeader { sequence, id, num_fragments: num_fragments as u16, packet_header: None }
    }

    /// Sequence number of the packet being fragmented.
    pub fn sequence(&self) -> (r: u16)
        ensures
            r == self.sequence,
    {
        self.sequence
    }

    /// Position of this fragment.
    pub fn id(&self) -> (r: u8)
        ensures
            r == self.id,
    {
        self.id
    }

    /// How many fragments the packet was split into.
    pub fn count(&self) -> (r: u16)
        ensures
            r == self.num_fragments,
    {
        self.num_fragments
    }

    /// The embedded packet header, present on fragment zero.
    pub fn packet_header(&self) -> (r: Option<PacketHeader>)
        ensures
            r == self.packet_header,
    {
        self.packet_header
    }

    /// The exact bytes this header writes: prefix `1`, sequence, id,
    /// count minus one, then the embedded packet header on fragment zero.
    pub open spec fn spec_write(self) -> Seq<u8> {
        let head = seq![
            1u8,
            spec_u16_lo(self.sequence),
            spec_u16_hi(self.sequence),
            self.id,
            (self.num_fragments - 1) as u8,
        ];
        if self.id == 0 {
            head + self.packet_header.unwrap().spec_write()
        } else {
            head
        }
    }

    /// What parsing a byte sequence as a fragment header yields: the
    /// header and the bytes consumed, or nothing when the input does not
    /// start with a well-formed fragment header.
    pub open spec fn spec_parse(data: Seq<u8>) -> Option<(FragmentHeader, int)> {
        if data.len() < 5 {
            None
        } else if data[0] != 1 {
            None
        } else {
            let sequence = spec_u16_of_bytes(data[1], data[2]);
            let id = data[3];
            let num = (data[4] + 1) as u16;
            if id as u16 >= num {
                None
            } else if id == 0 {
                match PacketHeader::spec_parse(data.skip(5)) {
                    Some((ph, n)) => if ph.sequence == sequence {
                        Some(
                            (
                                FragmentHeader {
                                    sequence,
                                    id,
                                    num_fragments: num,
                                    packet_header: Some(ph),
                                },
                                5 + n,
                            ),
                        )
                    } else {
                        None
                    },
                    None => None,
                }
            } else {
                Some(
                    (FragmentHeader { sequence, id, num_fragments: num, packet_header: None }, 5),
                )
            }
        }
    }

    /// Bytes `write` will produce, without writing them.
    pub fn size(&self) -> (r: usize)
        requires
            self.wf(),
        ensures
            r == self.spec_write().len(),
    {
        match &self.packet_header {
            Some(ph) => 5 + ph.size(),
            None => 5,
        }
    }

    /// Appends this header's wire bytes to `out`.
    pub fn write(&self, out: &mut Vec<u8>)
        requires
            self.wf(),
        ensures
            final(out)@ == old(out)@ + self.spec_write(),
    {
        proof {
            lemma_u16_bytes(self.sequence);
        }
        out.push(1u8);
        out.push((self.sequence & 0xFF) as u8);
        out.push((self.sequence >> 8) as u8);
        out.push(self.id);
        out.push((self.num_fragments - 1) as u8);
        match &self.packet_header {
            Some(ph) => ph.write(out),
            None => (),
        }
        proof {
            assert(out@ =~= old(out)@ + self.spec_write());
        }
    }

    /// Reads a fragment header from the front of `data`; returns the
    /// header and the bytes consumed, or `InvalidFragment` when `data`
    /// does not start with a complete, well-formed fragment header.
    pub fn parse(data: &[u8]) -> (r: Result<(FragmentHeader, usize), ReliableError>)
        ensures
            r is Ok <==> Self::spec_parse(data@) is Some,
            r is Ok ==> Self::spec_parse(data@).unwrap().0 == r.unwrap().0 && Self::spec_parse(
                data@,
            ).unwrap().1 == r.unwrap().1 as int,
            r is Ok ==> r.unwrap().0.wf() && r.unwrap().1 as int <= data@.len(),
            r is Err ==> r == Err::<(FragmentHeader, usize), ReliableError>(
                ReliableError::InvalidFragment,
            ),
    {
        if data.len() < 5 {
            return Err(ReliableError::InvalidFragment);
        }
        if data[0] != 1 {
            return Err(ReliableError::InvalidFragment);
        }
        let sequence = (data[1] as u16) | ((data[2] as u16) << 8);
        let id = data[3];
        let num = (data[4] as u16) + 1;
        if id as u16 >= num {
            return Err(ReliableError::InvalidFragment);
        }
        if id == 0 {
            let tail = vstd::slice::slice_subrange(data, 5, data.len());
            proof {
                assert(tail@ =~= data@.skip(5));
            }
            match PacketHeader::parse(tail) {
                Ok((ph, n)) => {
                    if ph.sequence == sequence {
                        proof {
                            assert(PacketHeader::spec_parse(tail@).unwrap().1 <= 9);
                        }
                        Ok(
                            (
                                FragmentHeader {
                                    sequence,
                                    id,
                                    num_fragments: num,
                                    packet_header: Some(ph),
                                },
                                5 + n,
                            ),
                        )
                    } else {
                        Err(ReliableError::InvalidFragment)
                    }
                },
                Err(_) => Err(ReliableError::InvalidFragment),
            }
        } else {
            Ok((FragmentHeader { sequence, id, num_fragments: num, packet_header: None }, 5))
        }
    }
}

/// Writing a well-formed fragment header and parsing it back — with
/// anything at all after it — yields the same header and consumes exactly
/// its bytes.
pub proof fn lemma_fragment_header_round_trip(h: FragmentHeader, rest: Seq<u8>)
    requires
        h.wf(),
    ensures
        FragmentHeader::spec_parse(h.spec_write() + rest) == Some(
            (h, h.spec_write().len() as int),
        ),
{
    lemma_u16_bytes(h.sequence);
    let w = h.spec_write();
    let data = w + rest;
    assert(data[0] == 1);
    assert(data[1] == spec_u16_lo(h.sequence));
    assert(data[2] == spec_u16_hi(h.sequence));
    assert(data[3] == h.id);
    assert(data[4] == (h.num_fragments - 1) as u8);
    assert(spec_u16_of_bytes(data[1], data[2]) == h.sequence);
    assert((data[4] + 1) as u16 == h.num_fragments);
    if h.id == 0 {
        let ph = h.packet_header.unwrap();
        assert(data.skip(5) =~= ph.spec_write() + rest);
        lemma_packet_header_round_trip(ph, rest);
        assert(w.len() == 5 + ph.spec_write().len());
    }
}

} // verus!
