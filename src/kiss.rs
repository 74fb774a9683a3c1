//! KISS framing between the host and the TNC: SLIP-style FEND/FESC escaping,
//! a header byte holding port and command, and a streaming frame buffer.

use vstd::prelude::*;
use crate::crc::{crc16, be16, crc_of_range};
use crate::protocol::StreamFrame;

verus! {

pub const FEND: u8 = 0xC0;
pub const FESC: u8 = 0xDB;
pub const TFEND: u8 = 0xDC;
pub const TFESC: u8 = 0xDD;

pub const PORT_PACKET_BASIC: u8 = 0;
pub const PORT_PACKET_FULL: u8 = 1;
pub const PORT_STREAM: u8 = 2;

/// Maximum size of any valid M17 KISS frame: a 30-byte LSF and an 825-byte
/// packet, every byte escaped, plus two FENDs and the header byte.
pub const MAX_FRAME_LEN: usize = 1713;

/// The escaped form of one byte.
pub open spec fn escape_byte(b: u8) -> Seq<u8> {
    if b == FEND {
        seq![FESC, TFEND]
    } else if b == FESC {
        seq![FESC, TFESC]
    } else {
        seq![b]
    }
}

/// The escaped form of a byte sequence.
pub open spec fn escaped(s: Seq<u8>) -> Seq<u8>
    decreases s.len(),
{
    if s.len() == 0 {
        seq![]
    } else {
        escaped(s.drop_last()) + escape_byte(s.last())
    }
}

/// The byte that FESC followed by `b` stands for.
pub open spec fn unescape_pair(b: u8) -> u8 {
    if b == TFEND {
        FEND
    } else if b == TFESC {
        FESC
    } else {
        b
    }
}

/// The unescaped form of a byte sequence. A FESC at the very end is dropped;
/// FESC followed by anything but TFEND or TFESC stands for that byte.
pub open spec fn unescaped(s: Seq<u8>) -> Seq<u8>
    decreases s.len(),
{
    if s.len() == 0 {
        seq![]
    } else if s[0] == FESC {
        if s.len() == 1 {
            seq![]
        } else {
            seq![unescape_pair(s[1])] + unescaped(s.subrange(2, s.len() as int))
        }
    } else {
        seq![s[0]] + unescaped(s.drop_first())
    }
}

/// The KISS header byte for a port and command.
pub open spec fn header(port: u8, command: u8) -> u8 {
    ((port << 4u8) | (command & 0x0fu8)) as u8
}

proof fn lemma_escaped_len(s: Seq<u8>)
    ensures
        s.len() <= escaped(s).len() <= 2 * s.len(),
    decreases s.len(),
{
    if s.len() > 0 {
        lemma_escaped_len(s.drop_last());
    }
}

/// Escaping distributes over concatenation.
pub proof fn lemma_escaped_concat(a: Seq<u8>, b: Seq<u8>)
    ensures
        escaped(a + b) == escaped(a) + escaped(b),
    decreases b.len(),
{
    if b.len() == 0 {
        assert(a + b =~= a);
        assert(escaped(a) + escaped(b) =~= escaped(a));
    } else {
        lemma_escaped_concat(a, b.drop_last());
        assert((a + b).drop_last() =~= a + b.drop_last());
        assert((a + b).last() == b.last());
        assert(escaped(a + b) =~= escaped(a) + escaped(b));
    }
}

/// Unescaping undoes escaping.
pub proof fn lemma_unescape_escaped(s: Seq<u8>)
    ensures
        unescaped(escaped(s)) == s,
    decreases s.len(),
{
    if s.len() > 0 {
        let t = s.drop_first();
        lemma_escaped_concat(seq![s[0]], t);
        assert(seq![s[0]] + t =~= s);
        assert(seq![s[0]].drop_last() =~= Seq::<u8>::empty());
        reveal_with_fuel(escaped, 2);
        assert(escaped(seq![s[0]]) =~= escape_byte(s[0]));
        let e = escaped(s);
        lemma_unescape_escaped(t);
        if s[0] == FEND || s[0] == FESC {
            assert(e.subrange(2, e.len() as int) =~= escaped(t));
        } else {
            assert(e.drop_first() =~= escaped(t));
        }
        assert(unescaped(e) =~= s);
    }
}

/// Write the escaped form of `src` into `dst` at `at`; return where it ends.
fn escape_at(src: &[u8], dst: &mut [u8], at: usize) -> (r: usize)
    requires
        at + escaped(src@).len() <= old(dst)@.len(),
    ensures
        r == at + escaped(src@).len(),
        final(dst)@.len() == old(dst)@.len(),
        final(dst)@.subrange(0, at as int) == old(dst)@.subrange(0, at as int),
        final(dst)@.subrange(at as int, r as int) == escaped(src@),
        final(dst)@.subrange(r as int, final(dst)@.len() as int) == old(dst)@.subrange(
            r as int,
            old(dst)@.len() as int,
        ),
{
    let mut i: usize = 0;
    let mut j: usize = at;
    while i < src.len()
        invariant
            0 <= i <= src@.len(),
            at + escaped(src@).len() <= dst@.len(),
            dst@.len() == old(dst)@.len(),
            j == at + escaped(src@.subrange(0, i as int)).len(),
            dst@.subrange(0, at as int) == old(dst)@.subrange(0, at as int),
            dst@.subrange(at as int, j as int) == escaped(src@.subrange(0, i as int)),
            dst@.subrange(j as int, dst@.len() as int) == old(dst)@.subrange(
                j as int,
                old(dst)@.len() as int,
            ),
        decreases src@.len() - i,
    {
        let ghost prev = dst@;
        let ghost pre = src@.subrange(0, i as int);
        let ghost j0 = j;
        proof {
            assert(src@.subrange(0, i as int + 1).drop_last() =~= pre);
            lemma_escaped_concat(src@.subrange(0, i as int + 1), src@.subrange(i as int + 1, src@.len() as int));
            assert(src@.subrange(0, i as int + 1) + src@.subrange(i as int + 1, src@.len() as int) =~= src@);
        }
        let b = src[i];
        if b == FEND {
            dst[j] = FESC;
            dst[j + 1] = TFEND;
            j = j + 2;
        } else if b == FESC {
            dst[j] = FESC;
            dst[j + 1] = TFESC;
            j = j + 2;
        } else {
            dst[j] = b;
            j = j + 1;
        }
        i = i + 1;
        proof {
            assert(dst@.subrange(0, at as int) =~= old(dst)@.subrange(0, at as int)) by {
                assert(dst@.subrange(0, at as int) =~= prev.subrange(0, at as int));
            }
            assert(escaped(src@.subrange(0, i as int)) == escaped(pre) + escape_byte(src@[i - 1]));
            assert(dst@.subrange(at as int, j0 as int) =~= prev.subrange(at as int, j0 as int));
            assert(dst@.subrange(j0 as int, j as int) =~= escape_byte(src@[i - 1]));
            assert(dst@.subrange(at as int, j as int) =~= dst@.subrange(at as int, j0 as int)
                + dst@.subrange(j0 as int, j as int));
            assert(dst@.subrange(at as int, j as int) =~= escaped(src@.subrange(0, i as int)));
            assert(dst@.subrange(j as int, dst@.len() as int) =~= old(dst)@.subrange(
                j as int,
                old(dst)@.len() as int,
            )) by {
                assert forall|k: int| j <= k < prev.len() implies prev[k] == old(dst)@[k] by {
                    assert(prev.subrange(j0 as int, prev.len() as int)[k - j0] == prev[k]);
                }
            }
        }
    }
    assert(src@.subrange(0, i as int) =~= src@);
    j
}

/// Write the escaped form of `src` into `dst`; return how many bytes that took.
pub fn escape(src: &[u8], dst: &mut [u8]) -> (r: usize)
    requires
        escaped(src@).len() <= old(dst)@.len(),
    ensures
        r == escaped(src@).len(),
        final(dst)@.len() == old(dst)@.len(),
        final(dst)@.subrange(0, r as int) == escaped(src@),
        final(dst)@.subrange(r as int, final(dst)@.len() as int) == old(dst)@.subrange(
            r as int,
            old(dst)@.len() as int,
        ),
{
    escape_at(src, dst, 0)
}

/// Write the unescaped form of `src[start..end]` into `dst`, as much of it as
/// fits; return how many bytes were written.
fn unescape_range(src: &[u8], start: usize, end: usize, dst: &mut [u8]) -> (r: usize)
    requires
        start <= end <= src@.len(),
    ensures
        ({
            let u = unescaped(src@.subrange(start as int, end as int));
            &&& r == if u.len() < old(dst)@.len() {
                u.len()
            } else {
                old(dst)@.len()
            }
            &&& final(dst)@.len() == old(dst)@.len()
            &&& final(dst)@.subrange(0, r as int) == u.subrange(0, r as int)
            &&& final(dst)@.subrange(r as int, final(dst)@.len() as int) == old(dst)@.subrange(
                r as int,
                old(dst)@.len() as int,
            )
        }),
{
    let ghost u = unescaped(src@.subrange(start as int, end as int));
    let mut i: usize = start;
    let mut j: usize = 0;
    while i < end && j < dst.len()
        invariant
            start <= i <= end <= src@.len(),
            j <= dst@.len(),
            dst@.len() == old(dst)@.len(),
            dst@.subrange(0, j as int) + unescaped(src@.subrange(i as int, end as int)) == u,
            dst@.subrange(j as int, dst@.len() as int) == old(dst)@.subrange(
                j as int,
                old(dst)@.len() as int,
            ),
        decreases end - i,
    {
        let ghost prev = dst@;
        let ghost rest = src@.subrange(i as int, end as int);
        if src[i] == FESC && i == end - 1 {
            assert(unescaped(rest) =~= Seq::<u8>::empty());
            assert(dst@.subrange(0, j as int) =~= dst@.subrange(0, j as int) + unescaped(rest));
            i = end;
            assert(src@.subrange(i as int, end as int) =~= Seq::<u8>::empty());
            assert(dst@.subrange(0, j as int) + unescaped(src@.subrange(i as int, end as int)) =~= dst@.subrange(0, j as int));
            continue;
        }
        if src[i] == FESC {
            let b = src[i + 1];
            dst[j] = if b == TFEND {
                FEND
            } else if b == TFESC {
                FESC
            } else {
                b
            };
            proof {
                assert(rest.subrange(2, rest.len() as int) =~= src@.subrange(i + 2, end as int));
            }
            i = i + 2;
        } else {
            dst[j] = src[i];
            proof {
                assert(rest.drop_first() =~= src@.subrange(i + 1, end as int));
            }
            i = i + 1;
        }
        j = j + 1;
        proof {
            assert(dst@.subrange(0, j as int) =~= prev.subrange(0, j - 1) + seq![dst@[j - 1]]);
            assert(dst@.subrange(0, j as int) + unescaped(src@.subrange(i as int, end as int))
                =~= prev.subrange(0, j - 1) + unescaped(rest));
            assert forall|k: int| j <= k < dst@.len() implies dst@[k] == old(dst)@[k] by {
                assert(prev.subrange(j - 1, prev.len() as int)[k - j + 1] == prev[k]);
            }
            assert(dst@.subrange(j as int, dst@.len() as int) =~= old(dst)@.subrange(
                j as int,
                old(dst)@.len() as int,
            ));
        }
    }
    proof {
        if i == end {
            assert(src@.subrange(i as int, end as int) =~= Seq::<u8>::empty());
            assert(dst@.subrange(0, j as int) =~= u);
        }
        lemma_prefix_of_concat(dst@.subrange(0, j as int), unescaped(src@.subrange(i as int, end as int)), u);
    }
    j
}

proof fn lemma_prefix_of_concat(a: Seq<u8>, b: Seq<u8>, u: Seq<u8>)
    requires
        a + b == u,
    ensures
        u.subrange(0, a.len() as int) == a,
        a.len() <= u.len(),
{
    assert(u.subrange(0, a.len() as int) =~= a);
}

/// Write the unescaped form of `src` into `dst`, as much of it as fits;
/// return how many bytes were written.
pub fn unescape(src: &[u8], dst: &mut [u8]) -> (r: usize)
    ensures
        ({
            let u = unescaped(src@);
            &&& r == if u.len() < old(dst)@.len() {
                u.len()
            } else {
                old(dst)@.len()
            }
            &&& final(dst)@.len() == old(dst)@.len()
            &&& final(dst)@.subrange(0, r as int) == u.subrange(0, r as int)
        }),
{
    assert(src@.subrange(0, src@.len() as int) =~= src@);
    unescape_range(src, 0, src.len(), dst)
}

/// The first index at or after `from` whose byte differs from `b`, or the
/// length if there is none.
pub open spec fn first_not(s: Seq<u8>, b: u8, from: int) -> int
    decreases s.len() - from,
{
    if from >= s.len() {
        s.len() as int
    } else if s[from] != b {
        from
    } else {
        first_not(s, b, from + 1)
    }
}

/// The first index at or after `from` holding `b`, or the length if there is
/// none.
pub open spec fn first_of(s: Seq<u8>, b: u8, from: int) -> int
    decreases s.len() - from,
{
    if from >= s.len() {
        s.len() as int
    } else if s[from] == b {
        from
    } else {
        first_of(s, b, from + 1)
    }
}

proof fn lemma_first_not_bounds(s: Seq<u8>, b: u8, from: int)
    requires
        0 <= from <= s.len(),
    ensures
        from <= first_not(s, b, from) <= s.len(),
        first_not(s, b, from) < s.len() ==> s[first_not(s, b, from)] != b,
        forall|k: int| from <= k < first_not(s, b, from) ==> s[k] == b,
    decreases s.len() - from,
{
    if from < s.len() && s[from] == b {
        lemma_first_not_bounds(s, b, from + 1);
    }
}

pub(crate) proof fn lemma_first_of_bounds(s: Seq<u8>, b: u8, from: int)
    requires
        0 <= from <= s.len(),
    ensures
        from <= first_of(s, b, from) <= s.len(),
        first_of(s, b, from) < s.len() ==> s[first_of(s, b, from)] == b,
        forall|k: int| from <= k < first_of(s, b, from) ==> s[k] != b,
    decreases s.len() - from,
{
    if from < s.len() && s[from] != b {
        lemma_first_of_bounds(s, b, from + 1);
    }
}

fn find_not(s: &[u8], b: u8, from: usize, end: usize) -> (r: usize)
    requires
        from <= end <= s@.len(),
    ensures
        r == if first_not(s@.subrange(0, end as int), b, from as int) < end {
            first_not(s@.subrange(0, end as int), b, from as int)
        } else {
            end as int
        },
        from <= r <= end,
{
    let ghost t = s@.subrange(0, end as int);
    let mut i: usize = from;
    while i < end && s[i] == b
        invariant
            from <= i <= end <= s@.len(),
            t == s@.subrange(0, end as int),
            first_not(t, b, from as int) == first_not(t, b, i as int),
        decreases end - i,
    {
        i = i + 1;
    }
    i
}

fn find_of(s: &[u8], b: u8, from: usize, end: usize) -> (r: usize)
    requires
        from <= end <= s@.len(),
    ensures
        r == first_of(s@.subrange(0, end as int), b, from as int),
        from <= r <= end,
{
    let ghost t = s@.subrange(0, end as int);
    let mut i: usize = from;
    while i < end && s[i] != b
        invariant
            from <= i <= end <= s@.len(),
            t == s@.subrange(0, end as int),
            first_of(t, b, from as int) == first_of(t, b, i as int),
        decreases end - i,
    {
        i = i + 1;
    }
    i
}

/// A KISS command.
#[derive(Debug, Clone, Copy, PartialEq, Eq)]
pub enum KissCommand {
    DataFrame,
    TxDelay,
    P,
    FullDuplex,
}

/// The command that a low nibble names, if it is supported.
pub open spec fn command_of(v: u8) -> Option<KissCommand> {
    if v == 0 {
        Some(KissCommand::DataFrame)
    } else if v == 1 {
        Some(KissCommand::TxDelay)
    } else if v == 2 {
        Some(KissCommand::P)
    } else if v == 5 {
        Some(KissCommand::FullDuplex)
    } else {
        None
    }
}

pub open spec fn command_value(c: KissCommand) -> u8 {
    match c {
        KissCommand::DataFrame => 0,
        KissCommand::TxDelay => 1,
        KissCommand::P => 2,
        KissCommand::FullDuplex => 5,
    }
}

impl KissCommand {
    pub fn from_proto(value: u8) -> (r: Result<Self, KissError>)
        ensures
            match command_of(value) {
                Some(c) => r == Ok::<KissCommand, KissError>(c),
                None => r == Err::<KissCommand, KissError>(KissError::UnsupportedKissCommand),
            },
    {
        if value == 0 {
            Ok(KissCommand::DataFrame)
        } else if value == 1 {
            Ok(KissCommand::TxDelay)
        } else if value == 2 {
            Ok(KissCommand::P)
        } else if value == 5 {
            Ok(KissCommand::FullDuplex)
        } else {
            Err(KissError::UnsupportedKissCommand)
        }
    }

    pub fn proto_value(&self) -> (r: u8)
        ensures
            r == command_value(*self),
            command_of(r) == Some(*self),
    {
        match self {
            KissCommand::DataFrame => 0,
            KissCommand::TxDelay => 1,
            KissCommand::P => 2,
            KissCommand::FullDuplex => 5,
        }
    }
}

#[derive(Debug, Clone, Copy, PartialEq, Eq)]
pub enum KissError {
    MalformedKissFrame,
    UnsupportedKissCommand,
    PayloadTooBig,
    LsfWrongSize,
}

/// The payload bytes of a stream data frame: LICH part, LICH index, frame
/// number with the end-of-stream flag in its top bit, stream data, and a CRC
/// over the last 18 of those.
pub open spec fn stream_data_inner(f: StreamFrame) -> Seq<u8> {
    seq![
        ((f.frame_number >> 8u16) as u8 | if f.end_of_stream { 0x80u8 } else { 0u8 }) as u8,
        f.frame_number as u8,
    ] + f.stream_data@
}

pub open spec fn stream_data_payload(f: StreamFrame) -> Seq<u8> {
    f.lich_part@ + seq![(f.lich_idx << 5u8) as u8] + stream_data_inner(f) + be16(
        crc16(stream_data_inner(f)),
    )
}

/// Holder for any valid M17 KISS frame.
#[derive(Debug, Clone, Copy, PartialEq, Eq)]
pub struct KissFrame {
    pub data: [u8; MAX_FRAME_LEN],
    pub len: usize,
}

impl KissFrame {
    /// The bytes of the frame, FENDs included.
    pub open spec fn bytes(&self) -> Seq<u8> {
        self.data@.subrange(0, self.len as int)
    }

    /// The index of the header byte: the first byte that is not FEND.
    pub open spec fn header_index(&self) -> int {
        first_not(self.data@, FEND, 0)
    }

    /// The index of the FEND that ends the payload, when there is a payload.
    pub open spec fn payload_end(&self) -> int {
        first_of(self.data@, FEND, self.header_index() + 1)
    }

    /// Whether the frame has a header byte followed by a closing FEND.
    pub open spec fn well_framed(&self) -> bool {
        self.header_index() + 1 < MAX_FRAME_LEN && self.payload_end() < MAX_FRAME_LEN
    }

    /// The unescaped payload between the header byte and the closing FEND.
    pub open spec fn payload(&self) -> Seq<u8> {
        unescaped(self.data@.subrange(self.header_index() + 1, self.payload_end()))
    }

    /// An empty frame.
    pub fn new_empty() -> (r: Self)
        ensures
            r.len == 0,
            r.data@ == Seq::new(MAX_FRAME_LEN as nat, |i: int| 0u8),
    {
        let r = Self { data: [0u8; MAX_FRAME_LEN], len: 0 };
        assert(r.data@ =~= Seq::new(MAX_FRAME_LEN as nat, |i: int| 0u8));
        r
    }

    /// Request to transmit a data packet in basic mode: the TNC adds the RAW
    /// type prefix and the CRC. At most 822 bytes.
    pub fn new_basic_packet(payload: &[u8]) -> (r: Result<Self, KissError>)
        ensures
            payload@.len() > 822 <==> r == Err::<KissFrame, KissError>(KissError::PayloadTooBig),
            payload@.len() <= 822 <==> r is Ok,
            r is Ok ==> r->Ok_0.len <= MAX_FRAME_LEN && r->Ok_0.bytes() == seq![FEND, header(PORT_PACKET_BASIC, 0)]
                + escaped(payload@) + seq![FEND],
    {
        if payload.len() > 822 {
            return Err(KissError::PayloadTooBig);
        }
        let mut data = [0u8; MAX_FRAME_LEN];
        data[0] = FEND;
        data[1] = kiss_header(PORT_PACKET_BASIC, 0);
        assert(data@.subrange(0, 2) =~= seq![FEND, header(PORT_PACKET_BASIC, 0)]);
        proof {
            lemma_escaped_len(payload@);
        }
        let i = escape_at(payload, &mut data, 2);
        proof {
            lemma_frame_bytes(data@, header(PORT_PACKET_BASIC, 0), escaped(payload@), i as int);
        }
        data[i] = FEND;
        let r = KissFrame { data, len: i + 1 };
        assert(r.bytes() =~= seq![FEND, header(PORT_PACKET_BASIC, 0)] + escaped(payload@) + seq![FEND]);
        Ok(r)
    }

    /// Request to transmit a data packet in full mode: a 30-byte LSF and a
    /// packet of at most 825 bytes that already holds its type prefix and CRC.
    pub fn new_full_packet(lsf: &[u8], packet: &[u8]) -> (r: Result<Self, KissError>)
        ensures
            lsf@.len() != 30 <==> r == Err::<KissFrame, KissError>(KissError::LsfWrongSize),
            lsf@.len() == 30 && packet@.len() > 825 <==> r == Err::<KissFrame, KissError>(
                KissError::PayloadTooBig,
            ),
            lsf@.len() == 30 && packet@.len() <= 825 <==> r is Ok,
            r is Ok ==> r->Ok_0.len <= MAX_FRAME_LEN && r->Ok_0.bytes() == seq![FEND, header(PORT_PACKET_FULL, 0)]
                + escaped(lsf@ + packet@) + seq![FEND],
    {
        if lsf.len() != 30 {
            return Err(KissError::LsfWrongSize);
        }
        if packet.len() > 825 {
            return Err(KissError::PayloadTooBig);
        }
        let mut data = [0u8; MAX_FRAME_LEN];
        data[0] = FEND;
        data[1] = kiss_header(PORT_PACKET_FULL, 0);
        assert(data@.subrange(0, 2) =~= seq![FEND, header(PORT_PACKET_FULL, 0)]);
        proof {
            lemma_escaped_len(lsf@);
        }
        let i = escape_at(lsf, &mut data, 2);
        let ghost d1 = data@;
        proof {
            lemma_escaped_len(packet@);
        }
        let i1 = i;
        let i = escape_at(packet, &mut data, i);
        proof {
            lemma_escaped_concat(lsf@, packet@);
            assert(data@.subrange(0, i1 as int) == d1.subrange(0, i1 as int));
            assert(data@.subrange(0, 2) =~= d1.subrange(0, i1 as int).subrange(0, 2));
            assert(data@.subrange(0, 2) =~= d1.subrange(0, 2));
            assert(data@.subrange(2, i1 as int) =~= d1.subrange(0, i1 as int).subrange(2, i1 as int));
            assert(data@.subrange(2, i1 as int) =~= d1.subrange(2, i1 as int));
            assert(data@.subrange(2, i as int) =~= data@.subrange(2, i1 as int) + data@.subrange(i1 as int, i as int));
            lemma_frame_bytes(data@, header(PORT_PACKET_FULL, 0), escaped(lsf@ + packet@), i as int);
        }
        data[i] = FEND;
        let r = KissFrame { data, len: i + 1 };
        Ok(r)
    }

    /// Request to begin a stream transfer with a 30-byte LSF.
    pub fn new_stream_setup(lsf: &[u8]) -> (r: Result<Self, KissError>)
        ensures
            lsf@.len() != 30 <==> r == Err::<KissFrame, KissError>(KissError::LsfWrongSize),
            lsf@.len() == 30 <==> r is Ok,
            r is Ok ==> r->Ok_0.len <= MAX_FRAME_LEN && r->Ok_0.bytes() == seq![FEND, header(PORT_STREAM, 0)] + escaped(lsf@)
                + seq![FEND],
    {
        if lsf.len() != 30 {
            return Err(KissError::LsfWrongSize);
        }
        let mut data = [0u8; MAX_FRAME_LEN];
        data[0] = FEND;
        data[1] = kiss_header(PORT_STREAM, 0);
        assert(data@.subrange(0, 2) =~= seq![FEND, header(PORT_STREAM, 0)]);
        proof {
            lemma_escaped_len(lsf@);
        }
        let i = escape_at(lsf, &mut data, 2);
        proof {
            lemma_frame_bytes(data@, header(PORT_STREAM, 0), escaped(lsf@), i as int);
        }
        data[i] = FEND;
        let r = KissFrame { data, len: i + 1 };
        assert(r.bytes() =~= seq![FEND, header(PORT_STREAM, 0)] + escaped(lsf@) + seq![FEND]);
        Ok(r)
    }

    /// A segment of data in a stream transfer.
    pub fn new_stream_data(frame: &StreamFrame) -> (r: Result<Self, KissError>)
        ensures
            r is Ok,
            r->Ok_0.len <= MAX_FRAME_LEN,
            r->Ok_0.bytes() == seq![FEND, header(PORT_STREAM, 0)] + escaped(
                stream_data_payload(*frame),
            ) + seq![FEND],
    {
        let mut payload = [0u8; 26];
        let mut k: usize = 0;
        while k < 5
            invariant
                0 <= k <= 5,
                forall|j: int| 0 <= j < k ==> payload@[j] == frame.lich_part@[j],
            decreases 5 - k,
        {
            payload[k] = frame.lich_part[k];
            k = k + 1;
        }
        payload[5] = frame.lich_idx << 5u8;
        payload[6] = ((frame.frame_number >> 8u16) as u8) | if frame.end_of_stream {
            0x80u8
        } else {
            0u8
        };
        payload[7] = frame.frame_number as u8;
        let mut k: usize = 0;
        while k < 16
            invariant
                0 <= k <= 16,
                forall|j: int| 0 <= j < 5 ==> payload@[j] == frame.lich_part@[j],
                payload@[5] == (frame.lich_idx << 5u8) as u8,
                payload@[6] == ((frame.frame_number >> 8u16) as u8 | if frame.end_of_stream { 0x80u8 } else { 0u8 }) as u8,
                payload@[7] == frame.frame_number as u8,
                forall|j: int| 0 <= j < k ==> payload@[8 + j] == frame.stream_data@[j],
            decreases 16 - k,
        {
            payload[8 + k] = frame.stream_data[k];
            k = k + 1;
        }
        assert(payload@.subrange(6, 24) =~= stream_data_inner(*frame));
        let c = crc_of_range(&payload, 6, 24);
        payload[24] = (c >> 8u16) as u8;
        payload[25] = c as u8;
        assert(payload@ =~= stream_data_payload(*frame));
        let mut data = [0u8; MAX_FRAME_LEN];
        data[0] = FEND;
        data[1] = kiss_header(PORT_STREAM, 0);
        assert(data@.subrange(0, 2) =~= seq![FEND, header(PORT_STREAM, 0)]);
        proof {
            lemma_escaped_len(payload@);
        }
        let i = escape_at(&payload, &mut data, 2);
        proof {
            lemma_frame_bytes(data@, header(PORT_STREAM, 0), escaped(payload@), i as int);
        }
        data[i] = FEND;
        let r = KissFrame { data, len: i + 1 };
        assert(r.bytes() =~= seq![FEND, header(PORT_STREAM, 0)] + escaped(stream_data_payload(*frame)) + seq![FEND]);
        Ok(r)
    }

    fn new_setting(port: u8, command: u8, value: u8) -> (r: Self)
        ensures
            r.len == 4,
            r.bytes() == seq![FEND, header(port, command), value, FEND],
    {
        let mut data = [0u8; MAX_FRAME_LEN];
        data[0] = FEND;
        data[1] = kiss_header(port, command);
        data[2] = value;
        data[3] = FEND;
        let r = KissFrame { data, len: 4 };
        assert(r.bytes() =~= seq![FEND, header(port, command), value, FEND]);
        r
    }

    /// Request to set the TxDelay, in units of 10 ms. The value is not escaped.
    pub fn new_set_tx_delay(port: u8, units: u8) -> (r: Self)
        ensures
            r.len == 4,
            r.bytes() == seq![FEND, header(port, 1), units, FEND],
    {
        Self::new_setting(port, 1, units)
    }

    /// Request to set the persistence parameter P. The value is not escaped.
    pub fn new_set_p(port: u8, units: u8) -> (r: Self)
        ensures
            r.len == 4,
            r.bytes() == seq![FEND, header(port, 2), units, FEND],
    {
        Self::new_setting(port, 2, units)
    }

    /// Request to set full duplex or not.
    pub fn set_full_duplex(port: u8, full_duplex: bool) -> (r: Self)
        ensures
            r.len == 4,
            r.bytes() == seq![FEND, header(port, 5), if full_duplex { 1u8 } else { 0u8 }, FEND],
    {
        Self::new_setting(port, 5, if full_duplex { 1 } else { 0 })
    }

    /// The header byte: the first byte that is not FEND.
    fn header_byte(&self) -> (r: Result<u8, KissError>)
        ensures
            self.header_index() < MAX_FRAME_LEN ==> r == Ok::<u8, KissError>(self.data@[self.header_index()]),
            self.header_index() >= MAX_FRAME_LEN ==> r == Err::<u8, KissError>(KissError::MalformedKissFrame),
    {
        let h = find_not(&self.data, FEND, 0, MAX_FRAME_LEN);
        assert(self.data@.subrange(0, MAX_FRAME_LEN as int) =~= self.data@);
        proof {
            lemma_first_not_bounds(self.data@, FEND, 0);
        }
        if h == MAX_FRAME_LEN {
            Err(KissError::MalformedKissFrame)
        } else {
            Ok(self.data[h])
        }
    }

    /// This frame's KISS command.
    pub fn command(&self) -> (r: Result<KissCommand, KissError>)
        ensures
            self.header_index() >= MAX_FRAME_LEN ==> r == Err::<KissCommand, KissError>(KissError::MalformedKissFrame),
            self.header_index() < MAX_FRAME_LEN ==> match command_of(self.data@[self.header_index()] & 0x0fu8) {
                Some(c) => r == Ok::<KissCommand, KissError>(c),
                None => r == Err::<KissCommand, KissError>(KissError::UnsupportedKissCommand),
            },
    {
        let h = self.header_byte()?;
        KissCommand::from_proto(h & 0x0fu8)
    }

    /// The KISS port that this frame relates to.
    pub fn port(&self) -> (r: Result<u8, KissError>)
        ensures
            self.header_index() >= MAX_FRAME_LEN ==> r == Err::<u8, KissError>(KissError::MalformedKissFrame),
            self.header_index() < MAX_FRAME_LEN ==> r == Ok::<u8, KissError>(self.data@[self.header_index()] >> 4u8),
    {
        let h = self.header_byte()?;
        Ok(h >> 4u8)
    }

    /// Unescape the payload, between the header byte and the next FEND, into
    /// `out`, as much as fits; return its length.
    pub fn decode_payload(&self, out: &mut [u8]) -> (r: Result<usize, KissError>)
        ensures
            !self.well_framed() <==> r == Err::<usize, KissError>(KissError::MalformedKissFrame),
            self.well_framed() <==> r is Ok,
            r is Ok ==> ({
                let u = self.payload();
                let n = r->Ok_0;
                &&& n == if u.len() < old(out)@.len() { u.len() } else { old(out)@.len() }
                &&& final(out)@.len() == old(out)@.len()
                &&& final(out)@.subrange(0, n as int) == u.subrange(0, n as int)
            }),
            r is Err ==> final(out)@ == old(out)@,
    {
        assert(self.data@.subrange(0, MAX_FRAME_LEN as int) =~= self.data@);
        let h = find_not(&self.data, FEND, 0, MAX_FRAME_LEN);
        proof {
            lemma_first_not_bounds(self.data@, FEND, 0);
        }
        if h + 1 >= MAX_FRAME_LEN {
            return Err(KissError::MalformedKissFrame);
        }
        let end = find_of(&self.data, FEND, h + 1, MAX_FRAME_LEN);
        if end == MAX_FRAME_LEN {
            return Err(KissError::MalformedKissFrame);
        }
        Ok(unescape_range(&self.data, h + 1, end, out))
    }

    /// The frame's bytes.
    pub fn as_bytes(&self) -> (r: &[u8])
        requires
            self.len <= MAX_FRAME_LEN,
        ensures
            r@ == self.bytes(),
    {
        &self.data[0..self.len]
    }
}

proof fn lemma_frame_bytes(d0: Seq<u8>, hdr: u8, e: Seq<u8>, i: int)
    requires
        2 <= i < d0.len(),
        d0.subrange(0, 2) == seq![FEND, hdr],
        d0.subrange(2, i) == e,
    ensures
        d0.update(i, FEND).subrange(0, i + 1) == seq![FEND, hdr] + e + seq![FEND],
{
    let d = d0.update(i, FEND);
    assert(d0.subrange(0, 2)[0] == d0[0] && d0.subrange(0, 2)[1] == d0[1]);
    assert forall|k: int| 2 <= k < i implies d[k] == e[k - 2] by {
        assert(d0.subrange(2, i)[k - 2] == d0[k]);
    }
    assert(d.subrange(0, i + 1) =~= seq![FEND, hdr] + e + seq![FEND]);
}

fn kiss_header(port: u8, command: u8) -> (r: u8)
    ensures
        r == header(port, command),
{
    (port << 4u8) | (command & 0x0fu8)
}

/// The buffer contents once a frame that was handed out is dropped: up to the
/// FEND that closed it, and any FENDs straight after it but the last.
pub open spec fn after_returned(c: Seq<u8>) -> Seq<u8> {
    let i = first_of(c, FEND, 2);
    c.subrange(first_not(c, FEND, i + 1) - 1, c.len() as int)
}

/// The buffer contents with leading bytes before the first FEND dropped, and
/// a leading run of FENDs reduced to its last.
pub open spec fn aligned(c: Seq<u8>) -> Seq<u8> {
    let c1 = c.subrange(first_of(c, FEND, 0), c.len() as int);
    if c1.len() == 0 {
        c1
    } else {
        c1.subrange(first_not(c1, FEND, 1) - 1, c1.len() as int)
    }
}

/// The length of the frame at the start of aligned contents: FEND, at least
/// one other byte, FEND. Zero when there is none yet.
pub open spec fn leading_frame_len(c: Seq<u8>) -> int {
    if c.len() >= 2 && c[0] == FEND && c[1] != FEND && first_of(c, FEND, 2) < c.len() {
        first_of(c, FEND, 2) + 1
    } else {
        0
    }
}

/// Accepts raw KISS data and emits one frame at a time.
///
/// A frame is emitted when at least one byte stands between two FENDs; the
/// consumer decides whether it is a valid frame.
pub struct KissBuffer {
    /// Holds the received bytes; the first frame found is handed out from here.
    frame: KissFrame,
    /// Number of bytes written into `frame.data`.
    written: usize,
    /// Whether the frame at the start of `frame.data` has been handed out and
    /// must be dropped before anything else.
    first_frame_returned: bool,
}

impl KissBuffer {
    /// The bytes received and not yet consumed.
    pub closed spec fn view(&self) -> Seq<u8> {
        self.frame.data@.subrange(0, self.written as int)
    }

    /// The free space after the contents, holding whatever was copied there.
    pub closed spec fn spare(&self) -> Seq<u8> {
        self.frame.data@.subrange(self.written as int, MAX_FRAME_LEN as int)
    }

    /// Whether the frame at the start was handed out and is yet to be dropped.
    pub closed spec fn pending(&self) -> bool {
        self.first_frame_returned
    }

    /// The contents after dropping a frame that was handed out.
    pub open spec fn flushed(&self) -> Seq<u8> {
        if self.pending() {
            after_returned(self.view())
        } else {
            self.view()
        }
    }

    pub closed spec fn wf(&self) -> bool {
        &&& self.written <= MAX_FRAME_LEN
        &&& self.first_frame_returned ==> 2 <= first_of(self.view(), FEND, 2) < self.written
    }

    /// An empty buffer.
    pub fn new() -> (r: Self)
        ensures
            r.wf(),
            r.view() == Seq::<u8>::empty(),
            !r.pending(),
    {
        let r = Self { frame: KissFrame::new_empty(), written: 0, first_frame_returned: false };
        assert(r.view() =~= Seq::<u8>::empty());
        r
    }

    /// Shift the contents from `idx` on to the front.
    fn move_to_start(&mut self, idx: usize)
        requires
            idx <= old(self).written <= MAX_FRAME_LEN,
        ensures
            final(self).written == old(self).written - idx,
            final(self).view() == old(self).view().subrange(idx as int, old(self).written as int),
            final(self).first_frame_returned == old(self).first_frame_returned,
    {
        let ghost c = self.view();
        let mut i: usize = idx;
        while i < self.written
            invariant
                idx <= i <= self.written <= MAX_FRAME_LEN,
                self.written == old(self).written,
                self.first_frame_returned == old(self).first_frame_returned,
                c == old(self).view(),
                forall|k: int| 0 <= k < i - idx ==> self.frame.data@[k] == c[k + idx],
                forall|k: int| i <= k < self.written ==> self.frame.data@[k] == c[k],
            decreases self.written - i,
        {
            let b = self.frame.data[i];
            self.frame.data[i - idx] = b;
            i = i + 1;
        }
        self.written = self.written - idx;
        assert(self.view() =~= c.subrange(idx as int, old(self).written as int));
    }

    /// Drop a frame that was handed out, if any.
    fn flush_first_frame(&mut self)
        requires
            old(self).wf(),
        ensures
            final(self).wf(),
            !final(self).pending(),
            final(self).view() == old(self).flushed(),
    {
        if !self.first_frame_returned {
            return;
        }
        self.first_frame_returned = false;
        let ghost c = self.view();
        proof {
            lemma_first_of_bounds(c, FEND, 2);
        }
        let i = find_of(&self.frame.data, FEND, 2, self.written);
        let j = find_not(&self.frame.data, FEND, i + 1, self.written);
        proof {
            lemma_first_not_bounds(c, FEND, i + 1);
        }
        self.move_to_start(j - 1);
    }

    /// Free space: flushes a frame that was handed out, and if the buffer is
    /// full without a frame in it, discards everything to resynchronise.
    pub fn buf_remaining(&mut self) -> (r: usize)
        requires
            old(self).wf(),
        ensures
            final(self).wf(),
            !final(self).pending(),
            old(self).flushed().len() <= MAX_FRAME_LEN,
            old(self).flushed().len() == MAX_FRAME_LEN ==> final(self).view() == Seq::<u8>::empty(),
            old(self).flushed().len() < MAX_FRAME_LEN ==> final(self).view() == old(self).flushed(),
            r == MAX_FRAME_LEN - final(self).view().len(),
    {
        self.flush_first_frame();
        if self.written == MAX_FRAME_LEN {
            self.written = 0;
            assert(self.view() =~= Seq::<u8>::empty());
        }
        MAX_FRAME_LEN - self.written
    }

    /// Copy `bytes` into the free space, `offset` bytes past the contents.
    /// They become part of the contents only through `did_write`.
    pub fn write_remaining(&mut self, offset: usize, bytes: &[u8])
        requires
            old(self).wf(),
            old(self).view().len() + offset + bytes@.len() <= MAX_FRAME_LEN,
        ensures
            final(self).wf(),
            final(self).view() == old(self).view(),
            final(self).pending() == old(self).pending(),
            final(self).spare().subrange(offset as int, offset + bytes@.len()) == bytes@,
    {
        let start = self.written + offset;
        let ghost c = self.view();
        let mut k: usize = 0;
        while k < bytes.len()
            invariant
                start == self.written + offset,
                start + bytes@.len() <= MAX_FRAME_LEN,
                self.written == old(self).written,
                self.first_frame_returned == old(self).first_frame_returned,
                c == old(self).view(),
                0 <= k <= bytes@.len(),
                forall|q: int| 0 <= q < self.written ==> self.frame.data@[q] == c[q],
                forall|q: int| 0 <= q < k ==> self.frame.data@[start + q] == bytes@[q],
            decreases bytes@.len() - k,
        {
            self.frame.data[start + k] = bytes[k];
            k = k + 1;
        }
        assert(self.view() =~= c);
        assert(self.spare().subrange(offset as int, offset + bytes@.len()) =~= bytes@);
    }

    /// Add `len` bytes, already copied into the free space, to the contents.
    pub fn did_write(&mut self, len: usize)
        requires
            old(self).wf(),
            old(self).view().len() + len <= MAX_FRAME_LEN,
        ensures
            final(self).wf(),
            final(self).pending() == old(self).pending(),
            final(self).view() == old(self).view() + old(self).spare().subrange(0, len as int),
    {
        let ghost c = self.view();
        self.written = self.written + len;
        assert(self.view() =~= c + old(self).spare().subrange(0, len as int));
        proof {
            if self.first_frame_returned {
                assert(self.view().subrange(0, c.len() as int) =~= c);
                lemma_first_of_extend(c, self.view(), 2);
            }
        }
    }

    /// The next frame in the buffer, if a whole one has arrived.
    pub fn next_frame(&mut self) -> (r: Option<KissFrame>)
        requires
            old(self).wf(),
        ensures
            final(self).wf(),
            final(self).view() == aligned(old(self).flushed()),
            final(self).view().len() <= old(self).view().len(),
            old(self).pending() ==> final(self).view().len() + 2 <= old(self).view().len(),
            final(self).pending() == r is Some,
            leading_frame_len(aligned(old(self).flushed())) > 0 <==> r is Some,
            r is None ==> leading_frame_len(final(self).view()) == 0,
            r is Some ==> r->Some_0.len <= MAX_FRAME_LEN,
            r is Some ==> r->Some_0.len == leading_frame_len(aligned(old(self).flushed()))
                && r->Some_0.bytes() == aligned(old(self).flushed()).subrange(
                0,
                leading_frame_len(aligned(old(self).flushed())),
            ),
    {
        proof {
            if self.first_frame_returned {
                lemma_first_of_bounds(self.view(), FEND, 2);
                lemma_first_not_bounds(self.view(), FEND, first_of(self.view(), FEND, 2) + 1);
            }
        }
        self.flush_first_frame();
        let ghost c0 = self.view();
        proof {
            lemma_first_of_bounds(c0, FEND, 0);
        }
        let g = find_of(&self.frame.data, FEND, 0, self.written);
        self.move_to_start(g);
        let ghost c1 = self.view();
        if self.written > 0 {
            proof {
                lemma_first_not_bounds(c1, FEND, 1);
            }
            let k = find_not(&self.frame.data, FEND, 1, self.written);
            self.move_to_start(k - 1);
        }
        let ghost c2 = self.view();
        assert(c2 == aligned(c0));
        proof {
            if c2.len() >= 2 {
                lemma_first_of_bounds(c2, FEND, 2);
            }
        }
        if self.written >= 2 && self.frame.data[0] == FEND && self.frame.data[1] != FEND {
            let m = find_of(&self.frame.data, FEND, 2, self.written);
            proof {
                lemma_first_of_bounds(c2, FEND, 2);
            }
            if m < self.written {
                self.frame.len = m + 1;
                self.first_frame_returned = true;
                assert(self.frame.bytes() =~= c2.subrange(0, m + 1));
                return Some(self.frame);
            }
        }
        None
    }
}

/// A run of `n` FENDs.
pub open spec fn fend_run(n: nat) -> Seq<u8> {
    Seq::new(n, |i: int| FEND)
}

/// Whether `f` can stand between two FENDs as a frame: not empty, no FEND.
pub open spec fn frame_body(f: Seq<u8>) -> bool {
    f.len() > 0 && forall|i: int| 0 <= i < f.len() ==> f[i] != FEND
}

pub(crate) proof fn lemma_first_of_at(s: Seq<u8>, b: u8, from: int, k: int)
    requires
        0 <= from <= k <= s.len(),
        k < s.len() ==> s[k] == b,
        forall|j: int| from <= j < k ==> s[j] != b,
    ensures
        first_of(s, b, from) == k,
    decreases k - from,
{
    if from < k {
        lemma_first_of_at(s, b, from + 1, k);
    }
}

pub(crate) proof fn lemma_first_not_at(s: Seq<u8>, b: u8, from: int, k: int)
    requires
        0 <= from <= k <= s.len(),
        k < s.len() ==> s[k] != b,
        forall|j: int| from <= j < k ==> s[j] == b,
    ensures
        first_not(s, b, from) == k,
    decreases k - from,
{
    if from < k {
        lemma_first_not_at(s, b, from + 1, k);
    }
}

/// Contents that start with one FEND, then a frame body, then at least one
/// FEND, then `rest`: the frame is found and handed out, and dropping it
/// leaves one FEND followed by `rest` without its leading FENDs.
proof fn lemma_one_frame(f: Seq<u8>, b: nat, rest: Seq<u8>)
    requires
        frame_body(f),
        b >= 1,
        rest.len() == 0 || rest[0] != FEND,
    ensures
        ({
            let t = seq![FEND] + f + fend_run(b) + rest;
            &&& aligned(t) == t
            &&& leading_frame_len(t) == f.len() + 2
            &&& t.subrange(0, f.len() as int + 2) == seq![FEND] + f + seq![FEND]
            &&& after_returned(t) == seq![FEND] + rest
        }),
{
    let t = seq![FEND] + f + fend_run(b) + rest;
    let n = f.len() as int;
    assert(t[0] == FEND);
    assert forall|j: int| 1 <= j <= n implies t[j] == f[j - 1] by {}
    assert forall|j: int| n + 1 <= j < n + 1 + b implies t[j] == FEND by {}
    lemma_first_of_at(t, FEND, 0, 0);
    assert(t.subrange(0, t.len() as int) =~= t);
    lemma_first_not_at(t, FEND, 1, 1);
    assert(t.subrange(0, t.len() as int) =~= t);
    lemma_first_of_at(t, FEND, 2, n + 1);
    assert(t.subrange(0, n + 2) =~= seq![FEND] + f + seq![FEND]);
    let k = n + 1 + b;
    if rest.len() > 0 {
        assert(t[k] == rest[0]);
    }
    lemma_first_not_at(t, FEND, n + 2, k);
    assert(t.subrange(k - 1, t.len() as int) =~= seq![FEND] + rest);
}

/// Feeding `FEND^a f1 FEND^b f2 FEND^c` into the buffer at once yields
/// exactly the frames `FEND f1 FEND` and `FEND f2 FEND`, in that order, and
/// then nothing: stated over the steps that `next_frame` takes.
pub proof fn lemma_two_frames_in_order(a: nat, f1: Seq<u8>, b: nat, f2: Seq<u8>, c: nat)
    requires
        a >= 1,
        b >= 1,
        c >= 1,
        frame_body(f1),
        frame_body(f2),
    ensures
        ({
            let s = fend_run(a) + f1 + fend_run(b) + f2 + fend_run(c);
            let t1 = aligned(s);
            let t2 = aligned(after_returned(t1));
            let t3 = aligned(after_returned(t2));
            &&& t1.subrange(0, leading_frame_len(t1)) == seq![FEND] + f1 + seq![FEND]
            &&& t2.subrange(0, leading_frame_len(t2)) == seq![FEND] + f2 + seq![FEND]
            &&& leading_frame_len(t3) == 0
        }),
{
    let s = fend_run(a) + f1 + fend_run(b) + f2 + fend_run(c);
    let rest1 = f2 + fend_run(c);
    let t1 = seq![FEND] + f1 + fend_run(b) + rest1;
    // leading run of FENDs collapses to one
    assert(s[0] == FEND);
    lemma_first_of_at(s, FEND, 0, 0);
    assert(s.subrange(0, s.len() as int) =~= s);
    assert(s[a as int] == f1[0]);
    lemma_first_not_at(s, FEND, 1, a as int);
    assert(s.subrange(a - 1, s.len() as int) =~= t1);
    assert(aligned(s) == t1);
    lemma_one_frame(f1, b, rest1);
    let t2 = seq![FEND] + f2 + fend_run(c) + Seq::<u8>::empty();
    assert(seq![FEND] + rest1 =~= t2);
    lemma_one_frame(f2, c, Seq::<u8>::empty());
    assert(aligned(after_returned(t1)) == t2);
    let t3 = seq![FEND] + Seq::<u8>::empty();
    assert(after_returned(t2) == t3);
    lemma_first_of_at(t3, FEND, 0, 0);
    assert(t3.subrange(0, t3.len() as int) =~= t3);
    lemma_first_not_at(t3, FEND, 1, 1);
    assert(t3.subrange(0, 1) =~= t3);
    assert(aligned(t3) == t3);
}

/// The frames a KISS buffer hands out, in order, from contents `c` (the
/// frame at its start already handed out when `pending`), within `fuel`
/// calls of `next_frame`.
pub open spec fn buffer_frames(c: Seq<u8>, pending: bool, fuel: nat) -> Seq<Seq<u8>>
    decreases fuel,
{
    if fuel == 0 {
        seq![]
    } else {
        let a = aligned(if pending { after_returned(c) } else { c });
        let l = leading_frame_len(a);
        if l > 0 {
            seq![a.subrange(0, l)] + buffer_frames(a, true, (fuel - 1) as nat)
        } else {
            seq![]
        }
    }
}

/// A frame handed out from the start of aligned contents `a` has header byte
/// `a[1]` and the unescaped bytes up to its closing FEND as payload.
pub proof fn lemma_leading_frame(a: Seq<u8>, f: KissFrame)
    requires
        leading_frame_len(a) > 0,
        f.len == leading_frame_len(a),
        f.len <= MAX_FRAME_LEN,
        f.bytes() == a.subrange(0, f.len as int),
    ensures
        f.well_framed(),
        f.header_index() == 1,
        f.data@[1] == a[1],
        f.payload() == unescaped(a.subrange(2, f.len - 1)),
{
    let l = f.len as int;
    let d = f.data@;
    lemma_first_of_bounds(a, FEND, 2);
    assert(d.subrange(0, l) == a.subrange(0, l));
    assert forall|j: int| 0 <= j < l implies d[j] == a[j] by {
        assert(d.subrange(0, l)[j] == d[j]);
        assert(a.subrange(0, l)[j] == a[j]);
    }
    lemma_first_not_at(d, FEND, 0, 1);
    lemma_first_of_at(d, FEND, 2, l - 1);
    assert(d.subrange(2, l - 1) =~= a.subrange(2, l - 1));
}

impl KissBuffer {
    /// A buffer holding a handed-out frame is not empty.
    pub proof fn lemma_pending_nonempty(&self)
        requires
            self.wf(),
        ensures
            self.pending() ==> self.view().len() >= 3,
    {
    }
}

proof fn lemma_first_of_extend(c: Seq<u8>, d: Seq<u8>, from: int)
    requires
        0 <= from <= c.len() <= d.len(),
        d.subrange(0, c.len() as int) == c,
        first_of(c, FEND, from) < c.len(),
    ensures
        first_of(d, FEND, from) == first_of(c, FEND, from),
    decreases c.len() - from,
{
    assert(d[from] == d.subrange(0, c.len() as int)[from]);
    if c[from] != FEND {
        lemma_first_of_extend(c, d, from + 1);
    }
}

} // verus!
