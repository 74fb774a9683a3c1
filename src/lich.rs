//! The LICH that rides along with each stream frame: five bytes of the LSF
//! and a three-bit counter, protected by four extended Golay(24, 12) words.

use vstd::prelude::*;

verus! {

/// The 24-bit codeword that `cai_golay::extended::encode` gives for 12 data bits.
pub uninterp spec fn golay_codeword(data: u16) -> u32;

/// What `cai_golay::extended::decode` gives for a 24-bit word: the 12 data
/// bits and the number of corrected bits, or `None` when it cannot decode.
pub uninterp spec fn golay_decoded(word: u32) -> Option<(u16, usize)>;

/// Relies on `cai_golay::extended::encode`: a systematic encoder, so the
/// data bits stand above twelve parity bits in a 24-bit word. It panics on
/// more than 12 data bits.
#[verifier::external_body]
fn golay_encode(data: u16) -> (r: u32)
    requires
        data < 4096,
    ensures
        r == golay_codeword(data),
        r < 0x1000000,
        r >> 12u32 == data as u32,
{
    cai_golay::extended::encode(data)
}

/// Relies on `cai_golay::extended::decode`: nearest codeword with up to
/// three corrected bits, or `None`; a codeword has syndrome zero and gives
/// its own data with no correction. It panics on a word wider than 24 bits.
#[verifier::external_body]
fn golay_decode(word: u32) -> (r: Option<(u16, usize)>)
    requires
        word < 0x1000000,
    ensures
        r == golay_decoded(word),
        r is Some ==> r->Some_0.0 < 4096 && r->Some_0.1 <= 3,
        word == golay_codeword((word >> 12u32) as u16) ==> r == Some(((word >> 12u32) as u16, 0usize)),
{
    cai_golay::extended::decode(word)
}

/// The four 12-bit words that a LICH part and counter are split into.
pub open spec fn lich_words(counter: u8, part: Seq<u8>) -> Seq<u16> {
    seq![
        (((part[0] as u16) << 4u16) | ((part[1] as u16) >> 4u16)) as u16,
        (((part[1] as u16 & 0x000fu16) << 8u16) | part[2] as u16) as u16,
        (((part[3] as u16) << 4u16) | ((part[4] as u16) >> 4u16)) as u16,
        (((part[4] as u16 & 0x000fu16) << 8u16) | ((counter as u16) << 5u16)) as u16,
    ]
}

/// The three bytes of a 24-bit codeword, most significant first.
pub open spec fn codeword_bytes(w: u32) -> Seq<u8> {
    seq![(w >> 16u32) as u8, (w >> 8u32) as u8, w as u8]
}

/// The 12 bytes of an encoded LICH.
pub open spec fn lich_bytes(counter: u8, part: Seq<u8>) -> Seq<u8> {
    let w = lich_words(counter, part);
    codeword_bytes(golay_codeword(w[0])) + codeword_bytes(golay_codeword(w[1]))
        + codeword_bytes(golay_codeword(w[2])) + codeword_bytes(golay_codeword(w[3]))
}

/// The 24-bit word held in bytes `3 * i .. 3 * i + 3`.
pub open spec fn received_word(b: Seq<u8>, i: int) -> u32 {
    (((b[3 * i] as u32) << 16u32) | ((b[3 * i + 1] as u32) << 8u32) | (b[3 * i + 2] as u32)) as u32
}

/// The 48 data bits of four decoded words, first word on top.
pub open spec fn lich_value(d0: u16, d1: u16, d2: u16, d3: u16) -> u64 {
    ((d0 as u64) << 36u64) | ((d1 as u64) << 24u64) | ((d2 as u64) << 12u64) | (d3 as u64)
}

fn lich_word(counter: u8, part: &[u8; 5], i: usize) -> (r: u16)
    requires
        i < 4,
        counter < 8,
    ensures
        r == lich_words(counter, part@)[i as int],
        r < 4096,
{
    let p0 = part[0] as u16;
    let p1 = part[1] as u16;
    let p2 = part[2] as u16;
    let p3 = part[3] as u16;
    let p4 = part[4] as u16;
    let c = counter as u16;
    assert(p0 < 256 && p1 < 256 && p2 < 256 && p3 < 256 && p4 < 256 && c < 8 ==> ((p0 << 4u16) | (p1 >> 4u16)) < 4096
        && (((p1 & 0x000fu16) << 8u16) | p2) < 4096 && ((p3 << 4u16) | (p4 >> 4u16)) < 4096
        && (((p4 & 0x000fu16) << 8u16) | (c << 5u16)) < 4096) by (bit_vector);
    if i == 0 {
        (p0 << 4u16) | (p1 >> 4u16)
    } else if i == 1 {
        ((p1 & 0x000fu16) << 8u16) | p2
    } else if i == 2 {
        (p3 << 4u16) | (p4 >> 4u16)
    } else {
        ((p4 & 0x000fu16) << 8u16) | (c << 5u16)
    }
}

/// Encode a LICH part and its counter, 0 to 5, into 12 bytes.
pub fn encode_lich(counter: u8, part: &[u8; 5]) -> (r: [u8; 12])
    requires
        counter < 8,
    ensures
        r@ == lich_bytes(counter, part@),
        forall|i: int| 0 <= i < 4 ==> #[trigger] received_word(r@, i) == golay_codeword(lich_words(counter, part@)[i])
            && received_word(r@, i) >> 12u32 == lich_words(counter, part@)[i] as u32,
{
    let mut out = [0u8; 12];
    let mut i: usize = 0;
    while i < 4
        invariant
            0 <= i <= 4,
            counter < 8,
            forall|q: int| 0 <= q < 3 * i ==> out@[q] == lich_bytes(counter, part@)[q],
            forall|q: int| 0 <= q < i ==> #[trigger] received_word(out@, q) == golay_codeword(lich_words(counter, part@)[q])
                && received_word(out@, q) >> 12u32 == lich_words(counter, part@)[q] as u32,
        decreases 4 - i,
    {
        let w = lich_word(counter, part, i);
        let c = golay_encode(w);
        let ghost before = out@;
        out[3 * i] = (c >> 16u32) as u8;
        out[3 * i + 1] = (c >> 8u32) as u8;
        out[3 * i + 2] = c as u8;
        proof {
            let b0 = (c >> 16u32) as u8;
            let b1 = (c >> 8u32) as u8;
            let b2 = c as u8;
            assert((((b0 as u32) << 16u32) | ((b1 as u32) << 8u32) | (b2 as u32)) == c) by (bit_vector)
                requires c < 0x1000000u32, b0 == (c >> 16u32) as u8, b1 == (c >> 8u32) as u8, b2 == c as u8;
            assert(received_word(out@, i as int) == c);
            assert forall|q: int| 0 <= q < i implies #[trigger] received_word(out@, q) == received_word(before, q) by {}
        }
        proof {
            let words = lich_words(counter, part@);
            let l = lich_bytes(counter, part@);
            assert(l == codeword_bytes(golay_codeword(words[0])) + codeword_bytes(golay_codeword(words[1]))
                + codeword_bytes(golay_codeword(words[2])) + codeword_bytes(golay_codeword(words[3])));
            assert(l[3 * i] == codeword_bytes(c)[0]);
            assert(l[3 * i + 1] == codeword_bytes(c)[1]);
            assert(l[3 * i + 2] == codeword_bytes(c)[2]);
        }
        i = i + 1;
    }
    assert(out@ =~= lich_bytes(counter, part@));
    out
}

fn word_at(b: &[u8], i: usize) -> (r: u32)
    requires
        b@.len() == 12,
        i < 4,
    ensures
        r == received_word(b@, i as int),
        r < 0x1000000,
{
    let b0 = b[3 * i] as u32;
    let b1 = b[3 * i + 1] as u32;
    let b2 = b[3 * i + 2] as u32;
    assert(b0 < 256 && b1 < 256 && b2 < 256 ==> ((b0 << 16u32) | (b1 << 8u32) | b2) < 0x1000000) by (bit_vector);
    (b0 << 16u32) | (b1 << 8u32) | b2
}

/// Encoding then decoding a LICH gives back its counter and part: the
/// encoded words are codewords holding the packed data, which decoding
/// returns unchanged, and unpacking that data gives the counter and part.
pub proof fn lemma_lich_round_trip(counter: u8, part: Seq<u8>, coded: Seq<u8>)
    requires
        counter < 8,
        part.len() == 5,
        coded.len() == 12,
        forall|i: int| 0 <= i < 4 ==> #[trigger] received_word(coded, i) == golay_codeword(lich_words(counter, part)[i])
            && received_word(coded, i) >> 12u32 == lich_words(counter, part)[i] as u32,
    ensures
        forall|i: int| 0 <= i < 4 ==> #[trigger] received_word(coded, i) == golay_codeword(
            (received_word(coded, i) >> 12u32) as u16,
        ),
        ({
            let v = lich_value(
                (received_word(coded, 0) >> 12u32) as u16,
                (received_word(coded, 1) >> 12u32) as u16,
                (received_word(coded, 2) >> 12u32) as u16,
                (received_word(coded, 3) >> 12u32) as u16,
            );
            &&& (v as u8) >> 5u8 == counter
            &&& seq![(v >> 40u64) as u8, (v >> 32u64) as u8, (v >> 24u64) as u8, (v >> 16u64) as u8, (v >> 8u64) as u8] == part
        }),
{
    let w = lich_words(counter, part);
    assert forall|i: int| 0 <= i < 4 implies #[trigger] received_word(coded, i) == golay_codeword(
        (received_word(coded, i) >> 12u32) as u16,
    ) by {
        assert(((received_word(coded, i) >> 12u32) as u16) == w[i]);
    }
    let (p0, p1, p2, p3, p4) = (part[0], part[1], part[2], part[3], part[4]);
    let w0 = (((p0 as u16) << 4u16) | ((p1 as u16) >> 4u16)) as u16;
    let w1 = (((p1 as u16 & 0x000fu16) << 8u16) | p2 as u16) as u16;
    let w2 = (((p3 as u16) << 4u16) | ((p4 as u16) >> 4u16)) as u16;
    let w3 = (((p4 as u16 & 0x000fu16) << 8u16) | ((counter as u16) << 5u16)) as u16;
    assert(((received_word(coded, 0) >> 12u32) as u16) == w0);
    assert(((received_word(coded, 1) >> 12u32) as u16) == w1);
    assert(((received_word(coded, 2) >> 12u32) as u16) == w2);
    assert(((received_word(coded, 3) >> 12u32) as u16) == w3);
    let v = lich_value(w0, w1, w2, w3);
    assert((v as u8) >> 5u8 == counter && (v >> 40u64) as u8 == p0 && (v >> 32u64) as u8 == p1 && (v >> 24u64) as u8
        == p2 && (v >> 16u64) as u8 == p3 && (v >> 8u64) as u8 == p4) by (bit_vector)
        requires
            counter < 8,
            w0 == (((p0 as u16) << 4u16) | ((p1 as u16) >> 4u16)) as u16,
            w1 == (((p1 as u16 & 0x000fu16) << 8u16) | p2 as u16) as u16,
            w2 == (((p3 as u16) << 4u16) | ((p4 as u16) >> 4u16)) as u16,
            w3 == (((p4 as u16 & 0x000fu16) << 8u16) | ((counter as u16) << 5u16)) as u16,
            v == ((w0 as u64) << 36u64) | ((w1 as u64) << 24u64) | ((w2 as u64) << 12u64) | (w3 as u64),
    ;
    assert(seq![(v >> 40u64) as u8, (v >> 32u64) as u8, (v >> 24u64) as u8, (v >> 16u64) as u8, (v >> 8u64) as u8] =~= part);
}

/// Decode 12 LICH bytes into the counter and the five-byte part; `None` if
/// any of the four Golay words cannot be decoded.
pub fn decode_lich(type2_bits: &[u8]) -> (r: Option<(u8, [u8; 5])>)
    requires
        type2_bits@.len() == 12,
    ensures
        ({
            let b = type2_bits@;
            let ok = golay_decoded(received_word(b, 0)) is Some && golay_decoded(received_word(b, 1)) is Some
                && golay_decoded(received_word(b, 2)) is Some && golay_decoded(received_word(b, 3)) is Some;
            let v = lich_value(
                golay_decoded(received_word(b, 0))->Some_0.0,
                golay_decoded(received_word(b, 1))->Some_0.0,
                golay_decoded(received_word(b, 2))->Some_0.0,
                golay_decoded(received_word(b, 3))->Some_0.0,
            );
            &&& (forall|i: int| 0 <= i < 4 ==> #[trigger] received_word(b, i) == golay_codeword(
                (received_word(b, i) >> 12u32) as u16,
            )) ==> ok && v == lich_value(
                (received_word(b, 0) >> 12u32) as u16,
                (received_word(b, 1) >> 12u32) as u16,
                (received_word(b, 2) >> 12u32) as u16,
                (received_word(b, 3) >> 12u32) as u16,
            )
            &&& ok <==> r is Some
            &&& ok ==> r->Some_0.0 == (v as u8) >> 5u8 && r->Some_0.1@ == seq![
                (v >> 40u64) as u8,
                (v >> 32u64) as u8,
                (v >> 24u64) as u8,
                (v >> 16u64) as u8,
                (v >> 8u64) as u8,
            ]
        }),
{
    let d0 = match golay_decode(word_at(type2_bits, 0)) {
        Some((val, _)) => val,
        None => {
            return None;
        },
    };
    let d1 = match golay_decode(word_at(type2_bits, 1)) {
        Some((val, _)) => val,
        None => {
            return None;
        },
    };
    let d2 = match golay_decode(word_at(type2_bits, 2)) {
        Some((val, _)) => val,
        None => {
            return None;
        },
    };
    let d3 = match golay_decode(word_at(type2_bits, 3)) {
        Some((val, _)) => val,
        None => {
            return None;
        },
    };
    let v: u64 = ((d0 as u64) << 36u64) | ((d1 as u64) << 24u64) | ((d2 as u64) << 12u64) | (d3 as u64);
    let counter = (v as u8) >> 5u8;
    let part = [(v >> 40u64) as u8, (v >> 32u64) as u8, (v >> 24u64) as u8, (v >> 16u64) as u8, (v >> 8u64) as u8];
    assert(part@ =~= seq![(v >> 40u64) as u8, (v >> 32u64) as u8, (v >> 24u64) as u8, (v >> 16u64) as u8, (v >> 8u64) as u8]);
    Some((counter, part))
}

} // verus!
