//! M17 addresses: base-40 callsigns packed into 48 bits, plus the reserved and
//! broadcast ranges.

use vstd::prelude::*;
use vstd::arithmetic::div_mod::*;
use vstd::arithmetic::mul::*;
use vstd::arithmetic::power::*;

verus! {

/// A decoded 48-bit address.
#[derive(Debug, Clone, Copy, PartialEq, Eq)]
pub enum Address {
    Invalid,
    Callsign(Callsign),
    Reserved(u64),
    Broadcast,
}

/// ASCII representation of a callsign address: up to nine characters, padded
/// with spaces.
#[derive(Debug, Clone, Copy, PartialEq, Eq)]
pub struct Callsign(pub [u8; 9]);

/// The largest value that encodes a callsign: 40^9 - 1.
pub const MAX_CALLSIGN_VALUE: u64 = 0xEE6B27FFFFFF;

/// The broadcast address.
pub const BROADCAST_VALUE: u64 = 0xFFFFFFFFFFFF;

/// The character for base-40 digit `d`: space, A-Z, 0-9, '-', '/', '.'.
pub open spec fn alpha(d: int) -> u8 {
    if d == 0 {
        32u8
    } else if 1 <= d <= 26 {
        (64 + d) as u8
    } else if 27 <= d <= 36 {
        (48 + d - 27) as u8
    } else if d == 37 {
        45u8
    } else if d == 38 {
        47u8
    } else {
        46u8
    }
}

/// The base-40 digit of character `c`, if it is in the alphabet.
pub open spec fn alpha_index(c: u8) -> Option<int> {
    if c == 32 {
        Some(0)
    } else if 65 <= c <= 90 {
        Some(c - 64)
    } else if 48 <= c <= 57 {
        Some(c - 48 + 27)
    } else if c == 45 {
        Some(37)
    } else if c == 47 {
        Some(38)
    } else if c == 46 {
        Some(39)
    } else {
        None
    }
}

/// ASCII upper-casing of one byte.
pub open spec fn upper(c: u8) -> u8 {
    if 97 <= c <= 122 {
        (c - 32) as u8
    } else {
        c
    }
}

pub open spec fn pow40(i: nat) -> int {
    pow(40, i)
}

/// The nine characters that a callsign value decodes to: character `i` is
/// base-40 digit `i` of the value, least significant first.
pub open spec fn base40_chars(v: nat) -> Seq<u8> {
    Seq::new(9, |i: int| alpha((v as int / pow40(i as nat)) % 40))
}

/// The value a sequence of callsign characters encodes to. The last character
/// is the most significant digit; characters outside the alphabet (after
/// upper-casing) are skipped.
pub open spec fn base40_value(s: Seq<u8>) -> nat
    decreases s.len(),
{
    if s.len() == 0 {
        0
    } else {
        let rest = base40_value(s.drop_first());
        match alpha_index(upper(s[0])) {
            Some(d) => (rest * 40 + d) as nat,
            None => rest,
        }
    }
}

/// Six bytes read as a big-endian 48-bit integer.
pub open spec fn be48(b: Seq<u8>) -> u64 {
    ((b[0] as u64) << 40u64) | ((b[1] as u64) << 32u64) | ((b[2] as u64) << 24u64)
        | ((b[3] as u64) << 16u64) | ((b[4] as u64) << 8u64) | (b[5] as u64)
}

/// The 48-bit value an address encodes to.
pub open spec fn address_value(a: Address) -> u64 {
    match a {
        Address::Invalid => 0,
        Address::Callsign(c) => base40_value(c.0@) as u64,
        Address::Reserved(m) => m,
        Address::Broadcast => BROADCAST_VALUE,
    }
}

/// A callsign that survives an encode/decode round trip: every byte is in
/// the alphabet and not all of them are spaces.
pub open spec fn well_formed_callsign(c: Callsign) -> bool {
    &&& forall|i: int| 0 <= i < 9 ==> (#[trigger] alpha_index(c.0@[i])) is Some
    &&& exists|i: int| 0 <= i < 9 && #[trigger] c.0@[i] != 32u8
}

/// What a 48-bit value decodes to.
pub open spec fn decoded_address(v: u64, a: Address) -> bool {
    if v == 0 {
        a is Invalid
    } else if v <= MAX_CALLSIGN_VALUE {
        a is Callsign && a->Callsign_0.0@ == base40_chars(v as nat)
    } else if v < BROADCAST_VALUE {
        a == Address::Reserved(v)
    } else {
        a is Broadcast
    }
}

fn alphabet_char(d: u64) -> (c: u8)
    requires
        d < 40,
    ensures
        c == alpha(d as int),
{
    if d == 0 {
        32u8
    } else if d <= 26 {
        (64 + d) as u8
    } else if d <= 36 {
        (48 + d - 27) as u8
    } else if d == 37 {
        45u8
    } else if d == 38 {
        47u8
    } else {
        46u8
    }
}

fn alphabet_index(c: u8) -> (r: Option<u64>)
    ensures
        match alpha_index(c) {
            Some(d) => r == Some(d as u64),
            None => r is None,
        },
{
    if c == 32u8 {
        Some(0)
    } else if 65u8 <= c && c <= 90u8 {
        Some((c - 64) as u64)
    } else if 48u8 <= c && c <= 57u8 {
        Some((c - 48 + 27) as u64)
    } else if c == 45u8 {
        Some(37)
    } else if c == 47u8 {
        Some(38)
    } else if c == 46u8 {
        Some(39)
    } else {
        None
    }
}

fn to_upper(c: u8) -> (r: u8)
    ensures
        r == upper(c),
{
    if 97u8 <= c && c <= 122u8 {
        c - 32
    } else {
        c
    }
}

proof fn lemma_pow40_succ(i: nat)
    ensures
        pow40(i + 1) == 40 * pow40(i),
        pow40(i) > 0,
{
    reveal(pow);
    lemma_pow_positive(40, i);
}

proof fn lemma_base40_value_bound(s: Seq<u8>)
    ensures
        base40_value(s) < pow40(s.len()),
    decreases s.len(),
{
    reveal(pow);
    if s.len() > 0 {
        lemma_base40_value_bound(s.drop_first());
        lemma_pow40_succ((s.len() - 1) as nat);
        let rest = base40_value(s.drop_first());
        let p = pow40((s.len() - 1) as nat);
        assert(rest * 40 + 39 < 40 * p) by (nonlinear_arith)
            requires rest < p;
    } else {
        assert(pow40(0) == 1);
    }
}

proof fn lemma_pow40_9()
    ensures
        pow40(9) == MAX_CALLSIGN_VALUE + 1,
{
    reveal_with_fuel(pow, 10);
}

fn decode_base_40(encoded: u64) -> (c: Callsign)
    requires
        encoded <= MAX_CALLSIGN_VALUE,
    ensures
        c.0@ == base40_chars(encoded as nat),
{
    let mut callsign = Callsign([32u8; 9]);
    let mut rest: u64 = encoded;
    let mut pos: usize = 0;
    proof {
        lemma_pow40_9();
        reveal(pow);
    }
    while rest > 0
        invariant
            pos <= 9,
            rest as int == encoded as int / pow40(pos as nat),
            pow40(9) == MAX_CALLSIGN_VALUE + 1,
            encoded <= MAX_CALLSIGN_VALUE,
            forall|i: int| 0 <= i < pos ==> callsign.0@[i] == base40_chars(encoded as nat)[i],
            forall|i: int| pos <= i < 9 ==> callsign.0@[i] == 32u8,
        decreases rest,
    {
        proof {
            if pos >= 9 {
                lemma_pow_increases(40, 9, pos as nat);
                lemma_pow_positive(40, pos as nat);
                lemma_div_pos_is_pos(encoded as int, pow40(pos as nat));
                lemma_basic_div(encoded as int, pow40(pos as nat));
            }
        }
        callsign.0[pos] = alphabet_char(rest % 40);
        proof {
            lemma_pow40_succ(pos as nat);
            lemma_pow_positive(40, pos as nat);
            lemma_div_denominator(encoded as int, pow40(pos as nat), 40);
        }
        rest = rest / 40;
        pos = pos + 1;
    }
    proof {
        assert forall|i: int| pos <= i < 9 implies base40_chars(encoded as nat)[i] == 32u8 by {
            lemma_pow_increases(40, pos as nat, i as nat);
            lemma_pow_positive(40, pos as nat);
            lemma_pow_positive(40, i as nat);
            lemma_pow40_rest_zero(encoded as int, pos as nat, i as nat);
        }
    }
    assert(callsign.0@ =~= base40_chars(encoded as nat));
    callsign
}

proof fn lemma_pow40_rest_zero(v: int, pos: nat, i: nat)
    requires
        v >= 0,
        pos <= i,
        v / pow40(pos) == 0,
        pow40(pos) <= pow40(i),
        pow40(pos) > 0,
    ensures
        (v / pow40(i)) % 40 == 0,
{
    lemma_div_is_ordered_by_denominator(v, pow40(pos), pow40(i));
    lemma_div_pos_is_pos(v, pow40(i));
}

/// Decode a 48-bit big-endian address.
pub fn decode_address(encoded: [u8; 6]) -> (a: Address)
    ensures
        decoded_address(be48(encoded@), a),
{
    let full: u64 = ((encoded[0] as u64) << 40u64) | ((encoded[1] as u64) << 32u64)
        | ((encoded[2] as u64) << 24u64) | ((encoded[3] as u64) << 16u64)
        | ((encoded[4] as u64) << 8u64) | (encoded[5] as u64);
    if full == 0 {
        Address::Invalid
    } else if full <= MAX_CALLSIGN_VALUE {
        Address::Callsign(decode_base_40(full))
    } else if full < BROADCAST_VALUE {
        Address::Reserved(full)
    } else {
        Address::Broadcast
    }
}

/// The low 48 bits of `v` as six big-endian bytes.
pub open spec fn be48_bytes(v: u64) -> Seq<u8> {
    seq![
        (v >> 40u64) as u8,
        (v >> 32u64) as u8,
        (v >> 24u64) as u8,
        (v >> 16u64) as u8,
        (v >> 8u64) as u8,
        v as u8,
    ]
}

fn callsign_value(call: &Callsign) -> (v: u64)
    ensures
        v == base40_value(call.0@),
{
    let mut out: u64 = 0;
    let mut i: usize = 9;
    proof {
        lemma_pow40_9();
    }
    while i > 0
        invariant
            i <= 9,
            out == base40_value(call.0@.subrange(i as int, 9)),
            pow40(9) == MAX_CALLSIGN_VALUE + 1,
        decreases i,
    {
        let ghost tail = call.0@.subrange(i as int - 1, 9);
        proof {
            assert(tail.drop_first() =~= call.0@.subrange(i as int, 9));
            lemma_base40_value_bound(tail);
            lemma_pow_increases(40, tail.len(), 9);
        }
        let c = to_upper(call.0[i - 1]);
        match alphabet_index(c) {
            Some(pos) => {
                out = out * 40 + pos;
            },
            None => {},
        }
        i = i - 1;
    }
    assert(call.0@.subrange(0, 9) =~= call.0@);
    out
}

/// Encode an address as six big-endian bytes.
pub fn encode_address(address: &Address) -> (r: [u8; 6])
    ensures
        r@ == be48_bytes(address_value(*address)),
{
    let out: u64 = match address {
        Address::Invalid => 0,
        Address::Callsign(call) => callsign_value(call),
        Address::Reserved(m) => *m,
        Address::Broadcast => BROADCAST_VALUE,
    };
    let r = [
        (out >> 40u64) as u8,
        (out >> 32u64) as u8,
        (out >> 24u64) as u8,
        (out >> 16u64) as u8,
        (out >> 8u64) as u8,
        out as u8,
    ];
    assert(r@ =~= be48_bytes(out));
    r
}

proof fn lemma_base40_digits(s: Seq<u8>, i: int)
    requires
        0 <= i < s.len(),
        forall|j: int| 0 <= j < s.len() ==> (#[trigger] alpha_index(s[j])) is Some,
    ensures
        (base40_value(s) as int / pow40(i as nat)) % 40 == alpha_index(s[i])->Some_0,
    decreases s.len(),
{
    let v = base40_value(s) as int;
    let rest = base40_value(s.drop_first()) as int;
    let d = alpha_index(s[0])->Some_0;
    assert(alpha_index(s[0]) is Some);
    assert(upper(s[0]) == s[0]);
    assert(v == rest * 40 + d);
    lemma_fundamental_div_mod_converse(v, 40, rest, d);
    if i == 0 {
        reveal(pow);
        assert(pow40(0) == 1);
    } else {
        assert forall|j: int| 0 <= j < s.drop_first().len() implies (#[trigger] alpha_index(
            s.drop_first()[j],
        )) is Some by {
            assert(s.drop_first()[j] == s[j + 1]);
        }
        lemma_base40_digits(s.drop_first(), i - 1);
        lemma_pow40_succ((i - 1) as nat);
        lemma_pow_positive(40, (i - 1) as nat);
        lemma_div_denominator(v, 40, pow40((i - 1) as nat));
        assert(pow40(i as nat) == 40 * pow40((i - 1) as nat));
        assert(v / (40 * pow40((i - 1) as nat)) == (v / 40) / pow40((i - 1) as nat));
    }
}

proof fn lemma_be48_of_bytes(v: u64)
    ensures
        be48(be48_bytes(v)) == v & 0xFFFFFFFFFFFFu64,
{
    let b = be48_bytes(v);
    let b0 = (v >> 40u64) as u8;
    let b1 = (v >> 32u64) as u8;
    let b2 = (v >> 24u64) as u8;
    let b3 = (v >> 16u64) as u8;
    let b4 = (v >> 8u64) as u8;
    let b5 = v as u8;
    assert(b[0] == b0 && b[1] == b1 && b[2] == b2 && b[3] == b3 && b[4] == b4 && b[5] == b5);
    assert((((b0 as u64) << 40u64) | ((b1 as u64) << 32u64) | ((b2 as u64) << 24u64) | ((
    b3 as u64) << 16u64) | ((b4 as u64) << 8u64) | (b5 as u64)) == v & 0xFFFFFFFFFFFFu64)
        by (bit_vector)
        requires
            b0 == (v >> 40u64) as u8,
            b1 == (v >> 32u64) as u8,
            b2 == (v >> 24u64) as u8,
            b3 == (v >> 16u64) as u8,
            b4 == (v >> 8u64) as u8,
            b5 == v as u8,
    ;
}

/// Encoding then decoding gives back every well-formed callsign, and the
/// broadcast address.
pub proof fn lemma_address_round_trip(a: Address, r: Address)
    requires
        a is Broadcast || (a is Callsign && well_formed_callsign(a->Callsign_0)),
        decoded_address(be48(be48_bytes(address_value(a))), r),
    ensures
        r == a,
{
    let v = address_value(a);
    lemma_be48_of_bytes(v);
    if a is Broadcast {
        assert(BROADCAST_VALUE & 0xFFFFFFFFFFFFu64 == BROADCAST_VALUE) by (bit_vector);
    } else {
        let c = a->Callsign_0;
        let s = c.0@;
        lemma_base40_value_bound(s);
        lemma_pow40_9();
        let n = base40_value(s);
        assert(v == n);
        assert(v & 0xFFFFFFFFFFFFu64 == v) by (bit_vector)
            requires v <= MAX_CALLSIGN_VALUE;
        assert forall|i: int| 0 <= i < 9 implies #[trigger] base40_chars(n)[i] == s[i] by {
            lemma_base40_digits(s, i);
        }
        let i0 = choose|i: int| 0 <= i < 9 && #[trigger] s[i] != 32u8;
        lemma_base40_digits(s, i0);
        if n == 0 {
            lemma_pow_positive(40, i0 as nat);
            assert(0int / pow40(i0 as nat) == 0);
        }
        assert(base40_chars(n) =~= s);
        assert(r->Callsign_0.0 =~= c.0);
    }
}

} // verus!
