//! Rate 1/2, constraint length 5 convolutional code with the three M17
//! puncturing schedules, and its Viterbi decoder.

use vstd::prelude::*;
use crate::bits::{bit_of, get_bit, set_bit, lemma_set_then_get};

verus! {

/// Puncturing schedule: P1 for the LSF, P2 for stream frames, P3 for
/// packet frames.
#[derive(Debug, Clone, Copy, PartialEq, Eq)]
pub enum Puncture {
    P1,
    P2,
    P3,
}

/// Whether the first and the second output bit of step `step` are kept.
pub open spec fn keeps(p: Puncture, step: int) -> (bool, bool) {
    match p {
        Puncture::P1 => {
            let m = step % 61;
            (m > 30 || m % 2 == 0, m < 30 || m % 2 == 0)
        },
        Puncture::P2 => (true, step % 6 != 5),
        Puncture::P3 => (true, step % 4 != 3),
    }
}

/// How many bits step `step` emits.
pub open spec fn kept_count(p: Puncture, step: int) -> int {
    (if keeps(p, step).0 { 1int } else { 0int }) + (if keeps(p, step).1 { 1int } else { 0int })
}

/// The first generator: parity of the input bit and bits 1 and 0 of the state.
pub open spec fn g1_of(b: u8, s: u8) -> u8 {
    (b ^ ((s & 2u8) >> 1u8) ^ (s & 1u8)) & 1u8
}

/// The second generator: parity of the input bit and bits 3, 2 and 0 of the state.
pub open spec fn g2_of(b: u8, s: u8) -> u8 {
    (b ^ ((s & 8u8) >> 3u8) ^ ((s & 4u8) >> 2u8) ^ (s & 1u8)) & 1u8
}

/// Input bit `t` of the encoder: the data bits, then four zero flush bits.
pub open spec fn input_bit(data: Seq<u8>, input_len: int, t: int) -> u8 {
    if t < input_len {
        bit_of(data, t)
    } else {
        0
    }
}

/// The encoder state before step `t`: the last four input bits, newest on top.
pub open spec fn enc_state(data: Seq<u8>, input_len: int, t: nat) -> u8
    decreases t,
{
    if t == 0 {
        0
    } else {
        let s = enc_state(data, input_len, (t - 1) as nat);
        ((s >> 1u8) | (input_bit(data, input_len, t - 1) << 3u8)) as u8
    }
}

/// The bits emitted at step `t`.
pub open spec fn step_bits(data: Seq<u8>, input_len: int, p: Puncture, t: int) -> Seq<u8> {
    let b = input_bit(data, input_len, t);
    let s = enc_state(data, input_len, t as nat);
    (if keeps(p, t).0 { seq![g1_of(b, s)] } else { seq![] }) + (if keeps(p, t).1 {
        seq![g2_of(b, s)]
    } else {
        seq![]
    })
}

/// The bits emitted in the first `t` steps.
pub open spec fn encoded_bits(data: Seq<u8>, input_len: int, p: Puncture, t: nat) -> Seq<u8>
    decreases t,
{
    if t == 0 {
        seq![]
    } else {
        encoded_bits(data, input_len, p, (t - 1) as nat) + step_bits(data, input_len, p, t - 1)
    }
}

/// Number of output bits an encoded frame holds.
pub const TYPE3_BITS: usize = 368;

fn keeps_exec(p: Puncture, step: usize) -> (r: (bool, bool))
    ensures
        r == keeps(p, step as int),
{
    match p {
        Puncture::P1 => {
            let m = step % 61;
            (m > 30 || m % 2 == 0, m < 30 || m % 2 == 0)
        },
        Puncture::P2 => (true, step % 6 != 5),
        Puncture::P3 => (true, step % 4 != 3),
    }
}

proof fn lemma_bit_range(s: Seq<u8>, i: int)
    requires
        0 <= i,
        i / 8 < s.len(),
    ensures
        bit_of(s, i) <= 1,
{
    let b = s[i / 8];
    let k = (7 - i % 8) as u8;
    assert((b >> k) & 1u8 <= 1) by (bit_vector);
}

proof fn lemma_step_bits_len(data: Seq<u8>, input_len: int, p: Puncture, t: int)
    ensures
        step_bits(data, input_len, p, t).len() == kept_count(p, t),
{
}

/// Convolutionally encode the first `input_len` bits of `type1`, then four
/// flush bits, punctured by `p`. Output bits past the 368 of a frame are
/// dropped; unused ones are zero.
pub fn encode(type1: &[u8], input_len: usize, p: Puncture) -> (r: [u8; 46])
    requires
        input_len <= 8 * type1@.len(),
        input_len <= 240,
    ensures
        ({
            let bits = encoded_bits(type1@, input_len as int, p, (input_len + 4) as nat);
            &&& forall|i: int| 0 <= i < TYPE3_BITS && i < bits.len() ==> bit_of(r@, i) == bits[i]
            &&& forall|i: int| bits.len() <= i < TYPE3_BITS ==> bit_of(r@, i) == 0
        }),
{
    let mut out = [0u8; 46];
    assert forall|i: int| 0 <= i < TYPE3_BITS implies bit_of(out@, i) == 0 by {
        let k = (7 - i % 8) as u8;
        assert(out@[i / 8] == 0u8);
        assert((0u8 >> k) & 1u8 == 0u8) by (bit_vector);
    }
    let mut out_idx: usize = 0;
    let mut state: u8 = 0;
    let total = input_len + 4;
    let mut t: usize = 0;
    while t < total
        invariant
            0 <= t <= total == input_len + 4,
            input_len <= 8 * type1@.len(),
            input_len <= 240,
            out_idx <= 2 * t,
            state == enc_state(type1@, input_len as int, t as nat),
            state < 16,
            out_idx == encoded_bits(type1@, input_len as int, p, t as nat).len(),
            forall|i: int| 0 <= i < TYPE3_BITS && i < out_idx ==> bit_of(out@, i) == encoded_bits(type1@, input_len as int, p, t as nat)[i],
            forall|i: int| out_idx <= i < TYPE3_BITS ==> bit_of(out@, i) == 0,
        decreases total - t,
    {
        let ghost prev_bits = encoded_bits(type1@, input_len as int, p, t as nat);
        let b: u8 = if t < input_len {
            proof {
                lemma_bit_range(type1@, t as int);
            }
            get_bit(type1, t)
        } else {
            0
        };
        assert(b == input_bit(type1@, input_len as int, t as int));
        let (use_g1, use_g2) = keeps_exec(p, t);
        let g1 = (b ^ ((state & 2u8) >> 1u8) ^ (state & 1u8)) & 1u8;
        let g2 = (b ^ ((state & 8u8) >> 3u8) ^ ((state & 4u8) >> 2u8) ^ (state & 1u8)) & 1u8;
        assert(((b ^ ((state & 2u8) >> 1u8) ^ (state & 1u8)) & 1u8) <= 1 && ((b ^ ((state & 8u8) >> 3u8) ^ ((state & 4u8) >> 2u8) ^ (state & 1u8)) & 1u8) <= 1) by (bit_vector);
        let ghost idx0 = out_idx;
        if use_g1 {
            self_set(&mut out, out_idx, g1);
            out_idx = out_idx + 1;
        }
        if use_g2 {
            self_set(&mut out, out_idx, g2);
            out_idx = out_idx + 1;
        }
        let ghost step = step_bits(type1@, input_len as int, p, t as int);
        assert(step =~= (if use_g1 { seq![g1] } else { seq![] }) + (if use_g2 { seq![g2] } else { seq![] }));
        assert(b <= 1 && state < 16 ==> ((state >> 1u8) | (b << 3u8)) < 16) by (bit_vector);
        state = (state >> 1u8) | (b << 3u8);
        t = t + 1;
        proof {
            let nb = encoded_bits(type1@, input_len as int, p, t as nat);
            assert(nb == prev_bits + step);
            assert forall|i: int| 0 <= i < TYPE3_BITS && i < out_idx implies bit_of(out@, i) == nb[i] by {
                if i >= idx0 {
                    assert(nb[i] == step[i - idx0]);
                }
            }
        }
    }
    out
}

/// Set bit `idx` of a frame buffer to `v`, if it lies within the frame.
fn self_set(out: &mut [u8; 46], idx: usize, v: u8)
    requires
        v <= 1,
    ensures
        forall|i: int| 0 <= i < TYPE3_BITS && i != idx ==> bit_of(final(out)@, i) == bit_of(old(out)@, i),
        idx < TYPE3_BITS ==> bit_of(final(out)@, idx as int) == v,
{
    if idx < TYPE3_BITS {
        let ghost before = out@;
        set_bit(out, idx, v);
        proof {
            assert forall|i: int| 0 <= i < TYPE3_BITS implies bit_of(out@, i) == if i == idx {
                if v != 0 { 1u8 } else { 0u8 }
            } else {
                bit_of(before, i)
            } by {
                lemma_set_then_get(before, idx as int, v != 0, i);
            }
        }
    }
}

/// Received bit `i`, zero past the end of the buffer.
pub open spec fn rx_bit(type3: Seq<u8>, i: int) -> u8 {
    if i / 8 < type3.len() {
        bit_of(type3, i)
    } else {
        0
    }
}

/// How many received bits step `step` consumes.
pub open spec fn consumed(p: Puncture, step: int) -> int {
    if keeps(p, step).0 && keeps(p, step).1 {
        2
    } else {
        1
    }
}

/// Position of the first received bit of step `step`.
pub open spec fn rx_pos(p: Puncture, step: nat) -> int
    decreases step,
{
    if step == 0 {
        0
    } else {
        rx_pos(p, (step - 1) as nat) + consumed(p, step - 1)
    }
}

/// Hamming distance between the bits received at `step` and those that
/// transition `t` (input bit `t / 16` from state `t % 16`) emits there.
pub open spec fn step_dist(type3: Seq<u8>, p: Puncture, step: nat, t: int) -> u8 {
    let pos = rx_pos(p, step);
    let b = (t / 16) as u8;
    let s = (t % 16) as u8;
    let d1: u8 = if rx_bit(type3, pos) != g1_of(b, s) { 1 } else { 0 };
    let d2: u8 = if rx_bit(type3, pos + 1) != g2_of(b, s) { 1 } else { 0 };
    let d2_alone: u8 = if rx_bit(type3, pos) != g2_of(b, s) { 1 } else { 0 };
    if keeps(p, step as int).0 && keeps(p, step as int).1 {
        (d1 + d2) as u8
    } else if keeps(p, step as int).0 {
        d1
    } else {
        d2_alone
    }
}

pub open spec fn sat_add(a: u8, b: u8) -> u8 {
    if a + b > 255 {
        255
    } else {
        (a + b) as u8
    }
}

pub open spec fn min_u8(a: u8, b: u8) -> u8 {
    if a <= b {
        a
    } else {
        b
    }
}

/// Viterbi path metric: the least distance, saturating at 255, of a path
/// from state 0 that ends with transition `t` at step `step`.
pub open spec fn path_metric(type3: Seq<u8>, p: Puncture, step: nat, t: int) -> u8
    decreases step,
{
    let s = t % 16;
    let prev = if step == 0 {
        if s == 0 {
            0u8
        } else {
            255u8
        }
    } else {
        min_u8(
            path_metric(type3, p, (step - 1) as nat, 2 * s),
            path_metric(type3, p, (step - 1) as nat, 2 * s + 1),
        )
    };
    sat_add(prev, step_dist(type3, p, step, t))
}

/// The first transition among the first `k` with the least metric at `step`.
pub open spec fn argmin_upto(type3: Seq<u8>, p: Puncture, step: nat, k: int) -> int
    decreases k,
{
    if k <= 1 {
        0
    } else {
        let a = argmin_upto(type3, p, step, k - 1);
        if path_metric(type3, p, step, k - 1) < path_metric(type3, p, step, a) {
            k - 1
        } else {
            a
        }
    }
}

/// The transition on the best path at `step`, traced back from the end of
/// `n` steps.
pub open spec fn trace(type3: Seq<u8>, p: Puncture, n: int, step: int) -> int
    decreases n - step,
{
    if step >= n - 1 {
        argmin_upto(type3, p, (n - 1) as nat, 32)
    } else {
        let s = trace(type3, p, n, step + 1) % 16;
        if path_metric(type3, p, step as nat, 2 * s) < path_metric(type3, p, step as nat, 2 * s + 1) {
            2 * s
        } else {
            2 * s + 1
        }
    }
}

/// Largest path metric that is accepted.
pub const MAX_SCORE: u8 = 6;

proof fn lemma_argmin_range(type3: Seq<u8>, p: Puncture, step: nat, k: int)
    requires
        1 <= k <= 32,
    ensures
        0 <= argmin_upto(type3, p, step, k) < k,
    decreases k,
{
    if k > 1 {
        lemma_argmin_range(type3, p, step, k - 1);
    }
}

proof fn lemma_trace_range(type3: Seq<u8>, p: Puncture, n: int, step: int)
    requires
        n >= 1,
    ensures
        0 <= trace(type3, p, n, step) < 32,
    decreases n - step,
{
    if step >= n - 1 {
        lemma_argmin_range(type3, p, (n - 1) as nat, 32);
    } else {
        lemma_trace_range(type3, p, n, step + 1);
    }
}

fn rx_bit_exec(type3: &[u8], i: usize) -> (r: u8)
    ensures
        r == rx_bit(type3@, i as int),
        r <= 1,
{
    if i / 8 < type3.len() {
        proof {
            lemma_bit_range(type3@, i as int);
        }
        get_bit(type3, i)
    } else {
        0
    }
}

/// Viterbi-decode `input_len` data bits, punctured by `p`. `None` when the
/// best path metric exceeds 6; otherwise the data bits along the best path.
pub fn decode(type3: &[u8], input_len: usize, p: Puncture) -> (r: Option<[u8; 30]>)
    requires
        1 <= input_len <= 240,
    ensures
        ({
            let n = input_len + 4;
            let best = argmin_upto(type3@, p, (n - 1) as nat, 32);
            &&& r is Some <==> path_metric(type3@, p, (n - 1) as nat, best) <= MAX_SCORE
            &&& r is Some ==> (forall|i: int| 0 <= i < input_len ==> bit_of(r->Some_0@, i) == trace(type3@, p, n, i) / 16)
            &&& r is Some ==> (forall|i: int| input_len <= i < 240 ==> bit_of(r->Some_0@, i) == 0)
        }),
{
    let n = input_len + 4;
    let mut table = [0u8; 7808];
    let mut step: usize = 0;
    let mut pos: usize = 0;
    while step < n
        invariant
            0 <= step <= n == input_len + 4 <= 244,
            pos == rx_pos(p, step as nat),
            pos <= 2 * step,
            forall|st: int, t: int| 0 <= st < step && 0 <= t < 32 ==> #[trigger] table@[st * 32 + t] == path_metric(type3@, p, st as nat, t),
        decreases n - step,
    {
        let (k1, k2) = keeps_exec(p, step);
        let r0 = rx_bit_exec(type3, pos);
        let r1 = rx_bit_exec(type3, pos + 1);
        let mut t: usize = 0;
        while t < 32
            invariant
                0 <= step < n <= 244,
                0 <= t <= 32,
                pos == rx_pos(p, step as nat),
                (k1, k2) == keeps(p, step as int),
                r0 == rx_bit(type3@, pos as int),
                r1 == rx_bit(type3@, pos + 1),
                forall|st: int, q: int| 0 <= st < step && 0 <= q < 32 ==> #[trigger] table@[st * 32 + q] == path_metric(type3@, p, st as nat, q),
                forall|q: int| 0 <= q < t ==> #[trigger] table@[step * 32 + q] == path_metric(type3@, p, step as nat, q),
            decreases 32 - t,
        {
            let b = (t / 16) as u8;
            let s = (t % 16) as u8;
            let g1 = (b ^ ((s & 2u8) >> 1u8) ^ (s & 1u8)) & 1u8;
            let g2 = (b ^ ((s & 8u8) >> 3u8) ^ ((s & 4u8) >> 2u8) ^ (s & 1u8)) & 1u8;
            let d1: u8 = if r0 != g1 { 1 } else { 0 };
            let d2: u8 = if r1 != g2 { 1 } else { 0 };
            let d2_alone: u8 = if r0 != g2 { 1 } else { 0 };
            let dist: u8 = if k1 && k2 {
                d1 + d2
            } else if k1 {
                d1
            } else {
                d2_alone
            };
            let state = t % 16;
            let prev: u8 = if step == 0 {
                if state == 0 {
                    0
                } else {
                    255
                }
            } else {
                let a = table[(step - 1) * 32 + 2 * state];
                let c = table[(step - 1) * 32 + 2 * state + 1];
                proof {
                    assert(table@[(step - 1) * 32 + 2 * state] == path_metric(type3@, p, (step - 1) as nat, 2 * state as int));
                    assert(table@[(step - 1) * 32 + (2 * state + 1)] == path_metric(type3@, p, (step - 1) as nat, 2 * state as int + 1));
                }
                if a <= c {
                    a
                } else {
                    c
                }
            };
            let v: u8 = if prev as u16 + dist as u16 > 255 {
                255
            } else {
                prev + dist
            };
            assert(v == path_metric(type3@, p, step as nat, t as int));
            table[step * 32 + t] = v;
            t = t + 1;
        }
        pos = pos + if k1 && k2 {
            2
        } else {
            1
        };
        step = step + 1;
    }
    // the best final transition, first of the least
    let last = n - 1;
    let mut best_idx: usize = 0;
    let mut k: usize = 1;
    while k < 32
        invariant
            1 <= k <= 32,
            last == n - 1,
            n == input_len + 4 <= 244,
            forall|st: int, t: int| 0 <= st < n && 0 <= t < 32 ==> #[trigger] table@[st * 32 + t] == path_metric(type3@, p, st as nat, t),
            best_idx == argmin_upto(type3@, p, last as nat, k as int),
            best_idx < k,
        decreases 32 - k,
    {
        let cand = table[last * 32 + k];
        let cur = table[last * 32 + best_idx];
        if cand < cur {
            best_idx = k;
        }
        k = k + 1;
    }
    if table[last * 32 + best_idx] > MAX_SCORE {
        return None;
    }
    let mut out = [0u8; 30];
    assert forall|i: int| 0 <= i < 240 implies bit_of(out@, i) == 0 by {
        let kk = (7 - i % 8) as u8;
        assert(out@[i / 8] == 0u8);
        assert((0u8 >> kk) & 1u8 == 0u8) by (bit_vector);
    }
    let mut step: usize = n;
    let mut cur_t: usize = best_idx;
    proof {
        lemma_trace_range(type3@, p, n as int, (n - 1) as int);
    }
    while step > 0
        invariant
            0 <= step <= n == input_len + 4 <= 244,
            forall|st: int, t: int| 0 <= st < n && 0 <= t < 32 ==> #[trigger] table@[st * 32 + t] == path_metric(type3@, p, st as nat, t),
            step > 0 ==> cur_t == trace(type3@, p, n as int, step - 1),
            cur_t < 32,
            forall|i: int| step <= i < input_len ==> bit_of(out@, i) == trace(type3@, p, n as int, i) / 16,
            forall|i: int| 0 <= i < 240 && (i >= input_len || i < step) ==> bit_of(out@, i) == 0,
        decreases step,
    {
        let st = step - 1;
        if st < input_len {
            let ghost before = out@;
            let bit: u8 = if cur_t >= 16 { 1 } else { 0 };
            set_bit(&mut out, st, bit);
            proof {
                assert forall|i: int| 0 <= i < 240 implies bit_of(out@, i) == if i == st {
                    if bit != 0 { 1u8 } else { 0u8 }
                } else {
                    bit_of(before, i)
                } by {
                    lemma_set_then_get(before, st as int, bit != 0, i);
                }
            }
        }
        if st > 0 {
            let state = cur_t % 16;
            let a = table[(st - 1) * 32 + 2 * state];
            let c = table[(st - 1) * 32 + 2 * state + 1];
            proof {
                assert(table@[(st - 1) * 32 + 2 * state] == path_metric(type3@, p, (st - 1) as nat, 2 * state as int));
                assert(table@[(st - 1) * 32 + (2 * state + 1)] == path_metric(type3@, p, (st - 1) as nat, 2 * state as int + 1));
            }
            cur_t = if a < c {
                2 * state
            } else {
                2 * state + 1
            };
            assert(cur_t == trace(type3@, p, n as int, st - 1));
        }
        step = st;
    }
    Some(out)
}

} // verus!
