//! Host-side view of link setup: station addresses given as text, and the
//! LSF of a transmission.

use vstd::prelude::*;
use vstd::std_specs::iter::IteratorSpec;
use crate::address::{Address, Callsign, alpha_index, decoded_address, be48};
use crate::protocol::{LsfFrame, new_lsf_bytes, lsf_type, type_with_can, lsf_with_type, utf8_of};

verus! {

/// Errors of the host API.
#[derive(Debug, Clone, Copy, PartialEq, Eq)]
pub enum M17Error {
    /// The callsign holds a character that M17 cannot encode.
    InvalidCallsignCharacters(char),
    /// The callsign is longer than nine characters.
    CallsignTooLong(usize),
    /// The packet payload does not fit.
    PacketTooLarge { provided: usize, capacity: usize },
    /// The app was started more than once.
    InvalidStart,
    /// The app was closed while not started.
    InvalidClose,
}

/// The LSF of a transmission.
pub struct LinkSetup {
    raw: LsfFrame,
}

impl LinkSetup {
    pub closed spec fn lsf(&self) -> LsfFrame {
        self.raw
    }

    /// Use a completed LSF.
    pub fn new_raw(frame: LsfFrame) -> (r: Self)
        ensures
            r.lsf() == frame,
    {
        Self { raw: frame }
    }

    /// The LSF.
    pub fn raw(&self) -> (r: LsfFrame)
        ensures
            r == self.lsf(),
    {
        self.raw
    }

    pub fn source(&self) -> (r: M17Address)
        ensures
            decoded_address(be48(self.lsf().0@.subrange(6, 12)), r.view()),
    {
        M17Address(self.raw.source())
    }

    pub fn destination(&self) -> (r: M17Address)
        ensures
            decoded_address(be48(self.lsf().0@.subrange(0, 6)), r.view()),
    {
        M17Address(self.raw.destination())
    }

    /// An unencrypted voice stream with channel access number 0.
    pub fn new_voice(source: &M17Address, destination: &M17Address) -> (r: Self)
        ensures
            r.lsf().0@ == new_lsf_bytes(source.view(), destination.view(), 5u16),
    {
        Self { raw: LsfFrame::new_voice(source.address(), destination.address()) }
    }

    /// An unencrypted packet data transmission with channel access number 0.
    pub fn new_packet(source: &M17Address, destination: &M17Address) -> (r: Self)
        ensures
            r.lsf().0@ == new_lsf_bytes(source.view(), destination.view(), 2u16),
    {
        Self { raw: LsfFrame::new_packet(source.address(), destination.address()) }
    }

    /// Set the channel access number, 0 to 15.
    pub fn set_channel_access_number(&mut self, channel_access_number: u8)
        ensures
            final(self).lsf().0@ == lsf_with_type(
                old(self).lsf().0@,
                type_with_can(lsf_type(old(self).lsf().0@), channel_access_number),
            ),
    {
        self.raw.set_channel_access_number(channel_access_number);
    }

    /// LICH part `counter`, 0 to 5: five bytes of the LSF.
    pub fn lich_part(&self, counter: u8) -> (r: [u8; 5])
        requires
            counter < 6,
        ensures
            r@ == self.lsf().0@.subrange(counter * 5, counter * 5 + 5),
    {
        let idx = counter as usize;
        let mut r = [0u8; 5];
        let mut k: usize = 0;
        while k < 5
            invariant
                0 <= k <= 5,
                idx < 6,
                forall|q: int| 0 <= q < k ==> r@[q] == self.raw.0@[idx * 5 + q],
            decreases 5 - k,
        {
            r[k] = self.raw.0[idx * 5 + k];
            k = k + 1;
        }
        assert(r@ =~= self.lsf().0@.subrange(counter * 5, counter * 5 + 5));
        r
    }
}

/// A station address, as the host gives it.
#[derive(Debug, Clone, Copy, PartialEq, Eq)]
pub struct M17Address(Address);

/// Characters with the Unicode White_Space property.
pub open spec fn is_white_space(c: char) -> bool {
    let v = c as u32;
    (0x09 <= v <= 0x0D) || v == 0x20 || v == 0x85 || v == 0xA0 || v == 0x1680 || (0x2000 <= v
        <= 0x200A) || v == 0x2028 || v == 0x2029 || v == 0x202F || v == 0x205F || v == 0x3000
}

/// The first index at or after `i` that is not whitespace.
pub open spec fn lead_end(s: Seq<char>, i: int) -> int
    decreases s.len() - i,
{
    if i >= s.len() || !is_white_space(s[i]) {
        i
    } else {
        lead_end(s, i + 1)
    }
}

/// The end of `s[start..end]` once trailing whitespace is dropped.
pub open spec fn tail_start(s: Seq<char>, start: int, end: int) -> int
    decreases end - start,
{
    if end <= start || !is_white_space(s[end - 1]) {
        end
    } else {
        tail_start(s, start, end - 1)
    }
}

/// `s` without leading and trailing whitespace.
pub open spec fn unicode_trimmed(s: Seq<char>) -> Seq<char> {
    let a = lead_end(s, 0);
    s.subrange(a, tail_start(s, a, s.len() as int))
}

/// What `str::to_uppercase` gives for a sequence of characters.
pub uninterp spec fn upper_of(s: Seq<char>) -> Seq<char>;

/// The number of bytes of the UTF-8 encoding of `s`.
pub open spec fn utf8_len(s: Seq<char>) -> nat
    decreases s.len(),
{
    if s.len() == 0 {
        0
    } else {
        utf8_len(s.drop_last()) + utf8_of(s.last()).len()
    }
}

/// A character a callsign may hold: in the M17 alphabet.
pub open spec fn callsign_char(c: char) -> bool {
    (c as u32) < 0x80 && alpha_index((c as u32) as u8) is Some
}

/// The first index at or after `i` whose character is not allowed, or the length.
pub open spec fn first_bad_char(s: Seq<char>, i: int) -> int
    decreases s.len() - i,
{
    if i >= s.len() || !callsign_char(s[i]) {
        i
    } else {
        first_bad_char(s, i + 1)
    }
}

/// Relies on `str::trim`: leading and trailing characters with the Unicode
/// White_Space property are removed.
#[verifier::external_body]
fn str_trim(s: &str) -> (r: &str)
    ensures
        r@ == unicode_trimmed(s@),
{
    s.trim()
}

/// Relies on `str::to_uppercase`: the result depends on the characters alone.
#[verifier::external_body]
fn str_to_uppercase(s: &str) -> (r: String)
    ensures
        r@ == upper_of(s@),
{
    s.to_uppercase()
}

/// Relies on `String::len`: the length in bytes of the UTF-8 encoding.
#[verifier::external_body]
fn string_len(s: &String) -> (r: usize)
    ensures
        r == utf8_len(s@),
{
    s.len()
}

/// The characters of a string, in order.
fn chars_of(s: &str) -> (r: Vec<char>)
    ensures
        r@ == s@,
{
    broadcast use vstd::string::axiom_spec_iter, vstd::string::next_postcondition;
    let mut it = s.chars();
    let mut out: Vec<char> = Vec::new();
    loop
        invariant
            out@ + IteratorSpec::remaining(&it) == s@,
        ensures
            out@ == s@,
        decreases s@.len() - out@.len(),
    {
        match it.next() {
            Some(c) => {
                out.push(c);
                assert(out@ + IteratorSpec::remaining(&it) =~= s@);
            },
            None => {
                assert(out@ =~= s@);
                break;
            },
        }
    }
    out
}

proof fn lemma_utf8_len_at_least(s: Seq<char>)
    ensures
        utf8_len(s) >= s.len(),
    decreases s.len(),
{
    if s.len() > 0 {
        lemma_utf8_len_at_least(s.drop_last());
    }
}

impl M17Address {
    pub closed spec fn view(&self) -> Address {
        self.0
    }

    pub fn new_broadcast() -> (r: Self)
        ensures
            r.view() == Address::Broadcast,
    {
        Self(Address::Broadcast)
    }

    /// Parse a callsign: surrounding whitespace is ignored, letters are
    /// upper-cased, and at most nine bytes of the M17 alphabet are accepted.
    pub fn from_callsign(callsign: &str) -> (r: Result<Self, M17Error>)
        ensures
            ({
                let u = upper_of(unicode_trimmed(callsign@));
                let n = utf8_len(u);
                let k = first_bad_char(u, 0);
                &&& n > 9 ==> r == Err::<M17Address, M17Error>(M17Error::CallsignTooLong(n as usize))
                &&& n <= 9 && k < u.len() ==> r == Err::<M17Address, M17Error>(
                    M17Error::InvalidCallsignCharacters(u[k]),
                )
                &&& n <= 9 && k >= u.len() ==> r is Ok && r->Ok_0.view() is Callsign
                    && forall|i: int| 0 <= i < 9 ==> r->Ok_0.view()->Callsign_0.0@[i] == if i < u.len() {
                        (u[i] as u32) as u8
                    } else {
                        32u8
                    }
            }),
    {
        let trimmed = str_trim(callsign);
        let upper = str_to_uppercase(trimmed);
        let n = string_len(&upper);
        if n > 9 {
            return Err(M17Error::CallsignTooLong(n));
        }
        let chars = chars_of(upper.as_str());
        let ghost u = upper_of(unicode_trimmed(callsign@));
        assert(chars@ == u);
        proof {
            lemma_utf8_len_at_least(u);
        }
        let mut address = [32u8; 9];
        let mut i: usize = 0;
        while i < chars.len()
            invariant
                u == upper_of(unicode_trimmed(callsign@)),
                chars@ == u,
                u.len() <= 9,
                utf8_len(u) <= 9,
                0 <= i <= u.len(),
                first_bad_char(u, 0) == first_bad_char(u, i as int),
                forall|q: int| 0 <= q < i ==> address@[q] == (u[q] as u32) as u8,
                forall|q: int| i <= q < 9 ==> address@[q] == 32u8,
            decreases u.len() - i,
        {
            let c = chars[i];
            let v = c as u32;
            if v >= 0x80 || !in_alphabet(v as u8) {
                assert(!callsign_char(u[i as int]));
                assert(first_bad_char(u, i as int) == i);
                return Err(M17Error::InvalidCallsignCharacters(c));
            }
            assert(callsign_char(u[i as int]));
            address[i] = v as u8;
            i = i + 1;
        }
        Ok(Self(Address::Callsign(Callsign(address))))
    }

    pub fn address(&self) -> (r: &Address)
        ensures
            *r == self.view(),
    {
        &self.0
    }
}

fn in_alphabet(b: u8) -> (r: bool)
    ensures
        r == (alpha_index(b) is Some),
{
    b == 32 || (65 <= b && b <= 90) || (48 <= b && b <= 57) || b == 45 || b == 47 || b == 46
}

} // verus!
