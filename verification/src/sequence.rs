//! Sequence (`seq`) and birth/death sequence (`bdSeq`) counters, plus bdSeq
//! persistence.
//!
//! Both counters are `0..=255` and wrap `255 -> 0`; `u8::wrapping_add` gives the
//! wrap, avoiding a `== 256` sentinel.
use vstd::prelude::*;

use crate::state::{append_decimal, decimal, lemma_decimal, lemma_parse_i64_text, i64_text, parse_i64, parse_i64_range};
use crate::text::{lemma_trim_unchanged, trim, trim_range};
use crate::util::chars_of;

verus! {

/// The counter after `v`: one more, wrapping `255 -> 0`.
pub open spec fn next_u8(v: u8) -> u8 {
    ((v + 1) % 256) as u8
}

/// The counters count up by one and wrap from 255 to 0.
pub proof fn lemma_next_u8(v: u8)
    ensures
        v < 255 ==> next_u8(v) == v + 1,
        v == 255 ==> next_u8(v) == 0,
{
}

/// The payload sequence number (`seq`), reset to 0 on every (re)birth and
/// incremented by one (mod 256) on every subsequent Edge Node message.
#[derive(Clone, Copy, Debug, PartialEq, Eq, Structural, Default)]
pub struct SeqCounter(u8);

impl View for SeqCounter {
    type V = u8;

    closed spec fn view(&self) -> u8 {
        self.0
    }
}

impl SeqCounter {
    /// A counter starting at 0 (the value an NBIRTH carries).
    pub fn new() -> (s: Self)
        ensures
            s@ == 0,
    {
        SeqCounter(0)
    }

    /// The current value (without advancing).
    pub fn get(self) -> (v: u8)
        ensures
            v == self@,
    {
        self.0
    }

    /// Return the current value, then advance (wrapping `255 -> 0`). Use this
    /// to stamp a message's `seq` and move the counter forward.
    pub fn next_value(&mut self) -> (v: u8)
        ensures
            v == old(self)@,
            final(self)@ == next_u8(old(self)@),
    {
        let current = self.0;
        self.0 = self.0.wrapping_add(1);
        current
    }

    /// Reset to 0 (on NBIRTH / rebirth).
    pub fn reset(&mut self)
        ensures
            final(self)@ == 0,
    {
        self.0 = 0;
    }
}

/// The birth/death sequence number (`bdSeq`), incremented once per MQTT CONNECT
/// (not per message) and persisted across restarts so the Host can correlate an
/// NDEATH with its NBIRTH.
#[derive(Clone, Copy, Debug, PartialEq, Eq, Structural, Default)]
pub struct BdSeq(u8);

impl View for BdSeq {
    type V = u8;

    closed spec fn view(&self) -> u8 {
        self.0
    }
}

impl BdSeq {
    /// A counter starting at `start`.
    pub fn new(start: u8) -> (b: Self)
        ensures
            b@ == start,
    {
        BdSeq(start)
    }

    /// The current value.
    pub fn get(self) -> (v: u8)
        ensures
            v == self@,
    {
        self.0
    }

    /// Advance by one (wrapping `255 -> 0`).
    pub fn advance(&mut self)
        ensures
            final(self)@ == next_u8(old(self)@),
    {
        self.0 = self.0.wrapping_add(1);
    }
}

/// Persistence for the bdSeq counter so it survives process restarts.
///
/// `load_next_death` gives the bdSeq value to use for the next connection's
/// NDEATH (and matching NBIRTH); `store_next_death` persists the *next* value.
pub trait BdSeqStore {
    /// Load the bdSeq value to use for the next death/will (0 if none stored).
    fn load_next_death(&self) -> Result<u8, std::io::Error>;

    /// Persist the bdSeq value to use for the next connection.
    fn store_next_death(&mut self, value: u8) -> Result<(), std::io::Error>;
}

/// An in-memory bdSeq store (non-persistent; useful for tests and ephemeral nodes).
#[derive(Debug, Default)]
pub struct InMemoryBdSeqStore {
    value: u8,
}

impl View for InMemoryBdSeqStore {
    type V = u8;

    closed spec fn view(&self) -> u8 {
        self.value
    }
}

impl InMemoryBdSeqStore {
    /// A store seeded with `start`.
    pub fn new(start: u8) -> (s: Self)
        ensures
            s@ == start,
    {
        InMemoryBdSeqStore { value: start }
    }
}

impl BdSeqStore for InMemoryBdSeqStore {
    /// What was stored last, or the seed.
    fn load_next_death(&self) -> (res: Result<u8, std::io::Error>)
        ensures
            res matches Ok(v) && v == self@,
    {
        Ok(self.value)
    }

    /// Remember `value`; never fails.
    fn store_next_death(&mut self, value: u8) -> (res: Result<(), std::io::Error>)
        ensures
            res is Ok,
            final(self)@ == value,
    {
        self.value = value;
        Ok(())
    }
}

/// `str::parse::<u8>`: an optional `+`, then decimal digits worth at most 255.
pub open spec fn parse_u8(s: Seq<char>) -> Option<u8> {
    if s.len() > 0 && s[0] == '-' {
        None
    } else {
        match parse_i64(s) {
            Some(v) => if 0 <= v <= 255 {
                Some(v as u8)
            } else {
                None
            },
            None => None,
        }
    }
}

/// The bdSeq value held by the text of a store file: the text, trimmed, read as a `u8`.
pub open spec fn bdseq_value(text: Seq<char>) -> Option<u8> {
    parse_u8(trim(text, None))
}

/// Read the bdSeq value held by the text of a store file; `None` when the text
/// is not a `u8`.
pub fn parse_bdseq(text: &str) -> (r: Option<u8>)
    ensures
        r == bdseq_value(text@),
{
    let cs = chars_of(text);
    let (a, b) = trim_range(&cs, 0, cs.len(), None);
    proof {
        assert(cs@.subrange(0, cs@.len() as int) =~= text@);
    }
    if a < b && cs[a] == '-' {
        return None;
    }
    match parse_i64_range(&cs, a, b) {
        Some(v) => if 0 <= v && v <= 255 {
            Some(v as u8)
        } else {
            None
        },
        None => None,
    }
}

/// The text a store file holds for `value` (its decimal digits).
pub fn bdseq_text(value: u8) -> (s: String)
    ensures
        s@ == decimal(value as nat),
{
    let mut s = String::new();
    append_decimal(&mut s, value as u64);
    s
}

/// Reading back the text written for a value gives the value.
pub proof fn lemma_bdseq_text_roundtrip(value: u8)
    ensures
        bdseq_value(decimal(value as nat)) == Some(value),
{
    let d = decimal(value as nat);
    lemma_decimal(value as nat);
    lemma_parse_i64_text(value as i64);
    assert(i64_text(value as i64) == d);
    assert(d.last() == d[d.len() - 1]);
    lemma_trim_unchanged(d, None);
}

} // verus!
