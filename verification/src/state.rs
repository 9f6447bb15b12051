//! Host Application STATE payload.
//!
//! Unlike the Sparkplug data payloads (protobuf), STATE is JSON UTF-8 with
//! exactly two keys: `online` (bool) and `timestamp` (epoch milliseconds UTC).
//! It is published retained at QoS 1 on `spBv1.0/STATE/<host_id>`.
//!
//! The format is small and fixed, so it is serialized and parsed directly;
//! [`lemma_parse_to_json`] proves that parsing what [`StatePayload::to_json`]
//! writes gives the payload back.
use vstd::prelude::*;

use crate::error::SparkplugError;
use crate::text::{
    find_char, find_in_range, join_on, lemma_find_char_after, lemma_join2, lemma_split_join,
    lemma_trim_end_nonempty, lemma_trim_end_skips, lemma_trim_start_skips, lemma_trim_unchanged,
    range_is, split_on, split_ranges, stripped, trim, trim_end, trim_range, trim_start,
};
use crate::util::chars_of;

verus! {

// ---------------------------------------------------------------------------
// Integers
// ---------------------------------------------------------------------------

/// An ASCII decimal digit.
pub open spec fn is_digit(c: char) -> bool {
    '0' <= c <= '9'
}

/// The value of a decimal digit.
pub open spec fn digit_value(c: char) -> int {
    (c as u32) - ('0' as u32)
}

/// The value of a string of decimal digits.
pub open spec fn digits_value(s: Seq<char>) -> int
    decreases s.len(),
{
    if s.len() == 0 {
        0
    } else {
        digits_value(s.drop_last()) * 10 + digit_value(s.last())
    }
}

/// Every character is a decimal digit.
pub open spec fn all_digits(s: Seq<char>) -> bool {
    forall|i: int| 0 <= i < s.len() ==> is_digit(#[trigger] s[i])
}

/// `i64::from_str`: an optional sign, then at least one decimal digit, with a
/// value in range.
pub open spec fn parse_i64(s: Seq<char>) -> Option<i64> {
    let signed = s.len() > 0 && (s[0] == '-' || s[0] == '+');
    let body = if signed { s.drop_first() } else { s };
    if body.len() == 0 || !all_digits(body) {
        None
    } else {
        let v = if signed && s[0] == '-' { -digits_value(body) } else { digits_value(body) };
        if i64::MIN <= v <= i64::MAX {
            Some(v as i64)
        } else {
            None
        }
    }
}

/// The character of the digit `d`.
pub open spec fn digit_char(d: nat) -> char {
    if d == 0 {
        '0'
    } else if d == 1 {
        '1'
    } else if d == 2 {
        '2'
    } else if d == 3 {
        '3'
    } else if d == 4 {
        '4'
    } else if d == 5 {
        '5'
    } else if d == 6 {
        '6'
    } else if d == 7 {
        '7'
    } else if d == 8 {
        '8'
    } else {
        '9'
    }
}

/// The decimal digits of `n`, most significant first, without leading zeros.
pub open spec fn decimal(n: nat) -> Seq<char>
    decreases n,
{
    if n < 10 {
        seq![digit_char(n)]
    } else {
        decimal(n / 10).push(digit_char(n % 10))
    }
}

/// The decimal text of an `i64`, as `i64::to_string` writes it.
pub open spec fn i64_text(v: i64) -> Seq<char> {
    if v < 0 {
        seq!['-'] + decimal((-v) as nat)
    } else {
        decimal(v as nat)
    }
}

/// The character of a digit is a digit worth it.
pub proof fn lemma_digit_char(d: nat)
    requires
        d < 10,
    ensures
        is_digit(digit_char(d)),
        digit_value(digit_char(d)) == d,
        digit_char(d) != '-' && digit_char(d) != '+',
{
    assert('0' as u32 == 48);
    assert('9' as u32 == 57);
    assert('1' as u32 == 49);
    assert('2' as u32 == 50);
    assert('3' as u32 == 51);
    assert('4' as u32 == 52);
    assert('5' as u32 == 53);
    assert('6' as u32 == 54);
    assert('7' as u32 == 55);
    assert('8' as u32 == 56);
}

/// The decimal text of `n` is made of digits and reads back as `n`.
pub proof fn lemma_decimal(n: nat)
    ensures
        decimal(n).len() >= 1,
        all_digits(decimal(n)),
        digits_value(decimal(n)) == n,
    decreases n,
{
    lemma_digit_char((n % 10) as nat);
    if n < 10 {
        assert(n % 10 == n);
        assert(decimal(n).drop_last() =~= Seq::<char>::empty());
        assert(digits_value(Seq::<char>::empty()) == 0);
    }
    if n >= 10 {
        lemma_decimal(n / 10);
        let d = decimal(n);
        assert(d.drop_last() == decimal(n / 10));
        assert(d.last() == digit_char(n % 10));
        vstd::arithmetic::div_mod::lemma_fundamental_div_mod(n as int, 10);
        assert forall|i: int| 0 <= i < d.len() implies is_digit(#[trigger] d[i]) by {
            if i < d.len() - 1 {
                assert(d[i] == decimal(n / 10)[i]);
            }
        }
    }
}

/// The decimal text of an `i64` reads back as it.
pub proof fn lemma_parse_i64_text(v: i64)
    ensures
        parse_i64(i64_text(v)) == Some(v),
{
    if v < 0 {
        lemma_decimal((-v) as nat);
        let s = i64_text(v);
        assert(s.drop_first() =~= decimal((-v) as nat));
    } else {
        lemma_decimal(v as nat);
        let d = decimal(v as nat);
        assert(is_digit(d[0]));
    }
}

/// A prefix of digits is worth no more than the whole.
proof fn lemma_digits_prefix(s: Seq<char>, k: int)
    requires
        0 <= k <= s.len(),
        all_digits(s),
    ensures
        0 <= digits_value(s.take(k)) <= digits_value(s),
    decreases s.len() - k,
{
    if k < s.len() {
        lemma_digits_prefix(s, k + 1);
        assert(s.take(k + 1).drop_last() =~= s.take(k));
        assert(is_digit(s[k]));
    } else {
        assert(s.take(k) =~= s);
    }
    if s.len() > 0 {
        lemma_digits_nonneg(s);
    }
}

/// Digits are worth at least zero.
proof fn lemma_digits_nonneg(s: Seq<char>)
    requires
        all_digits(s),
    ensures
        digits_value(s) >= 0,
    decreases s.len(),
{
    if s.len() > 0 {
        assert(is_digit(s[s.len() - 1]));
        lemma_digits_nonneg(s.drop_last());
    }
}

/// `i64::from_str` on `cs[lo..hi]`.
pub(crate) fn parse_i64_range(cs: &Vec<char>, lo: usize, hi: usize) -> (r: Option<i64>)
    requires
        lo <= hi <= cs@.len(),
    ensures
        r == parse_i64(cs@.subrange(lo as int, hi as int)),
{
    let ghost s = cs@.subrange(lo as int, hi as int);
    let mut k = lo;
    let mut neg = false;
    if k < hi && (cs[k] == '-' || cs[k] == '+') {
        neg = cs[k] == '-';
        k = k + 1;
    }
    let ghost body = cs@.subrange(k as int, hi as int);
    let ghost signed = s.len() > 0 && (s[0] == '-' || s[0] == '+');
    proof {
        if lo < hi && (cs@[lo as int] == '-' || cs@[lo as int] == '+') {
            assert(s.drop_first() =~= body);
        } else {
            assert(s =~= body);
        }
    }
    if k == hi {
        return None;
    }
    let start = k;
    let mut mag: u64 = 0;
    while k < hi
        invariant
            lo <= start <= k <= hi <= cs@.len(),
            body == cs@.subrange(start as int, hi as int),
            s == cs@.subrange(lo as int, hi as int),
            body.len() > 0,
            signed == (s.len() > 0 && (s[0] == '-' || s[0] == '+')),
            signed ==> body == s.drop_first(),
            !signed ==> body == s,
            neg == (signed && s[0] == '-'),
            all_digits(body.take(k - start)),
            mag as int == digits_value(body.take(k - start)),
        decreases hi - k,
    {
        let c = cs[k];
        let ghost j = k - start;
        proof {
            assert(body.take(j + 1).drop_last() =~= body.take(j as int));
            assert(body.take(j + 1).last() == c);
        }
        if !('0' <= c && c <= '9') {
            proof {
                assert(body[j as int] == c);
                assert(!is_digit(body[j as int]));
            }
            return None;
        }
        let d = (c as u32 - '0' as u32) as u64;
        let next = match mag.checked_mul(10) {
            Some(m) => m.checked_add(d),
            None => None,
        };
        match next {
            Some(m) => {
                mag = m;
                proof {
                    assert forall|i: int| 0 <= i < j + 1 implies is_digit(#[trigger] body.take(j + 1)[i]) by {
                        if i < j {
                            assert(body.take(j + 1)[i] == body.take(j as int)[i]);
                        }
                    }
                }
            },
            None => {
                proof {
                    assert forall|i: int| 0 <= i < j + 1 implies is_digit(#[trigger] body.take(j + 1)[i]) by {
                        if i < j {
                            assert(body.take(j + 1)[i] == body.take(j as int)[i]);
                        }
                    }
                    assert(digits_value(body.take(j + 1)) > u64::MAX);
                    if all_digits(body) {
                        assert(body.take(j + 1) =~= body.take(j + 1));
                        lemma_digits_prefix(body, j + 1);
                    }
                }
                return None;
            },
        }
        k = k + 1;
    }
    proof {
        assert(body.take(hi - start) =~= body);
    }
    if neg {
        if mag <= 0x8000_0000_0000_0000 {
            Some((0i128 - mag as i128) as i64)
        } else {
            None
        }
    } else {
        if mag <= 0x7fff_ffff_ffff_ffff {
            Some(mag as i64)
        } else {
            None
        }
    }
}

/// Append the decimal digits of `n`.
pub(crate) fn append_decimal(s: &mut String, n: u64)
    ensures
        final(s)@ == old(s)@ + decimal(n as nat),
    decreases n,
{
    if n >= 10 {
        append_decimal(s, n / 10);
    }
    let d = n % 10;
    let t = if d == 0 {
        proof { reveal_strlit("0"); }
        "0"
    } else if d == 1 {
        proof { reveal_strlit("1"); }
        "1"
    } else if d == 2 {
        proof { reveal_strlit("2"); }
        "2"
    } else if d == 3 {
        proof { reveal_strlit("3"); }
        "3"
    } else if d == 4 {
        proof { reveal_strlit("4"); }
        "4"
    } else if d == 5 {
        proof { reveal_strlit("5"); }
        "5"
    } else if d == 6 {
        proof { reveal_strlit("6"); }
        "6"
    } else if d == 7 {
        proof { reveal_strlit("7"); }
        "7"
    } else if d == 8 {
        proof { reveal_strlit("8"); }
        "8"
    } else {
        proof { reveal_strlit("9"); }
        "9"
    };
    proof {
        assert(t@ =~= seq![digit_char(d as nat)]);
    }
    let ghost before = s@;
    s.append(t);
    proof {
        if n >= 10 {
            assert(decimal(n as nat) == decimal((n / 10) as nat).push(digit_char(d as nat)));
        }
    }
    assert(s@ =~= old(s)@ + decimal(n as nat));
}

// ---------------------------------------------------------------------------
// The STATE object
// ---------------------------------------------------------------------------

/// The characters of `online`.
pub open spec fn online_key() -> Seq<char> {
    seq!['o', 'n', 'l', 'i', 'n', 'e']
}

/// The characters of `timestamp`.
pub open spec fn timestamp_key() -> Seq<char> {
    seq!['t', 'i', 'm', 'e', 's', 't', 'a', 'm', 'p']
}

/// The characters of `true`.
pub open spec fn true_word() -> Seq<char> {
    seq!['t', 'r', 'u', 'e']
}

/// The characters of `false`.
pub open spec fn false_word() -> Seq<char> {
    seq!['f', 'a', 'l', 's', 'e']
}

/// The keys seen so far: `online` and `timestamp`.
pub type StateKeys = (Option<bool>, Option<i64>);

/// One `key:value` member: blank members are skipped; a member without `:` is
/// refused; `online` takes `true`/`false`; `timestamp` takes an `i64`; other
/// keys are ignored. The key, trimmed, must be a quoted string; what stands
/// between its quotes is the key.
pub open spec fn state_member(acc: StateKeys, field: Seq<char>) -> Option<StateKeys> {
    if trim(field, None).len() == 0 {
        Some(acc)
    } else {
        match find_char(field, ':') {
            None => None,
            Some(i) => {
                let quoted = trim(field.take(i as int), None);
                let key = quoted.subrange(1, quoted.len() - 1);
                let value = trim(field.skip((i + 1) as int), None);
                if quoted.len() < 2 || quoted[0] != '"' || quoted.last() != '"' {
                    None
                } else if key == online_key() {
                    if value == true_word() {
                        Some((Some(true), acc.1))
                    } else if value == false_word() {
                        Some((Some(false), acc.1))
                    } else {
                        None
                    }
                } else if key == timestamp_key() {
                    match parse_i64(value) {
                        Some(t) => Some((acc.0, Some(t))),
                        None => None,
                    }
                } else {
                    Some(acc)
                }
            },
        }
    }
}

/// The members in order, stopping at the first refused one.
pub open spec fn state_members(fields: Seq<Seq<char>>) -> Option<StateKeys>
    decreases fields.len(),
{
    if fields.len() == 0 {
        Some((None, None))
    } else {
        match state_members(fields.drop_last()) {
            None => None,
            Some(acc) => state_member(acc, fields.last()),
        }
    }
}

/// Parsing a STATE payload: the trimmed text must be `{…}`; its inside is split
/// on `,` into members; both keys are required.
pub open spec fn parse_state(json: Seq<char>) -> Option<(bool, i64)> {
    let t = trim(json, None);
    if t.len() < 2 || t[0] != '{' || t.last() != '}' {
        None
    } else {
        match state_members(split_on(t.subrange(1, t.len() - 1), ',')) {
            Some((Some(o), Some(ts))) => Some((o, ts)),
            _ => None,
        }
    }
}

/// The canonical JSON form `{"online":<bool>,"timestamp":<ms>}`.
pub open spec fn state_json(online: bool, timestamp: i64) -> Seq<char> {
    seq!['{'] + online_member(online).push(',') + timestamp_member(timestamp) + seq!['}']
}

/// The `"online":<bool>` member.
pub open spec fn online_member(online: bool) -> Seq<char> {
    seq!['"', 'o', 'n', 'l', 'i', 'n', 'e', '"', ':'] + if online {
        true_word()
    } else {
        false_word()
    }
}

/// The `"timestamp":<ms>` member.
pub open spec fn timestamp_member(timestamp: i64) -> Seq<char> {
    seq!['"', 't', 'i', 'm', 'e', 's', 't', 'a', 'm', 'p', '"', ':'] + i64_text(timestamp)
}

/// A Host Application STATE message body.
#[derive(Clone, Copy, Debug, PartialEq, Eq, Structural)]
pub struct StatePayload {
    /// Whether the Host Application is online.
    pub online: bool,
    /// Epoch milliseconds (UTC) of this state.
    pub timestamp: i64,
}

impl StatePayload {
    /// Construct a STATE payload.
    pub fn new(online: bool, timestamp: i64) -> (s: Self)
        ensures
            s.online == online,
            s.timestamp == timestamp,
    {
        StatePayload { online, timestamp }
    }

    /// Serialize to the canonical JSON form `{"online":<bool>,"timestamp":<ms>}`.
    pub fn to_json(&self) -> (s: String)
        ensures
            s@ == state_json(self.online, self.timestamp),
    {
        proof {
            reveal_strlit("{\"online\":");
            reveal_strlit("true");
            reveal_strlit("false");
            reveal_strlit(",\"timestamp\":");
            reveal_strlit("-");
            reveal_strlit("}");
        }
        let mut s = String::from_str("{\"online\":");
        if self.online {
            s.append("true");
        } else {
            s.append("false");
        }
        s.append(",\"timestamp\":");
        let ghost before = s@;
        if self.timestamp < 0 {
            s.append("-");
            let m = (0i128 - self.timestamp as i128) as u64;
            append_decimal(&mut s, m);
        } else {
            append_decimal(&mut s, self.timestamp as u64);
        }
        assert(s@ =~= before + i64_text(self.timestamp));
        s.append("}");
        assert(s@ =~= state_json(self.online, self.timestamp));
        s
    }

    /// Parse a STATE JSON payload: tolerant of whitespace and key order,
    /// ignoring unknown keys, requiring both `online` and `timestamp`. Anything
    /// else is `InvalidState`.
    pub fn parse(json: &str) -> (res: Result<Self, SparkplugError>)
        ensures
            match parse_state(json@) {
                Some((o, t)) => res matches Ok(s) && s.online == o && s.timestamp == t,
                None => res matches Err(e) && e is InvalidState,
            },
    {
        let cs = chars_of(json);
        let (a, b) = trim_range(&cs, 0, cs.len(), None);
        proof {
            assert(cs@.subrange(0, cs@.len() as int) =~= json@);
        }
        let ghost t = cs@.subrange(a as int, b as int);
        if b - a < 2 || cs[a] != '{' || cs[b - 1] != '}' {
            return Err(SparkplugError::InvalidState(String::from_str("expected a JSON object")));
        }
        proof {
            assert(t.subrange(1, t.len() - 1) =~= cs@.subrange(a + 1, b - 1));
        }
        let fields = split_ranges(&cs, a + 1, b - 1, ',');
        let ghost fv = fields@.map_values(|p: (usize, usize)| cs@.subrange(p.0 as int, p.1 as int));
        let mut acc: StateKeys = (None, None);
        let mut j: usize = 0;
        proof {
            assert(fv.take(0) =~= Seq::<Seq<char>>::empty());
            assert(trim(json@, None) == t);
        }
        while j < fields.len()
            invariant
                j <= fields@.len(),
                fv == fields@.map_values(|p: (usize, usize)| cs@.subrange(p.0 as int, p.1 as int)),
                forall|k: int| 0 <= k < fields@.len() ==> (#[trigger] fields@[k]).0 <= fields@[k].1 <= cs@.len(),
                state_members(fv.take(j as int)) == Some(acc),
                parse_state(json@) == (match state_members(fv) {
                    Some((Some(o), Some(ts))) => Some((o, ts)),
                    _ => None::<(bool, i64)>,
                }),
            decreases fields@.len() - j,
        {
            let (lo, hi) = fields[j];
            proof {
                assert(fv.take(j + 1).drop_last() =~= fv.take(j as int));
                assert(fv.take(j + 1).last() == cs@.subrange(lo as int, hi as int));
            }
            match member(&cs, lo, hi, acc) {
                Some(next) => {
                    acc = next;
                },
                None => {
                    proof {
                        lemma_members_error(fv, j + 1, fv.len() as int);
                        assert(fv.take(fv.len() as int) =~= fv);
                    }
                    return Err(SparkplugError::InvalidState(String::from_str("malformed member")));
                },
            }
            j = j + 1;
        }
        proof {
            assert(fv.take(fv.len() as int) =~= fv);
        }
        match acc {
            (Some(online), Some(timestamp)) => Ok(StatePayload { online, timestamp }),
            _ => Err(SparkplugError::InvalidState(String::from_str("missing 'online' or 'timestamp'"))),
        }
    }
}

/// A refused member stops every longer prefix of members at the same place.
proof fn lemma_members_error(fs: Seq<Seq<char>>, i: int, j: int)
    requires
        0 <= i <= j <= fs.len(),
        state_members(fs.take(i)) is None,
    ensures
        state_members(fs.take(j)) is None,
    decreases j - i,
{
    if j > i {
        lemma_members_error(fs, i, j - 1);
        assert(fs.take(j).drop_last() =~= fs.take(j - 1));
    }
}

/// One member `cs[lo..hi]`, as [`state_member`] reads it.
fn member(cs: &Vec<char>, lo: usize, hi: usize, acc: StateKeys) -> (r: Option<StateKeys>)
    requires
        lo <= hi <= cs@.len(),
    ensures
        r == state_member(acc, cs@.subrange(lo as int, hi as int)),
{
    let ghost field = cs@.subrange(lo as int, hi as int);
    let (tl, th) = trim_range(cs, lo, hi, None);
    if tl == th {
        return Some(acc);
    }
    let colon = match find_in_range(cs, lo, hi, ':') {
        Some(c) => c,
        None => return None,
    };
    proof {
        crate::text::lemma_find_char(field, ':');
        assert(field.take(colon - lo) =~= cs@.subrange(lo as int, colon as int));
        assert(field.skip(colon - lo + 1) =~= cs@.subrange(colon + 1, hi as int));
    }
    let (q1, q2) = trim_range(cs, lo, colon, None);
    let (v1, v2) = trim_range(cs, colon + 1, hi, None);
    if q2 - q1 < 2 || cs[q1] != '"' || cs[q2 - 1] != '"' {
        return None;
    }
    let k1 = q1 + 1;
    let k2 = q2 - 1;
    proof {
        let quoted = cs@.subrange(q1 as int, q2 as int);
        assert(quoted[0] == cs@[q1 as int]);
        assert(quoted.last() == cs@[q2 - 1]);
        assert(quoted.subrange(1, quoted.len() - 1) =~= cs@.subrange(k1 as int, k2 as int));
    }
    proof {
        reveal_strlit("online");
        reveal_strlit("timestamp");
        reveal_strlit("true");
        reveal_strlit("false");
        assert("online"@ =~= online_key());
        assert("timestamp"@ =~= timestamp_key());
        assert("true"@ =~= true_word());
        assert("false"@ =~= false_word());
    }
    if range_is(cs, k1, k2, "online") {
        if range_is(cs, v1, v2, "true") {
            Some((Some(true), acc.1))
        } else if range_is(cs, v1, v2, "false") {
            Some((Some(false), acc.1))
        } else {
            None
        }
    } else if range_is(cs, k1, k2, "timestamp") {
        match parse_i64_range(cs, v1, v2) {
            Some(t) => Some((acc.0, Some(t))),
            None => None,
        }
    } else {
        Some(acc)
    }
}

/// The members of the canonical form are read back.
proof fn lemma_members_of_json(online: bool, timestamp: i64)
    ensures
        state_member((None, None), online_member(online)) == Some::<StateKeys>((Some(online), None)),
        state_member((Some(online), None), timestamp_member(timestamp)) == Some::<StateKeys>(
            (Some(online), Some(timestamp)),
        ),
{
    let word = if online { true_word() } else { false_word() };
    // `"online":<word>`
    let a = online_member(online);
    let ka = seq!['"', 'o', 'n', 'l', 'i', 'n', 'e', '"'];
    let qa = seq![':'] + word;
    assert(a =~= ka + qa);
    lemma_trim_unchanged(a, None);
    lemma_find_char_after(ka, qa, ':');
    assert(find_char(qa, ':') == Some(0nat));
    assert(a.take(8) =~= ka);
    assert(a.skip(9) =~= word);
    lemma_trim_unchanged(ka, None);
    assert(ka.subrange(1, ka.len() - 1) =~= online_key());
    assert(ka.last() == '"');
    lemma_trim_unchanged(word, None);
    // `"timestamp":<digits>`
    let b = timestamp_member(timestamp);
    let text = i64_text(timestamp);
    let kb = seq!['"', 't', 'i', 'm', 'e', 's', 't', 'a', 'm', 'p', '"'];
    let qb = seq![':'] + text;
    assert(b =~= kb + qb);
    if timestamp < 0 {
        lemma_decimal((-timestamp) as nat);
        let d = decimal((-timestamp) as nat);
        assert(is_digit(d.last())) by {
            assert(d.last() == d[d.len() - 1]);
        }
        assert(text.last() == d.last());
    } else {
        lemma_decimal(timestamp as nat);
        let d = decimal(timestamp as nat);
        assert(is_digit(d.last())) by {
            assert(d.last() == d[d.len() - 1]);
        }
        assert(is_digit(d[0]));
    }
    assert(b.last() == text.last());
    lemma_trim_unchanged(b, None);
    lemma_find_char_after(kb, qb, ':');
    assert(find_char(qb, ':') == Some(0nat));
    assert(b.take(11) =~= kb);
    assert(b.skip(12) =~= text);
    lemma_trim_unchanged(kb, None);
    assert(kb.subrange(1, kb.len() - 1) =~= timestamp_key());
    assert(kb.last() == '"');
    lemma_trim_unchanged(text, None);
    lemma_parse_i64_text(timestamp);
}

/// Parsing the canonical JSON form of a STATE payload gives the payload back.
pub proof fn lemma_parse_to_json(online: bool, timestamp: i64)
    ensures
        parse_state(state_json(online, timestamp)) == Some((online, timestamp)),
{
    let a = online_member(online);
    let b = timestamp_member(timestamp);
    let j = state_json(online, timestamp);
    lemma_trim_unchanged(j, None);
    let inner = j.subrange(1, j.len() - 1);
    assert(inner =~= a.push(',') + b);
    lemma_join2(a, b, ',');
    let text = i64_text(timestamp);
    if timestamp < 0 {
        lemma_decimal((-timestamp) as nat);
    } else {
        lemma_decimal(timestamp as nat);
    }
    assert(!a.contains(',')) by {
        assert forall|i: int| 0 <= i < a.len() implies a[i] != ',' by {}
    }
    assert(!b.contains(',')) by {
        assert forall|i: int| 0 <= i < b.len() implies b[i] != ',' by {
            if i >= 12 {
                assert(b[i] == text[i - 12]);
                if timestamp < 0 {
                    if i > 12 {
                        assert(text[i - 12] == decimal((-timestamp) as nat)[i - 13]);
                    }
                } else {
                    assert(is_digit(decimal(timestamp as nat)[i - 12]));
                }
            }
        }
    }
    let fields = seq![a, b];
    assert forall|i: int| 0 <= i < fields.len() implies !(#[trigger] fields[i]).contains(',') by {}
    lemma_split_join(fields, ',');
    lemma_members_of_json(online, timestamp);
    assert(fields.drop_last() =~= seq![a]);
    assert(seq![a].drop_last() =~= Seq::<Seq<char>>::empty());
    assert(state_members(Seq::<Seq<char>>::empty()) == Some::<StateKeys>((None, None)));
    assert(state_members(seq![a]) == Some::<StateKeys>((Some(online), None)));
    assert(state_members(fields) == Some::<StateKeys>((Some(online), Some(timestamp))));
    assert(j[0] == '{' && j.last() == '}');
    assert(trim(j, None) == j);
    assert(split_on(inner, ',') == fields);
}

/// JSON's insignificant whitespace: spaces, tabs, line feeds and carriage returns.
pub open spec fn json_space(w: Seq<char>) -> bool {
    forall|i: int| 0 <= i < w.len() ==> #[trigger] w[i] == ' ' || w[i] == '\t' || w[i] == '\n' || w[i] == '\r'
}

/// JSON whitespace is stripped by a trim and holds no other character.
proof fn lemma_json_space(w: Seq<char>)
    requires
        json_space(w),
    ensures
        forall|i: int| 0 <= i < w.len() ==> stripped(#[trigger] w[i], None),
        !w.contains(','),
        !w.contains(':'),
{
    assert forall|i: int| 0 <= i < w.len() implies stripped(#[trigger] w[i], None) by {
        assert(w[i] == ' ' || w[i] == '\t' || w[i] == '\n' || w[i] == '\r');
    }
    assert forall|i: int| 0 <= i < w.len() implies #[trigger] w[i] != ',' && w[i] != ':' by {
        assert(w[i] == ' ' || w[i] == '\t' || w[i] == '\n' || w[i] == '\r');
    }
}

/// A text lacking `c` joined to another lacking it lacks it.
proof fn lemma_concat_lacks(a: Seq<char>, b: Seq<char>, c: char)
    requires
        !a.contains(c),
        !b.contains(c),
    ensures
        !(a + b).contains(c),
{
    assert forall|i: int| 0 <= i < (a + b).len() implies #[trigger] (a + b)[i] != c by {
        if i < a.len() {
            assert((a + b)[i] == a[i]);
        } else {
            assert((a + b)[i] == b[i - a.len()]);
        }
    }
}

/// The decimal text of an `i64` is a `-` or digits, ending in a digit.
proof fn lemma_i64_text_shape(v: i64)
    ensures
        i64_text(v).len() > 0,
        !stripped(i64_text(v)[0], None),
        !stripped(i64_text(v).last(), None),
        !i64_text(v).contains(','),
{
    let text = i64_text(v);
    let d = if v < 0 { decimal((-v) as nat) } else { decimal(v as nat) };
    if v < 0 {
        lemma_decimal((-v) as nat);
    } else {
        lemma_decimal(v as nat);
    }
    assert(text.last() == d[d.len() - 1]);
    assert(is_digit(d[d.len() - 1]));
    assert(is_digit(d[0]));
    assert forall|i: int| 0 <= i < text.len() implies #[trigger] text[i] != ',' by {
        if v < 0 {
            if i > 0 {
                assert(text[i] == d[i - 1]);
                assert(is_digit(d[i - 1]));
            }
        } else {
            assert(is_digit(d[i]));
        }
    }
}

/// A member with JSON whitespace around its key, its colon and its value reads
/// as the same member written without it.
proof fn lemma_spaced_member(
    acc: StateKeys,
    wa: Seq<char>,
    key: Seq<char>,
    wb: Seq<char>,
    wc: Seq<char>,
    value: Seq<char>,
    wd: Seq<char>,
)
    requires
        json_space(wa),
        json_space(wb),
        json_space(wc),
        json_space(wd),
        !key.contains(':'),
        value.len() > 0,
        !stripped(value[0], None),
        !stripped(value.last(), None),
    ensures
        state_member(acc, wa + (seq!['"'] + key + seq!['"']) + wb + seq![':'] + wc + value + wd) == state_member(
            acc,
            (seq!['"'] + key + seq!['"']) + seq![':'] + value,
        ),
{
    lemma_json_space(wa);
    lemma_json_space(wb);
    lemma_json_space(wc);
    lemma_json_space(wd);
    let kq = seq!['"'] + key + seq!['"'];
    assert(!seq!['"'].contains(':')) by {
        assert forall|i: int| 0 <= i < 1 implies #[trigger] seq!['"'][i] != ':' by {}
    }
    lemma_concat_lacks(seq!['"'], key, ':');
    lemma_concat_lacks(seq!['"'] + key, seq!['"'], ':');
    assert(kq[0] == '"');
    assert(kq.last() == '"');
    // The spaced field.
    let field = wa + kq + wb + seq![':'] + wc + value + wd;
    let p = wa + kq + wb;
    let rest = seq![':'] + wc + value + wd;
    assert(field =~= p + rest);
    lemma_concat_lacks(wa, kq, ':');
    lemma_concat_lacks(wa + kq, wb, ':');
    assert(rest[0] == ':');
    assert(find_char(rest, ':') == Some(0nat));
    lemma_find_char_after(p, rest, ':');
    assert(field.take(p.len() as int) =~= p);
    assert(field.skip(p.len() as int + 1) =~= wc + value + wd);
    assert(p =~= wa + (kq + wb));
    lemma_trim_start_skips(wa, kq + wb, None);
    lemma_trim_end_skips(kq, wb, None);
    assert(trim(p, None) == kq);
    assert(wc + value + wd =~= wc + (value + wd));
    assert((value + wd)[0] == value[0]);
    lemma_trim_start_skips(wc, value + wd, None);
    lemma_trim_end_skips(value, wd, None);
    assert(trim(wc + value + wd, None) == value);
    assert(field =~= wa + (kq + (wb + rest)));
    assert((kq + (wb + rest))[0] == '"');
    lemma_trim_start_skips(wa, kq + (wb + rest), None);
    lemma_trim_end_nonempty(kq + (wb + rest), None);
    assert(trim(field, None).len() > 0);
    // The compact field.
    let compact = kq + seq![':'] + value;
    let crest = seq![':'] + value;
    assert(compact =~= kq + crest);
    assert(crest[0] == ':');
    assert(find_char(crest, ':') == Some(0nat));
    lemma_find_char_after(kq, crest, ':');
    assert(compact.take(kq.len() as int) =~= kq);
    assert(compact.skip(kq.len() as int + 1) =~= value);
    lemma_trim_unchanged(kq, None);
    lemma_trim_unchanged(value, None);
    assert(compact[0] == '"');
    assert(compact.last() == value.last());
    lemma_trim_unchanged(compact, None);
}

/// A member spaced with JSON whitespace holds no comma when its key and value hold none.
proof fn lemma_member_lacks_comma(
    wa: Seq<char>,
    key: Seq<char>,
    wb: Seq<char>,
    wc: Seq<char>,
    value: Seq<char>,
    wd: Seq<char>,
)
    requires
        json_space(wa),
        json_space(wb),
        json_space(wc),
        json_space(wd),
        !key.contains(','),
        !value.contains(','),
    ensures
        !(wa + (seq!['"'] + key + seq!['"']) + wb + seq![':'] + wc + value + wd).contains(','),
{
    lemma_json_space(wa);
    lemma_json_space(wb);
    lemma_json_space(wc);
    lemma_json_space(wd);
    assert(!seq![':'].contains(',')) by {
        assert forall|i: int| 0 <= i < 1 implies #[trigger] seq![':'][i] != ',' by {}
    }
    assert(!seq!['"'].contains(',')) by {
        assert forall|i: int| 0 <= i < 1 implies #[trigger] seq!['"'][i] != ',' by {}
    }
    let kq = seq!['"'] + key + seq!['"'];
    lemma_concat_lacks(seq!['"'], key, ',');
    lemma_concat_lacks(seq!['"'] + key, seq!['"'], ',');
    lemma_concat_lacks(wa, kq, ',');
    lemma_concat_lacks(wa + kq, wb, ',');
    lemma_concat_lacks(wa + kq + wb, seq![':'], ',');
    lemma_concat_lacks(wa + kq + wb + seq![':'], wc, ',');
    lemma_concat_lacks(wa + kq + wb + seq![':'] + wc, value, ',');
    lemma_concat_lacks(wa + kq + wb + seq![':'] + wc + value, wd, ',');
}

/// An object `{a,b}` with JSON whitespace around its braces parses by its two members.
proof fn lemma_spaced_object(w0: Seq<char>, a: Seq<char>, b: Seq<char>, w9: Seq<char>)
    requires
        json_space(w0),
        json_space(w9),
        !a.contains(','),
        !b.contains(','),
    ensures
        parse_state(w0 + seq!['{'] + a + seq![','] + b + seq!['}'] + w9) == (match state_members(seq![a, b]) {
            Some((Some(o), Some(ts))) => Some((o, ts)),
            _ => None::<(bool, i64)>,
        }),
{
    lemma_json_space(w0);
    lemma_json_space(w9);
    let body = seq!['{'] + a + seq![','] + b + seq!['}'];
    let json = w0 + seq!['{'] + a + seq![','] + b + seq!['}'] + w9;
    assert(json =~= w0 + (body + w9));
    assert((body + w9)[0] == '{');
    lemma_trim_start_skips(w0, body + w9, None);
    assert(body.last() == '}');
    lemma_trim_end_skips(body, w9, None);
    assert(trim(json, None) == body);
    let inner = body.subrange(1, body.len() - 1);
    assert(inner =~= a.push(',') + b);
    lemma_join2(a, b, ',');
    let fields = seq![a, b];
    assert forall|i: int| 0 <= i < fields.len() implies !(#[trigger] fields[i]).contains(',') by {}
    lemma_split_join(fields, ',');
    assert(split_on(inner, ',') == fields);
    assert(body.len() >= 2 && body[0] == '{');
}

/// Parsing is tolerant of whitespace: a STATE object written with any JSON
/// whitespace (spaces, tabs, line breaks) before and after its braces, keys,
/// colons, values and comma parses to the same payload as its compact form.
pub proof fn lemma_parse_spaced_json(online: bool, timestamp: i64, w: Seq<Seq<char>>)
    requires
        w.len() == 10,
        forall|k: int| 0 <= k < 10 ==> json_space(#[trigger] w[k]),
    ensures
        parse_state(
            w[0] + seq!['{'] + w[1] + seq!['"', 'o', 'n', 'l', 'i', 'n', 'e', '"'] + w[2] + seq![':'] + w[3] + (
            if online {
                seq!['t', 'r', 'u', 'e']
            } else {
                seq!['f', 'a', 'l', 's', 'e']
            }) + w[4] + seq![','] + w[5] + seq!['"', 't', 'i', 'm', 'e', 's', 't', 'a', 'm', 'p', '"'] + w[6]
                + seq![':'] + w[7] + i64_text(timestamp) + w[8] + seq!['}'] + w[9],
        ) == Some((online, timestamp)),
{
    let (w0, w1, w2, w3, w4, w5, w6, w7, w8, w9) = (w[0], w[1], w[2], w[3], w[4], w[5], w[6], w[7], w[8], w[9]);
    assert(json_space(w0) && json_space(w1) && json_space(w2) && json_space(w3) && json_space(w4));
    assert(json_space(w5) && json_space(w6) && json_space(w7) && json_space(w8) && json_space(w9));
    let word = if online { true_word() } else { false_word() };
    let ka = online_key();
    let kb = timestamp_key();
    let text = i64_text(timestamp);
    lemma_i64_text_shape(timestamp);
    assert(!ka.contains(':') && !ka.contains(',')) by {
        assert forall|i: int| 0 <= i < ka.len() implies #[trigger] ka[i] != ':' && ka[i] != ',' by {}
    }
    assert(!kb.contains(':') && !kb.contains(',')) by {
        assert forall|i: int| 0 <= i < kb.len() implies #[trigger] kb[i] != ':' && kb[i] != ',' by {}
    }
    assert(!word.contains(',')) by {
        assert forall|i: int| 0 <= i < word.len() implies #[trigger] word[i] != ',' by {}
    }
    assert(!stripped(word[0], None) && !stripped(word.last(), None));
    let kqa = seq!['"'] + ka + seq!['"'];
    let kqb = seq!['"'] + kb + seq!['"'];
    assert(kqa =~= seq!['"', 'o', 'n', 'l', 'i', 'n', 'e', '"']);
    assert(kqb =~= seq!['"', 't', 'i', 'm', 'e', 's', 't', 'a', 'm', 'p', '"']);
    let a = w1 + kqa + w2 + seq![':'] + w3 + word + w4;
    let b = w5 + kqb + w6 + seq![':'] + w7 + text + w8;
    lemma_member_lacks_comma(w1, ka, w2, w3, word, w4);
    lemma_member_lacks_comma(w5, kb, w6, w7, text, w8);
    lemma_spaced_object(w0, a, b, w9);
    assert(w0 + seq!['{'] + w1 + seq!['"', 'o', 'n', 'l', 'i', 'n', 'e', '"'] + w2 + seq![':'] + w3 + word + w4
        + seq![','] + w5 + seq!['"', 't', 'i', 'm', 'e', 's', 't', 'a', 'm', 'p', '"'] + w6 + seq![':'] + w7 + text
        + w8 + seq!['}'] + w9 =~= w0 + seq!['{'] + a + seq![','] + b + seq!['}'] + w9);
    lemma_members_of_json(online, timestamp);
    lemma_spaced_member((None, None), w1, ka, w2, w3, word, w4);
    assert(kqa + seq![':'] + word =~= online_member(online));
    lemma_spaced_member((Some(online), None), w5, kb, w6, w7, text, w8);
    assert(kqb + seq![':'] + text =~= timestamp_member(timestamp));
    let fields = seq![a, b];
    assert(fields.drop_last() =~= seq![a]);
    assert(seq![a].drop_last() =~= Seq::<Seq<char>>::empty());
    assert(state_members(Seq::<Seq<char>>::empty()) == Some::<StateKeys>((None, None)));
    assert(state_members(seq![a]) == Some::<StateKeys>((Some(online), None)));
    assert(state_members(fields) == Some::<StateKeys>((Some(online), Some(timestamp))));
}

} // verus!
