//! Append-only, hash-chained evidence ledger.
//!
//! Each event carries the hash of the event before it, the first carrying `GENESIS`, and its own
//! hash covers its sequence, its instant, its type, its subject, its payload's JSON text and that
//! link. Instants are nanoseconds since the Unix epoch; payloads are JSON text produced outside
//! the library.

use crate::crypto::{hex_encode, hex_lower, sha256, sha256_of};
use crate::storage::{fence_map_of, fence_scopes_distinct, lemma_fence_map_at, lemma_fence_map_push, lemma_fence_map_update};
use crate::text::{decimal, decimal_text, text_eq, utf8};
use chrono::{DateTime, SecondsFormat};
use vstd::prelude::*;

verus! {

broadcast use vstd::string::group_string_axioms;

/// The link carried by the first event of every chain.
pub const GENESIS_HASH: &'static str = "GENESIS";

/// The most events one page of a query returns.
pub const MAX_PAGE: u32 = 10_000;

#[derive(Debug, Clone, PartialEq, Eq)]
pub struct LedgerEvent {
    pub sequence: u64,
    pub recorded_at: i64,
    pub event_type: String,
    pub subject_id: String,
    pub payload_json: String,
    pub previous_hash: String,
    pub event_hash: String,
}

#[derive(Debug, Clone, PartialEq, Eq)]
pub enum LedgerError {
    Database(String),
    Serialization(String),
    BrokenLink { sequence: u64, expected: String, actual: String },
    HashMismatch { sequence: u64 },
    Poisoned,
    FencingEpochOverflow(String),
}

/// The RFC 3339 text, with nine fractional digits and a `Z` suffix, that chrono writes for an
/// instant given in nanoseconds since the Unix epoch.
pub uninterp spec fn rfc3339_nanos_of(t: int) -> Seq<char>;

/// An instant's RFC 3339 text by `DateTime::from_timestamp_nanos` and
/// `to_rfc3339_opts(SecondsFormat::Nanos, true)`; every `i64` instant is in chrono's range. The
/// text is named, not stated.
#[verifier::external_body]
fn rfc3339_nanos(t: i64) -> (r: String)
    ensures
        r@ == rfc3339_nanos_of(t as int),
{
    DateTime::from_timestamp_nanos(t).to_rfc3339_opts(SecondsFormat::Nanos, true)
}

/// The eight big-endian bytes of a sequence number.
pub open spec fn be_bytes(v: u64) -> Seq<u8> {
    seq![
        (v >> 56u64) as u8,
        (v >> 48u64) as u8,
        (v >> 40u64) as u8,
        (v >> 32u64) as u8,
        (v >> 24u64) as u8,
        (v >> 16u64) as u8,
        (v >> 8u64) as u8,
        v as u8,
    ]
}

/// What an event's hash covers: its sequence in big-endian bytes, its instant's RFC 3339 text,
/// then its type, subject, payload text and link, each of the last three after a zero byte.
pub open spec fn hash_input(
    sequence: u64,
    recorded_at: int,
    event_type: Seq<char>,
    subject_id: Seq<char>,
    payload_json: Seq<char>,
    previous_hash: Seq<char>,
) -> Seq<u8> {
    be_bytes(sequence) + utf8(rfc3339_nanos_of(recorded_at)) + utf8(event_type) + seq![0u8] + utf8(subject_id)
        + seq![0u8] + utf8(payload_json) + seq![0u8] + utf8(previous_hash)
}

/// The hash of an event's contents: lowercase hex of the SHA-256 digest of [`hash_input`].
pub open spec fn event_hash_spec(
    sequence: u64,
    recorded_at: int,
    event_type: Seq<char>,
    subject_id: Seq<char>,
    payload_json: Seq<char>,
    previous_hash: Seq<char>,
) -> Seq<char> {
    hex_lower(sha256_of(hash_input(sequence, recorded_at, event_type, subject_id, payload_json, previous_hash)))
}

fn push_bytes(out: &mut Vec<u8>, bytes: &[u8])
    ensures
        final(out)@ == old(out)@ + bytes@,
{
    let mut i: usize = 0;
    let ghost start = out@;
    while i < bytes.len()
        invariant
            i <= bytes@.len(),
            out@ == start + bytes@.take(i as int),
        decreases bytes@.len() - i,
    {
        out.push(bytes[i]);
        proof {
            assert(bytes@.take(i + 1) =~= bytes@.take(i as int).push(bytes@[i as int]));
        }
        i = i + 1;
    }
    proof {
        assert(bytes@.take(bytes@.len() as int) =~= bytes@);
    }
}

/// Hash an event's contents.
pub fn calculate_hash(
    sequence: u64,
    recorded_at: i64,
    event_type: &str,
    subject_id: &str,
    payload_json: &str,
    previous_hash: &str,
) -> (r: String)
    ensures
        r@ == event_hash_spec(sequence, recorded_at as int, event_type@, subject_id@, payload_json@, previous_hash@),
{
    let mut input: Vec<u8> = Vec::new();
    input.push((sequence >> 56u64) as u8);
    input.push((sequence >> 48u64) as u8);
    input.push((sequence >> 40u64) as u8);
    input.push((sequence >> 32u64) as u8);
    input.push((sequence >> 24u64) as u8);
    input.push((sequence >> 16u64) as u8);
    input.push((sequence >> 8u64) as u8);
    input.push(sequence as u8);
    assert(input@ =~= be_bytes(sequence));
    let stamp = rfc3339_nanos(recorded_at);
    push_bytes(&mut input, stamp.as_str().as_bytes());
    push_bytes(&mut input, event_type.as_bytes());
    input.push(0u8);
    push_bytes(&mut input, subject_id.as_bytes());
    input.push(0u8);
    push_bytes(&mut input, payload_json.as_bytes());
    input.push(0u8);
    push_bytes(&mut input, previous_hash.as_bytes());
    assert(input@ =~= hash_input(sequence, recorded_at as int, event_type@, subject_id@, payload_json@, previous_hash@));
    let digest = sha256(input.as_slice());
    hex_encode(digest.as_slice())
}

/// The link an event at position `i` must carry: `GENESIS` first, then the previous event's hash.
pub open spec fn expected_link(events: Seq<LedgerEvent>, i: int) -> Seq<char> {
    if i == 0 { GENESIS_HASH@ } else { events[i - 1].event_hash@ }
}

/// Whether the event at position `i` links to its predecessor and its hash matches its contents.
pub open spec fn event_sound(events: Seq<LedgerEvent>, i: int) -> bool {
    let e = events[i];
    &&& e.previous_hash@ == expected_link(events, i)
    &&& e.event_hash@ == event_hash_spec(e.sequence, e.recorded_at as int, e.event_type@, e.subject_id@, e.payload_json@, e.previous_hash@)
}

/// The verdict of verifying a chain: the number of events when every event is sound, else the
/// fault of the first unsound one.
pub open spec fn chain_verdict(events: Seq<LedgerEvent>, r: Result<u64, LedgerError>) -> bool {
    match r {
        Ok(n) => n == events.len() && forall|i: int| 0 <= i < events.len() ==> event_sound(events, i),
        Err(err) => exists|i: int| #![trigger events[i]] 0 <= i < events.len() && (forall|j: int| 0 <= j < i ==> event_sound(events, j))
            && !event_sound(events, i) && match err {
                LedgerError::BrokenLink { sequence, expected, actual } => events[i].previous_hash@ != expected_link(events, i)
                    && sequence == events[i].sequence && expected@ == expected_link(events, i) && actual@ == events[i].previous_hash@,
                LedgerError::HashMismatch { sequence } => events[i].previous_hash@ == expected_link(events, i)
                    && sequence == events[i].sequence,
                _ => false,
            },
    }
}

/// A faithful copy of an event.
pub fn copy_event(e: &LedgerEvent) -> (r: LedgerEvent)
    ensures
        r == *e,
{
    LedgerEvent {
        sequence: e.sequence,
        recorded_at: e.recorded_at,
        event_type: e.event_type.clone(),
        subject_id: e.subject_id.clone(),
        payload_json: e.payload_json.clone(),
        previous_hash: e.previous_hash.clone(),
        event_hash: e.event_hash.clone(),
    }
}

/// Walk a chain of events in order, checking each link and recomputing each hash.
#[verifier::loop_isolation(false)]
pub fn verify_chain(events: &Vec<LedgerEvent>) -> (r: Result<u64, LedgerError>)
    requires
        events@.len() <= u64::MAX,
    ensures
        chain_verdict(events@, r),
{
    let mut expected_previous = GENESIS_HASH.to_string();
    let mut verified: u64 = 0;
    let mut i: usize = 0;
    while i < events.len()
        invariant
            i <= events@.len(),
            verified == i,
            expected_previous@ == expected_link(events@, i as int) || i == events@.len(),
            i < events@.len() ==> expected_previous@ == expected_link(events@, i as int),
            forall|j: int| 0 <= j < i ==> event_sound(events@, j),
        decreases events@.len() - i,
    {
        let event = &events[i];
        if !text_eq(event.previous_hash.as_str(), expected_previous.as_str()) {
            let err = LedgerError::BrokenLink {
                sequence: event.sequence,
                expected: expected_previous,
                actual: event.previous_hash.clone(),
            };
            assert(!event_sound(events@, i as int));
            return Err(err);
        }
        let expected_hash = calculate_hash(
            event.sequence,
            event.recorded_at,
            event.event_type.as_str(),
            event.subject_id.as_str(),
            event.payload_json.as_str(),
            event.previous_hash.as_str(),
        );
        if !text_eq(expected_hash.as_str(), event.event_hash.as_str()) {
            assert(!event_sound(events@, i as int));
            return Err(LedgerError::HashMismatch { sequence: event.sequence });
        }
        expected_previous = event.event_hash.clone();
        verified = verified + 1;
        i = i + 1;
    }
    Ok(verified)
}

/// The fencing epoch that follows `current` (zero where a scope has none), within the index's
/// signed 64-bit range.
pub open spec fn next_epoch_spec(current: Option<u64>) -> Option<u64> {
    let base: int = match current { Some(c) => c as int, None => 0 };
    if base + 1 <= i64::MAX { Some((base + 1) as u64) } else { None }
}

/// The JSON text of the payload that evidences an advanced epoch.
pub open spec fn epoch_payload(epoch: u64) -> Seq<char> {
    "{\"fencing_epoch\":"@ + decimal(epoch as nat) + "}"@
}

/// An evidence ledger: a hash chain of events, and the current fencing epoch of each authority
/// scope that has advanced one.
#[derive(Debug)]
pub struct Ledger {
    events: Vec<LedgerEvent>,
    epochs: Vec<(String, u64)>,
}

impl Ledger {
    /// The ledger's own consistency: events numbered from one in order, each linked to its
    /// predecessor and hashed over its contents, and one epoch per scope.
    pub closed spec fn wf(&self) -> bool {
        &&& forall|i: int| 0 <= i < self.events@.len() ==> (#[trigger] self.events@[i]).sequence == i + 1
        &&& forall|i: int| 0 <= i < self.events@.len() ==> event_sound(self.events@, i)
        &&& fence_scopes_distinct(self.epochs@)
        &&& self.events@.len() < u64::MAX
    }

    /// The events, oldest first.
    pub closed spec fn history(&self) -> Seq<LedgerEvent> {
        self.events@
    }

    /// The current fencing epoch of each scope that has advanced one.
    pub closed spec fn epochs(&self) -> Map<Seq<char>, u64> {
        fence_map_of(self.epochs@)
    }

    /// An empty ledger.
    pub fn in_memory() -> (r: Result<Self, LedgerError>)
        ensures
            r is Ok,
            r matches Ok(l) && l.wf() && l.history() == Seq::<LedgerEvent>::empty() && l.epochs() == Map::<Seq<char>, u64>::empty(),
    {
        let l = Ledger { events: Vec::new(), epochs: Vec::new() };
        assert(l.epochs() =~= Map::<Seq<char>, u64>::empty());
        Ok(l)
    }

    /// Append an event recorded at `recorded_at`: it takes the next sequence number, links to
    /// the last event's hash (`GENESIS` for the first) and is hashed over its contents.
    pub fn append(&mut self, event_type: &str, subject_id: &str, payload_json: &str, recorded_at: i64) -> (r: Result<LedgerEvent, LedgerError>)
        requires
            old(self).wf(),
            old(self).history().len() + 1 < u64::MAX,
        ensures
            final(self).wf(),
            final(self).epochs() == old(self).epochs(),
            r matches Ok(e) && final(self).history() == old(self).history().push(e)
                && e.sequence == old(self).history().len() + 1
                && e.recorded_at == recorded_at
                && e.event_type@ == event_type@
                && e.subject_id@ == subject_id@
                && e.payload_json@ == payload_json@
                && e.previous_hash@ == expected_link(final(self).history(), old(self).history().len() as int)
                && e.event_hash@ == event_hash_spec(e.sequence, recorded_at as int, event_type@, subject_id@, payload_json@, e.previous_hash@),
    {
        let n = self.events.len();
        let sequence = n as u64 + 1;
        let previous_hash = if n == 0 {
            GENESIS_HASH.to_string()
        } else {
            self.events[n - 1].event_hash.clone()
        };
        let event_hash = calculate_hash(sequence, recorded_at, event_type, subject_id, payload_json, previous_hash.as_str());
        let event = LedgerEvent {
            sequence,
            recorded_at,
            event_type: event_type.to_string(),
            subject_id: subject_id.to_string(),
            payload_json: payload_json.to_string(),
            previous_hash,
            event_hash,
        };
        let copy = copy_event(&event);
        let ghost before = self.events@;
        self.events.push(event);
        proof {
            assert forall|i: int| 0 <= i < self.events@.len() implies event_sound(self.events@, i) by {
                if i < before.len() {
                    assert(self.events@[i] == before[i]);
                    assert(event_sound(before, i));
                    if i > 0 {
                        assert(self.events@[i - 1] == before[i - 1]);
                    }
                }
            }
        }
        Ok(copy)
    }

    /// The current fencing epoch of a scope; zero where it has never advanced.
    pub fn current_fencing_epoch(&self, scope: &str) -> (r: Result<u64, LedgerError>)
        requires
            self.wf(),
        ensures
            r == Ok::<u64, LedgerError>(match self.epochs().get(scope@) { Some(e) => e, None => 0 }),
    {
        Ok(match self.epoch_of(scope) {
            Some(e) => e,
            None => 0,
        })
    }

    #[verifier::loop_isolation(false)]
    fn epoch_of(&self, scope: &str) -> (r: Option<u64>)
        requires
            self.wf(),
        ensures
            r == self.epochs().get(scope@),
    {
        let mut i: usize = 0;
        while i < self.epochs.len()
            invariant
                i <= self.epochs@.len(),
                forall|j: int| 0 <= j < i ==> (#[trigger] self.epochs@[j]).0@ != scope@,
            decreases self.epochs@.len() - i,
        {
            if text_eq(self.epochs[i].0.as_str(), scope) {
                proof {
                    lemma_fence_map_at(self.epochs@, i as int);
                }
                return Some(self.epochs[i].1);
            }
            i = i + 1;
        }
        None
    }

    /// Atomically advance a scope's fencing epoch by one and evidence it: the new epoch and an
    /// `authority.epoch.advanced` event about the scope, recorded at `recorded_at`, are committed
    /// together. An epoch beyond the signed 64-bit range is refused and nothing changes.
    #[verifier::loop_isolation(false)]
    pub fn advance_fencing_epoch(&mut self, scope: &str, recorded_at: i64) -> (r: Result<u64, LedgerError>)
        requires
            old(self).wf(),
            old(self).history().len() + 1 < u64::MAX,
        ensures
            final(self).wf(),
            match next_epoch_spec(old(self).epochs().get(scope@)) {
                Some(e) => r == Ok::<u64, LedgerError>(e),
                None => r is Err,
            },
            match r {
                Ok(next) => next == (match old(self).epochs().get(scope@) { Some(c) => c as int, None => 0int }) + 1
                    && final(self).epochs() == old(self).epochs().insert(scope@, next)
                    && final(self).history().len() == old(self).history().len() + 1
                    && final(self).history().last().sequence == old(self).history().len() + 1
                    && final(self).history().last().previous_hash@ == expected_link(final(self).history(), old(self).history().len() as int)
                    && event_sound(final(self).history(), old(self).history().len() as int)
                    && final(self).history().drop_last() == old(self).history()
                    && final(self).history().last().event_type@ == "authority.epoch.advanced"@
                    && final(self).history().last().subject_id@ == scope@
                    && final(self).history().last().payload_json@ == epoch_payload(next),
                Err(e) => e matches LedgerError::FencingEpochOverflow(s) && s@ == scope@
                    && final(self).epochs() == old(self).epochs() && final(self).history() == old(self).history(),
            },
    {
        let current = self.epoch_of(scope);
        let base: u64 = match current {
            Some(c) => c,
            None => 0,
        };
        if base >= 9_223_372_036_854_775_807u64 {
            return Err(LedgerError::FencingEpochOverflow(scope.to_string()));
        }
        let next = base + 1;
        let mut k: usize = 0;
        let mut found = false;
        while !found && k < self.epochs.len()
            invariant
                k <= self.epochs@.len(),
                found ==> k < self.epochs@.len() && self.epochs@[k as int].0@ == scope@,
                forall|t: int| 0 <= t < k ==> (#[trigger] self.epochs@[t]).0@ != scope@,
            decreases self.epochs@.len() - k + (if found { 0int } else { 1int }),
        {
            if text_eq(self.epochs[k].0.as_str(), scope) {
                found = true;
            } else {
                k = k + 1;
            }
        }
        if found {
            let key = self.epochs[k].0.clone();
            proof {
                lemma_fence_map_update(self.epochs@, k as int, next);
            }
            self.epochs.set(k, (key, next));
        } else {
            let key = scope.to_string();
            proof {
                if fence_map_of(self.epochs@).dom().contains(scope@) {
                    let t = choose|t: int| 0 <= t < self.epochs@.len() && (#[trigger] self.epochs@[t]).0@ == scope@;
                    assert(false);
                }
                lemma_fence_map_push(self.epochs@, (key, next));
            }
            self.epochs.push((key, next));
        }
        let mut payload = "{\"fencing_epoch\":".to_string();
        let digits = decimal_text(next);
        payload.append(digits.as_str());
        payload.append("}");
        let _event = self.append("authority.epoch.advanced", scope, payload.as_str(), recorded_at);
        Ok(next)
    }

    /// Up to `limit` events (at most [`MAX_PAGE`]) after sequence number `after_sequence`, oldest
    /// first.
    pub fn events(&self, after_sequence: u64, limit: u32) -> (r: Result<Vec<LedgerEvent>, LedgerError>)
        requires
            self.wf(),
        ensures
            r matches Ok(page) && ({
                let n = self.history().len() as int;
                let start = if after_sequence < n { after_sequence as int } else { n };
                let cap = if limit < MAX_PAGE { limit as int } else { MAX_PAGE as int };
                let end = if start + cap < n { start + cap } else { n };
                page@ == self.history().subrange(start, end)
            }),
    {
        let n = self.events.len();
        let start: usize = if (after_sequence as u128) < (n as u128) { after_sequence as usize } else { n };
        let cap: usize = if limit < MAX_PAGE { limit as usize } else { MAX_PAGE as usize };
        let end: usize = if n - start > cap { start + cap } else { n };
        let mut page: Vec<LedgerEvent> = Vec::new();
        let mut i: usize = start;
        while i < end
            invariant
                start <= i <= end <= n,
                n == self.events@.len(),
                page@ == self.events@.subrange(start as int, i as int),
            decreases end - i,
        {
            page.push(copy_event(&self.events[i]));
            proof {
                assert(self.events@.subrange(start as int, i + 1) =~= self.events@.subrange(start as int, i as int).push(self.events@[i as int]));
            }
            i = i + 1;
        }
        Ok(page)
    }

    /// Up to `limit` events (at most [`MAX_PAGE`]) about one subject, oldest first.
    pub fn events_for_subject(&self, subject_id: &str, limit: u32) -> (r: Result<Vec<LedgerEvent>, LedgerError>)
        requires
            self.wf(),
        ensures
            r matches Ok(page) && ({
                let cap = if limit < MAX_PAGE { limit as int } else { MAX_PAGE as int };
                let all = about_subject(self.history(), subject_id@);
                page@ == all.take(if all.len() < cap { all.len() as int } else { cap })
            }),
    {
        let cap: usize = if limit < MAX_PAGE { limit as usize } else { MAX_PAGE as usize };
        let mut page: Vec<LedgerEvent> = Vec::new();
        let mut i: usize = 0;
        while i < self.events.len() && page.len() < cap
            invariant
                i <= self.events@.len(),
                page@.len() <= cap,
                page@ == about_subject(self.events@.take(i as int), subject_id@),
            decreases self.events@.len() - i,
        {
            proof {
                assert(self.events@.take(i + 1).drop_last() =~= self.events@.take(i as int));
            }
            if text_eq(self.events[i].subject_id.as_str(), subject_id) {
                page.push(copy_event(&self.events[i]));
            }
            i = i + 1;
        }
        proof {
            lemma_about_subject_prefix(self.events@, subject_id@, i as int);
            let all = about_subject(self.events@, subject_id@);
            if page@.len() < cap {
                assert(self.events@.take(i as int) =~= self.events@);
                assert(all.take(all.len() as int) =~= all);
            }
        }
        Ok(page)
    }

    /// Verify the whole chain: every event links to its predecessor and its hash matches its
    /// contents. A ledger built by this library always verifies, counting all its events.
    pub fn verify(&self) -> (r: Result<u64, LedgerError>)
        requires
            self.wf(),
        ensures
            r == Ok::<u64, LedgerError>(self.history().len() as u64),
            chain_verdict(self.history(), r),
    {
        let r = verify_chain(&self.events);
        proof {
            if r is Err {
                let i = choose|i: int| #![trigger self.events@[i]] 0 <= i < self.events@.len() && (forall|j: int| 0 <= j < i ==> event_sound(self.events@, j))
                    && !event_sound(self.events@, i) && true;
                assert(event_sound(self.events@, i));
            }
        }
        r
    }
}

/// Every ledger this library builds is a sound chain: its events are numbered from one, the
/// first links to `GENESIS`, each later one to its predecessor's hash, each hash matches its
/// event, and verifying it counts every event.
pub proof fn law_ledger_is_a_sound_chain(l: Ledger)
    requires
        l.wf(),
    ensures
        forall|i: int| 0 <= i < l.history().len() ==> (#[trigger] l.history()[i]).sequence == i + 1 && event_sound(l.history(), i),
        l.history().len() > 0 ==> l.history()[0].previous_hash@ == GENESIS_HASH@,
        chain_verdict(l.history(), Ok(l.history().len() as u64)),
{
    if l.history().len() > 0 {
        assert(event_sound(l.history(), 0));
    }
}

/// The events about one subject, oldest first.
pub open spec fn about_subject(events: Seq<LedgerEvent>, subject: Seq<char>) -> Seq<LedgerEvent>
    decreases events.len(),
{
    if events.len() == 0 {
        Seq::empty()
    } else {
        let rest = about_subject(events.drop_last(), subject);
        if events.last().subject_id@ == subject { rest.push(events.last()) } else { rest }
    }
}

/// The events about a subject among the first `i` are a prefix of those among all.
proof fn lemma_about_subject_prefix(s: Seq<LedgerEvent>, subject: Seq<char>, i: int)
    requires
        0 <= i <= s.len(),
    ensures
        about_subject(s.take(i), subject) == about_subject(s, subject).take(about_subject(s.take(i), subject).len() as int),
        about_subject(s.take(i), subject).len() <= about_subject(s, subject).len(),
    decreases s.len() - i,
{
    if i == s.len() {
        assert(s.take(i) =~= s);
        assert(about_subject(s, subject).take(about_subject(s, subject).len() as int) =~= about_subject(s, subject));
    } else {
        lemma_about_subject_prefix(s, subject, i + 1);
        assert(s.take(i + 1).drop_last() =~= s.take(i));
        let a = about_subject(s.take(i), subject);
        let b = about_subject(s.take(i + 1), subject);
        let all = about_subject(s, subject);
        if s[i].subject_id@ == subject {
            assert(b == a.push(s[i]));
            assert(a =~= b.take(a.len() as int));
            assert(a =~= all.take(a.len() as int));
        } else {
            assert(b == a);
        }
    }
}

} // verus!
