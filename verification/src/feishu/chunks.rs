//! Events that arrive in pieces.

use crate::clock;
use crate::text;
use std::time::Instant;
use vstd::prelude::*;

verus! {

/// How long the pieces of an event are kept after the last of them came: ten seconds.
pub const CHUNK_TTL_NANOS: u128 = 10_000_000_000;

/// The pieces of one event: how many there are in all, those that came and when the last came.
struct EventChunk {
    sum: usize,
    parts: Vec<(usize, Vec<u8>)>,
    updated_at: u128,
}

/// The pieces of the events that are not complete.
pub struct EventChunkCache {
    anchor: Instant,
    entries: Vec<(String, EventChunk)>,
}

/// The pieces of one event, slot by slot.
#[verifier::ext_equal]
pub struct ChunkView {
    pub slots: Seq<Option<Seq<u8>>>,
    pub updated_at: u128,
}

/// The piece with the number `seq` among those from the `i`-th on.
spec fn part_from(parts: Seq<(usize, Vec<u8>)>, seq: int, i: int) -> Option<Seq<u8>>
    decreases parts.len() - i,
{
    if i < 0 || i >= parts.len() {
        None
    } else if parts[i].0 == seq {
        Some(parts[i].1@)
    } else {
        part_from(parts, seq, i + 1)
    }
}

spec fn slots_of(sum: usize, parts: Seq<(usize, Vec<u8>)>) -> Seq<Option<Seq<u8>>> {
    Seq::new(sum as nat, |i: int| part_from(parts, i, 0))
}

impl EventChunk {
    spec fn model(self) -> ChunkView {
        ChunkView { slots: slots_of(self.sum, self.parts@), updated_at: self.updated_at }
    }
}

/// The first entry with that id.
spec fn lookup(s: Seq<(String, EventChunk)>, id: Seq<char>) -> Option<ChunkView>
    decreases s.len(),
{
    if s.len() == 0 {
        None
    } else if s[0].0@ == id {
        Some(s[0].1.model())
    } else {
        lookup(s.skip(1), id)
    }
}

/// No two entries have the same id.
spec fn distinct(s: Seq<(String, EventChunk)>) -> bool
    decreases s.len(),
{
    s.len() == 0 || (lookup(s.skip(1), s[0].0@) is None && distinct(s.skip(1)))
}

spec fn map_of(s: Seq<(String, EventChunk)>) -> Map<Seq<char>, ChunkView> {
    Map::new(|id: Seq<char>| lookup(s, id) is Some, |id: Seq<char>| lookup(s, id)->0)
}

impl View for EventChunkCache {
    type V = Map<Seq<char>, ChunkView>;

    closed spec fn view(&self) -> Map<Seq<char>, ChunkView> {
        map_of(self.entries@)
    }
}

/// Whether an entry is still kept at the time `now`.
pub open spec fn is_fresh(c: ChunkView, now: u128) -> bool {
    now - c.updated_at <= CHUNK_TTL_NANOS
}

/// The entries that are still kept at the time `now`.
pub open spec fn pruned(m: Map<Seq<char>, ChunkView>, now: u128) -> Map<Seq<char>, ChunkView> {
    Map::new(
        |id: Seq<char>| m.dom().contains(id) && is_fresh(m[id], now),
        |id: Seq<char>| m[id],
    )
}

/// The slots of an event before a piece of it is put in its place: those that are kept, or empty
/// ones where the event is new or has another number of pieces.
pub open spec fn slots_before(m: Map<Seq<char>, ChunkView>, id: Seq<char>, sum: nat) -> Seq<
    Option<Seq<u8>>,
> {
    if m.dom().contains(id) && m[id].slots.len() == sum {
        m[id].slots
    } else {
        Seq::new(sum, |i: int| None)
    }
}

/// Whether every slot is filled.
pub open spec fn complete(slots: Seq<Option<Seq<u8>>>) -> bool {
    forall|i: int| 0 <= i < slots.len() ==> (#[trigger] slots[i]) is Some
}

/// The pieces one after the other.
pub open spec fn merged(slots: Seq<Option<Seq<u8>>>) -> Seq<u8>
    decreases slots.len(),
{
    if slots.len() == 0 {
        Seq::empty()
    } else {
        merged(slots.drop_last()) + (match slots.last() {
            Some(b) => b,
            None => Seq::empty(),
        })
    }
}

/// What the cache holds after a piece came, and the whole event if it is complete. An event of one
/// piece, or without an id, is complete of itself; a piece with a number out of range is dropped.
pub open spec fn inserted(
    m: Map<Seq<char>, ChunkView>,
    now: u128,
    id: Seq<char>,
    sum: nat,
    seq: nat,
    payload: Seq<u8>,
) -> (Map<Seq<char>, ChunkView>, Option<Seq<u8>>) {
    let kept = pruned(m, now);
    if id.len() == 0 || sum <= 1 {
        (kept, Some(payload))
    } else if seq >= sum {
        (kept, None)
    } else {
        let slots = slots_before(kept, id, sum).update(seq as int, Some(payload));
        if complete(slots) {
            (kept.remove(id), Some(merged(slots)))
        } else {
            (kept.insert(id, ChunkView { slots, updated_at: now }), None)
        }
    }
}

/// What an optional byte sequence holds.
pub open spec fn bytes_view(b: Option<Vec<u8>>) -> Option<Seq<u8>> {
    match b {
        Some(v) => Some(v@),
        None => None,
    }
}

// ---- entries ----

spec fn kept_of(s: Seq<(String, EventChunk)>, now: u128) -> Seq<(String, EventChunk)>
    decreases s.len(),
{
    if s.len() == 0 {
        Seq::empty()
    } else if is_fresh(s[0].1.model(), now) {
        seq![s[0]] + kept_of(s.skip(1), now)
    } else {
        kept_of(s.skip(1), now)
    }
}

proof fn lemma_kept(s: Seq<(String, EventChunk)>, now: u128, id: Seq<char>)
    requires
        distinct(s),
    ensures
        lookup(kept_of(s, now), id) == (match lookup(s, id) {
            Some(v) => if is_fresh(v, now) {
                Some(v)
            } else {
                None
            },
            None => None,
        }),
    decreases s.len(),
{
    if s.len() > 0 {
        lemma_kept(s.skip(1), now, id);
        if is_fresh(s[0].1.model(), now) {
            let k = kept_of(s, now);
            assert(k[0] == s[0]);
            assert(k.skip(1) =~= kept_of(s.skip(1), now));
        }
    }
}

proof fn lemma_kept_distinct(s: Seq<(String, EventChunk)>, now: u128)
    requires
        distinct(s),
    ensures
        distinct(kept_of(s, now)),
    decreases s.len(),
{
    if s.len() > 0 {
        lemma_kept_distinct(s.skip(1), now);
        if is_fresh(s[0].1.model(), now) {
            let k = kept_of(s, now);
            assert(k[0] == s[0]);
            assert(k.skip(1) =~= kept_of(s.skip(1), now));
            lemma_kept(s.skip(1), now, s[0].0@);
        }
    }
}

proof fn lemma_removed(s: Seq<(String, EventChunk)>, i: int, id: Seq<char>)
    requires
        distinct(s),
        0 <= i < s.len(),
    ensures
        lookup(s.remove(i), id) == (if id == s[i].0@ {
            None
        } else {
            lookup(s, id)
        }),
        lookup(s, s[i].0@) == Some(s[i].1.model()),
    decreases s.len(),
{
    if i == 0 {
        assert(s.remove(0) =~= s.skip(1));
    } else {
        let t = s.remove(i);
        assert(t.skip(1) =~= s.skip(1).remove(i - 1));
        assert(t[0] == s[0]);
        assert(s.skip(1)[i - 1] == s[i]);
        lemma_removed(s.skip(1), i - 1, id);
    }
}

proof fn lemma_removed_distinct(s: Seq<(String, EventChunk)>, i: int)
    requires
        distinct(s),
        0 <= i < s.len(),
    ensures
        distinct(s.remove(i)),
    decreases s.len(),
{
    if i == 0 {
        assert(s.remove(0) =~= s.skip(1));
    } else {
        let t = s.remove(i);
        assert(t.skip(1) =~= s.skip(1).remove(i - 1));
        assert(t[0] == s[0]);
        lemma_removed(s.skip(1), i - 1, s[0].0@);
        lemma_removed_distinct(s.skip(1), i - 1);
    }
}

proof fn lemma_pushed(s: Seq<(String, EventChunk)>, e: (String, EventChunk), id: Seq<char>)
    requires
        distinct(s),
        lookup(s, e.0@) is None,
    ensures
        lookup(s.push(e), id) == (if id == e.0@ {
            Some(e.1.model())
        } else {
            lookup(s, id)
        }),
        distinct(s.push(e)),
    decreases s.len(),
{
    let t = s.push(e);
    if s.len() == 0 {
        assert(t.skip(1).len() == 0);
        assert(lookup(t.skip(1), id) is None);
        assert(lookup(t.skip(1), e.0@) is None);
        assert(distinct(t.skip(1)));
    } else {
        assert(t.skip(1) =~= s.skip(1).push(e));
        assert(t[0] == s[0]);
        lemma_pushed(s.skip(1), e, id);
        lemma_pushed(s.skip(1), e, s[0].0@);
    }
}

// ---- parts ----

proof fn lemma_part_set(parts: Seq<(usize, Vec<u8>)>, at: int, p: (usize, Vec<u8>), seq: int, i: int)
    requires
        0 <= i <= at < parts.len(),
        parts[at].0 == p.0,
        forall|j: int| 0 <= j < at ==> (#[trigger] parts[j]).0 != p.0,
    ensures
        part_from(parts.update(at, p), seq, i) == (if seq == p.0 {
            Some(p.1@)
        } else {
            part_from(parts, seq, i)
        }),
    decreases at - i,
{
    let u = parts.update(at, p);
    if i < at {
        assert(u[i] == parts[i]);
        lemma_part_set(parts, at, p, seq, i + 1);
    } else {
        lemma_part_same(parts, u, seq, at + 1);
    }
}

proof fn lemma_part_same(a: Seq<(usize, Vec<u8>)>, b: Seq<(usize, Vec<u8>)>, seq: int, i: int)
    requires
        a.len() == b.len(),
        0 <= i,
        forall|j: int| i <= j < a.len() ==> a[j] == #[trigger] b[j],
    ensures
        part_from(a, seq, i) == part_from(b, seq, i),
    decreases a.len() - i,
{
    if i < a.len() {
        lemma_part_same(a, b, seq, i + 1);
    }
}

proof fn lemma_part_push(parts: Seq<(usize, Vec<u8>)>, p: (usize, Vec<u8>), seq: int, i: int)
    requires
        0 <= i <= parts.len(),
        forall|j: int| 0 <= j < parts.len() ==> (#[trigger] parts[j]).0 != p.0,
    ensures
        part_from(parts.push(p), seq, i) == (if seq == p.0 {
            Some(p.1@)
        } else {
            part_from(parts, seq, i)
        }),
    decreases parts.len() - i,
{
    let u = parts.push(p);
    if i < parts.len() {
        assert(u[i] == parts[i]);
        lemma_part_push(parts, p, seq, i + 1);
    } else {
        assert(u[i] == p);
        assert(part_from(u, seq, i + 1) is None);
    }
}

impl EventChunk {
    fn put(&mut self, seq: usize, payload: Vec<u8>, now: u128)
        requires
            seq < old(self).sum,
        ensures
            final(self).model() == (ChunkView {
                slots: old(self).model().slots.update(seq as int, Some(payload@)),
                updated_at: now,
            }),
            final(self).sum == old(self).sum,
    {
        let ghost before = self.parts@;
        let ghost slots = self.model().slots;
        self.updated_at = now;
        let mut i: usize = 0;
        while i < self.parts.len() && self.parts[i].0 != seq
            invariant
                i <= self.parts@.len(),
                self.parts@ == before,
                self.updated_at == now,
                self.sum == old(self).sum,
                forall|j: int| 0 <= j < i ==> (#[trigger] before[j]).0 != seq,
            decreases self.parts@.len() - i,
        {
            i += 1;
        }
        if i < self.parts.len() {
            self.parts.set(i, (seq, payload));
            proof {
                assert forall|x: int| 0 <= x < self.sum implies #[trigger] part_from(
                    self.parts@,
                    x,
                    0,
                ) == slots.update(seq as int, Some(payload@))[x] by {
                    lemma_part_set(before, i as int, (seq, payload), x, 0);
                }
            }
        } else {
            self.parts.push((seq, payload));
            proof {
                assert forall|x: int| 0 <= x < self.sum implies #[trigger] part_from(
                    self.parts@,
                    x,
                    0,
                ) == slots.update(seq as int, Some(payload@))[x] by {
                    lemma_part_push(before, (seq, payload), x, 0);
                }
            }
        }
        assert(self.model().slots =~= slots.update(seq as int, Some(payload@)));
    }

    fn part(&self, seq: usize) -> (r: Option<&Vec<u8>>)
        ensures
            r matches Some(b) ==> part_from(self.parts@, seq as int, 0) == Some(b@),
            r is None <==> part_from(self.parts@, seq as int, 0) is None,
    {
        let mut i: usize = 0;
        while i < self.parts.len()
            invariant
                i <= self.parts@.len(),
                part_from(self.parts@, seq as int, 0) == part_from(
                    self.parts@,
                    seq as int,
                    i as int,
                ),
            decreases self.parts@.len() - i,
        {
            if self.parts[i].0 == seq {
                return Some(&self.parts[i].1);
            }
            i += 1;
        }
        None
    }

    /// The pieces one after the other, if none is missing.
    fn whole(&self) -> (r: Option<Vec<u8>>)
        ensures
            r matches Some(b) ==> complete(self.model().slots) && b@ == merged(self.model().slots),
            r is None ==> !complete(self.model().slots),
    {
        let ghost slots = self.model().slots;
        let mut out: Vec<u8> = Vec::new();
        let mut i: usize = 0;
        while i < self.sum
            invariant
                i <= self.sum,
                slots == self.model().slots,
                slots.len() == self.sum,
                out@ == merged(slots.take(i as int)),
                forall|j: int| 0 <= j < i ==> (#[trigger] slots[j]) is Some,
            decreases self.sum - i,
        {
            assert(slots[i as int] == part_from(self.parts@, i as int, 0));
            match self.part(i) {
                None => {
                    return None;
                },
                Some(b) => {
                    let ghost before = out@;
                    out.extend_from_slice(b.as_slice());
                    assert(out@ =~= before + b@);
                    assert(slots.take(i + 1).drop_last() =~= slots.take(i as int));
                    assert(slots.take(i + 1).last() == slots[i as int]);
                },
            }
            i += 1;
        }
        assert(slots.take(i as int) =~= slots);
        Some(out)
    }
}

impl Default for EventChunkCache {
    fn default() -> (r: Self)
        ensures
            r.wf(),
            r@ == Map::<Seq<char>, ChunkView>::empty(),
    {
        let r = EventChunkCache { anchor: clock::instant_now(), entries: Vec::new() };
        assert(r@ =~= Map::<Seq<char>, ChunkView>::empty());
        r
    }
}

impl EventChunkCache {
    /// Every event has at most one entry.
    pub closed spec fn wf(self) -> bool {
        distinct(self.entries@)
    }

    /// Drops what is too old at the time `now`.
    pub fn prune_at(&mut self, now: u128)
        requires
            old(self).wf(),
        ensures
            final(self).wf(),
            final(self)@ == pruned(old(self)@, now),
    {
        let ghost all = self.entries@;
        let mut kept: Vec<(String, EventChunk)> = Vec::new();
        assert(kept@ + kept_of(all, now) =~= kept_of(all, now));
        while self.entries.len() > 0
            invariant
                kept@ + kept_of(self.entries@, now) == kept_of(all, now),
            decreases self.entries@.len(),
        {
            let ghost rest = self.entries@;
            let ghost before = kept@;
            let e = self.entries.remove(0);
            assert(self.entries@ =~= rest.skip(1));
            let fresh = now <= e.1.updated_at || now - e.1.updated_at <= CHUNK_TTL_NANOS;
            if fresh {
                kept.push(e);
            }
            assert(kept@ + kept_of(self.entries@, now) =~= before + kept_of(rest, now));
        }
        assert(kept@ =~= kept_of(all, now));
        self.entries = kept;
        proof {
            lemma_kept_distinct(all, now);
            assert forall|id: Seq<char>| lookup(self.entries@, id) == (match lookup(all, id) {
                Some(v) => if is_fresh(v, now) {
                    Some(v)
                } else {
                    None
                },
                None => None,
            }) by {
                lemma_kept(all, now, id);
            }
            assert(self@ =~= pruned(map_of(all), now));
        }
    }

    /// Takes the entry of an event out.
    fn take(&mut self, id: &str) -> (r: Option<EventChunk>)
        requires
            old(self).wf(),
        ensures
            final(self).wf(),
            final(self)@ == old(self)@.remove(id@),
            r matches Some(c) ==> old(self)@.dom().contains(id@) && old(self)@[id@] == c.model(),
            r is None ==> !old(self)@.dom().contains(id@),
            lookup(final(self).entries@, id@) is None,
    {
        let ghost all = self.entries@;
        let mut i: usize = 0;
        assert(all.skip(0) =~= all);
        while i < self.entries.len()
            invariant
                self.entries@ == all,
                distinct(all),
                map_of(all) == old(self)@,
                i <= all.len(),
                lookup(all, id@) == lookup(all.skip(i as int), id@),
            decreases all.len() - i,
        {
            if text::str_eq(self.entries[i].0.as_str(), id) {
                let e = self.entries.remove(i);
                proof {
                    lemma_removed_distinct(all, i as int);
                    lemma_removed(all, i as int, id@);
                    assert forall|x: Seq<char>| lookup(all.remove(i as int), x) == (if x
                        == all[i as int].0@ {
                        None
                    } else {
                        lookup(all, x)
                    }) by {
                        lemma_removed(all, i as int, x);
                    }
                    assert(self@ =~= map_of(all).remove(id@));
                }
                return Some(e.1);
            }
            assert(all.skip(i as int).skip(1) =~= all.skip(i + 1));
            i += 1;
        }
        assert(self@ =~= map_of(all).remove(id@));
        None
    }

    /// Takes in a piece of an event at the time `now`; hands out the event if it is complete.
    pub fn insert_at(
        &mut self,
        now: u128,
        message_id: &str,
        sum: usize,
        seq: usize,
        payload: Vec<u8>,
    ) -> (r: Option<Vec<u8>>)
        requires
            old(self).wf(),
        ensures
            final(self).wf(),
            (final(self)@, bytes_view(r)) == inserted(
                old(self)@,
                now,
                message_id@,
                sum as nat,
                seq as nat,
                payload@,
            ),
    {
        self.prune_at(now);
        if message_id.unicode_len() == 0 || sum <= 1 {
            return Some(payload);
        }
        if seq >= sum {
            return None;
        }
        let ghost kept = self@;
        let ghost slots = slots_before(kept, message_id@, sum as nat);
        let found = self.take(message_id);
        let mut chunk = match found {
            Some(c) => {
                if c.sum == sum {
                    c
                } else {
                    EventChunk { sum, parts: Vec::new(), updated_at: now }
                }
            },
            None => EventChunk { sum, parts: Vec::new(), updated_at: now },
        };
        assert(chunk.model().slots =~= slots);
        chunk.put(seq, payload, now);
        match chunk.whole() {
            Some(b) => Some(b),
            None => {
                let ghost rest = self.entries@;
                let e = (message_id.to_string(), chunk);
                self.entries.push(e);
                proof {
                    assert forall|x: Seq<char>| lookup(rest.push(e), x) == (if x == e.0@ {
                        Some(e.1.model())
                    } else {
                        lookup(rest, x)
                    }) && distinct(rest.push(e)) by {
                        lemma_pushed(rest, e, x);
                    }
                    lemma_pushed(rest, e, message_id@);
                    let after = kept.insert(message_id@, chunk.model());
                    let without = kept.remove(message_id@);
                    assert(map_of(rest) == without);
                    assert forall|x: Seq<char>|
                        #![trigger self@.dom().contains(x)]
                        self@.dom().contains(x) == after.dom().contains(x) && (
                        self@.dom().contains(x) ==> self@[x] == after[x]) by {
                        assert(map_of(rest).dom().contains(x) == without.dom().contains(x));
                        if x != message_id@ && without.dom().contains(x) {
                            assert(map_of(rest)[x] == without[x]);
                        }
                    }
                    assert(self@ =~= after);
                }
                None
            },
        }
    }

    /// Takes in a piece of an event; hands out the event if it is complete.
    pub fn insert(&mut self, message_id: &str, sum: usize, seq: usize, payload: Vec<u8>) -> (r:
        Option<Vec<u8>>)
        requires
            old(self).wf(),
        ensures
            final(self).wf(),
            exists|now: u128|
                (final(self)@, bytes_view(r)) == #[trigger] inserted(
                    old(self)@,
                    now,
                    message_id@,
                    sum as nat,
                    seq as nat,
                    payload@,
                ),
    {
        let now: u128 = clock::nanos_since(&self.anchor);
        self.insert_at(now, message_id, sum, seq, payload)
    }

    /// Drops what is too old.
    pub fn prune(&mut self)
        requires
            old(self).wf(),
        ensures
            final(self).wf(),
            exists|now: u128| final(self)@ == #[trigger] pruned(old(self)@, now),
    {
        let now: u128 = clock::nanos_since(&self.anchor);
        self.prune_at(now);
    }
}

// ---- laws ----

/// A piece on its way: its number and its bytes.
pub struct Piece {
    pub seq: nat,
    pub payload: Seq<u8>,
}

/// What the cache holds after pieces of one event came, one after the other at the times `at`, and
/// what the last of them brought.
pub open spec fn after_pieces(
    m: Map<Seq<char>, ChunkView>,
    id: Seq<char>,
    sum: nat,
    pieces: Seq<Piece>,
    at: Seq<u128>,
) -> (Map<Seq<char>, ChunkView>, Option<Seq<u8>>)
    decreases pieces.len(),
{
    if pieces.len() == 0 {
        (m, None)
    } else {
        let before = after_pieces(m, id, sum, pieces.drop_last(), at.drop_last());
        let p = pieces.last();
        inserted(before.0, at.last(), id, sum, p.seq, p.payload)
    }
}

/// The slots that pieces fill.
pub open spec fn filled(sum: nat, pieces: Seq<Piece>) -> Seq<Option<Seq<u8>>>
    decreases pieces.len(),
{
    if pieces.len() == 0 {
        Seq::new(sum, |i: int| None)
    } else {
        filled(sum, pieces.drop_last()).update(
            pieces.last().seq as int,
            Some(pieces.last().payload),
        )
    }
}

/// Whether the pieces have numbers in range that differ, and came in time: none later than the
/// time to live after the one before.
pub open spec fn orderly(sum: nat, pieces: Seq<Piece>, at: Seq<u128>) -> bool {
    &&& at.len() == pieces.len()
    &&& forall|i: int| 0 <= i < pieces.len() ==> (#[trigger] pieces[i]).seq < sum
    &&& forall|i: int, j: int|
        0 <= i < j < pieces.len() ==> (#[trigger] pieces[i]).seq != (#[trigger] pieces[j]).seq
    &&& forall|i: int| 0 < i < at.len() ==> (#[trigger] at[i]) - at[i - 1] <= CHUNK_TTL_NANOS
}

proof fn lemma_filled(sum: nat, pieces: Seq<Piece>, s: int)
    requires
        forall|i: int| 0 <= i < pieces.len() ==> (#[trigger] pieces[i]).seq < sum,
        0 <= s < sum,
        forall|i: int| 0 <= i < pieces.len() ==> (#[trigger] pieces[i]).seq != s,
    ensures
        filled(sum, pieces).len() == sum,
        filled(sum, pieces)[s] is None,
    decreases pieces.len(),
{
    if pieces.len() > 0 {
        let rest = pieces.drop_last();
        assert(pieces[pieces.len() - 1].seq != s);
        assert(pieces[pieces.len() - 1].seq < sum);
        assert forall|i: int| 0 <= i < rest.len() implies (#[trigger] rest[i]).seq < sum
            && rest[i].seq != s by {
            assert(rest[i] == pieces[i]);
        }
        lemma_filled(sum, rest, s);
    }
}

/// As long as a piece is missing nothing comes out, whatever the order in which the others came,
/// and the pieces that came are kept.
pub proof fn law_incomplete(
    m: Map<Seq<char>, ChunkView>,
    id: Seq<char>,
    sum: nat,
    pieces: Seq<Piece>,
    at: Seq<u128>,
    missing: int,
)
    requires
        id.len() > 0,
        sum > 1,
        !m.dom().contains(id),
        pieces.len() > 0,
        orderly(sum, pieces, at),
        0 <= missing < sum,
        forall|i: int| 0 <= i < pieces.len() ==> (#[trigger] pieces[i]).seq != missing,
    ensures
        after_pieces(m, id, sum, pieces, at).1 is None,
        after_pieces(m, id, sum, pieces, at).0.dom().contains(id),
        after_pieces(m, id, sum, pieces, at).0[id] == (ChunkView {
            slots: filled(sum, pieces),
            updated_at: at.last(),
        }),
    decreases pieces.len(),
{
    let rest = pieces.drop_last();
    let times = at.drop_last();
    let before = after_pieces(m, id, sum, rest, times);
    assert(pieces.last() == pieces[pieces.len() - 1]);
    lemma_filled(sum, pieces, missing);
    if rest.len() > 0 {
        assert forall|i: int| 0 <= i < rest.len() implies (#[trigger] rest[i]).seq < sum
            && rest[i].seq != missing by {
            assert(rest[i] == pieces[i]);
        }
        assert forall|i: int, j: int| 0 <= i < j < rest.len() implies (#[trigger] rest[i]).seq != (
        #[trigger] rest[j]).seq by {
            assert(rest[i] == pieces[i] && rest[j] == pieces[j]);
        }
        assert forall|i: int| 0 < i < times.len() implies (#[trigger] times[i]) - times[i - 1]
            <= CHUNK_TTL_NANOS by {
            assert(times[i] == at[i] && times[i - 1] == at[i - 1]);
        }
        law_incomplete(m, id, sum, rest, times, missing);
        lemma_filled(sum, rest, missing);
        assert(at[at.len() - 1] - at[at.len() - 2] <= CHUNK_TTL_NANOS);
        assert(times.last() == at[at.len() - 2]);
    } else {
        assert(before.0 == m);
        assert(filled(sum, rest) =~= slots_before(pruned(m, at.last()), id, sum));
    }
    let slots = slots_before(pruned(before.0, at.last()), id, sum);
    assert(slots =~= filled(sum, rest));
    assert(filled(sum, pieces)[missing] is None);
}

/// When the last missing piece comes, the whole event comes out: the pieces in the order of their
/// numbers, whatever the order in which they came; and nothing of it is kept.
pub proof fn law_merge_in_order(
    m: Map<Seq<char>, ChunkView>,
    id: Seq<char>,
    sum: nat,
    pieces: Seq<Piece>,
    at: Seq<u128>,
)
    requires
        id.len() > 0,
        sum > 1,
        !m.dom().contains(id),
        pieces.len() > 1,
        orderly(sum, pieces, at),
        complete(filled(sum, pieces)),
    ensures
        after_pieces(m, id, sum, pieces, at).1 == Some(merged(filled(sum, pieces))),
        !after_pieces(m, id, sum, pieces, at).0.dom().contains(id),
{
    let rest = pieces.drop_last();
    let times = at.drop_last();
    let missing = pieces.last().seq as int;
    assert(pieces.last() == pieces[pieces.len() - 1]);
    assert forall|i: int| 0 <= i < rest.len() implies (#[trigger] rest[i]).seq < sum
        && rest[i].seq != missing by {
        assert(rest[i] == pieces[i]);
    }
    assert forall|i: int, j: int| 0 <= i < j < rest.len() implies (#[trigger] rest[i]).seq != (
    #[trigger] rest[j]).seq by {
        assert(rest[i] == pieces[i] && rest[j] == pieces[j]);
    }
    assert forall|i: int| 0 < i < times.len() implies (#[trigger] times[i]) - times[i - 1]
        <= CHUNK_TTL_NANOS by {
        assert(times[i] == at[i] && times[i - 1] == at[i - 1]);
    }
    law_incomplete(m, id, sum, rest, times, missing);
    lemma_filled(sum, rest, missing);
    assert(at[at.len() - 1] - at[at.len() - 2] <= CHUNK_TTL_NANOS);
    assert(times.last() == at[at.len() - 2]);
    let before = after_pieces(m, id, sum, rest, times).0;
    assert(slots_before(pruned(before, at.last()), id, sum) =~= filled(sum, rest));
}

// ---- events whose pieces come mixed ----

/// A piece that comes in: when, of which event, and which of its pieces.
pub struct Arrival {
    pub at: u128,
    pub id: Seq<char>,
    pub seq: nat,
}

/// Whether the piece `seq` of an event is among the first `n` that come in.
pub open spec fn has_come(s: Seq<Arrival>, id: Seq<char>, seq: int, n: int) -> bool {
    exists|j: int| 0 <= j < n && (#[trigger] s[j]).id == id && s[j].seq == seq
}

/// Whether some piece of an event comes in at or after `from` and before `to`.
pub open spec fn comes_between(s: Seq<Arrival>, id: Seq<char>, from: int, to: int) -> bool {
    exists|j: int| from <= j < to && (#[trigger] s[j]).id == id
}

/// Whether the pieces of the events `parts` come in, each once and in any order, the pieces of
/// different events mixed at will: as time goes on, and with no longer than the time to live
/// between two successive pieces of the same event.
pub open spec fn interleaved(parts: Map<Seq<char>, Seq<Seq<u8>>>, s: Seq<Arrival>) -> bool {
    &&& forall|id: Seq<char>| #[trigger]
        parts.dom().contains(id) ==> id.len() > 0 && parts[id].len() >= 2
    &&& forall|i: int|
        0 <= i < s.len() ==> parts.dom().contains((#[trigger] s[i]).id) && s[i].seq
            < parts[s[i].id].len()
    &&& forall|id: Seq<char>, seq: int|
        parts.dom().contains(id) && 0 <= seq < parts[id].len() ==> #[trigger] has_come(
            s,
            id,
            seq,
            s.len() as int,
        )
    &&& forall|i: int, j: int|
        0 <= i < j < s.len() && (#[trigger] s[i]).id == (#[trigger] s[j]).id ==> s[i].seq
            != s[j].seq
    &&& forall|i: int, j: int|
        0 <= i <= j < s.len() ==> (#[trigger] s[i]).at <= (#[trigger] s[j]).at
    &&& forall|i: int, j: int|
        0 <= i < j < s.len() && (#[trigger] s[i]).id == (#[trigger] s[j]).id && !comes_between(
            s,
            s[i].id,
            i + 1,
            j,
        ) ==> s[j].at - s[i].at <= CHUNK_TTL_NANOS
}

/// What a call with a piece that comes in does to a cache, and what it brings.
pub open spec fn arrival_step(
    m: Map<Seq<char>, ChunkView>,
    parts: Map<Seq<char>, Seq<Seq<u8>>>,
    a: Arrival,
) -> (Map<Seq<char>, ChunkView>, Option<Seq<u8>>) {
    inserted(m, a.at, a.id, parts[a.id].len(), a.seq, parts[a.id][a.seq as int])
}

/// What an empty cache holds after the first `n` pieces came in.
pub open spec fn after_arrivals(
    parts: Map<Seq<char>, Seq<Seq<u8>>>,
    s: Seq<Arrival>,
    n: nat,
) -> Map<Seq<char>, ChunkView>
    decreases n,
{
    if n == 0 {
        Map::empty()
    } else {
        arrival_step(after_arrivals(parts, s, (n - 1) as nat), parts, s[n - 1]).0
    }
}

/// What the call with the `n`-th piece brings.
pub open spec fn arrival_result(
    parts: Map<Seq<char>, Seq<Seq<u8>>>,
    s: Seq<Arrival>,
    n: nat,
) -> Option<Seq<u8>> {
    arrival_step(after_arrivals(parts, s, n), parts, s[n as int]).1
}

/// The slots of an event after the first `n` pieces came in.
spec fn slots_at(
    parts: Map<Seq<char>, Seq<Seq<u8>>>,
    s: Seq<Arrival>,
    id: Seq<char>,
    n: int,
) -> Seq<Option<Seq<u8>>> {
    Seq::new(
        parts[id].len(),
        |q: int|
            if has_come(s, id, q, n) {
                Some(parts[id][q])
            } else {
                None
            },
    )
}

/// When the last of the first `n` pieces that belongs to an event came in.
spec fn last_at(s: Seq<Arrival>, id: Seq<char>, n: int) -> u128
    decreases n,
{
    if n <= 0 {
        0
    } else if s[n - 1].id == id {
        s[n - 1].at
    } else {
        last_at(s, id, n - 1)
    }
}

/// Whether a cache holds exactly the events that have begun and not ended.
spec fn holds_open(
    parts: Map<Seq<char>, Seq<Seq<u8>>>,
    s: Seq<Arrival>,
    n: int,
    m: Map<Seq<char>, ChunkView>,
) -> bool {
    forall|id: Seq<char>|
        #![trigger m.dom().contains(id)]
        (m.dom().contains(id) <==> parts.dom().contains(id) && comes_between(s, id, 0, n)
            && comes_between(s, id, n, s.len() as int)) && (m.dom().contains(id) ==> m[id].slots
            == slots_at(parts, s, id, n) && m[id].updated_at == last_at(s, id, n))
}

proof fn lemma_last(s: Seq<Arrival>, id: Seq<char>, n: int) -> (j: int)
    requires
        0 <= n <= s.len(),
        comes_between(s, id, 0, n),
    ensures
        0 <= j < n,
        s[j].id == id,
        s[j].at == last_at(s, id, n),
        !comes_between(s, id, j + 1, n),
    decreases n,
{
    let w = choose|w: int| 0 <= w < n && (#[trigger] s[w]).id == id;
    assert(n > 0);
    if s[n - 1].id == id {
        n - 1
    } else {
        assert(0 <= w < n - 1 && s[w].id == id);
        let j = lemma_last(s, id, n - 1);
        if comes_between(s, id, j + 1, n) {
            let x = choose|x: int| j + 1 <= x < n && (#[trigger] s[x]).id == id;
            assert(j + 1 <= x < n - 1 && s[x].id == id);
        }
        j
    }
}

proof fn lemma_next(s: Seq<Arrival>, id: Seq<char>, n: int) -> (k: int)
    requires
        0 <= n <= s.len(),
        comes_between(s, id, n, s.len() as int),
    ensures
        n <= k < s.len(),
        s[k].id == id,
        !comes_between(s, id, n, k),
    decreases s.len() - n,
{
    let w = choose|w: int| n <= w < s.len() && (#[trigger] s[w]).id == id;
    if s[n].id == id {
        n
    } else {
        assert(n + 1 <= w < s.len() && s[w].id == id);
        let k = lemma_next(s, id, n + 1);
        if comes_between(s, id, n, k) {
            let x = choose|x: int| n <= x < k && (#[trigger] s[x]).id == id;
            assert(n + 1 <= x < k && s[x].id == id);
        }
        k
    }
}

proof fn lemma_all_fresh(
    parts: Map<Seq<char>, Seq<Seq<u8>>>,
    s: Seq<Arrival>,
    n: int,
    m: Map<Seq<char>, ChunkView>,
)
    requires
        interleaved(parts, s),
        0 <= n < s.len(),
        holds_open(parts, s, n, m),
    ensures
        pruned(m, s[n].at) == m,
{
    assert forall|id: Seq<char>| #[trigger] m.dom().contains(id) implies is_fresh(
        m[id],
        s[n].at,
    ) by {
        let j = lemma_last(s, id, n);
        let k = lemma_next(s, id, n);
        if comes_between(s, id, j + 1, k) {
            let x = choose|x: int| j + 1 <= x < k && (#[trigger] s[x]).id == id;
            if x < n {
                assert(comes_between(s, id, j + 1, n));
            } else {
                assert(comes_between(s, id, n, k));
            }
        }
        assert(s[j].id == s[k].id);
        assert(s[k].at - s[j].at <= CHUNK_TTL_NANOS);
        assert(s[n].at <= s[k].at);
    }
    assert(pruned(m, s[n].at) =~= m);
}

proof fn lemma_slots_step(
    parts: Map<Seq<char>, Seq<Seq<u8>>>,
    s: Seq<Arrival>,
    n: int,
)
    requires
        interleaved(parts, s),
        0 <= n < s.len(),
    ensures
        slots_at(parts, s, s[n].id, n + 1) == slots_at(parts, s, s[n].id, n).update(
            s[n].seq as int,
            Some(parts[s[n].id][s[n].seq as int]),
        ),
        complete(slots_at(parts, s, s[n].id, n + 1)) <==> !comes_between(
            s,
            s[n].id,
            n + 1,
            s.len() as int,
        ),
{
    let id = s[n].id;
    let after = slots_at(parts, s, id, n + 1);
    assert forall|q: int| 0 <= q < parts[id].len() && q != s[n].seq implies has_come(
        s,
        id,
        q,
        n + 1,
    ) == #[trigger] has_come(s, id, q, n) by {
        if has_come(s, id, q, n + 1) {
            let j = choose|j: int| 0 <= j < n + 1 && (#[trigger] s[j]).id == id && s[j].seq == q;
            assert(0 <= j < n && s[j].id == id && s[j].seq == q);
        }
        if has_come(s, id, q, n) {
            let j = choose|j: int| 0 <= j < n && (#[trigger] s[j]).id == id && s[j].seq == q;
            assert(0 <= j < n + 1 && s[j].id == id && s[j].seq == q);
        }
    }
    assert(has_come(s, id, s[n].seq as int, n + 1)) by {
        assert(0 <= n < n + 1 && s[n].id == id);
    }
    assert(after =~= slots_at(parts, s, id, n).update(
        s[n].seq as int,
        Some(parts[id][s[n].seq as int]),
    ));
    if comes_between(s, id, n + 1, s.len() as int) {
        let x = choose|x: int| n + 1 <= x < s.len() && (#[trigger] s[x]).id == id;
        let q = s[x].seq as int;
        if has_come(s, id, q, n + 1) {
            let j = choose|j: int| 0 <= j < n + 1 && (#[trigger] s[j]).id == id && s[j].seq == q;
            assert(s[j].id == s[x].id && s[j].seq == s[x].seq);
        }
        assert(after[q] is None);
    } else {
        assert forall|q: int| 0 <= q < after.len() implies (#[trigger] after[q]) is Some by {
            assert(has_come(s, id, q, s.len() as int));
            let j = choose|j: int|
                0 <= j < s.len() && (#[trigger] s[j]).id == id && s[j].seq == q;
            if j >= n + 1 {
                assert(comes_between(s, id, n + 1, s.len() as int));
            }
            assert(has_come(s, id, q, n + 1));
        }
    }
}

proof fn lemma_others_open(
    parts: Map<Seq<char>, Seq<Seq<u8>>>,
    s: Seq<Arrival>,
    n: int,
    id: Seq<char>,
)
    requires
        0 <= n < s.len(),
        s[n].id != id,
    ensures
        comes_between(s, id, 0, n + 1) == comes_between(s, id, 0, n),
        comes_between(s, id, n + 1, s.len() as int) == comes_between(s, id, n, s.len() as int),
        slots_at(parts, s, id, n + 1) == slots_at(parts, s, id, n),
        last_at(s, id, n + 1) == last_at(s, id, n),
{
    if comes_between(s, id, 0, n + 1) {
        let j = choose|j: int| 0 <= j < n + 1 && (#[trigger] s[j]).id == id;
        assert(0 <= j < n && s[j].id == id);
    }
    if comes_between(s, id, 0, n) {
        let j = choose|j: int| 0 <= j < n && (#[trigger] s[j]).id == id;
        assert(0 <= j < n + 1 && s[j].id == id);
    }
    if comes_between(s, id, n, s.len() as int) {
        let j = choose|j: int| n <= j < s.len() && (#[trigger] s[j]).id == id;
        assert(n + 1 <= j < s.len() && s[j].id == id);
    }
    if comes_between(s, id, n + 1, s.len() as int) {
        let j = choose|j: int| n + 1 <= j < s.len() && (#[trigger] s[j]).id == id;
        assert(n <= j < s.len() && s[j].id == id);
    }
    assert forall|q: int| has_come(s, id, q, n + 1) == #[trigger] has_come(s, id, q, n) by {
        if has_come(s, id, q, n + 1) {
            let j = choose|j: int| 0 <= j < n + 1 && (#[trigger] s[j]).id == id && s[j].seq == q;
            assert(0 <= j < n && s[j].id == id && s[j].seq == q);
        }
        if has_come(s, id, q, n) {
            let j = choose|j: int| 0 <= j < n && (#[trigger] s[j]).id == id && s[j].seq == q;
            assert(0 <= j < n + 1 && s[j].id == id && s[j].seq == q);
        }
    }
    assert(slots_at(parts, s, id, n + 1) =~= slots_at(parts, s, id, n));
}

/// What one call does, where the cache holds exactly the events that have begun and not ended.
#[verifier::spinoff_prover]
#[verifier::rlimit(60)]
proof fn lemma_arrival(
    parts: Map<Seq<char>, Seq<Seq<u8>>>,
    s: Seq<Arrival>,
    n: int,
    m: Map<Seq<char>, ChunkView>,
)
    requires
        interleaved(parts, s),
        0 <= n < s.len(),
        holds_open(parts, s, n, m),
    ensures
        holds_open(parts, s, n + 1, arrival_step(m, parts, s[n]).0),
        arrival_step(m, parts, s[n]).1 == (if comes_between(s, s[n].id, n + 1, s.len() as int) {
            None
        } else {
            Some(merged(slots_at(parts, s, s[n].id, n + 1)))
        }),
{
    let a = s[n];
    let sum = parts[a.id].len();
    let next = arrival_step(m, parts, a).0;
    lemma_all_fresh(parts, s, n, m);
    lemma_slots_step(parts, s, n);
    assert(comes_between(s, a.id, n, s.len() as int)) by {
        assert(n <= n < s.len() && s[n].id == a.id);
    }
    if !m.dom().contains(a.id) {
        assert forall|q: int| !has_come(s, a.id, q, n) by {
            if has_come(s, a.id, q, n) {
                let j = choose|j: int|
                    0 <= j < n && (#[trigger] s[j]).id == a.id && s[j].seq == q;
                assert(comes_between(s, a.id, 0, n));
            }
        }
    }
    assert(slots_before(m, a.id, sum) =~= slots_at(parts, s, a.id, n));
    assert(comes_between(s, a.id, 0, n + 1)) by {
        assert(0 <= n < n + 1 && s[n].id == a.id);
    }
    assert forall|id: Seq<char>|
        #![trigger next.dom().contains(id)]
        (next.dom().contains(id) <==> parts.dom().contains(id) && comes_between(s, id, 0, n + 1)
            && comes_between(s, id, n + 1, s.len() as int)) && (next.dom().contains(id)
            ==> next[id].slots == slots_at(parts, s, id, n + 1) && next[id].updated_at == last_at(
            s,
            id,
            n + 1,
        )) by {
        if id != a.id {
            lemma_others_open(parts, s, n, id);
            assert(next.dom().contains(id) == m.dom().contains(id));
        }
    }
}

proof fn lemma_open(parts: Map<Seq<char>, Seq<Seq<u8>>>, s: Seq<Arrival>, n: nat)
    requires
        interleaved(parts, s),
        n <= s.len(),
    ensures
        holds_open(parts, s, n as int, after_arrivals(parts, s, n)),
    decreases n,
{
    if n > 0 {
        lemma_open(parts, s, (n - 1) as nat);
        lemma_arrival(parts, s, n - 1, after_arrivals(parts, s, (n - 1) as nat));
    }
}

proof fn lemma_merged_parts(p: Seq<Seq<u8>>, slots: Seq<Option<Seq<u8>>>)
    requires
        slots.len() == p.len(),
        forall|q: int| 0 <= q < p.len() ==> #[trigger] slots[q] == Some(p[q]),
    ensures
        merged(slots) == p.flatten(),
    decreases p.len(),
{
    p.lemma_flatten_and_flatten_alt_are_equivalent();
    if p.len() > 0 {
        lemma_merged_parts(p.drop_last(), slots.drop_last());
        p.drop_last().lemma_flatten_and_flatten_alt_are_equivalent();
        assert(slots[p.len() - 1] == Some(p[p.len() - 1]));
    }
}

/// Events whose pieces come mixed do not disturb one another. The call with the last piece of an
/// event brings that event whole, its pieces in the order of their numbers and nothing of another
/// event in it; every other call brings nothing.
pub proof fn law_interleaved(parts: Map<Seq<char>, Seq<Seq<u8>>>, s: Seq<Arrival>, n: nat)
    requires
        interleaved(parts, s),
        n < s.len(),
    ensures
        arrival_result(parts, s, n) == (if comes_between(
            s,
            s[n as int].id,
            n as int + 1,
            s.len() as int,
        ) {
            None
        } else {
            Some(parts[s[n as int].id].flatten())
        }),
{
    lemma_open(parts, s, n);
    lemma_arrival(parts, s, n as int, after_arrivals(parts, s, n));
    lemma_slots_step(parts, s, n as int);
    let id = s[n as int].id;
    if !comes_between(s, id, n as int + 1, s.len() as int) {
        let slots = slots_at(parts, s, id, n as int + 1);
        assert forall|q: int| 0 <= q < parts[id].len() implies #[trigger] slots[q] == Some(
            parts[id][q],
        ) by {
            assert(slots[q] is Some);
        }
        lemma_merged_parts(parts[id], slots);
    }
}

/// While the pieces of events come mixed, exactly the events are held that have begun and not ended;
/// in the end nothing is.
pub proof fn law_nothing_left(
    parts: Map<Seq<char>, Seq<Seq<u8>>>,
    s: Seq<Arrival>,
    n: nat,
    id: Seq<char>,
)
    requires
        interleaved(parts, s),
        n <= s.len(),
    ensures
        after_arrivals(parts, s, n).dom().contains(id) <==> comes_between(s, id, 0, n as int)
            && comes_between(s, id, n as int, s.len() as int),
        after_arrivals(parts, s, s.len()) == Map::<Seq<char>, ChunkView>::empty(),
{
    lemma_open(parts, s, n);
    lemma_open(parts, s, s.len());
    let m = after_arrivals(parts, s, n);
    assert(m.dom().contains(id) ==> parts.dom().contains(id));
    if comes_between(s, id, 0, n as int) {
        let j = choose|j: int| 0 <= j < n && (#[trigger] s[j]).id == id;
        assert(parts.dom().contains(s[j].id));
    }
    let last = after_arrivals(parts, s, s.len());
    assert forall|x: Seq<char>| !(#[trigger] last.dom().contains(x)) by {
        assert(!comes_between(s, x, s.len() as int, s.len() as int));
    }
    assert(last =~= Map::<Seq<char>, ChunkView>::empty());
}

} // verus!
