//! The fixed-timespan offset model: a timezone (standard or calendar-embedded)
//! is an ordered list of UTC-offset spans, and this module answers "what
//! offset applies at UTC instant X / at naive local time Y", including the
//! gap and overlap cases around daylight-saving transitions.

use vstd::prelude::*;

verus! {

/// Largest transition instant (in epoch seconds) a well-formed span set may
/// hold; generous enough for any calendar data while keeping all offset
/// arithmetic far from `i64` overflow.
pub const MAX_TRANSITION: i64 = 0x10_0000_0000_0000;

/// Largest magnitude (in seconds) of a single UTC or DST offset component.
pub const MAX_OFFSET: i32 = 86400;

/// An offset from UTC that applies for a contiguous period of time.
/// The total applied offset is `utc_offset + dst_offset` seconds.
#[derive(Debug)]
pub struct FixedTimespan {
    /// The base offset from UTC in seconds.
    pub utc_offset: i32,
    /// The additional offset in effect during this timespan, typically for
    /// daylight saving time, in seconds.
    pub dst_offset: i32,
    /// The abbreviation of this timespan, for example `CET` versus `CEST`.
    pub name: String,
}

impl FixedTimespan {
    /// The total offset, base plus daylight adjustment, as a mathematical sum.
    pub open spec fn spec_total_offset(self) -> int {
        self.utc_offset + self.dst_offset
    }

    /// Both offset components are within [`MAX_OFFSET`] magnitude.
    pub open spec fn offsets_bounded(self) -> bool {
        &&& -MAX_OFFSET <= self.utc_offset <= MAX_OFFSET
        &&& -MAX_OFFSET <= self.dst_offset <= MAX_OFFSET
    }

    /// The total offset to apply to a UTC instant to obtain local time.
    pub fn total_offset(&self) -> (r: i64)
        ensures
            r == self.spec_total_offset(),
    {
        self.utc_offset as i64 + self.dst_offset as i64
    }
}

impl Clone for FixedTimespan {
    fn clone(&self) -> (r: Self)
        ensures
            r == *self,
    {
        FixedTimespan {
            utc_offset: self.utc_offset,
            dst_offset: self.dst_offset,
            name: self.name.clone(),
        }
    }
}

impl PartialEq for FixedTimespan {
    fn eq(&self, other: &FixedTimespan) -> (r: bool) {
        self.utc_offset == other.utc_offset && self.dst_offset == other.dst_offset
            && self.name == other.name
    }
}

impl Eq for FixedTimespan {}

impl vstd::std_specs::cmp::PartialEqSpecImpl for FixedTimespan {
    open spec fn obeys_eq_spec() -> bool {
        true
    }

    open spec fn eq_spec(&self, other: &FixedTimespan) -> bool {
        &&& self.utc_offset == other.utc_offset
        &&& self.dst_offset == other.dst_offset
        &&& self.name@ == other.name@
    }
}

/// The span of time over which one rule is valid: half-open, left-inclusive.
/// A `None` bound means the span extends to the beginning or end of time.
pub struct Span {
    pub begin: Option<i64>,
    pub end: Option<i64>,
}

impl Span {
    /// Membership: the instant lies on or after `begin` and strictly before `end`.
    pub open spec fn spec_contains(self, x: int) -> bool {
        &&& (self.begin matches Some(a) ==> a <= x)
        &&& (self.end matches Some(b) ==> x < b)
    }

    /// Where the instant falls relative to this span: `Equal` inside it,
    /// `Less` when the span lies entirely before the instant, `Greater` when
    /// entirely after. (For an empty span the code answers `Less` as soon as
    /// the instant passed its end bound.)
    pub open spec fn spec_cmp(self, x: int) -> core::cmp::Ordering {
        match (self.begin, self.end) {
            (Some(a), Some(b)) => if a <= x && x < b {
                core::cmp::Ordering::Equal
            } else if a <= x && b <= x {
                core::cmp::Ordering::Less
            } else {
                core::cmp::Ordering::Greater
            },
            (Some(a), None) => if a <= x {
                core::cmp::Ordering::Equal
            } else {
                core::cmp::Ordering::Greater
            },
            (None, Some(b)) => if b <= x {
                core::cmp::Ordering::Less
            } else {
                core::cmp::Ordering::Equal
            },
            (None, None) => core::cmp::Ordering::Equal,
        }
    }

    pub fn contains(&self, x: i64) -> (r: bool)
        ensures
            r == self.spec_contains(x as int),
    {
        match (self.begin, self.end) {
            (Some(a), Some(b)) => a <= x && x < b,
            (Some(a), None) => a <= x,
            (None, Some(b)) => b > x,
            (None, None) => true,
        }
    }

    pub fn cmp(&self, x: i64) -> (r: core::cmp::Ordering)
        ensures
            r == self.spec_cmp(x as int),
    {
        match (self.begin, self.end) {
            (Some(a), Some(b)) => if a <= x && x < b {
                core::cmp::Ordering::Equal
            } else if a <= x && b <= x {
                core::cmp::Ordering::Less
            } else {
                core::cmp::Ordering::Greater
            },
            (Some(a), None) => if a <= x {
                core::cmp::Ordering::Equal
            } else {
                core::cmp::Ordering::Greater
            },
            (None, Some(b)) => if b <= x {
                core::cmp::Ordering::Less
            } else {
                core::cmp::Ordering::Equal
            },
            (None, None) => core::cmp::Ordering::Equal,
        }
    }
}

/// The outcome of resolving a naive local timestamp against a timezone:
/// the local clock reading may not exist (it fell in a "spring forward"
/// gap), may denote exactly one instant, or may denote two (it fell in a
/// "fall back" overlap).
#[derive(Debug)]
pub enum LocalResolution<T> {
    /// The local time lies in a skipped window and names no instant.
    NoSuchLocalTime,
    /// Exactly one offset applies.
    Single(T),
    /// Two offsets apply; the first one is the earlier span's.
    Ambiguous(T, T),
}

impl<T> LocalResolution<T> {
    /// The policy used wherever a single deterministic answer is needed:
    /// prefer the earlier span, so calendar display stays stable.
    pub fn earliest(self) -> (r: Option<T>)
        ensures
            r == self.spec_earliest(),
    {
        match self {
            LocalResolution::NoSuchLocalTime => None,
            LocalResolution::Single(x) => Some(x),
            LocalResolution::Ambiguous(a, _) => Some(a),
        }
    }

    pub open spec fn spec_earliest(self) -> Option<T> {
        match self {
            LocalResolution::NoSuchLocalTime => None,
            LocalResolution::Single(x) => Some(x),
            LocalResolution::Ambiguous(a, _) => Some(a),
        }
    }
}

/// An ordered sequence of transition instants, each introducing a new offset,
/// plus one leading offset that applies to all instants before the first
/// transition. Span `i` covers `[transition[i-1], transition[i])` in UTC time.
#[derive(Debug)]
pub struct FixedTimespanSet {
    /// The offset in effect from the beginning of time to the first transition.
    pub first: FixedTimespan,
    /// `(transition_instant, offset)` pairs sorted ascending by instant; each
    /// offset applies from its instant up to the next one.
    pub rest: Vec<(i64, FixedTimespan)>,
}

impl Clone for FixedTimespanSet {
    fn clone(&self) -> (r: Self)
        ensures
            r.first == self.first,
            r.rest@ == self.rest@,
    {
        let mut rest: Vec<(i64, FixedTimespan)> = Vec::new();
        let mut k: usize = 0;
        while k < self.rest.len()
            invariant
                k <= self.rest@.len(),
                rest@ == self.rest@.take(k as int),
            decreases self.rest@.len() - k,
        {
            let p = &self.rest[k];
            rest.push((p.0, p.1.clone()));
            proof {
                assert(rest@ =~= self.rest@.take(k + 1));
            }
            k += 1;
        }
        proof {
            assert(rest@ =~= self.rest@);
        }
        FixedTimespanSet { first: self.first.clone(), rest }
    }
}

impl FixedTimespanSet {
    /// Number of spans: the leading span plus one per transition.
    pub open spec fn spec_len(self) -> int {
        1 + self.rest@.len() as int
    }

    /// The offset in effect during span `i`.
    pub open spec fn spec_get(self, i: int) -> FixedTimespan {
        if i == 0 {
            self.first
        } else {
            self.rest@[i - 1].1
        }
    }

    /// The total offset in effect during span `i`, in seconds.
    pub open spec fn total_offset_of(self, i: int) -> int {
        self.spec_get(i).spec_total_offset()
    }

    /// The UTC-side extent of span `i`.
    pub open spec fn spec_utc_span(self, i: int) -> Span {
        (Span {
            begin: if i == 0 {
                None
            } else {
                Some(self.rest@[i - 1].0)
            },
            end: if i == self.rest@.len() {
                None
            } else {
                Some(self.rest@[i].0)
            },
        })
    }

    /// The local-side extent of span `i`: its UTC extent shifted by the total
    /// offset in effect during the span itself.
    pub open spec fn spec_local_span(self, i: int) -> Span {
        (Span {
            begin: if i == 0 {
                None
            } else {
                Some((self.rest@[i - 1].0 + self.total_offset_of(i)) as i64)
            },
            end: if i == self.rest@.len() {
                None
            } else {
                Some((self.rest@[i].0 + self.total_offset_of(i)) as i64)
            },
        })
    }

    /// The local begin boundary of span `i`, as a mathematical integer
    /// (meaningful for `1 <= i < spec_len()`).
    pub open spec fn local_begin(self, i: int) -> int {
        self.rest@[i - 1].0 + self.total_offset_of(i)
    }

    /// The local end boundary of span `i`, as a mathematical integer
    /// (meaningful for `0 <= i < spec_len() - 1`).
    pub open spec fn local_end(self, i: int) -> int {
        self.rest@[i].0 + self.total_offset_of(i)
    }

    /// Every transition instant and offset is bounded and the transitions are
    /// strictly increasing: enough for all UTC-side reasoning.
    pub open spec fn utc_wf(self) -> bool {
        &&& self.rest@.len() < 0x1000_0000
        &&& self.first.offsets_bounded()
        &&& (forall|i: int|
            0 <= i < self.rest@.len() ==> (#[trigger] self.rest@[i].1).offsets_bounded())
        &&& (forall|i: int|
            0 <= i < self.rest@.len() ==> -MAX_TRANSITION <= (#[trigger] self.rest@[i].0)
                <= MAX_TRANSITION)
        &&& (forall|i: int, j: int|
            0 <= i < j < self.rest@.len() ==> (#[trigger] self.rest@[i].0)
                < (#[trigger] self.rest@[j].0))
    }

    /// Local-side sanity: the local span boundaries move forward with the
    /// span index, and spans that are not adjacent never overlap. This holds
    /// of any zone whose offset jumps are smaller than the time between
    /// transitions, which is every real timezone.
    pub open spec fn local_wf(self) -> bool {
        &&& (forall|i: int|
            1 <= i < self.spec_len() - 1 ==> #[trigger] self.local_begin(i) < self.local_end(i))
        &&& (forall|i: int|
            1 <= i < self.spec_len() - 1 ==> #[trigger] self.local_begin(i) < self.local_begin(
                i + 1,
            ))
        &&& (forall|i: int|
            1 <= i < self.spec_len() - 1 ==> #[trigger] self.local_end(i - 1) < self.local_end(i))
        &&& (forall|i: int|
            2 <= i < self.spec_len() ==> #[trigger] self.local_end(i - 2) <= self.local_begin(i))
    }

    /// A well-formed span set, fit for both UTC-side and local-side queries.
    pub open spec fn wf(self) -> bool {
        self.utc_wf() && self.local_wf()
    }

    pub fn len(&self) -> (r: usize)
        requires
            self.rest@.len() < usize::MAX,
        ensures
            r == self.spec_len(),
    {
        1 + self.rest.len()
    }

    pub fn utc_span(&self, index: usize) -> (r: Span)
        requires
            index < self.spec_len(),
        ensures
            r == self.spec_utc_span(index as int),
    {
        Span {
            begin: if index == 0 {
                None
            } else {
                Some(self.rest[index - 1].0)
            },
            end: if index == self.rest.len() {
                None
            } else {
                Some(self.rest[index].0)
            },
        }
    }

    pub fn local_span(&self, index: usize) -> (r: Span)
        requires
            index < self.spec_len(),
            self.utc_wf(),
        ensures
            r == self.spec_local_span(index as int),
    {
        Span {
            begin: if index == 0 {
                None
            } else {
                let span = &self.rest[index - 1];
                Some(span.0 + span.1.utc_offset as i64 + span.1.dst_offset as i64)
            },
            end: if index == self.rest.len() {
                None
            } else if index == 0 {
                Some(
                    self.rest[index].0 + self.first.utc_offset as i64
                        + self.first.dst_offset as i64,
                )
            } else {
                Some(
                    self.rest[index].0 + self.rest[index - 1].1.utc_offset as i64
                        + self.rest[index - 1].1.dst_offset as i64,
                )
            },
        }
    }

    /// How many of the first `n` transition instants lie at or before `t`.
    /// Because the instants are sorted, this is also the index of the UTC
    /// span in effect at `t`.
    pub open spec fn spec_transitions_le(self, t: int, n: int) -> int
        decreases n,
    {
        if n <= 0 {
            0
        } else if self.rest@[n - 1].0 <= t {
            n
        } else {
            self.spec_transitions_le(t, n - 1)
        }
    }

    /// The index of the UTC span in effect at instant `t`.
    pub open spec fn spec_utc_index(self, t: int) -> int {
        self.spec_transitions_le(t, self.rest@.len() as int)
    }

    /// The count `spec_transitions_le(t, n)` splits the first `n` transitions
    /// exactly: everything below it is at or before `t`, everything from it
    /// up to `n` is after `t`.
    pub proof fn lemma_transitions_le_split(self, t: int, n: int)
        requires
            self.utc_wf(),
            0 <= n <= self.rest@.len(),
        ensures
            0 <= self.spec_transitions_le(t, n) <= n,
            forall|m: int|
                self.spec_transitions_le(t, n) <= m < n ==> (#[trigger] self.rest@[m].0) > t,
            forall|m: int|
                0 <= m < self.spec_transitions_le(t, n) ==> (#[trigger] self.rest@[m].0) <= t,
        decreases n,
    {
        if n > 0 {
            self.lemma_transitions_le_split(t, n - 1);
            if self.rest@[n - 1].0 <= t {
                assert forall|m: int| 0 <= m < n implies (#[trigger] self.rest@[m].0) <= t by {
                    if m < n - 1 {
                        assert(self.rest@[m].0 < self.rest@[n - 1].0);
                    }
                }
            }
        }
    }

    /// The UTC span at `spec_utc_index(t)` really contains `t`.
    pub proof fn lemma_utc_index_contains(self, t: int)
        requires
            self.utc_wf(),
        ensures
            0 <= self.spec_utc_index(t) < self.spec_len(),
            self.spec_utc_span(self.spec_utc_index(t)).spec_contains(t),
    {
        self.lemma_transitions_le_split(t, self.rest@.len() as int);
    }

    /// UTC-side resolution is total and unambiguous: every instant lies in
    /// exactly one UTC span of a well-formed span set.
    pub proof fn lemma_utc_resolution_total(self, t: int)
        requires
            self.utc_wf(),
        ensures
            exists|i: int|
                0 <= i < self.spec_len() && (#[trigger] self.spec_utc_span(i)).spec_contains(t),
            forall|i: int, j: int|
                (0 <= i < self.spec_len() && (#[trigger] self.spec_utc_span(i)).spec_contains(t)
                    && 0 <= j < self.spec_len() && (#[trigger] self.spec_utc_span(
                    j,
                )).spec_contains(t)) ==> i == j,
    {
        self.lemma_utc_index_contains(t);
        assert(self.spec_utc_span(self.spec_utc_index(t)).spec_contains(t));
        assert forall|i: int, j: int|
            (0 <= i < self.spec_len() && (#[trigger] self.spec_utc_span(i)).spec_contains(t) && 0
                <= j < self.spec_len() && (#[trigger] self.spec_utc_span(j)).spec_contains(t))
            implies i == j by {
            if i < j {
                assert(self.rest@[j - 1].0 <= t);
                assert(t < self.rest@[i].0);
                if i < j - 1 {
                    assert(self.rest@[i].0 < self.rest@[j - 1].0);
                }
            } else if j < i {
                assert(self.rest@[i - 1].0 <= t);
                assert(t < self.rest@[j].0);
                if j < i - 1 {
                    assert(self.rest@[j].0 < self.rest@[i - 1].0);
                }
            }
        }
    }

    /// Binary search for the number of transition instants at or before `t`,
    /// which is the index of the UTC span in effect at `t`.
    pub fn find_utc_span_index(&self, t: i64) -> (r: usize)
        requires
            self.utc_wf(),
        ensures
            r == self.spec_utc_index(t as int),
            r < self.spec_len(),
            self.spec_utc_span(r as int).spec_contains(t as int),
    {
        let mut lo: usize = 0;
        let mut hi: usize = self.rest.len();
        while lo < hi
            invariant
                self.utc_wf(),
                0 <= lo <= hi <= self.rest@.len(),
                forall|k: int| 0 <= k < lo ==> (#[trigger] self.rest@[k].0) <= t,
                forall|k: int| hi <= k < self.rest@.len() ==> (#[trigger] self.rest@[k].0) > t,
            decreases hi - lo,
        {
            let mid = lo + (hi - lo) / 2;
            if self.rest[mid].0 <= t {
                assert forall|k: int| 0 <= k <= mid implies (#[trigger] self.rest@[k].0) <= t by {
                    if k < mid {
                        assert(self.rest@[k].0 < self.rest@[mid as int].0);
                    }
                }
                lo = mid + 1;
            } else {
                assert forall|k: int| mid <= k < self.rest@.len() implies (
                #[trigger] self.rest@[k].0) > t by {
                    if k > mid {
                        assert(self.rest@[mid as int].0 < self.rest@[k].0);
                    }
                }
                hi = mid;
            }
        }
        proof {
            self.lemma_transitions_le_split(t as int, self.rest@.len() as int);
            let v = self.spec_utc_index(t as int);
            if v < lo {
                assert(self.rest@[v].0 <= t);
                assert(self.rest@[v].0 > t);
            }
            if lo < v {
                assert(self.rest@[lo as int].0 <= t);
                assert(self.rest@[lo as int].0 > t);
            }
            self.lemma_utc_index_contains(t as int);
        }
        lo
    }

    /// The offset in effect at a given UTC instant. Resolution from UTC is a
    /// total function: it always returns exactly one offset.
    pub fn offset_from_utc_timestamp(&self, t: i64) -> (r: FixedTimespan)
        requires
            self.utc_wf(),
        ensures
            r == self.spec_get(self.spec_utc_index(t as int)),
            self.spec_utc_span(self.spec_utc_index(t as int)).spec_contains(t as int),
    {
        let i = self.find_utc_span_index(t);
        self.get(i)
    }

    /// Local span `i` contains the naive local timestamp `t`.
    pub open spec fn local_contains(self, i: int, t: int) -> bool {
        self.spec_local_span(i).spec_contains(t)
    }

    /// Local span end boundaries never move backwards.
    pub proof fn lemma_local_ends_mono(self, i: int, j: int)
        requires
            self.wf(),
            0 <= i <= j < self.spec_len() - 1,
        ensures
            self.local_end(i) <= self.local_end(j),
        decreases j - i,
    {
        if i < j {
            self.lemma_local_ends_mono(i, j - 1);
            assert(self.local_end(j - 1) < self.local_end(j));
        }
    }

    /// Local span begin boundaries never move backwards.
    pub proof fn lemma_local_begins_mono(self, i: int, j: int)
        requires
            self.wf(),
            1 <= i <= j < self.spec_len(),
        ensures
            self.local_begin(i) <= self.local_begin(j),
        decreases j - i,
    {
        if i < j {
            self.lemma_local_begins_mono(i, j - 1);
            assert(self.local_begin(j - 1) < self.local_begin(j));
        }
    }

    /// If a local span lies entirely before `t`, so does every earlier one.
    pub proof fn lemma_local_cmp_less_mono(self, i: int, j: int, t: int)
        requires
            self.wf(),
            0 <= j <= i < self.spec_len(),
            self.spec_local_span(i).spec_cmp(t) is Less,
        ensures
            self.spec_local_span(j).spec_cmp(t) is Less,
    {
        assert(i < self.spec_len() - 1);
        assert(self.local_end(i) <= t);
        if j < i {
            self.lemma_local_ends_mono(j, i);
        }
        if j > 0 {
            assert(self.local_begin(j) < self.local_end(j));
        }
    }

    /// If a local span lies entirely after `t`, so does every later one.
    pub proof fn lemma_local_cmp_greater_mono(self, i: int, j: int, t: int)
        requires
            self.wf(),
            0 <= i <= j < self.spec_len(),
            self.spec_local_span(i).spec_cmp(t) is Greater,
        ensures
            self.spec_local_span(j).spec_cmp(t) is Greater,
    {
        assert(1 <= i);
        assert(t < self.local_begin(i));
        if i < j {
            self.lemma_local_begins_mono(i, j);
        }
    }

    /// At most two local spans contain any timestamp, and if two do they are
    /// adjacent: the overlap of a "fall back" transition.
    pub proof fn lemma_local_contains_adjacent(self, i: int, j: int, t: int)
        requires
            self.wf(),
            0 <= i < j < self.spec_len(),
            self.local_contains(i, t),
            self.local_contains(j, t),
        ensures
            j == i + 1,
    {
        if j >= i + 2 {
            assert(t < self.local_end(i));
            assert(self.local_begin(j) <= t);
            assert(self.local_end(j - 2) <= self.local_begin(j));
            if i < j - 2 {
                self.lemma_local_ends_mono(i, j - 2);
            }
        }
    }

    /// `i` is the earliest local span containing `t`.
    pub open spec fn is_first_local_match(self, i: int, t: int) -> bool {
        &&& 0 <= i < self.spec_len()
        &&& self.local_contains(i, t)
        &&& (i == 0 || !self.local_contains(i - 1, t))
    }

    /// What resolving a naive local timestamp yields: nothing if no local
    /// span contains it, the unique containing span's offset, or the two
    /// adjacent containing spans' offsets in order.
    pub open spec fn spec_local_resolution(self, t: int) -> LocalResolution<FixedTimespan> {
        if exists|i: int| #[trigger] self.is_first_local_match(i, t) {
            let i0 = choose|i: int| #[trigger] self.is_first_local_match(i, t);
            if i0 + 1 < self.spec_len() && self.local_contains(i0 + 1, t) {
                LocalResolution::Ambiguous(self.spec_get(i0), self.spec_get(i0 + 1))
            } else {
                LocalResolution::Single(self.spec_get(i0))
            }
        } else {
            LocalResolution::NoSuchLocalTime
        }
    }

    /// From any containing span one of the first two candidates is an
    /// earliest match, and the earliest match is unique.
    pub proof fn lemma_first_local_match(self, w: int, t: int)
        requires
            self.wf(),
            0 <= w < self.spec_len(),
            self.local_contains(w, t),
        ensures
            exists|i: int| #[trigger] self.is_first_local_match(i, t),
            forall|i: int, j: int|
                (#[trigger] self.is_first_local_match(i, t) && #[trigger] self.is_first_local_match(
                    j,
                    t,
                )) ==> i == j,
    {
        if w > 0 && self.local_contains(w - 1, t) {
            if w - 1 > 0 && self.local_contains(w - 2, t) {
                self.lemma_local_contains_adjacent(w - 2, w, t);
            }
            assert(self.is_first_local_match(w - 1, t));
        } else {
            assert(self.is_first_local_match(w, t));
        }
        assert forall|i: int, j: int|
            (#[trigger] self.is_first_local_match(i, t) && #[trigger] self.is_first_local_match(
                j,
                t,
            )) implies i == j by {
            if i < j {
                self.lemma_local_contains_adjacent(i, j, t);
            }
            if j < i {
                self.lemma_local_contains_adjacent(j, i, t);
            }
        }
    }

    /// Binary search over the local spans: `Ok(i)` is a span containing `t`;
    /// `Err` means no local span contains `t`, which is a "spring forward"
    /// gap.
    pub fn find_local_span_index(&self, t: i64) -> (r: Result<usize, usize>)
        requires
            self.wf(),
        ensures
            match r {
                Ok(i) => i < self.spec_len() && self.local_contains(i as int, t as int),
                Err(_) => forall|i: int|
                    0 <= i < self.spec_len() ==> !self.local_contains(i, t as int),
            },
    {
        let mut lo: usize = 0;
        let mut hi: usize = self.len();
        while lo < hi
            invariant
                self.wf(),
                0 <= lo <= hi <= self.spec_len(),
                forall|k: int|
                    0 <= k < lo ==> (#[trigger] self.spec_local_span(k).spec_cmp(t as int))
                        is Less,
                forall|k: int|
                    hi <= k < self.spec_len() ==> (#[trigger] self.spec_local_span(k).spec_cmp(
                        t as int,
                    )) is Greater,
            decreases hi - lo,
        {
            let mid = lo + (hi - lo) / 2;
            match self.local_span(mid).cmp(t) {
                core::cmp::Ordering::Equal => {
                    return Ok(mid);
                },
                core::cmp::Ordering::Less => {
                    proof {
                        assert forall|k: int| 0 <= k <= mid implies (
                        #[trigger] self.spec_local_span(k).spec_cmp(t as int)) is Less by {
                            self.lemma_local_cmp_less_mono(mid as int, k, t as int);
                        }
                    }
                    lo = mid + 1;
                },
                core::cmp::Ordering::Greater => {
                    proof {
                        assert forall|k: int| mid <= k < self.spec_len() implies (
                        #[trigger] self.spec_local_span(k).spec_cmp(t as int)) is Greater by {
                            self.lemma_local_cmp_greater_mono(mid as int, k, t as int);
                        }
                    }
                    hi = mid;
                },
            }
        }
        proof {
            assert forall|i: int| 0 <= i < self.spec_len() implies !self.local_contains(
                i,
                t as int,
            ) by {
                if (self.spec_local_span(i).spec_cmp(t as int)) is Less {
                    assert(!self.spec_local_span(i).spec_contains(t as int));
                }
            }
        }
        Err(lo)
    }

    /// Resolve a naive local timestamp to the offset or offsets in effect.
    /// A "spring forward" gap yields `NoSuchLocalTime`; a "fall back" overlap
    /// yields both offsets, earlier span first.
    pub fn offset_from_local_timestamp(&self, t: i64) -> (r: LocalResolution<FixedTimespan>)
        requires
            self.wf(),
        ensures
            r == self.spec_local_resolution(t as int),
    {
        match self.find_local_span_index(t) {
            Err(_) => {
                proof {
                    if exists|i: int| #[trigger] self.is_first_local_match(i, t as int) {
                        let i0 = choose|i: int| #[trigger] self.is_first_local_match(i, t as int);
                        assert(self.local_contains(i0, t as int));
                    }
                }
                LocalResolution::NoSuchLocalTime
            },
            Ok(i) => {
                proof {
                    self.lemma_first_local_match(i as int, t as int);
                }
                if i > 0 && self.local_span(i - 1).contains(t) {
                    proof {
                        if i >= 2 && self.local_contains(i - 2, t as int) {
                            self.lemma_local_contains_adjacent(i - 2, i as int, t as int);
                        }
                        assert(self.is_first_local_match(i - 1, t as int));
                        let i0 = choose|k: int| #[trigger] self.is_first_local_match(k, t as int);
                        assert(i0 == i - 1);
                    }
                    LocalResolution::Ambiguous(self.get(i - 1), self.get(i))
                } else {
                    proof {
                        assert(self.is_first_local_match(i as int, t as int));
                        let i0 = choose|k: int| #[trigger] self.is_first_local_match(k, t as int);
                        assert(i0 == i);
                    }
                    let next = i + 1;
                    if next < self.len() && self.local_span(next).contains(t) {
                        LocalResolution::Ambiguous(self.get(i), self.get(next))
                    } else {
                        LocalResolution::Single(self.get(i))
                    }
                }
            },
        }
    }

    /// During a "fall back" overlap — adjacent local spans `i` and `i + 1`
    /// both contain `t`, the earlier one with the larger total offset —
    /// resolution reports both offsets and the single-answer policy picks
    /// the earlier span's.
    pub proof fn lemma_fall_back_prefers_earlier(self, i: int, t: int)
        requires
            self.wf(),
            0 <= i,
            i + 1 < self.spec_len(),
            self.local_contains(i, t),
            self.local_contains(i + 1, t),
            self.total_offset_of(i) > self.total_offset_of(i + 1),
        ensures
            self.spec_local_resolution(t) == LocalResolution::Ambiguous(
                self.spec_get(i),
                self.spec_get(i + 1),
            ),
            self.spec_local_resolution(t).spec_earliest() == Some(self.spec_get(i)),
    {
        self.lemma_first_local_match(i, t);
        if i > 0 && self.local_contains(i - 1, t) {
            self.lemma_local_contains_adjacent(i - 1, i + 1, t);
        }
        assert(self.is_first_local_match(i, t));
        let i0 = choose|k: int| #[trigger] self.is_first_local_match(k, t);
        assert(i0 == i);
    }

    /// During a "spring forward" gap — the window skipped between local span
    /// `i` ending and local span `i + 1` beginning — a local time inside the
    /// window resolves to no instant at all.
    pub proof fn lemma_gap_has_no_local_time(self, i: int, t: int)
        requires
            self.wf(),
            0 <= i,
            i + 1 < self.spec_len(),
            self.local_end(i) <= t < self.local_begin(i + 1),
        ensures
            self.spec_local_resolution(t) is NoSuchLocalTime,
    {
        assert forall|k: int| 0 <= k < self.spec_len() implies !self.local_contains(k, t) by {
            if k <= i {
                if k < i {
                    self.lemma_local_ends_mono(k, i);
                }
                assert(self.local_end(k) <= t);
            } else {
                if i + 1 < k {
                    self.lemma_local_begins_mono(i + 1, k);
                }
                assert(t < self.local_begin(k));
            }
        }
        if exists|k: int| #[trigger] self.is_first_local_match(k, t) {
            let k0 = choose|k: int| #[trigger] self.is_first_local_match(k, t);
            assert(self.local_contains(k0, t));
        }
    }

    /// What resolving a whole local day yields: try the first and the last
    /// second of the day, prefer an unambiguous answer, and otherwise take
    /// the earlier offset of an ambiguous one. Only a day lying entirely in
    /// a gap (which no real zone produces) yields nothing.
    pub open spec fn spec_local_day_resolution(self, day_start: int) -> Option<FixedTimespan> {
        let e = self.spec_local_resolution(day_start);
        let l = self.spec_local_resolution(day_start + 86399);
        match (e, l) {
            (LocalResolution::Single(x), _) => Some(x),
            (_, LocalResolution::Single(y)) => Some(y),
            (LocalResolution::Ambiguous(x, _), _) => Some(x),
            (_, LocalResolution::Ambiguous(y, _)) => Some(y),
            (LocalResolution::NoSuchLocalTime, LocalResolution::NoSuchLocalTime) => None,
        }
    }

    /// Resolve a date-only value by day, not instant: a whole-day query is
    /// never pushed through the ambiguous local-time path, so an offset
    /// shift cannot move the date into the wrong day.
    pub fn offset_from_local_day(&self, day_start: i64) -> (r: Option<FixedTimespan>)
        requires
            self.wf(),
            day_start < i64::MAX - 86399,
        ensures
            r == self.spec_local_day_resolution(day_start as int),
    {
        let earliest = self.offset_from_local_timestamp(day_start);
        let latest = self.offset_from_local_timestamp(day_start + 86399);
        match (earliest, latest) {
            (LocalResolution::Single(x), _) => Some(x),
            (_, LocalResolution::Single(y)) => Some(y),
            (LocalResolution::Ambiguous(x, _), _) => Some(x),
            (_, LocalResolution::Ambiguous(y, _)) => Some(y),
            (LocalResolution::NoSuchLocalTime, LocalResolution::NoSuchLocalTime) => None,
        }
    }

    pub fn get(&self, index: usize) -> (r: FixedTimespan)
        requires
            index < self.spec_len(),
        ensures
            r == self.spec_get(index as int),
    {
        if index == 0 {
            self.first.clone()
        } else {
            self.rest[index - 1].1.clone()
        }
    }
}

/// Anything that can produce its fixed-timespan model.
pub trait TimeSpans {
    spec fn spec_timespans(&self) -> FixedTimespanSet;

    fn timespans(&self) -> (r: FixedTimespanSet)
        ensures
            r.first == self.spec_timespans().first,
            r.rest@ == self.spec_timespans().rest@,
    ;
}

/// A timezone defined inline in a calendar feed, modelled as a named set of
/// fixed timespans ordered oldest to newest.
#[derive(Debug)]
pub struct CustomTz {
    pub name: String,
    pub timespanset: FixedTimespanSet,
}

impl Clone for CustomTz {
    fn clone(&self) -> (r: Self)
        ensures
            r.name@ == self.name@,
            r.timespanset.first == self.timespanset.first,
            r.timespanset.rest@ == self.timespanset.rest@,
    {
        CustomTz { name: self.name.clone(), timespanset: self.timespanset.clone() }
    }
}

impl TimeSpans for CustomTz {
    open spec fn spec_timespans(&self) -> FixedTimespanSet {
        self.timespanset
    }

    fn timespans(&self) -> (r: FixedTimespanSet) {
        self.timespanset.clone()
    }
}

impl CustomTz {
    /// The span set is fit for both UTC-side and local-side queries.
    pub open spec fn wf(self) -> bool {
        self.timespanset.wf()
    }

    /// The offset in effect at a UTC instant: total, never ambiguous.
    pub fn offset_from_utc_timestamp(&self, t: i64) -> (r: TzOffset)
        requires
            self.wf(),
        ensures
            r.offset == self.timespanset.spec_get(self.timespanset.spec_utc_index(t as int)),
            r.tz.name@ == self.name@,
    {
        let offset = self.timespanset.offset_from_utc_timestamp(t);
        TzOffset::new(self.clone(), offset)
    }

    /// Resolve a naive local timestamp against this zone.
    pub fn offset_from_local_timestamp(&self, t: i64) -> (r: LocalResolution<TzOffset>)
        requires
            self.wf(),
        ensures
            r.spec_offsets() == self.timespanset.spec_local_resolution(t as int),
    {
        let resolution = self.timespanset.offset_from_local_timestamp(t);
        TzOffset::map_localresult(self, resolution)
    }

    /// Resolve a date-only value: by day, never through the ambiguous path.
    pub fn offset_from_local_day(&self, day_start: i64) -> (r: Option<TzOffset>)
        requires
            self.wf(),
            day_start < i64::MAX - 86399,
        ensures
            match r {
                Some(o) => self.timespanset.spec_local_day_resolution(day_start as int) == Some(
                    o.offset,
                ),
                None => self.timespanset.spec_local_day_resolution(day_start as int) is None,
            },
    {
        match self.timespanset.offset_from_local_day(day_start) {
            Some(offset) => Some(TzOffset::new(self.clone(), offset)),
            None => None,
        }
    }
}

/// A concrete offset of a custom timezone at some instant, together with the
/// zone it came from.
#[derive(Debug)]
pub struct TzOffset {
    pub tz: CustomTz,
    pub offset: FixedTimespan,
}

impl Clone for TzOffset {
    fn clone(&self) -> (r: Self)
        ensures
            r.offset == self.offset,
            r.tz.name@ == self.tz.name@,
    {
        TzOffset { tz: self.tz.clone(), offset: self.offset.clone() }
    }
}

/// Timezone offset name information: the zone identifier and the
/// abbreviation in effect.
pub trait OffsetName {
    /// The timezone identifier, for example a TZID from the feed.
    fn tz_id(&self) -> &str;

    /// The abbreviation in effect at the instant this offset describes,
    /// for example `CET` versus `CEST`.
    fn abbreviation(&self) -> &str;
}

impl TzOffset {
    pub fn new(tz: CustomTz, offset: FixedTimespan) -> (r: Self)
        ensures
            r.tz == tz,
            r.offset == offset,
    {
        TzOffset { tz, offset }
    }

    /// Wrap each offset of a resolution together with its zone.
    pub fn map_localresult(tz: &CustomTz, result: LocalResolution<FixedTimespan>) -> (r:
        LocalResolution<TzOffset>)
        ensures
            r.spec_offsets() == result,
    {
        match result {
            LocalResolution::NoSuchLocalTime => LocalResolution::NoSuchLocalTime,
            LocalResolution::Single(s) => LocalResolution::Single(TzOffset::new(tz.clone(), s)),
            LocalResolution::Ambiguous(a, b) => LocalResolution::Ambiguous(
                TzOffset::new(tz.clone(), a),
                TzOffset::new(tz.clone(), b),
            ),
        }
    }

    /// The base offset from UTC in seconds.
    pub fn base_utc_offset_seconds(&self) -> (r: i64)
        ensures
            r == self.offset.utc_offset,
    {
        self.offset.utc_offset as i64
    }

    /// The additional daylight-saving offset in seconds.
    pub fn dst_offset_seconds(&self) -> (r: i64)
        ensures
            r == self.offset.dst_offset,
    {
        self.offset.dst_offset as i64
    }

    /// The total offset to add to a UTC instant to obtain local time.
    pub fn total_offset_seconds(&self) -> (r: i64)
        ensures
            r == self.offset.spec_total_offset(),
    {
        self.offset.total_offset()
    }
}

impl OffsetName for TzOffset {
    fn tz_id(&self) -> &str {
        self.tz.name.as_str()
    }

    fn abbreviation(&self) -> &str {
        self.offset.name.as_str()
    }
}

impl<T> LocalResolution<T> {
    /// The bare offsets of a resolution of wrapped offsets.
    pub open spec fn spec_offsets(self) -> LocalResolution<FixedTimespan>
        where T: OffsetCarrier
    {
        match self {
            LocalResolution::NoSuchLocalTime => LocalResolution::NoSuchLocalTime,
            LocalResolution::Single(x) => LocalResolution::Single(x.spec_offset()),
            LocalResolution::Ambiguous(a, b) => LocalResolution::Ambiguous(
                a.spec_offset(),
                b.spec_offset(),
            ),
        }
    }
}

/// A value that carries one concrete [`FixedTimespan`] offset.
pub trait OffsetCarrier {
    spec fn spec_offset(&self) -> FixedTimespan;
}

impl OffsetCarrier for TzOffset {
    open spec fn spec_offset(&self) -> FixedTimespan {
        self.offset
    }
}

} // verus!
