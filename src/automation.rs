use vstd::prelude::*;
use crate::easing::{lemma_weight_endpoints, Weight};
use crate::repeater::Repeater;
use crate::utils::{
    check_range, check_time, in_range, in_time, is_sorted, is_unit, keys, lemma_seek_index_unique,
    lerp, lerp_spec, seek, seek_index, sorted, unit_interval, unit_interval_spec, Quantify,
    UnitIntervalChecker, ONE,
};
use tinyvec::TinyVec;

verus! {

/// Anchors in a small inline vector, spilling to the heap past eight.
#[verifier::external_body]
#[derive(Debug)]
pub struct AnchorTable {
    items: TinyVec<[Anchor; 8]>,
}

/// Bounds in a small inline vector, spilling to the heap past four.
#[verifier::external_body]
#[derive(Debug)]
pub struct BoundTable {
    items: TinyVec<[Bound; 4]>,
}

/// The anchors a table holds, in order.
pub uninterp spec fn anchor_items(v: AnchorTable) -> Seq<Anchor>;

/// The bounds a table holds, in order.
pub uninterp spec fn bound_items(v: BoundTable) -> Seq<Bound>;

impl AnchorTable {
    /// Relies on tinyvec's `TinyVec::new`: an empty vector.
    #[verifier::external_body]
    fn empty() -> (r: Self)
        ensures
            anchor_items(r) == Seq::<Anchor>::empty(),
    {
        AnchorTable { items: TinyVec::new() }
    }

    /// Relies on tinyvec's `TinyVec::push`: appends one element at the end.
    #[verifier::external_body]
    fn push(&mut self, a: Anchor)
        ensures
            anchor_items(*final(self)) == anchor_items(*old(self)).push(a),
    {
        self.items.push(a)
    }

    /// Relies on tinyvec's `TinyVec::as_slice`: the elements held, in order.
    #[verifier::external_body]
    fn as_slice(&self) -> (r: &[Anchor])
        ensures
            r@ == anchor_items(*self),
    {
        self.items.as_slice()
    }

    /// A table holding `items`, in order.
    pub fn from_slice(items: &[Anchor]) -> (r: Self)
        ensures
            anchor_items(r) == items@,
    {
        let mut t = AnchorTable::empty();
        let mut i: usize = 0;
        while i < items.len()
            invariant
                i <= items@.len(),
                anchor_items(t) == items@.subrange(0, i as int),
            decreases items@.len() - i,
        {
            t.push(items[i]);
            proof {
                assert(items@.subrange(0, i + 1) == items@.subrange(0, i as int).push(items@[i as int]));
            }
            i = i + 1;
        }
        proof {
            assert(items@.subrange(0, items@.len() as int) == items@);
        }
        t
    }
}

impl AnchorTable {
    /// Samples the anchor curve held in the table at `offset`.
    pub fn interp(&self, offset: i64) -> (r: Option<i64>)
        requires
            anchors_wf(anchor_items(*self)),
            in_range(offset as int),
        ensures
            r == as_fixed(interp_spec(anchor_items(*self), offset as int)),
    {
        interp(self.as_slice(), offset)
    }
}

impl BoundTable {
    /// Samples the bounds held in the table at `offset`.
    pub fn sample(&self, offset: i64) -> (r: i64)
        requires
            bounds_wf(bound_items(*self)),
        ensures
            r as int == sample_spec(bound_items(*self), offset as int),
    {
        sample(self.as_slice(), offset)
    }
}

impl BoundTable {
    /// Relies on tinyvec's `TinyVec::new`: an empty vector.
    #[verifier::external_body]
    fn empty() -> (r: Self)
        ensures
            bound_items(r) == Seq::<Bound>::empty(),
    {
        BoundTable { items: TinyVec::new() }
    }

    /// Relies on tinyvec's `TinyVec::push`: appends one element at the end.
    #[verifier::external_body]
    fn push(&mut self, b: Bound)
        ensures
            bound_items(*final(self)) == bound_items(*old(self)).push(b),
    {
        self.items.push(b)
    }

    /// Relies on tinyvec's `TinyVec::as_slice`: the elements held, in order.
    #[verifier::external_body]
    fn as_slice(&self) -> (r: &[Bound])
        ensures
            r@ == bound_items(*self),
    {
        self.items.as_slice()
    }

    /// A table holding `items`, in order.
    pub fn from_slice(items: &[Bound]) -> (r: Self)
        ensures
            bound_items(r) == items@,
    {
        let mut t = BoundTable::empty();
        let mut i: usize = 0;
        while i < items.len()
            invariant
                i <= items@.len(),
                bound_items(t) == items@.subrange(0, i as int),
            decreases items@.len() - i,
        {
            t.push(items[i]);
            proof {
                assert(items@.subrange(0, i + 1) == items@.subrange(0, i as int).push(items@[i as int]));
            }
            i = i + 1;
        }
        proof {
            assert(items@.subrange(0, items@.len() as int) == items@);
        }
        t
    }
}

/// A control point of the interpolation curve: a unit `value` at `time`,
/// approached with the easing `weight`.
#[derive(Clone, Copy, Debug)]
pub struct Anchor {
    pub time: i64,
    pub value: i64,
    pub weight: Weight,
}

impl Default for Anchor {
    fn default() -> (r: Self)
        ensures
            r.time == 0 && r.value == 0 && r.weight == Weight::Quadratic(0),
    {
        Anchor { time: 0, value: 0, weight: Weight::Quadratic(0) }
    }
}

impl Quantify for Anchor {
    open spec fn quantity(&self) -> int {
        self.time as int
    }

    fn quantify(&self) -> (r: i64) {
        self.time
    }
}

impl Anchor {
    pub open spec fn wf(self) -> bool {
        in_range(self.time as int) && is_unit(self.value as int)
    }

    /// Blend from `follow` towards `self` at unit progress `t`, eased by the
    /// easing of `self`, the point being approached.
    pub open spec fn lerp_spec(self, follow: Anchor, t: int) -> int {
        lerp_spec(follow.value as int, self.value as int, self.weight.spec_eval(t))
    }

    pub fn lerp(&self, follow: &Anchor, t: i64) -> (r: i64)
        requires
            self.wf(),
            follow.wf(),
            is_unit(t as int),
        ensures
            r as int == self.lerp_spec(*follow, t as int),
            is_unit(r as int),
    {
        let w = self.weight.eval(t);
        lerp(follow.value, self.value, w)
    }
}

/// A point of an envelope table: the bound is `value` from `time` on.
#[derive(Clone, Copy, Debug, Default, PartialEq, Eq, Structural)]
pub struct Bound {
    pub time: i64,
    pub value: i64,
}

impl Quantify for Bound {
    open spec fn quantity(&self) -> int {
        self.time as int
    }

    fn quantify(&self) -> (r: i64) {
        self.time
    }
}

/// A non-empty ascending table of anchors.
pub open spec fn anchors_wf(a: Seq<Anchor>) -> bool {
    &&& a.len() > 0
    &&& sorted(keys(a))
    &&& forall|i: int| 0 <= i < a.len() ==> (#[trigger] a[i]).wf()
}

/// A non-empty ascending table of bounds.
pub open spec fn bounds_wf(b: Seq<Bound>) -> bool {
    &&& b.len() > 0
    &&& sorted(keys(b))
    &&& forall|i: int|
        0 <= i < b.len() ==> in_range((#[trigger] b[i]).time as int) && in_range(b[i].value as int)
}

/// The curve's weight at `q`: eased blend between the last anchor at or before
/// `q` and the one after it; none before the first anchor or from the last on.
pub open spec fn interp_spec(a: Seq<Anchor>, q: int) -> Option<int> {
    let i = seek_index(keys(a), q);
    if a[i].time <= q && i + 1 < a.len() {
        Some(
            a[i + 1].lerp_spec(
                a[i],
                unit_interval_spec(q, a[i].time as int, a[i + 1].time as int),
            ),
        )
    } else {
        None
    }
}

/// The bound at `q`: the value of the last entry at or before `q`, held until
/// the next; the first value before the table, the last one after it.
pub open spec fn sample_spec(b: Seq<Bound>, q: int) -> int {
    b[seek_index(keys(b), q)].value as int
}

/// Whether every anchor's time is in range and its value in the unit interval.
fn anchors_in_domain(a: &[Anchor]) -> (r: bool)
    ensures
        r == forall|i: int| 0 <= i < a@.len() ==> (#[trigger] a@[i]).wf(),
{
    let mut i: usize = 0;
    while i < a.len()
        invariant
            i <= a@.len(),
            forall|j: int| 0 <= j < i ==> (#[trigger] a@[j]).wf(),
        decreases a@.len() - i,
    {
        if !(check_range(a[i].time) && UnitIntervalChecker::check(a[i].value)) {
            assert(!a@[i as int].wf());
            return false;
        }
        i = i + 1;
    }
    true
}

/// Whether every bound's time and value are in range.
fn bounds_in_domain(b: &[Bound]) -> (r: bool)
    ensures
        r == forall|i: int|
            0 <= i < b@.len() ==> in_range((#[trigger] b@[i]).time as int) && in_range(
                b@[i].value as int,
            ),
{
    let mut i: usize = 0;
    while i < b.len()
        invariant
            i <= b@.len(),
            forall|j: int|
                0 <= j < i ==> in_range((#[trigger] b@[j]).time as int) && in_range(
                    b@[j].value as int,
                ),
        decreases b@.len() - i,
    {
        if !(check_range(b[i].time) && check_range(b[i].value)) {
            assert(!(in_range(b@[i as int].time as int) && in_range(b@[i as int].value as int)));
            return false;
        }
        i = i + 1;
    }
    true
}

/// Why a clip cannot be evaluated.
#[derive(Clone, Copy, Debug, PartialEq, Eq, Structural)]
pub enum ConfigError {
    /// The anchors or one of the bound tables is empty.
    EmptyTable,
    /// The anchors or one of the bound tables is out of order.
    Unsorted,
    /// A time or value lies outside its domain: a start, time or bound out of
    /// range, an anchor value or clamp end outside the unit interval, or a
    /// repeater period or duration that is not positive.
    OutOfDomain,
    /// The repeater's period is not the time of the last anchor.
    PeriodMismatch,
}

/// Samples the anchor curve at `offset`.
pub fn interp(anchors: &[Anchor], offset: i64) -> (r: Option<i64>)
    requires
        anchors_wf(anchors@),
        in_range(offset as int),
    ensures
        r matches Some(v) ==> is_unit(v as int),
        r.is_some() == interp_spec(anchors@, offset as int).is_some(),
        r.is_some() ==> r.unwrap() as int == interp_spec(anchors@, offset as int).unwrap(),
{
    let ghost k = keys(anchors@);
    let i = seek(anchors, offset);
    proof {
        lemma_seek_index_unique(k, offset as int, i as int);
    }
    if anchors[i].time <= offset && i + 1 < anchors.len() {
        let follow = &anchors[i];
        let control = &anchors[i + 1];
        assert(k[i + 1] > offset);
        let t = unit_interval(offset, follow.time, control.time);
        Some(control.lerp(follow, t))
    } else {
        None
    }
}

/// Samples the anchor curve at `offset`, falling back on the last anchor's
/// value where the curve is not defined.
pub fn interp_or_last(anchors: &[Anchor], offset: i64) -> (r: i64)
    requires
        anchors_wf(anchors@),
        in_range(offset as int),
    ensures
        r as int == match interp_spec(anchors@, offset as int) {
            Some(v) => v,
            None => anchors@.last().value as int,
        },
        is_unit(r as int),
{
    match interp(anchors, offset) {
        Some(v) => v,
        None => anchors[anchors.len() - 1].value,
    }
}

/// Samples a bound table at `offset`.
pub fn sample(bounds: &[Bound], offset: i64) -> (r: i64)
    requires
        bounds_wf(bounds@),
    ensures
        r as int == sample_spec(bounds@, offset as int),
        in_range(r as int),
{
    let ghost k = keys(bounds@);
    let i = seek(bounds, offset);
    proof {
        lemma_seek_index_unique(k, offset as int, i as int);
    }
    bounds[i].value
}


/// How many lanes a hit register has.
pub const LANES: usize = 4;

/// The hits of the current tick: for each lane, the playback time of its hit, if any.
#[derive(Clone, Copy, Debug)]
pub struct HitRegister(pub [Option<i64>; 4]);

impl HitRegister {
    pub open spec fn wf(self) -> bool {
        forall|i: int| 0 <= i < 4 ==> (#[trigger] self.0@[i] matches Some(h) ==> in_time(h as int))
    }

    pub open spec fn hit_spec(self, lane: int) -> Option<i64> {
        if 0 <= lane < 4 {
            self.0@[lane]
        } else {
            None
        }
    }

    /// The hit on `lane`; none for a lane past the register.
    pub fn hit(&self, lane: usize) -> (r: Option<i64>)
        ensures
            r == self.hit_spec(lane as int),
    {
        if lane < LANES {
            self.0[lane]
        } else {
            None
        }
    }
}

/// What a clip does when a hit comes in.
#[derive(Clone, Copy, Debug, PartialEq, Eq, Structural)]
pub enum HitReaction {
    /// Hits change nothing.
    Ignore,
    /// While `lane` holds a hit, the value of channel `channel` stands in for this one.
    Redirect { lane: usize, channel: u8 },
    /// Once `lane` holds a hit, the clip stays where it was at the hit.
    Freeze { lane: usize },
}

impl HitReaction {
    /// The redirect and the effective clip-local time, for clip-local time
    /// `local` of a clip that starts at `start`.
    pub open spec fn react_spec(self, hits: HitRegister, start: int, local: int) -> (Option<u8>, int) {
        match self {
            HitReaction::Ignore => (None, local),
            HitReaction::Redirect { lane, channel } => {
                if hits.hit_spec(lane as int).is_some() {
                    (Some(channel), local)
                } else {
                    (None, local)
                }
            },
            HitReaction::Freeze { lane } => {
                match hits.hit_spec(lane as int) {
                    Some(h) => if h - start < local {
                        (None, h - start)
                    } else {
                        (None, local)
                    },
                    None => (None, local),
                }
            },
        }
    }

    pub fn react(&self, hits: &HitRegister, start: i64, local: i64) -> (r: (Option<u8>, i64))
        requires
            hits.wf(),
            in_time(start as int),
            in_range(local as int),
        ensures
            r.0 == self.react_spec(*hits, start as int, local as int).0,
            r.1 as int == self.react_spec(*hits, start as int, local as int).1,
            in_range(r.1 as int),
    {
        match self {
            HitReaction::Ignore => (None, local),
            HitReaction::Redirect { lane, channel } => {
                if hits.hit(*lane).is_some() {
                    (Some(*channel), local)
                } else {
                    (None, local)
                }
            },
            HitReaction::Freeze { lane } => {
                match hits.hit(*lane) {
                    Some(h) => {
                        if h - start < local {
                            (None, h - start)
                        } else {
                            (None, local)
                        }
                    },
                    None => (None, local),
                }
            },
        }
    }
}

/// One scheduled curve of a channel, active from `start` until the next clip starts.
#[derive(Debug)]
pub struct Automation {
    pub start: i64,
    pub reaction: HitReaction,
    pub layer: Option<u8>,
    pub repeater: Option<Repeater>,
    pub upper_bounds: BoundTable,
    pub anchors: AnchorTable,
    pub lower_bounds: BoundTable,
}

impl Quantify for Automation {
    open spec fn quantity(&self) -> int {
        self.start as int
    }

    fn quantify(&self) -> (r: i64) {
        self.start
    }
}

/// Some value as a fixed-point integer.
pub open spec fn as_fixed(o: Option<int>) -> Option<i64> {
    match o {
        Some(v) => Some(v as i64),
        None => None,
    }
}

impl Automation {
    pub open spec fn wf(self) -> bool {
        &&& in_time(self.start as int)
        &&& anchors_wf(anchor_items(self.anchors))
        &&& bounds_wf(bound_items(self.lower_bounds))
        &&& bounds_wf(bound_items(self.upper_bounds))
        &&& (self.repeater matches Some(rep) ==> rep.wf())
        &&& self.period_matches()
    }

    /// A repeater loops the whole anchor curve: its period is the time of the
    /// last anchor, so wrapping by the period wraps by the curve's span.
    pub open spec fn period_matches(self) -> bool {
        self.repeater matches Some(rep) ==> rep.period == anchor_items(self.anchors).last().time
    }

    /// Every time and value in its domain, the repeater included.
    pub open spec fn in_domain(self) -> bool {
        &&& in_time(self.start as int)
        &&& anchors_wf(anchor_items(self.anchors))
        &&& bounds_wf(bound_items(self.lower_bounds))
        &&& bounds_wf(bound_items(self.upper_bounds))
        &&& (self.repeater matches Some(rep) ==> rep.wf())
    }

    /// What `validate` finds, in the order it looks.
    pub open spec fn check_spec(self) -> Result<(), ConfigError> {
        if !self.tables_nonempty() {
            Err(ConfigError::EmptyTable)
        } else if !self.tables_sorted() {
            Err(ConfigError::Unsorted)
        } else if !self.in_domain() {
            Err(ConfigError::OutOfDomain)
        } else if !self.period_matches() {
            Err(ConfigError::PeriodMismatch)
        } else {
            Ok(())
        }
    }

    pub open spec fn tables_nonempty(self) -> bool {
        &&& anchor_items(self.anchors).len() > 0
        &&& bound_items(self.lower_bounds).len() > 0
        &&& bound_items(self.upper_bounds).len() > 0
    }

    pub open spec fn tables_sorted(self) -> bool {
        &&& sorted(keys(anchor_items(self.anchors)))
        &&& sorted(keys(bound_items(self.lower_bounds)))
        &&& sorted(keys(bound_items(self.upper_bounds)))
    }

    /// Checks a clip before it is evaluated: tables first, then their order,
    /// then the domains of times and values, then the repeater's period.
    pub fn validate(&self) -> (r: Result<(), ConfigError>)
        ensures
            r == self.check_spec(),
            r.is_ok() <==> self.wf(),
    {
        let anchors = self.anchors.as_slice();
        let lower = self.lower_bounds.as_slice();
        let upper = self.upper_bounds.as_slice();
        if anchors.len() == 0 || lower.len() == 0 || upper.len() == 0 {
            return Err(ConfigError::EmptyTable);
        }
        if !(is_sorted(anchors) && is_sorted(lower) && is_sorted(upper)) {
            return Err(ConfigError::Unsorted);
        }
        let repeater_ok = match &self.repeater {
            Some(rep) => rep.is_valid(),
            None => true,
        };
        if !(check_time(self.start) && anchors_in_domain(anchors) && bounds_in_domain(lower)
            && bounds_in_domain(upper) && repeater_ok) {
            return Err(ConfigError::OutOfDomain);
        }
        match &self.repeater {
            Some(rep) => if rep.period == anchors[anchors.len() - 1].time {
                Ok(())
            } else {
                Err(ConfigError::PeriodMismatch)
            },
            None => Ok(()),
        }
    }

    /// The output for interpolation weight `w`, with the bounds sampled at `at`.
    pub open spec fn blend_spec(self, w: int, at: int) -> int {
        lerp_spec(sample_spec(bound_items(self.lower_bounds), at), sample_spec(bound_items(self.upper_bounds), at), w)
    }

    /// The value at effective clip-local time `local`; none where the anchor
    /// curve is not defined. While the repeater runs, the curve is sampled at
    /// the looped time: `local` wrapped by the period, which a well-formed
    /// clip has equal to the curve's span.
    pub open spec fn eval_local_spec(self, local: int) -> Option<int> {
        match self.repeater {
            Some(rep) => if rep.covers(local) {
                let out = rep.produce_spec(local);
                let at = if rep.repeat_bounds {
                    out.repeat_time as int
                } else {
                    local
                };
                match interp_spec(anchor_items(self.anchors), out.repeat_time as int) {
                    Some(w) => Some(
                        self.blend_spec(
                            lerp_spec(out.lower_clamp as int, out.upper_clamp as int, w),
                            at,
                        ),
                    ),
                    None => None,
                }
            } else {
                self.base_spec(local)
            },
            None => self.base_spec(local),
        }
    }

    /// The value at `local` without repeating.
    pub open spec fn base_spec(self, local: int) -> Option<int> {
        match interp_spec(anchor_items(self.anchors), local) {
            Some(w) => Some(self.blend_spec(w, local)),
            None => None,
        }
    }

    /// The redirect and the value at playback time `song_time`.
    pub open spec fn eval_spec(self, hits: HitRegister, song_time: int) -> (
        Option<u8>,
        Option<i64>,
    ) {
        let reacted = self.reaction.react_spec(hits, self.start as int, song_time - self.start);
        (reacted.0, as_fixed(self.eval_local_spec(reacted.1)))
    }

    /// Evaluates at effective clip-local time `local`.
    pub fn eval_local(&self, local: i64) -> (r: Option<i64>)
        requires
            self.wf(),
            in_range(local as int),
        ensures
            r == as_fixed(self.eval_local_spec(local as int)),
            r matches Some(v) ==> in_range(v as int),
    {
        let (weight, at) = match &self.repeater {
            Some(rep) if 0 <= local && local < rep.duration => {
                let out = rep.produce(local);
                match interp(self.anchors.as_slice(), out.repeat_time) {
                    Some(w) => {
                        let at = if rep.repeat_bounds {
                            out.repeat_time
                        } else {
                            local
                        };
                        (lerp(out.lower_clamp, out.upper_clamp, w), at)
                    },
                    None => {
                        return None;
                    },
                }
            },
            _ => match interp(self.anchors.as_slice(), local) {
                Some(w) => (w, local),
                None => {
                    return None;
                },
            },
        };
        let lower = sample(self.lower_bounds.as_slice(), at);
        let upper = sample(self.upper_bounds.as_slice(), at);
        Some(lerp(lower, upper, weight))
    }

    /// Evaluates the clip at playback time `song_time`: the redirect its hit
    /// reaction asks for, and its value.
    pub fn eval(&self, hits: &HitRegister, song_time: i64) -> (r: (Option<u8>, Option<i64>))
        requires
            self.wf(),
            hits.wf(),
            in_time(song_time as int),
        ensures
            r == self.eval_spec(*hits, song_time as int),
    {
        let (delegate, local) = self.reaction.react(hits, self.start, song_time - self.start);
        (delegate, self.eval_local(local))
    }
}


/// Sampling a bound table exactly at an entry's time gives that entry's own
/// value, the last of those sharing the time.
pub proof fn lemma_sample_exact_hit(b: Seq<Bound>, i: int)
    requires
        bounds_wf(b),
        0 <= i < b.len(),
        i + 1 == b.len() || b[i + 1].time != b[i].time,
    ensures
        sample_spec(b, b[i].time as int) == b[i].value,
{
    let k = keys(b);
    assert(k[i] == b[i].time);
    if i > 0 {
        assert(k[i - 1] <= k[i]);
    }
    if i + 1 < b.len() {
        assert(k[i] <= k[i + 1]);
        assert(k[i] != k[i + 1]);
    }
    assert forall|j: int| i < j < k.len() implies b[i].time < #[trigger] k[j] by {
        assert(k[i + 1] <= k[j]);
        assert(k[i] <= k[i + 1]);
    }
    lemma_seek_index_unique(k, b[i].time as int, i);
}

/// Sampling the anchor curve exactly at an anchor's time gives that anchor's
/// own value, where a later anchor follows it and approaches with an easing
/// other than `Constant`.
pub proof fn lemma_interp_exact_hit(a: Seq<Anchor>, i: int)
    requires
        anchors_wf(a),
        0 <= i < a.len() - 1,
        a[i + 1].time != a[i].time,
        a[i + 1].weight != Weight::Constant,
    ensures
        interp_spec(a, a[i].time as int) == Some(a[i].value as int),
{
    let k = keys(a);
    let q = a[i].time as int;
    assert(k[i] == q);
    assert(k[i] <= k[i + 1]);
    assert forall|j: int| i < j < k.len() implies q < #[trigger] k[j] by {
        assert(k[i + 1] <= k[j]);
    }
    lemma_seek_index_unique(k, q, i);
    let w = a[i + 1].time - a[i].time;
    assert(unit_interval_spec(q, q, a[i + 1].time as int) == 0) by {
        assert(0int * (ONE as int) == 0);
        vstd::arithmetic::div_mod::lemma_div_basics(w as int);
    }
    match a[i + 1].weight {
        Weight::Quadratic(s) => lemma_weight_endpoints(s, 0),
        Weight::Cubic(s) => lemma_weight_endpoints(s, 0),
        Weight::Constant => {},
    }
    assert(lerp_spec(a[i].value as int, a[i + 1].value as int, 0) == a[i].value) by {
        let d = a[i + 1].value - a[i].value;
        assert(d * 0 == 0);
    }
}

/// With ping-pong on and the bound tables sampled at the looped time, the
/// second cycle replays the clip backwards: at clip-local time `period + r`
/// the repeating clip gives what the same clip without repeater gives at
/// `period - r`, wherever the envelope of that cycle is the full unit range.
pub proof fn lemma_ping_pong_mirrors_base(clip: Automation, r: int)
    requires
        clip.wf(),
        clip.repeater matches Some(rep) && rep.ping_pong && rep.repeat_bounds && 0 <= r
            < rep.period && rep.period + r < rep.duration && rep.floor.spec_eval(
            rep.progress_spec(rep.period + r),
        ) == 0 && rep.ceil.spec_eval(rep.progress_spec(rep.period + r)) == ONE,
    ensures
        clip.eval_local_spec(clip.repeater.unwrap().period + r) == (Automation {
            repeater: None,
            ..clip
        }).base_spec(clip.repeater.unwrap().period - r),
{
    let rep = clip.repeater.unwrap();
    crate::repeater::lemma_ping_pong_second_cycle(rep, r);
    let t = rep.period - r;
    let base = Automation { repeater: None, ..clip };
    assert(anchor_items(base.anchors) == anchor_items(clip.anchors));
    match interp_spec(anchor_items(clip.anchors), t) {
        Some(w) => {
            assert(lerp_spec(0, ONE as int, w) == w) by {
                vstd::arithmetic::div_mod::lemma_div_multiples_vanish(w, ONE as int);
                assert((ONE - 0) * w == w * ONE);
            }
        },
        None => {},
    }
}

} // verus!
