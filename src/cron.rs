use vstd::prelude::*;

use crate::time_past::CivilTime;

verus! {

/// Every element is strictly smaller than the ones after it.
pub open spec fn strictly_ascending(s: Seq<i16>) -> bool {
    forall|i: int, j: int| 0 <= i < j < s.len() ==> s[i] < s[j]
}

/// A non-empty set of permitted values, kept as a strictly ascending list.
#[derive(Debug)]
pub struct AllowedSet {
    allowed: Vec<i16>,
}

impl View for AllowedSet {
    type V = Seq<i16>;

    closed spec fn view(&self) -> Seq<i16> {
        self.allowed@
    }
}

impl Clone for AllowedSet {
    fn clone(&self) -> (r: Self)
        ensures
            r@ == self@,
    {
        AllowedSet { allowed: self.allowed.clone() }
    }
}

impl AllowedSet {
    pub open spec fn wf(&self) -> bool {
        self@.len() > 0 && strictly_ascending(self@)
    }

    /// Builds the set of the given values; `None` when there are none.
    pub fn new(values: Vec<i16>) -> (r: Option<Self>)
        ensures
            r is None <==> values@.len() == 0,
            r matches Some(s) ==> s.wf() && s@.to_set() == values@.to_set(),
    {
        if values.len() == 0 {
            return None;
        }
        let mut allowed: Vec<i16> = Vec::new();
        let mut i: usize = 0;
        while i < values.len()
            invariant
                i <= values.len(),
                strictly_ascending(allowed@),
                forall|x: i16| allowed@.contains(x) <==> values@.subrange(0, i as int).contains(x),
            decreases values.len() - i,
        {
            let v = values[i];
            let mut k: usize = 0;
            while k < allowed.len() && allowed[k] < v
                invariant
                    k <= allowed.len(),
                    forall|j: int| 0 <= j < k ==> allowed@[j] < v,
                decreases allowed.len() - k,
            {
                k = k + 1;
            }
            let ghost before = allowed@;
            if k == allowed.len() || allowed[k] != v {
                allowed.insert(k, v);
                assert forall|x: i16| allowed@.contains(x) <==> (before.contains(x) || x == v) by {
                    if allowed@.contains(x) {
                        let j = choose|j: int| 0 <= j < allowed@.len() && allowed@[j] == x;
                        if j < k {
                            assert(before[j] == x);
                        } else if j > k {
                            assert(before[j - 1] == x);
                        }
                    }
                    if before.contains(x) {
                        let j = choose|j: int| 0 <= j < before.len() && before[j] == x;
                        if j < k {
                            assert(allowed@[j] == x);
                        } else {
                            assert(allowed@[j + 1] == x);
                        }
                    }
                    if x == v {
                        assert(allowed@[k as int] == x);
                    }
                }
            } else {
                assert(before.contains(v));
            }
            let ghost p0 = values@.subrange(0, i as int);
            let ghost p1 = values@.subrange(0, i as int + 1);
            proof {
                assert(p1 =~= p0.push(v));
                assert forall|x: i16| p1.contains(x) <==> (p0.contains(x) || x == v) by {
                    if p1.contains(x) {
                        let j = choose|j: int| 0 <= j < p1.len() && p1[j] == x;
                        if j < p0.len() {
                            assert(p0[j] == x);
                        }
                    }
                    if p0.contains(x) {
                        let j = choose|j: int| 0 <= j < p0.len() && p0[j] == x;
                        assert(p1[j] == x);
                    }
                    if x == v {
                        assert(p1[i as int] == x);
                    }
                }
            }
            assert forall|x: i16| allowed@.contains(x) <==> p1.contains(x) by {
                assert(before.contains(x) <==> p0.contains(x));
                assert(allowed@.contains(x) <==> (before.contains(x) || x == v));
                assert(p1.contains(x) <==> (p0.contains(x) || x == v));
            }
            i = i + 1;
            assert(values@.subrange(0, i as int) == p1);
        }
        assert(values@.subrange(0, values@.len() as int) == values@);
        assert(allowed@.len() > 0) by {
            assert(values@.contains(values@[0]));
            assert(allowed@.contains(values@[0]));
        }
        assert(allowed@.to_set() =~= values@.to_set());
        Some(AllowedSet { allowed })
    }

    /// Membership, by binary search over the ascending list.
    pub fn is_allowed(&self, value: i16) -> (r: bool)
        requires
            self.wf(),
        ensures
            r == self@.contains(value),
    {
        let mut lo: usize = 0;
        let mut hi: usize = self.allowed.len();
        while lo < hi
            invariant
                self.wf(),
                lo <= hi <= self.allowed@.len(),
                forall|j: int| 0 <= j < lo ==> self.allowed@[j] < value,
                forall|j: int| hi <= j < self.allowed@.len() ==> self.allowed@[j] > value,
            decreases hi - lo,
        {
            let mid = lo + (hi - lo) / 2;
            let m = self.allowed[mid];
            if m == value {
                assert(self@[mid as int] == value);
                return true;
            } else if m < value {
                lo = mid + 1;
            } else {
                hi = mid;
            }
        }
        assert(!self@.contains(value)) by {
            if self@.contains(value) {
                let j = choose|j: int| 0 <= j < self@.len() && self@[j] == value;
                assert(self.allowed@[j] == value);
            }
        }
        false
    }

    /// The member that follows `value` in ascending order; the first member when
    /// `value` is the last one or is not a member.
    pub fn next(&self, value: i16) -> (r: i16)
        requires
            self.wf(),
        ensures
            forall|k: int| 0 <= k < self@.len() - 1 && #[trigger] self@[k] == value ==> r == self@[k + 1],
            !(exists|k: int| 0 <= k < self@.len() - 1 && #[trigger] self@[k] == value) ==> r == self@[0],
    {
        let n = self.allowed.len();
        let mut k: usize = 0;
        while k + 1 < n
            invariant
                self.wf(),
                n == self.allowed@.len(),
                k < n,
                forall|j: int| 0 <= j < k ==> self.allowed@[j] != value,
            decreases n - k,
        {
            if self.allowed[k] == value {
                return self.allowed[k + 1];
            }
            k = k + 1;
        }
        self.allowed[0]
    }
}

/// The permitted values of one field: any value, or those of an explicit set.
#[derive(Debug)]
pub enum AllowedSet2 {
    Any,
    Selected(AllowedSet),
}

impl View for AllowedSet2 {
    type V = Set<i16>;

    open spec fn view(&self) -> Set<i16> {
        match self {
            AllowedSet2::Any => Set::full(),
            AllowedSet2::Selected(s) => s@.to_set(),
        }
    }
}

impl Clone for AllowedSet2 {
    fn clone(&self) -> (r: Self)
        ensures
            r@ == self@,
            r.wf() == self.wf(),
    {
        match self {
            AllowedSet2::Any => AllowedSet2::Any,
            AllowedSet2::Selected(s) => AllowedSet2::Selected(s.clone()),
        }
    }
}

impl AllowedSet2 {
    pub open spec fn wf(&self) -> bool {
        match self {
            AllowedSet2::Any => true,
            AllowedSet2::Selected(s) => s.wf(),
        }
    }

    pub fn is_allowed(&self, value: i16) -> (r: bool)
        requires
            self.wf(),
        ensures
            r == self@.contains(value),
    {
        match self {
            AllowedSet2::Any => true,
            AllowedSet2::Selected(allowed) => allowed.is_allowed(value),
        }
    }

    /// An explicit set of the given values; `None` when there are none, where
    /// the caller substitutes `Any`.
    pub fn from_iter(values: Vec<i16>) -> (r: Option<Self>)
        ensures
            r is None <==> values@.len() == 0,
            r matches Some(s) ==> s.wf() && s is Selected && s@ == values@.to_set(),
    {
        match AllowedSet::new(values) {
            Some(set) => Some(AllowedSet2::Selected(set)),
            None => None,
        }
    }
}

} // verus!

verus! {

/// Every value lies in the permitted set of its field.
pub open spec fn all_allowed(rules: Seq<Set<i16>>, values: Seq<i16>) -> bool {
    forall|j: int| 0 <= j < values.len() ==> #[trigger] rules[j].contains(values[j])
}

/// Every value equals the one last observed in its field.
pub open spec fn repeats(last: Seq<Option<i16>>, values: Seq<i16>) -> bool {
    forall|j: int| 0 <= j < values.len() ==> #[trigger] last[j] == Some(values[j])
}

/// An edge-triggered poll reports a match: every value is permitted and the
/// tuple differs from the one observed last.
pub open spec fn fires(rules: Seq<Set<i16>>, last: Seq<Option<i16>>, values: Seq<i16>) -> bool {
    all_allowed(rules, values) && !repeats(last, values)
}

/// What each field holds after observing `values`.
pub open spec fn observed(values: Seq<i16>) -> Seq<Option<i16>> {
    values.map_values(|v: i16| Some(v))
}

/// One field of a matcher: its permitted values and the value observed last.
#[derive(Debug)]
struct Cell {
    instr: AllowedSet2,
    prev: Option<i16>,
}

impl Cell {
    fn new(instr: AllowedSet2) -> (r: Self)
        ensures
            r.instr == instr,
            r.prev is None,
    {
        Cell { instr, prev: None }
    }

    fn has_set(&self, value: i16) -> (r: bool)
        ensures
            r == (self.prev == Some(value)),
    {
        match self.prev {
            Some(p) => p == value,
            None => false,
        }
    }

    fn set(&mut self, value: i16)
        ensures
            final(self).prev == Some(value),
            final(self).instr == old(self).instr,
    {
        self.prev = Some(value);
    }

    fn is_allowed(&self, value: i16) -> (r: bool)
        requires
            self.instr.wf(),
        ensures
            r == self.instr@.contains(value),
    {
        self.instr.is_allowed(value)
    }
}

/// An edge-triggered matcher over a tuple of fields: it reports a match once
/// for each qualifying tuple, until the tuple changes.
#[derive(Debug)]
pub struct SlotMatcher {
    cells: Vec<Cell>,
}

impl SlotMatcher {
    /// The permitted values of each field.
    pub closed spec fn rules(&self) -> Seq<Set<i16>> {
        self.cells@.map_values(|c: Cell| c.instr@)
    }

    /// The value last observed in each field.
    pub closed spec fn last(&self) -> Seq<Option<i16>> {
        self.cells@.map_values(|c: Cell| c.prev)
    }

    pub closed spec fn wf(&self) -> bool {
        forall|j: int| 0 <= j < self.cells@.len() ==> (#[trigger] self.cells@[j]).instr.wf()
    }

    pub open spec fn len(&self) -> nat {
        self.rules().len()
    }

    /// One field for each given set, and a trailing unconstrained one; nothing
    /// observed yet.
    pub fn new(allowed: &[AllowedSet2]) -> (r: Self)
        requires
            allowed@.len() < usize::MAX,
            forall|j: int| 0 <= j < allowed@.len() ==> (#[trigger] allowed@[j]).wf(),
        ensures
            r.wf(),
            r.rules() == allowed@.map_values(|a: AllowedSet2| a@).push(Set::<i16>::full()),
            r.last() == Seq::<Option<i16>>::new(allowed@.len() + 1, |j: int| None),
    {
        let mut cells: Vec<Cell> = Vec::new();
        let mut i: usize = 0;
        while i < allowed.len()
            invariant
                i <= allowed@.len(),
                cells@.len() == i,
                forall|j: int| 0 <= j < allowed@.len() ==> (#[trigger] allowed@[j]).wf(),
                forall|j: int|
                    0 <= j < i ==> (#[trigger] cells@[j]).instr@ == allowed@[j]@
                        && cells@[j].instr.wf() && cells@[j].prev is None,
            decreases allowed@.len() - i,
        {
            cells.push(Cell::new(allowed[i].clone()));
            i = i + 1;
        }
        cells.push(Cell::new(AllowedSet2::Any));
        let r = SlotMatcher { cells };
        assert(r.rules() =~= allowed@.map_values(|a: AllowedSet2| a@).push(Set::<i16>::full()));
        assert(r.last() =~= Seq::<Option<i16>>::new(allowed@.len() + 1, |j: int| None));
        r
    }

    /// Reports whether every value is permitted and the tuple differs from the
    /// one observed last; records the tuple either way.
    pub fn edge_triggered_poll(&mut self, values: &[i16]) -> (r: bool)
        requires
            old(self).wf(),
            values@.len() == old(self).len(),
        ensures
            final(self).wf(),
            r == fires(old(self).rules(), old(self).last(), values@),
            final(self).rules() == old(self).rules(),
            final(self).last() == observed(values@),
    {
        let ghost rules0 = self.rules();
        let ghost last0 = self.last();
        let n = self.cells.len();
        let mut allowed = true;
        let mut repeat = true;
        let mut i: usize = 0;
        while i < n
            invariant
                n == self.cells@.len(),
                n == values@.len(),
                rules0.len() == n,
                last0.len() == n,
                i <= n,
                self.wf(),
                self.rules() == rules0,
                forall|j: int| 0 <= j < i ==> #[trigger] self.last()[j] == Some(values@[j]),
                forall|j: int| i <= j < n ==> #[trigger] self.last()[j] == last0[j],
                allowed <==> forall|j: int| 0 <= j < i ==> #[trigger] rules0[j].contains(values@[j]),
                repeat <==> forall|j: int| 0 <= j < i ==> #[trigger] last0[j] == Some(values@[j]),
            decreases n - i,
        {
            let value = values[i];
            let ok = self.cells[i].is_allowed(value);
            let same = self.cells[i].has_set(value);
            proof {
                assert(self.rules()[i as int] == self.cells@[i as int].instr@);
                assert(self.last()[i as int] == self.cells@[i as int].prev);
            }
            allowed = allowed && ok;
            repeat = repeat && same;
            let ghost before = self.cells@;
            let ghost last_before = self.last();
            self.cells[i].set(value);
            proof {
                assert forall|j: int| 0 <= j < n implies self.cells@[j].instr == before[j].instr by {
                    if j != i {
                        assert(self.cells@[j] == before[j]);
                    }
                }
                assert(self.rules() =~= rules0);
                assert forall|j: int| 0 <= j < n implies self.last()[j] == (if j == i {
                    Some(value)
                } else {
                    last_before[j]
                }) by {
                    if j != i {
                        assert(self.cells@[j] == before[j]);
                        assert(last_before[j] == before[j].prev);
                    }
                }
            }
            i = i + 1;
        }
        assert(self.last() =~= observed(values@));
        allowed && !repeat
    }
}

} // verus!

verus! {

/// Edge triggering over any tuple of fields: a permitted tuple fires exactly
/// when it differs from the tuple observed last; polled again at once it does
/// not fire; after another tuple has been observed it fires again.
pub proof fn lemma_fires_once(
    rules: Seq<Set<i16>>,
    last: Seq<Option<i16>>,
    values: Seq<i16>,
    other: Seq<i16>,
)
    requires
        rules.len() == values.len(),
        last.len() == values.len(),
        other.len() == values.len(),
        all_allowed(rules, values),
        other != values,
    ensures
        fires(rules, last, values) <==> !repeats(last, values),
        !fires(rules, observed(values), values),
        fires(rules, observed(other), values),
{
    assert(repeats(observed(values), values)) by {
        assert forall|j: int| 0 <= j < values.len() implies #[trigger] observed(values)[j] == Some(
            values[j],
        ) by {}
    }
    assert(!repeats(observed(other), values)) by {
        if repeats(observed(other), values) {
            assert forall|j: int| 0 <= j < values.len() implies other[j] == values[j] by {
                assert(observed(other)[j] == Some(values[j]));
            }
            assert(other =~= values);
        }
    }
}

/// The calendar fields that a `Cron` reads, in its field order: minute, hour,
/// day of month, month, day of week, and the year as the trailing field.
pub open spec fn cron_fields(t: CivilTime) -> Seq<i16> {
    seq![t.minute as i16, t.hour as i16, t.day as i16, t.month as i16, t.weekday as i16, t.year]
}

/// A calendar rule over minute, hour, day of month, month and day of week,
/// firing once for each qualifying minute.
#[derive(Debug)]
pub struct Cron {
    slot_matcher: SlotMatcher,
}

impl Cron {
    pub closed spec fn rules(&self) -> Seq<Set<i16>> {
        self.slot_matcher.rules()
    }

    pub closed spec fn last(&self) -> Seq<Option<i16>> {
        self.slot_matcher.last()
    }

    pub closed spec fn wf(&self) -> bool {
        self.slot_matcher.wf() && self.slot_matcher.len() == 6
    }

    pub fn new(
        minute: AllowedSet2,
        hour: AllowedSet2,
        day_of_month: AllowedSet2,
        month: AllowedSet2,
        day_of_week: AllowedSet2,
    ) -> (r: Self)
        requires
            minute.wf(),
            hour.wf(),
            day_of_month.wf(),
            month.wf(),
            day_of_week.wf(),
        ensures
            r.wf(),
            r.rules() == seq![minute@, hour@, day_of_month@, month@, day_of_week@, Set::<i16>::full()],
            r.last() == seq![None::<i16>, None, None, None, None, None],
    {
        let ghost views = seq![minute@, hour@, day_of_month@, month@, day_of_week@, Set::<i16>::full()];
        let fields = vec![minute, hour, day_of_month, month, day_of_week];
        let slot_matcher = SlotMatcher::new(fields.as_slice());
        assert(slot_matcher.rules() =~= views);
        assert(slot_matcher.last() =~= seq![None::<i16>, None, None, None, None, None]);
        Cron { slot_matcher }
    }

    /// Reports whether `now` satisfies the rule and differs, in some field or
    /// in its year, from the reading polled last; records `now` either way.
    pub fn edge_triggered_poll(&mut self, now: CivilTime) -> (r: bool)
        requires
            old(self).wf(),
        ensures
            final(self).wf(),
            r == fires(old(self).rules(), old(self).last(), cron_fields(now)),
            final(self).rules() == old(self).rules(),
            final(self).last() == observed(cron_fields(now)),
    {
        let values = vec![
            now.minute as i16,
            now.hour as i16,
            now.day as i16,
            now.month as i16,
            now.weekday as i16,
            now.year,
        ];
        assert(values@ =~= cron_fields(now));
        self.slot_matcher.edge_triggered_poll(values.as_slice())
    }
}

} // verus!
