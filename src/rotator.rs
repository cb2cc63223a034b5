use vstd::prelude::*;
use vstd::string::*;

use crate::table::{next_epoch, saturating_next, Table};
use crate::time_past::{now_civil, CivilTime, TimeContains, TimePast};
use crate::LogWriter;

verus! {

/// The decimal digit for `d`, which is below ten.
pub open spec fn digit_char(d: nat) -> char {
    ((d + 48) as u8) as char
}

/// The decimal text of `n`, without sign or leading zeros.
pub open spec fn decimal(n: nat) -> Seq<char>
    decreases n,
{
    if n < 10 {
        seq![digit_char(n)]
    } else {
        decimal(n / 10).push(digit_char(n % 10))
    }
}

pub open spec fn is_digit(b: u8) -> bool {
    48 <= b <= 57
}

/// The number that a string of ASCII digits denotes.
pub open spec fn digits_value(s: Seq<u8>) -> nat
    decreases s.len(),
{
    if s.len() == 0 {
        0
    } else {
        digits_value(s.drop_last()) * 10 + (s.last() - 48) as nat
    }
}

/// The text of an epoch marker without its optional leading `+`.
pub open spec fn unsigned_part(s: Seq<u8>) -> Seq<u8> {
    if s.len() > 0 && s[0] == 43 {
        s.drop_first()
    } else {
        s
    }
}

/// The number that marker text denotes: an optional `+`, then one or more
/// ASCII digits and nothing else.
pub open spec fn marker_value(s: Seq<u8>) -> Option<nat> {
    let d = unsigned_part(s);
    if d.len() > 0 && forall|i: int| 0 <= i < d.len() ==> is_digit(#[trigger] d[i]) {
        Some(digits_value(d))
    } else {
        None
    }
}

proof fn lemma_digits_prefix(s: Seq<u8>, k: int)
    requires
        0 <= k <= s.len(),
        forall|i: int| 0 <= i < s.len() ==> is_digit(#[trigger] s[i]),
    ensures
        digits_value(s.take(k)) <= digits_value(s),
    decreases s.len() - k,
{
    if k < s.len() {
        lemma_digits_prefix(s, k + 1);
        assert(s.take(k + 1).drop_last() =~= s.take(k));
        assert(is_digit(s[k]));
    } else {
        assert(s.take(k) =~= s);
    }
}

/// Reads an epoch marker: the number it denotes, or `None` where the text is
/// not a number or the number exceeds the largest epoch.
pub fn parse_epoch(text: &[u8]) -> (r: Option<usize>)
    ensures
        r is Some <==> (marker_value(text@) matches Some(v) && v <= usize::MAX),
        r matches Some(e) ==> marker_value(text@) == Some(e as nat),
{
    let n = text.len();
    let mut i: usize = 0;
    if n > 0 && text[0] == 43 {
        i = 1;
    }
    let start = i;
    let ghost d = unsigned_part(text@);
    assert(d =~= text@.subrange(start as int, n as int));
    if start == n {
        return None;
    }
    let mut value: usize = 0;
    while i < n
        invariant
            start <= i <= n,
            n == text@.len(),
            d == text@.subrange(start as int, n as int),
            d == unsigned_part(text@),
            forall|j: int| 0 <= j < i - start ==> is_digit(#[trigger] d[j]),
            value as nat == digits_value(d.take(i - start)),
        decreases n - i,
    {
        let b = text[i];
        assert(d[i - start] == b);
        if b < 48 || b > 57 {
            assert(!is_digit(d[i - start]));
            return None;
        }
        assert(d.take(i - start + 1).drop_last() =~= d.take(i - start));
        assert(d.take(i - start + 1).last() == b);
        assert(digits_value(d.take(i - start + 1)) == value * 10 + (b - 48) as nat);
        match value.checked_mul(10) {
            Some(v10) => match v10.checked_add((b - 48) as usize) {
                Some(v) => {
                    value = v;
                },
                None => {
                    proof {
                        lemma_all_or_none(d, i - start + 1);
                    }
                    return None;
                },
            },
            None => {
                proof {
                    assert(digits_value(d.take(i - start + 1)) >= value * 10);
                    lemma_all_or_none(d, i - start + 1);
                }
                return None;
            },
        }
        i = i + 1;
    }
    assert(d.take(n - start) =~= d);
    Some(value)
}

/// Where a prefix of digits already exceeds the largest epoch, the whole text
/// denotes no epoch.
proof fn lemma_all_or_none(d: Seq<u8>, k: int)
    requires
        0 < k <= d.len(),
        forall|j: int| 0 <= j < k - 1 ==> is_digit(#[trigger] d[j]),
        is_digit(d[k - 1]),
        digits_value(d.take(k)) > usize::MAX,
    ensures
        !(forall|i: int| 0 <= i < d.len() ==> is_digit(#[trigger] d[i])) || digits_value(d)
            > usize::MAX,
{
    if forall|i: int| 0 <= i < d.len() ==> is_digit(#[trigger] d[i]) {
        lemma_digits_prefix(d, k);
    }
}

/// The marker text, when there is a marker file.
pub open spec fn marker_text(marker: Option<&[u8]>) -> Option<Seq<u8>> {
    match marker {
        Some(t) => Some(t@),
        None => None,
    }
}

/// Where a stream resumes, and whether its marker is to be discarded: no
/// marker resumes at 0; a marker that reads as epoch `e` resumes at the epoch
/// after `e`; any other marker is discarded and the stream resumes at 0.
pub open spec fn recovered(marker: Option<Seq<u8>>) -> (usize, bool) {
    match marker {
        None => (0, false),
        Some(t) => if marker_value(t) matches Some(v) && v <= usize::MAX {
            (next_epoch(marker_value(t)->0 as usize), false)
        } else {
            (0, true)
        },
    }
}

/// The epoch at which a stream resumes after a restart.
#[derive(Debug, Clone, Copy, PartialEq, Eq, Structural)]
pub struct Recovery {
    pub epoch: usize,
    pub discard_marker: bool,
}

pub fn recover_epoch(marker: Option<&[u8]>) -> (r: Recovery)
    ensures
        (r.epoch, r.discard_marker) == recovered(marker_text(marker)),
{
    match marker {
        None => Recovery { epoch: 0, discard_marker: false },
        Some(text) => match parse_epoch(text) {
            Some(e) => Recovery { epoch: e.wrapping_add(1), discard_marker: false },
            None => Recovery { epoch: 0, discard_marker: true },
        },
    }
}

/// A marker that reads as epoch `e` resumes the stream at the epoch after `e`,
/// and, unless the retention window is a single epoch, the segment of `e` is
/// not the one retired then.
pub proof fn lemma_crash_recovery(text: Seq<u8>, e: usize, max_epochs: usize)
    requires
        marker_value(text) == Some(e as nat),
        max_epochs != 1,
    ensures
        recovered(Some(text)) == (next_epoch(e), false),
        retired_epoch(next_epoch(e), max_epochs) != e,
{
}

/// The bytes of ASCII text.
pub open spec fn ascii_bytes(s: Seq<char>) -> Seq<u8> {
    s.map_values(|c: char| c as u8)
}

proof fn lemma_decimal_digits(n: nat)
    ensures
        decimal(n).len() > 0,
        forall|i: int| 0 <= i < decimal(n).len() ==> is_digit(#[trigger] ascii_bytes(decimal(n))[i]),
        digits_value(ascii_bytes(decimal(n))) == n,
    decreases n,
{
    let b = ascii_bytes(decimal(n));
    if n < 10 {
        assert(b.drop_last() =~= Seq::<u8>::empty());
        assert(b.last() == (n + 48) as u8);
        assert(digits_value(b) == digits_value(b.drop_last()) * 10 + (b.last() - 48) as nat);
    } else {
        lemma_decimal_digits(n / 10);
        let p = ascii_bytes(decimal(n / 10));
        assert(b =~= p.push(((n % 10 + 48) as u8) as char as u8));
        assert(b.drop_last() =~= p);
        assert(b.last() == (n % 10 + 48) as u8);
        assert(digits_value(b) == digits_value(p) * 10 + (b.last() - 48) as nat);
        assert(n == (n / 10) * 10 + n % 10);
        assert forall|i: int| 0 <= i < decimal(n).len() implies is_digit(#[trigger] b[i]) by {
            if i < p.len() {
                assert(b[i] == p[i]);
            }
        }
    }
}

/// What the rotator writes as the marker of epoch `e` reads back as `e`.
pub proof fn lemma_marker_round_trip(e: usize)
    ensures
        marker_value(ascii_bytes(decimal(e as nat))) == Some(e as nat),
{
    lemma_decimal_digits(e as nat);
    let b = ascii_bytes(decimal(e as nat));
    assert(is_digit(b[0]));
    assert(unsigned_part(b) == b);
}

/// A marker that does not read as an epoch is discarded, and the stream
/// resumes at epoch 0.
pub proof fn lemma_corrupt_marker(text: Seq<u8>)
    requires
        marker_value(text) is None,
    ensures
        recovered(Some(text)) == (0usize, true),
{
}

/// The segment retired when `epoch` becomes active: `max_epochs` before it,
/// wrapping below zero.
pub open spec fn retired_epoch(epoch: usize, max_epochs: usize) -> usize {
    if epoch >= max_epochs {
        (epoch - max_epochs) as usize
    } else {
        (epoch - max_epochs + usize::MAX + 1) as usize
    }
}

/// The path of the entry `name` in the directory `dir`.
pub open spec fn child_path(dir: Seq<char>, name: Seq<char>) -> Seq<char> {
    dir + seq!['/'] + name
}

/// The path of the segment of `epoch`.
pub open spec fn segment_path(dir: Seq<char>, epoch: usize, extension: Seq<char>) -> Seq<char> {
    child_path(dir, decimal(epoch as nat) + seq!['.'] + extension)
}

/// The path of the epoch marker.
pub open spec fn marker_path(dir: Seq<char>) -> Seq<char> {
    child_path(dir, seq!['e', 'p', 'o', 'c', 'h'])
}

/// The text of one decimal digit.
fn digit_str(d: usize) -> (r: &'static str)
    requires
        d < 10,
    ensures
        r@ == seq![digit_char(d as nat)],
{
    proof {
        reveal_strlit("0");
        reveal_strlit("1");
        reveal_strlit("2");
        reveal_strlit("3");
        reveal_strlit("4");
        reveal_strlit("5");
        reveal_strlit("6");
        reveal_strlit("7");
        reveal_strlit("8");
        reveal_strlit("9");
    }
    match d {
        0 => "0",
        1 => "1",
        2 => "2",
        3 => "3",
        4 => "4",
        5 => "5",
        6 => "6",
        7 => "7",
        8 => "8",
        _ => "9",
    }
}

/// The decimal text of `n`.
fn decimal_string(n: usize) -> (r: String)
    ensures
        r@ == decimal(n as nat),
{
    let mut digits: Vec<usize> = Vec::new();
    let mut m: usize = n;
    let ghost mut tail: Seq<char> = Seq::empty();
    while m >= 10
        invariant
            decimal(n as nat) == decimal(m as nat) + tail,
            tail.len() == digits@.len(),
            forall|k: int| 0 <= k < digits@.len() ==> #[trigger] digits@[k] < 10,
            forall|k: int|
                0 <= k < digits@.len() ==> #[trigger] tail[k] == digit_char(
                    digits@[digits@.len() - 1 - k] as nat,
                ),
        decreases m,
    {
        let ghost old_tail = tail;
        let ghost old_digits = digits@;
        let ghost old_m = m;
        proof {
            tail = seq![digit_char((m % 10) as nat)] + tail;
            assert(decimal(m as nat) == decimal((m / 10) as nat).push(digit_char((m % 10) as nat)));
            assert(decimal(m as nat) + old_tail =~= decimal((m / 10) as nat) + tail);
        }
        digits.push(m % 10);
        m = m / 10;
        assert forall|k: int| 0 <= k < digits@.len() implies #[trigger] digits@[k] < 10 by {
            if k < old_digits.len() {
                assert(digits@[k] == old_digits[k]);
            }
        }
        assert forall|k: int| 0 <= k < digits@.len() implies #[trigger] tail[k] == digit_char(
            digits@[digits@.len() - 1 - k] as nat,
        ) by {
            if k == 0 {
                assert(tail[0] == digit_char((old_m % 10) as nat));
                assert(digits@[digits@.len() - 1] == old_m % 10);
            } else {
                assert(tail[k] == old_tail[k - 1]);
                assert(digits@[digits@.len() - 1 - k] == old_digits[old_digits.len() - 1 - (k - 1)]);
            }
        }
    }
    let mut text = String::from_str(digit_str(m));
    let mut j: usize = digits.len();
    while j > 0
        invariant
            j <= digits@.len(),
            tail.len() == digits@.len(),
            forall|k: int| 0 <= k < digits@.len() ==> #[trigger] digits@[k] < 10,
            forall|k: int|
                0 <= k < digits@.len() ==> #[trigger] tail[k] == digit_char(
                    digits@[digits@.len() - 1 - k] as nat,
                ),
            text@ == seq![digit_char(m as nat)] + tail.subrange(0, digits@.len() - j),
        decreases j,
    {
        j = j - 1;
        assert(digits@[j as int] < 10);
        text.append(digit_str(digits[j]));
        let ghost k = digits@.len() - 1 - j;
        assert(tail[k] == digit_char(digits@[j as int] as nat));
        assert(text@ =~= seq![digit_char(m as nat)] + tail.subrange(0, digits@.len() - j));
    }
    assert(tail.subrange(0, tail.len() as int) =~= tail);
    text
}

pub fn join_path(dir: &str, name: &str) -> (r: String)
    ensures
        r@ == child_path(dir@, name@),
{
    let mut path = String::from_str(dir);
    proof {
        reveal_strlit("/");
    }
    path.append("/");
    path.append(name);
    path
}

pub fn log_file_path(output_dir: &str, epoch: usize, extension: &str) -> (r: String)
    ensures
        r@ == segment_path(output_dir@, epoch, extension@),
{
    let mut name = decimal_string(epoch);
    proof {
        reveal_strlit(".");
    }
    name.append(".");
    name.append(extension);
    join_path(output_dir, name.as_str())
}

pub fn epoch_file_path(output_dir: &str) -> (r: String)
    ensures
        r@ == marker_path(output_dir@),
{
    proof {
        reveal_strlit("epoch");
    }
    join_path(output_dir, "epoch")
}

/// What the owner of a stream's files does after the active epoch is set:
/// discard the old marker where asked, write `marker_text` to the marker file
/// (creating or truncating it), then delete the retired segment if present.
#[derive(Debug)]
pub struct EpochChange {
    pub discard_marker: bool,
    pub marker_path: String,
    pub marker_text: String,
    pub retired_segment: String,
}

/// The thresholds of a stream: a record count, a time boundary, and the number
/// of trailing epochs whose segments are kept, the active one included.
#[derive(Debug, Copy)]
pub struct RotationPolicy<C> {
    pub max_records: Option<usize>,
    pub time: Option<TimePast<C>>,
    pub max_epochs: usize,
}

impl<C: Copy> Clone for RotationPolicy<C> {
    fn clone(&self) -> (r: Self)
        ensures
            r == *self,
    {
        *self
    }
}

impl<C> RotationPolicy<C> {
    /// A record-count threshold, where there is one, is positive.
    pub open spec fn wf(&self) -> bool {
        self.max_records matches Some(m) ==> m > 0
    }
}

/// The record count has reached its threshold.
pub open spec fn count_triggered(max_records: Option<usize>, count: usize) -> bool {
    match max_records {
        Some(m) => count >= m,
        None => false,
    }
}

/// The time boundary, polled with the reading `now`, reports a crossing.
pub open spec fn time_triggered<C: TimeContains>(
    time: Option<TimePast<C>>,
    now: Option<CivilTime>,
) -> bool {
    match time {
        Some(tp) => match now {
            Some(t) => tp.crosses(t),
            None => false,
        },
        None => false,
    }
}

/// `after` is the time boundary `before` once polled with the reading `now`,
/// if any: it keeps its boundary and holds `now` as the reading polled last.
pub open spec fn polled_to<C: TimeContains>(
    before: Option<TimePast<C>>,
    after: Option<TimePast<C>>,
    now: Option<CivilTime>,
) -> bool {
    match before {
        Some(tp) => match now {
            Some(t) => after matches Some(tp2) && tp2.prev() == Some(t) && tp2.boundary()
                == tp.boundary(),
            None => after == before,
        },
        None => after is None,
    }
}

/// One stream: its directory, its bookkeeping and its policy.
#[derive(Debug)]
pub struct LogRotator<W, C> {
    output_dir: String,
    extension: String,
    segment: String,
    table: Table<W>,
    rotation: RotationPolicy<C>,
}

impl<W: LogWriter, C: TimeContains + Copy> LogRotator<W, C> {
    pub closed spec fn dir(&self) -> Seq<char> {
        self.output_dir@
    }

    /// The extension of the segment files, as the writer gave it.
    pub closed spec fn ext(&self) -> Seq<char> {
        self.extension@
    }

    /// The path that the active writer was opened at.
    pub closed spec fn segment(&self) -> Seq<char> {
        self.segment@
    }

    pub closed spec fn spec_epoch(&self) -> usize {
        self.table.spec_epoch()
    }

    pub closed spec fn spec_records_written(&self) -> usize {
        self.table.spec_records_written()
    }

    pub closed spec fn spec_writer(&self) -> W {
        self.table.spec_writer()
    }

    pub closed spec fn policy(&self) -> RotationPolicy<C> {
        self.rotation
    }

    /// The active writer was opened at the segment of the active epoch.
    pub open spec fn at_own_segment(&self) -> bool {
        &&& self.segment() == segment_path(self.dir(), self.spec_epoch(), self.ext())
        &&& self.spec_writer().path()@ == self.segment()
    }

    /// `self` is `other` but for its writer, which is `writer`.
    pub open spec fn kept_but_writer(&self, other: Self, writer: W) -> bool {
        &&& self.spec_writer() == writer
        &&& self.dir() == other.dir()
        &&& self.ext() == other.ext()
        &&& self.segment() == other.segment()
        &&& self.policy() == other.policy()
        &&& self.spec_epoch() == other.spec_epoch()
        &&& self.spec_records_written() == other.spec_records_written()
    }

    /// `self` is `other` after a flush: the same writer, now flushed.
    pub open spec fn flushed(&self, other: Self) -> bool {
        &&& self.spec_writer().is_flushed()
        &&& self.spec_writer().path()@ == other.spec_writer().path()@
        &&& self.dir() == other.dir()
        &&& self.ext() == other.ext()
        &&& self.segment() == other.segment()
        &&& self.policy() == other.policy()
        &&& self.spec_epoch() == other.spec_epoch()
        &&& self.spec_records_written() == other.spec_records_written()
    }

    /// `c` lists the file work for the active epoch.
    pub open spec fn change_for(&self, c: EpochChange, discard: bool) -> bool {
        &&& c.discard_marker == discard
        &&& c.marker_path@ == marker_path(self.dir())
        &&& c.marker_text@ == decimal(self.spec_epoch() as nat)
        &&& c.retired_segment@ == segment_path(
            self.dir(),
            retired_epoch(self.spec_epoch(), self.policy().max_epochs),
            self.ext(),
        )
    }

    /// Whether the triggers fire at the record count `count`, the time
    /// boundary being polled with `now`.
    pub open spec fn rotates(&self, count: usize, now: Option<CivilTime>) -> bool {
        count_triggered(self.policy().max_records, count) || time_triggered(self.policy().time, now)
    }

    /// One evaluation of the triggers at the record count `count` with the
    /// reading `now` takes `self` to `next` and returns `r`: the time boundary
    /// is polled; where a trigger fires, a fresh segment is opened at the next
    /// epoch with the count at zero, and its file work is returned; else the
    /// count becomes `count` and nothing else changes.
    pub open spec fn stepped(
        &self,
        count: usize,
        next: &Self,
        now: Option<CivilTime>,
        r: Option<EpochChange>,
    ) -> bool {
        &&& next.dir() == self.dir()
        &&& next.ext() == self.ext()
        &&& next.policy().max_records == self.policy().max_records
        &&& next.policy().max_epochs == self.policy().max_epochs
        &&& polled_to(self.policy().time, next.policy().time, now)
        &&& if self.rotates(count, now) {
            &&& next.spec_epoch() == next_epoch(self.spec_epoch())
            &&& next.spec_records_written() == 0
            &&& next.at_own_segment()
            &&& r matches Some(c) && next.change_for(c, false)
        } else {
            &&& next.spec_epoch() == self.spec_epoch()
            &&& next.spec_records_written() == count
            &&& next.spec_writer() == self.spec_writer()
            &&& next.segment() == self.segment()
            &&& r is None
        }
    }

    /// Opens the stream in `output_dir`, whose directory exists: resumes at the
    /// epoch that `marker` gives and opens a fresh segment there.
    pub fn new(output_dir: String, rotation: RotationPolicy<C>, marker: Option<&[u8]>) -> (r: (
        Self,
        EpochChange,
    ))
        requires
            rotation.wf(),
        ensures
            r.0.dir() == output_dir@,
            r.0.policy() == rotation,
            r.0.spec_epoch() == recovered(marker_text(marker)).0,
            r.0.spec_records_written() == 0,
            r.0.at_own_segment(),
            r.0.change_for(r.1, recovered(marker_text(marker)).1),
    {
        let recovery = recover_epoch(marker);
        let extension = String::from_str(W::file_extension());
        let segment = log_file_path(output_dir.as_str(), recovery.epoch, extension.as_str());
        let writer = W::open(segment.as_str());
        let table = Table::new(writer, recovery.epoch);
        let this = LogRotator { output_dir, extension, segment, table, rotation };
        let change = this.enforce_epoch(recovery.discard_marker);
        (this, change)
    }

    pub fn epoch(&self) -> (r: usize)
        ensures
            r == self.spec_epoch(),
    {
        self.table.epoch()
    }

    pub fn records_written(&self) -> (r: usize)
        ensures
            r == self.spec_records_written(),
    {
        self.table.records_written()
    }

    /// Flushes the writer of the active segment.
    pub fn flush(&mut self)
        ensures
            final(self).flushed(*old(self)),
    {
        self.table.flush();
    }

    pub fn writer(&mut self) -> (r: &mut W)
        ensures
            *r == old(self).spec_writer(),
            final(self).kept_but_writer(*old(self), *final(r)),
    {
        self.table.writer()
    }

    /// Counts one record, then evaluates the triggers with the reading `now`.
    pub fn incr_record_count_at(&mut self, now: Option<CivilTime>) -> (r: Option<EpochChange>)
        ensures
            old(self).stepped(saturating_next(old(self).spec_records_written()), final(self), now, r),
    {
        self.table.incr_record_count();
        self.try_rotate_file_at(now)
    }

    /// Counts one record, then evaluates the triggers, reading the clock when a
    /// time boundary is configured.
    pub fn incr_record_count(&mut self) -> (r: Option<EpochChange>)
        ensures
            exists|now: Option<CivilTime>|
                (old(self).policy().time is None ==> now is None) && (now matches Some(t)
                    ==> t.wf()) && #[trigger] old(self).stepped(
                    saturating_next(old(self).spec_records_written()),
                    final(self),
                    now,
                    r,
                ),
    {
        self.table.incr_record_count();
        let ghost mid = *self;
        let r = self.try_rotate_file();
        proof {
            let now = choose|now: Option<CivilTime>|
                (mid.policy().time is None ==> now is None) && (now matches Some(t) ==> t.wf())
                    && #[trigger] mid.stepped(mid.spec_records_written(), self, now, r);
            assert(old(self).stepped(saturating_next(old(self).spec_records_written()), self, now, r));
        }
        r
    }

    /// Evaluates the triggers, reading the clock when a time boundary is
    /// configured; where the clock cannot be read, only the record count is
    /// evaluated.
    pub fn try_rotate_file(&mut self) -> (r: Option<EpochChange>)
        ensures
            exists|now: Option<CivilTime>|
                (old(self).policy().time is None ==> now is None) && (now matches Some(t)
                    ==> t.wf()) && #[trigger] old(self).stepped(
                    old(self).spec_records_written(),
                    final(self),
                    now,
                    r,
                ),
    {
        let now = match self.rotation.time {
            Some(_) => now_civil(),
            None => None,
        };
        let r = self.try_rotate_file_at(now);
        assert(old(self).stepped(old(self).spec_records_written(), self, now, r));
        r
    }

    /// Evaluates the triggers, polling the time boundary with `now` when both
    /// are given; on a rotation, opens the next segment.
    pub fn try_rotate_file_at(&mut self, now: Option<CivilTime>) -> (r: Option<EpochChange>)
        ensures
            old(self).stepped(old(self).spec_records_written(), final(self), now, r),
    {
        let by_count = match self.rotation.max_records {
            Some(max_records) => max_records <= self.table.records_written(),
            None => false,
        };
        let mut by_time = false;
        if let Some(t) = now {
            if let Some(mut time_past) = self.rotation.time {
                by_time = time_past.poll(t);
                self.rotation.time = Some(time_past);
            }
        }
        if !(by_count || by_time) {
            return None;
        }
        self.replace_writer();
        Some(self.enforce_epoch(false))
    }

    fn replace_writer(&mut self)
        ensures
            final(self).dir() == old(self).dir(),
            final(self).policy() == old(self).policy(),
            final(self).spec_epoch() == next_epoch(old(self).spec_epoch()),
            final(self).spec_records_written() == 0,
            final(self).ext() == old(self).ext(),
            final(self).at_own_segment(),
    {
        let segment = log_file_path(
            self.output_dir.as_str(),
            self.table.epoch().wrapping_add(1),
            self.extension.as_str(),
        );
        let writer = W::open(segment.as_str());
        self.table.replace(writer);
        self.segment = segment;
    }

    fn enforce_epoch(&self, discard_marker: bool) -> (r: EpochChange)
        ensures
            self.change_for(r, discard_marker),
    {
        let epoch = self.table.epoch();
        let marker_path = epoch_file_path(self.output_dir.as_str());
        let marker_text = decimal_string(epoch);
        let retired = epoch.wrapping_sub(self.rotation.max_epochs);
        let retired_segment = log_file_path(
            self.output_dir.as_str(),
            retired,
            self.extension.as_str(),
        );
        EpochChange { discard_marker, marker_path, marker_text, retired_segment }
    }
}

} // verus!
