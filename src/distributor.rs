use vstd::prelude::*;
use vstd::string::*;

use crate::rotator::{
    child_path, join_path, marker_text, recovered, EpochChange, LogRotator, RotationPolicy,
};
use crate::table::saturating_next;
use crate::time_past::{CivilTime, TimeContains};
use crate::LogWriter;

verus! {

/// A registry of named streams under one directory, each rotated on its own
/// with a copy of one policy. Streams are added on demand and never removed.
#[derive(Debug)]
pub struct LogDistributor<W, C> {
    output_dir: String,
    names: Vec<String>,
    rotators: Vec<LogRotator<W, C>>,
    rotation: RotationPolicy<C>,
}

impl<W: LogWriter, C: TimeContains + Copy> LogDistributor<W, C> {
    pub closed spec fn dir(&self) -> Seq<char> {
        self.output_dir@
    }

    pub closed spec fn policy(&self) -> RotationPolicy<C> {
        self.rotation
    }

    /// The streams, by name, in the order they were added.
    pub closed spec fn entries(&self) -> Seq<(Seq<char>, LogRotator<W, C>)> {
        Seq::new(self.names@.len(), |i: int| (self.names@[i]@, self.rotators@[i]))
    }

    /// Each stream lives in the subdirectory named after it, and the
    /// bookkeeping is consistent.
    pub open spec fn wf(&self) -> bool {
        &&& self.inv()
        &&& forall|i: int|
            0 <= i < self.entries().len() ==> (#[trigger] self.entries()[i]).1.dir() == child_path(
                self.dir(),
                self.entries()[i].0,
            )
    }

    /// Each stream has one name, no two streams share a name, and the shared
    /// policy is well formed.
    pub closed spec fn inv(&self) -> bool {
        &&& self.rotation.wf()
        &&& self.names@.len() == self.rotators@.len()
        &&& forall|i: int|
            0 <= i < self.rotators@.len() ==> (#[trigger] self.rotators@[i]).dir() == child_path(
                self.output_dir@,
                self.names@[i]@,
            )
        &&& forall|i: int, j: int|
            0 <= i < j < self.names@.len() ==> (#[trigger] self.names@[i])@ != (
            #[trigger] self.names@[j])@
    }

    pub open spec fn registered(&self, name: Seq<char>) -> bool {
        exists|i: int| 0 <= i < self.entries().len() && #[trigger] self.entries()[i].0 == name
    }

    /// Every stream but the one at `i` is as before, and no stream was added.
    pub open spec fn others_kept(&self, old_self: &Self, i: int) -> bool {
        &&& self.dir() == old_self.dir()
        &&& self.policy() == old_self.policy()
        &&& self.entries().len() == old_self.entries().len()
        &&& self.entries()[i].0 == old_self.entries()[i].0
        &&& forall|j: int|
            0 <= j < self.entries().len() && j != i ==> #[trigger] self.entries()[j]
                == old_self.entries()[j]
    }

    /// The position of the stream `name`, where it is registered.
    pub open spec fn index_of(&self, name: Seq<char>) -> int {
        choose|i: int| 0 <= i < self.entries().len() && #[trigger] self.entries()[i].0 == name
    }

    /// Isolation: where a step changes at most the stream `a` and adds none,
    /// every other registered stream `b` keeps its name, its files, its epoch
    /// and its count, at the same position.
    pub proof fn lemma_streams_isolated(before: Self, after: Self, a: Seq<char>, b: Seq<char>)
        requires
            before.wf(),
            before.registered(a),
            before.registered(b),
            a != b,
            after.others_kept(&before, before.index_of(a)),
        ensures
            after.registered(b),
            after.index_of(b) == before.index_of(b),
            after.entries()[after.index_of(b)] == before.entries()[before.index_of(b)],
    {
        let ia = before.index_of(a);
        let ib = before.index_of(b);
        assert(after.entries()[ib] == before.entries()[ib]);
        assert(after.entries()[ib].0 == b);
        let jb = after.index_of(b);
        if jb != ib {
            assert(after.entries()[jb] == before.entries()[jb] || jb == ia);
            assert(before.entries()[jb].0 == after.entries()[jb].0);
            if jb < ib {
                assert(before.names@[jb]@ != before.names@[ib]@);
            } else {
                assert(before.names@[ib]@ != before.names@[jb]@);
            }
        }
    }

    /// `s` is the stream that registering `name` with the marker text `marker`
    /// creates, and `c` its file work: it lives in its own subdirectory, has
    /// the shared policy, resumes at the recovered epoch with a zero count, and
    /// its writer was opened at its active segment.
    pub open spec fn fresh_stream(
        &self,
        name: Seq<char>,
        marker: Option<Seq<u8>>,
        s: LogRotator<W, C>,
        c: Option<EpochChange>,
    ) -> bool {
        &&& s.dir() == child_path(self.dir(), name)
        &&& s.policy() == self.policy()
        &&& s.spec_epoch() == recovered(marker).0
        &&& s.spec_records_written() == 0
        &&& s.at_own_segment()
        &&& c matches Some(ch) && s.change_for(ch, recovered(marker).1)
    }

    pub fn new(output_dir: String, rotation: RotationPolicy<C>) -> (r: Self)
        requires
            rotation.wf(),
        ensures
            r.wf(),
            r.dir() == output_dir@,
            r.policy() == rotation,
            r.entries().len() == 0,
    {
        LogDistributor { output_dir, names: Vec::new(), rotators: Vec::new(), rotation }
    }

    /// The directory of the stream `name`.
    pub fn stream_dir(&self, name: &str) -> (r: String)
        ensures
            r@ == child_path(self.dir(), name@),
    {
        join_path(self.output_dir.as_str(), name)
    }

    fn find(&self, name: &str) -> (r: Option<usize>)
        requires
            self.wf(),
        ensures
            r matches Some(i) ==> i < self.entries().len() && self.entries()[i as int].0 == name@,
            r is None ==> !self.registered(name@),
    {
        let key = String::from_str(name);
        let mut i: usize = 0;
        while i < self.names.len()
            invariant
                self.wf(),
                i <= self.names@.len(),
                key@ == name@,
                forall|j: int| 0 <= j < i ==> #[trigger] self.entries()[j].0 != name@,
            decreases self.names@.len() - i,
        {
            if self.names[i] == key {
                return Some(i);
            }
            i = i + 1;
        }
        None
    }

    pub fn is_registered(&self, name: &str) -> (r: bool)
        requires
            self.wf(),
        ensures
            r == self.registered(name@),
    {
        self.find(name).is_some()
    }

    /// Adds the stream `name`, whose directory exists, resuming at the epoch
    /// that `marker` gives; does nothing where it is already registered.
    fn register(&mut self, name: &str, marker: Option<&[u8]>) -> (r: Option<EpochChange>)
        requires
            old(self).wf(),
        ensures
            final(self).wf(),
            final(self).dir() == old(self).dir(),
            final(self).policy() == old(self).policy(),
            old(self).registered(name@) ==> r is None && final(self).entries() == old(self).entries(),
            !old(self).registered(name@) ==> {
                let n = old(self).entries().len() as int;
                &&& final(self).entries().len() == n + 1
                &&& final(self).entries().subrange(0, n) == old(self).entries()
                &&& final(self).entries()[n].0 == name@
                &&& old(self).fresh_stream(name@, marker_text(marker), final(self).entries()[n].1, r)
            },
    {
        if self.find(name).is_some() {
            return None;
        }
        let dir = self.stream_dir(name);
        let (rotator, change) = LogRotator::new(dir, self.rotation, marker);
        let ghost old_entries = self.entries();
        let ghost old_names = self.names@;
        self.names.push(String::from_str(name));
        self.rotators.push(rotator);
        assert(self.entries().subrange(0, old_entries.len() as int) =~= old_entries);
        assert forall|i: int, j: int|
            0 <= i < j < self.names@.len() implies (#[trigger] self.names@[i])@ != (
            #[trigger] self.names@[j])@ by {
            assert(old_entries[i].0 == self.entries()[i].0);
            if j < old_names.len() {
                assert(old_names[j] == self.names@[j]);
            }
        }
        Some(change)
    }

    /// The writer of the active segment of the stream `name`. A stream not yet
    /// registered is created first, in its directory, which exists, resuming at
    /// the epoch that `marker` gives; its file work is returned with the writer.
    /// For a registered stream `marker` is not read.
    pub fn writer(&mut self, name: &str, marker: Option<&[u8]>) -> ((w, change): (
        &mut W,
        Option<EpochChange>,
    ))
        requires
            old(self).wf(),
        ensures
            old(self).registered(name@) ==> change is None && final(self).others_kept(
                old(self),
                old(self).index_of(name@),
            ) && *w == old(self).entries()[old(self).index_of(name@)].1.spec_writer()
                && final(self).entries()[old(self).index_of(name@)].1.kept_but_writer(
                old(self).entries()[old(self).index_of(name@)].1,
                *final(w),
            ),
            !old(self).registered(name@) ==> {
                let n = old(self).entries().len() as int;
                &&& final(self).dir() == old(self).dir()
                &&& final(self).policy() == old(self).policy()
                &&& final(self).entries().len() == n + 1
                &&& final(self).entries().subrange(0, n) == old(self).entries()
                &&& final(self).entries()[n].0 == name@
                &&& exists|s: LogRotator<W, C>|
                    #[trigger] old(self).fresh_stream(name@, marker_text(marker), s, change)
                        && *w == s.spec_writer() && final(self).entries()[n].1.kept_but_writer(
                        s,
                        *final(w),
                    )
            },
            final(self).wf(),
    {
        let ghost old_entries = self.entries();
        let change = self.register(name, marker);
        let i = match self.find(name) {
            Some(i) => i,
            None => {
                assert(self.entries()[old_entries.len() as int].0 == name@);
                assert(false);
                0
            },
        };
        proof {
            if !old(self).registered(name@) {
                if i < old_entries.len() {
                    assert(self.entries()[i as int] == old_entries[i as int]);
                }
                assert(i == old_entries.len());
                assert(old(self).fresh_stream(
                    name@,
                    marker_text(marker),
                    self.entries()[i as int].1,
                    change,
                ));
            } else {
                assert(self.entries()[i as int].0 == name@);
                assert(self.index_of(name@) == i);
            }
        }
        let rotator = &mut self.rotators[i];
        (rotator.writer(), change)
    }

    /// Flushes every stream; nothing else changes.
    pub fn flush(&mut self)
        requires
            old(self).wf(),
        ensures
            final(self).dir() == old(self).dir(),
            final(self).policy() == old(self).policy(),
            final(self).entries().len() == old(self).entries().len(),
            forall|j: int|
                0 <= j < old(self).entries().len() ==> (#[trigger] final(self).entries()[j]).0
                    == old(self).entries()[j].0 && final(self).entries()[j].1.flushed(
                    old(self).entries()[j].1,
                ),
            final(self).wf(),
    {
        let n = self.rotators.len();
        let mut i: usize = 0;
        while i < n
            invariant
                self.wf(),
                self.names == old(self).names,
                n == self.rotators@.len(),
                n == old(self).entries().len(),
                i <= n,
                self.dir() == old(self).dir(),
                self.policy() == old(self).policy(),
                forall|j: int| 0 <= j < i ==> (#[trigger] self.rotators@[j]).flushed(old(self).rotators@[j]),
                forall|j: int| i <= j < n ==> #[trigger] self.rotators@[j] == old(self).rotators@[j],
            decreases n - i,
        {
            self.rotators[i].flush();
            i = i + 1;
        }
        assert forall|j: int| 0 <= j < n implies (#[trigger] self.entries()[j]).0 == old(
            self,
        ).entries()[j].0 && self.entries()[j].1.flushed(old(self).entries()[j].1) by {
            assert(self.rotators@[j].flushed(old(self).rotators@[j]));
        }
    }

    /// Counts one record of the stream `name` and evaluates its triggers with
    /// the reading `now`; does nothing where `name` is not registered.
    pub fn incr_record_count_at(&mut self, name: &str, now: Option<CivilTime>) -> (r: Option<
        EpochChange,
    >)
        requires
            old(self).wf(),
        ensures
            !old(self).registered(name@) ==> r is None && *final(self) == *old(self),
            old(self).registered(name@) ==> final(self).others_kept(
                old(self),
                old(self).index_of(name@),
            ) && old(self).entries()[old(self).index_of(name@)].1.stepped(
                saturating_next(old(self).entries()[old(self).index_of(name@)].1.spec_records_written()),
                &final(self).entries()[old(self).index_of(name@)].1,
                now,
                r,
            ),
            final(self).wf(),
    {
        match self.find(name) {
            None => None,
            Some(i) => {
                assert(self.index_of(name@) == i);
                let r = self.rotators[i].incr_record_count_at(now);
                r
            },
        }
    }

    /// Counts one record of the stream `name` and evaluates its triggers,
    /// reading the clock when a time boundary is configured; does nothing where
    /// `name` is not registered.
    pub fn incr_record_count(&mut self, name: &str) -> (r: Option<EpochChange>)
        requires
            old(self).wf(),
        ensures
            !old(self).registered(name@) ==> r is None && *final(self) == *old(self),
            old(self).registered(name@) ==> final(self).others_kept(
                old(self),
                old(self).index_of(name@),
            ) && exists|now: Option<CivilTime>|
                (old(self).entries()[old(self).index_of(name@)].1.policy().time is None
                    ==> now is None) && (now matches Some(t) ==> t.wf()) && #[trigger] old(
                    self,
                ).entries()[old(self).index_of(name@)].1.stepped(
                    saturating_next(
                        old(self).entries()[old(self).index_of(name@)].1.spec_records_written(),
                    ),
                    &final(self).entries()[old(self).index_of(name@)].1,
                    now,
                    r,
                ),
            final(self).wf(),
    {
        match self.find(name) {
            None => None,
            Some(i) => {
                assert(self.index_of(name@) == i);
                let ghost old_entries = self.entries();
                let ghost old_rot = self.rotators@[i as int];
                let r = self.rotators[i].incr_record_count();
                proof {
                    let now = choose|now: Option<CivilTime>|
                        (old_rot.policy().time is None ==> now is None) && (now matches Some(t)
                            ==> t.wf()) && #[trigger] old_rot.stepped(
                            saturating_next(old_rot.spec_records_written()),
                            &self.rotators@[i as int],
                            now,
                            r,
                        );
                    assert(self.entries()[i as int].1 == self.rotators@[i as int]);
                    assert(old_entries[i as int].1 == old_rot);
                    assert(old_entries[i as int].1.stepped(
                        saturating_next(old_rot.spec_records_written()),
                        &self.entries()[i as int].1,
                        now,
                        r,
                    ));
                }
                r
            },
        }
    }
}

} // verus!
