//! The statistics snapshot of a campaign and its synchronization with the
//! coverage table and the corpus store.

use vstd::prelude::*;
use crate::status_type::StatusType;

verus! {

/// What the corpus store holds at the moment it is read.
#[derive(Debug, Clone, Copy, PartialEq, Eq, Structural)]
pub struct Depot {
    /// The number of inputs stored in the corpus.
    pub num_inputs: u64,
    /// The number of stored inputs that wait in the queue.
    pub num_queued: u64,
    /// The number of stored inputs that are marked as favored.
    pub num_favored: u64,
}

/// What the coverage table holds at the moment it is read.
#[derive(Debug, Clone, Copy, PartialEq, Eq, Structural)]
pub struct GlobalBranches {
    /// The number of distinct branches discovered so far.
    pub num_branches: u64,
}

/// The fields of a statistics snapshot, by name.
#[derive(Debug, Clone, Copy, PartialEq, Eq, Structural)]
pub enum Field {
    /// The time at which the campaign started, in seconds.
    InitTime,
    /// All classified executions since the campaign started.
    NumExec,
    /// The executions classified as normal.
    NumNormal,
    /// The executions classified as timed out.
    NumTimeout,
    /// The executions classified as crashed.
    NumCrash,
    /// The executions classified as imports.
    NumImport,
    /// The executions classified as skipped.
    NumSkip,
    /// The executions classified as errors.
    NumError,
    /// The distinct branches discovered.
    NumBranches,
    /// The inputs in the corpus.
    NumInputs,
    /// The queued inputs.
    NumQueued,
    /// The favored inputs.
    NumFavored,
    /// The seconds since the campaign started.
    Elapsed,
    /// The executions per second.
    Speed,
}

impl Field {
    /// The name under which the field is written.
    pub open spec fn name_text(self) -> Seq<char> {
        match self {
            Field::InitTime => "init_time"@,
            Field::NumExec => "num_exec"@,
            Field::NumNormal => "num_normal"@,
            Field::NumTimeout => "num_timeout"@,
            Field::NumCrash => "num_crash"@,
            Field::NumImport => "num_import"@,
            Field::NumSkip => "num_skip"@,
            Field::NumError => "num_error"@,
            Field::NumBranches => "num_branches"@,
            Field::NumInputs => "num_inputs"@,
            Field::NumQueued => "num_queued"@,
            Field::NumFavored => "num_favored"@,
            Field::Elapsed => "elapsed"@,
            Field::Speed => "speed"@,
        }
    }

    /// The field that counts the executions of the category `status`.
    pub open spec fn of_status(status: StatusType) -> Field {
        match status {
            StatusType::Normal => Field::NumNormal,
            StatusType::Timeout => Field::NumTimeout,
            StatusType::Crash => Field::NumCrash,
            StatusType::Import => Field::NumImport,
            StatusType::Skip => Field::NumSkip,
            StatusType::Error => Field::NumError,
        }
    }

    /// The name under which the field is written.
    pub fn name(self) -> (name: &'static str)
        ensures
            name@ == self.name_text(),
    {
        match self {
            Field::InitTime => "init_time",
            Field::NumExec => "num_exec",
            Field::NumNormal => "num_normal",
            Field::NumTimeout => "num_timeout",
            Field::NumCrash => "num_crash",
            Field::NumImport => "num_import",
            Field::NumSkip => "num_skip",
            Field::NumError => "num_error",
            Field::NumBranches => "num_branches",
            Field::NumInputs => "num_inputs",
            Field::NumQueued => "num_queued",
            Field::NumFavored => "num_favored",
            Field::Elapsed => "elapsed",
            Field::Speed => "speed",
        }
    }
}

/// The mathematical value of a statistics snapshot.
pub struct Snapshot {
    /// The time at which the campaign started, in seconds.
    pub init_time: nat,
    /// The executions classified as normal.
    pub num_normal: nat,
    /// The executions classified as timed out.
    pub num_timeout: nat,
    /// The executions classified as crashed.
    pub num_crash: nat,
    /// The executions classified as imports.
    pub num_import: nat,
    /// The executions classified as skipped.
    pub num_skip: nat,
    /// The executions classified as errors.
    pub num_error: nat,
    /// All classified executions since the campaign started.
    pub num_exec: nat,
    /// The distinct branches discovered, as of the last synchronization.
    pub num_branches: nat,
    /// The inputs in the corpus, as of the last synchronization.
    pub num_inputs: nat,
    /// The queued inputs, as of the last synchronization.
    pub num_queued: nat,
    /// The favored inputs, as of the last synchronization.
    pub num_favored: nat,
    /// The seconds since the campaign started, as of the last
    /// synchronization.
    pub elapsed: nat,
    /// The executions per second over the whole campaign, rounded down, as of
    /// the last synchronization.
    pub speed: nat,
}

/// The seconds from `init_time` to `now`; zero where the clock reads earlier
/// than the start.
pub open spec fn elapsed_between(init_time: nat, now: nat) -> nat {
    if now >= init_time {
        (now - init_time) as nat
    } else {
        0
    }
}

/// The whole executions per second; zero while no second has passed.
pub open spec fn throughput(num_exec: nat, elapsed: nat) -> nat {
    if elapsed == 0 {
        0
    } else {
        num_exec / elapsed
    }
}

impl Snapshot {
    /// The snapshot of a campaign that starts at `init_time`: every counter
    /// and every derived field is zero.
    pub open spec fn fresh(init_time: nat) -> Snapshot {
        Snapshot {
            init_time,
            num_normal: 0,
            num_timeout: 0,
            num_crash: 0,
            num_import: 0,
            num_skip: 0,
            num_error: 0,
            num_exec: 0,
            num_branches: 0,
            num_inputs: 0,
            num_queued: 0,
            num_favored: 0,
            elapsed: 0,
            speed: 0,
        }
    }

    /// The total counts every classified execution once.
    pub open spec fn wf(self) -> bool {
        self.num_exec == self.num_normal + self.num_timeout + self.num_crash + self.num_import
            + self.num_skip + self.num_error
    }

    /// The counter of one category.
    pub open spec fn count_of(self, status: StatusType) -> nat {
        match status {
            StatusType::Normal => self.num_normal,
            StatusType::Timeout => self.num_timeout,
            StatusType::Crash => self.num_crash,
            StatusType::Import => self.num_import,
            StatusType::Skip => self.num_skip,
            StatusType::Error => self.num_error,
        }
    }

    /// The value of one field.
    pub open spec fn value(self, field: Field) -> nat {
        match field {
            Field::InitTime => self.init_time,
            Field::NumExec => self.num_exec,
            Field::NumNormal => self.num_normal,
            Field::NumTimeout => self.num_timeout,
            Field::NumCrash => self.num_crash,
            Field::NumImport => self.num_import,
            Field::NumSkip => self.num_skip,
            Field::NumError => self.num_error,
            Field::NumBranches => self.num_branches,
            Field::NumInputs => self.num_inputs,
            Field::NumQueued => self.num_queued,
            Field::NumFavored => self.num_favored,
            Field::Elapsed => self.elapsed,
            Field::Speed => self.speed,
        }
    }

    /// The snapshot after one more execution of category `status`: that
    /// category's counter and the total grow by one, all else stays.
    pub open spec fn recorded(self, status: StatusType) -> Snapshot {
        let counted = Snapshot { num_exec: self.num_exec + 1, ..self };
        match status {
            StatusType::Normal => Snapshot { num_normal: self.num_normal + 1, ..counted },
            StatusType::Timeout => Snapshot { num_timeout: self.num_timeout + 1, ..counted },
            StatusType::Crash => Snapshot { num_crash: self.num_crash + 1, ..counted },
            StatusType::Import => Snapshot { num_import: self.num_import + 1, ..counted },
            StatusType::Skip => Snapshot { num_skip: self.num_skip + 1, ..counted },
            StatusType::Error => Snapshot { num_error: self.num_error + 1, ..counted },
        }
    }

    /// The snapshot after a synchronization at time `now`: the derived
    /// fields are overwritten with what the corpus store and the coverage
    /// table hold, the elapsed time and the rate are computed anew, and the
    /// execution counters stay.
    pub open spec fn synced(self, depot: Depot, gb: GlobalBranches, now: nat) -> Snapshot {
        let elapsed = elapsed_between(self.init_time, now);
        Snapshot {
            num_branches: gb.num_branches as nat,
            num_inputs: depot.num_inputs as nat,
            num_queued: depot.num_queued as nat,
            num_favored: depot.num_favored as nat,
            elapsed,
            speed: throughput(self.num_exec, elapsed),
            ..self
        }
    }
}

/// The statistics snapshot of a running campaign.
///
/// The execution counters grow with every recorded execution; the derived
/// fields are overwritten at every synchronization. The total always equals
/// the sum of the six category counters.
#[derive(Debug, Clone, Copy, PartialEq, Eq, Structural)]
pub struct ChartStats {
    init_time: u64,
    num_normal: u64,
    num_timeout: u64,
    num_crash: u64,
    num_import: u64,
    num_skip: u64,
    num_error: u64,
    num_exec: u64,
    num_branches: u64,
    num_inputs: u64,
    num_queued: u64,
    num_favored: u64,
    elapsed: u64,
    speed: u64,
}

impl View for ChartStats {
    type V = Snapshot;

    closed spec fn view(&self) -> Snapshot {
        Snapshot {
            init_time: self.init_time as nat,
            num_normal: self.num_normal as nat,
            num_timeout: self.num_timeout as nat,
            num_crash: self.num_crash as nat,
            num_import: self.num_import as nat,
            num_skip: self.num_skip as nat,
            num_error: self.num_error as nat,
            num_exec: self.num_exec as nat,
            num_branches: self.num_branches as nat,
            num_inputs: self.num_inputs as nat,
            num_queued: self.num_queued as nat,
            num_favored: self.num_favored as nat,
            elapsed: self.elapsed as nat,
            speed: self.speed as nat,
        }
    }
}

impl ChartStats {
    #[verifier::type_invariant]
    spec fn total_is_sum(&self) -> bool {
        self.num_exec == self.num_normal + self.num_timeout + self.num_crash + self.num_import
            + self.num_skip + self.num_error
    }

    /// The snapshot of a campaign that starts at `init_time`, in seconds.
    pub fn new(init_time: u64) -> (stats: ChartStats)
        ensures
            stats@ == Snapshot::fresh(init_time as nat),
    {
        ChartStats {
            init_time,
            num_normal: 0,
            num_timeout: 0,
            num_crash: 0,
            num_import: 0,
            num_skip: 0,
            num_error: 0,
            num_exec: 0,
            num_branches: 0,
            num_inputs: 0,
            num_queued: 0,
            num_favored: 0,
            elapsed: 0,
            speed: 0,
        }
    }

    /// Counts one execution under its category.
    ///
    /// The total must have room for one more execution.
    pub fn record(&mut self, status: StatusType)
        requires
            old(self)@.num_exec < u64::MAX,
        ensures
            final(self)@ == old(self)@.recorded(status),
            final(self)@.wf(),
    {
        proof {
            use_type_invariant(&*self);
        }
        let s = *self;
        let mut next = [s.num_normal, s.num_timeout, s.num_crash, s.num_import, s.num_skip, s.num_error];
        let slot: usize = match status {
            StatusType::Normal => 0,
            StatusType::Timeout => 1,
            StatusType::Crash => 2,
            StatusType::Import => 3,
            StatusType::Skip => 4,
            StatusType::Error => 5,
        };
        next[slot] = next[slot] + 1;
        *self = ChartStats {
            num_normal: next[0],
            num_timeout: next[1],
            num_crash: next[2],
            num_import: next[3],
            num_skip: next[4],
            num_error: next[5],
            num_exec: s.num_exec + 1,
            ..s
        };
    }

    /// Folds the state of the corpus store and of the coverage table, read at
    /// time `now`, into the snapshot.
    pub fn sync_from_global(&mut self, depot: &Depot, gb: &GlobalBranches, now: u64)
        ensures
            final(self)@ == old(self)@.synced(*depot, *gb, now as nat),
            final(self)@.wf(),
    {
        proof {
            use_type_invariant(&*self);
        }
        let s = *self;
        let elapsed: u64 = if now >= s.init_time {
            now - s.init_time
        } else {
            0
        };
        let speed: u64 = if elapsed == 0 {
            0
        } else {
            s.num_exec / elapsed
        };
        *self = ChartStats {
            num_branches: gb.num_branches,
            num_inputs: depot.num_inputs,
            num_queued: depot.num_queued,
            num_favored: depot.num_favored,
            elapsed,
            speed,
            ..s
        };
    }

    /// The value of one field.
    pub fn value(&self, field: Field) -> (value: u64)
        ensures
            value == self@.value(field),
            self@.wf(),
    {
        proof {
            use_type_invariant(self);
        }
        match field {
            Field::InitTime => self.init_time,
            Field::NumExec => self.num_exec,
            Field::NumNormal => self.num_normal,
            Field::NumTimeout => self.num_timeout,
            Field::NumCrash => self.num_crash,
            Field::NumImport => self.num_import,
            Field::NumSkip => self.num_skip,
            Field::NumError => self.num_error,
            Field::NumBranches => self.num_branches,
            Field::NumInputs => self.num_inputs,
            Field::NumQueued => self.num_queued,
            Field::NumFavored => self.num_favored,
            Field::Elapsed => self.elapsed,
            Field::Speed => self.speed,
        }
    }

    /// The counter of one category.
    pub fn count_of(&self, status: StatusType) -> (count: u64)
        ensures
            count == self@.count_of(status),
            count == self@.value(Field::of_status(status)),
            self@.wf(),
    {
        proof {
            use_type_invariant(self);
        }
        match status {
            StatusType::Normal => self.num_normal,
            StatusType::Timeout => self.num_timeout,
            StatusType::Crash => self.num_crash,
            StatusType::Import => self.num_import,
            StatusType::Skip => self.num_skip,
            StatusType::Error => self.num_error,
        }
    }

    /// All classified executions since the campaign started: the sum of the
    /// six category counters.
    pub fn num_exec(&self) -> (count: u64)
        ensures
            count == self@.num_exec,
            self@.wf(),
    {
        proof {
            use_type_invariant(self);
        }
        self.num_exec
    }
}

/// What happens to a snapshot during a campaign.
pub enum Event {
    /// An execution of the given category was recorded.
    Executed(StatusType),
    /// The snapshot was synchronized with the corpus store and the coverage
    /// table, read at the given time.
    Synced(Depot, GlobalBranches, nat),
}

impl Snapshot {
    /// The snapshot after one event.
    pub open spec fn step(self, event: Event) -> Snapshot {
        match event {
            Event::Executed(status) => self.recorded(status),
            Event::Synced(depot, gb, now) => self.synced(depot, gb, now),
        }
    }

    /// The snapshot after a sequence of events, the first event first.
    pub open spec fn after(self, events: Seq<Event>) -> Snapshot
        decreases events.len(),
    {
        if events.len() == 0 {
            self
        } else {
            self.after(events.drop_last()).step(events.last())
        }
    }
}

/// Synchronizing is idempotent: a second synchronization with the same state
/// of the corpus store and of the coverage table, read at the same time,
/// leaves the snapshot as the first one made it. Read at another time, it
/// changes the elapsed time and the rate, which follow the clock, and
/// nothing else.
pub proof fn lemma_sync_idempotent(
    s: Snapshot,
    depot: Depot,
    gb: GlobalBranches,
    now: nat,
    later: nat,
)
    ensures
        s.synced(depot, gb, now).synced(depot, gb, now) == s.synced(depot, gb, now),
        s.synced(depot, gb, now).synced(depot, gb, later) == (Snapshot {
            elapsed: elapsed_between(s.init_time, later),
            speed: throughput(s.num_exec, elapsed_between(s.init_time, later)),
            ..s.synced(depot, gb, now)
        }),
{
}

/// Synchronizing touches no execution counter, and sets the derived fields
/// to what was read, whatever they held before.
pub proof fn lemma_sync_overwrites(s: Snapshot, depot: Depot, gb: GlobalBranches, now: nat)
    ensures
        forall|status: StatusType| s.synced(depot, gb, now).count_of(status) == s.count_of(status),
        s.synced(depot, gb, now).num_exec == s.num_exec,
        s.synced(depot, gb, now).init_time == s.init_time,
        s.synced(depot, gb, now).num_inputs == depot.num_inputs,
        s.synced(depot, gb, now).num_queued == depot.num_queued,
        s.synced(depot, gb, now).num_favored == depot.num_favored,
        s.synced(depot, gb, now).num_branches == gb.num_branches,
        s.wf() ==> s.synced(depot, gb, now).wf(),
{
}

/// Recording an execution adds one to the counter of its category and to
/// the total, and leaves every other counter as it was.
pub proof fn lemma_record_counts(s: Snapshot, status: StatusType)
    ensures
        s.recorded(status).count_of(status) == s.count_of(status) + 1,
        forall|other: StatusType|
            other != status ==> s.recorded(status).count_of(other) == s.count_of(other),
        s.recorded(status).num_exec == s.num_exec + 1,
        s.wf() ==> s.recorded(status).wf(),
{
}

/// No execution counter ever decreases: after any sequence of recorded
/// executions and synchronizations, every category's counter and the total
/// are at least what they were, and the total is still the sum of the
/// categories.
pub proof fn lemma_counters_never_decrease(s: Snapshot, events: Seq<Event>)
    ensures
        forall|status: StatusType| s.after(events).count_of(status) >= s.count_of(status),
        s.after(events).num_exec >= s.num_exec,
        s.after(events).init_time == s.init_time,
        s.wf() ==> s.after(events).wf(),
    decreases events.len(),
{
    if events.len() > 0 {
        let before = s.after(events.drop_last());
        lemma_counters_never_decrease(s, events.drop_last());
        match events.last() {
            Event::Executed(status) => {
                lemma_record_counts(before, status);
                assert forall|c: StatusType| s.after(events).count_of(c) >= s.count_of(c) by {
                    assert(before.count_of(c) >= s.count_of(c));
                    assert(before.recorded(status).count_of(c) >= before.count_of(c));
                }
            },
            Event::Synced(depot, gb, now) => {
                lemma_sync_overwrites(before, depot, gb, now);
                assert forall|c: StatusType| s.after(events).count_of(c) >= s.count_of(c) by {
                    assert(before.count_of(c) >= s.count_of(c));
                    assert(before.synced(depot, gb, now).count_of(c) == before.count_of(c));
                }
            },
        }
    }
}

} // verus!
