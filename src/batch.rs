use vstd::prelude::*;

verus! {

/// One event of a batch's progress stream.
#[derive(Debug, Clone, PartialEq, Eq)]
pub enum Progress {
    Started { total: u64 },
    Rendering,
    RenderFailed { error: String },
    Processing { path: String },
    FolderComplete { path: String },
    FolderFailed { path: String, error: String },
    Completed { succeeded: u64, failed: u64 },
}

/// A customize batch renders once and installs into every directory; a
/// reset batch removes the custom icon of every directory.
#[derive(Debug, Clone, Copy, PartialEq, Eq, Structural)]
pub enum BatchKind {
    Customize,
    Reset,
}

/// The outside work that a batch asks for next.
#[derive(Debug, Clone, Copy, PartialEq, Eq, Structural)]
pub enum Action {
    /// Render the profile once.
    Render,
    /// Install the rendered icon into the directory at `index`.
    Install { index: usize },
    /// Remove the custom icon of the directory at `index`.
    Remove { index: usize },
    /// Nothing more: the batch is over.
    Finish,
}

/// Where a batch stands.
#[derive(Debug, Clone, Copy, PartialEq, Eq, Structural)]
pub enum Phase {
    Ready,
    Rendering,
    Working,
    Done,
}

/// The decisions of one batch over a fixed list of directories, taken one
/// outcome at a time. Directories are worked sequentially, in list order.
pub struct Batch {
    pub kind: BatchKind,
    pub directories: Vec<String>,
    pub phase: Phase,
    /// The directory being worked, or the number of directories done.
    pub next: usize,
    pub succeeded: u64,
    pub failed: u64,
}

/// The terminal event of one directory's work.
pub open spec fn outcome_event(path: String, outcome: Result<(), String>) -> Progress {
    match outcome {
        Ok(_) => Progress::FolderComplete { path },
        Err(error) => Progress::FolderFailed { path, error },
    }
}

/// The work asked for on the directory at `index`.
pub open spec fn work_action(kind: BatchKind, index: usize) -> Action {
    match kind {
        BatchKind::Customize => Action::Install { index },
        BatchKind::Reset => Action::Remove { index },
    }
}

/// The events and action on reaching directory `i` with the tallies `s`, `f`:
/// start on it, or complete the batch past the last one.
pub open spec fn step_into(kind: BatchKind, dirs: Seq<String>, i: int, s: u64, f: u64) -> (Seq<
    Progress,
>, Action) {
    if i < dirs.len() {
        (seq![Progress::Processing { path: dirs[i] }], work_action(kind, i as usize))
    } else {
        (seq![Progress::Completed { succeeded: s, failed: f }], Action::Finish)
    }
}

/// The number of successes among the first `n` outcomes.
pub open spec fn count_ok(outcomes: Seq<Result<(), String>>, n: int) -> nat
    decreases n,
{
    if n <= 0 {
        0
    } else {
        count_ok(outcomes, n - 1) + if outcomes[n - 1] is Ok {
            1nat
        } else {
            0nat
        }
    }
}

/// The events of the first `n` directories: each one's `Processing`, then its
/// terminal event.
pub open spec fn folder_events(dirs: Seq<String>, outcomes: Seq<Result<(), String>>, n: int) -> Seq<
    Progress,
>
    decreases n,
{
    if n <= 0 {
        seq![]
    } else {
        folder_events(dirs, outcomes, n - 1) + seq![
            Progress::Processing { path: dirs[n - 1] },
            outcome_event(dirs[n - 1], outcomes[n - 1]),
        ]
    }
}

/// The `Completed` event after all directories were worked.
pub open spec fn completed_event(outcomes: Seq<Result<(), String>>) -> Progress {
    let ok = count_ok(outcomes, outcomes.len() as int);
    Progress::Completed { succeeded: ok as u64, failed: (outcomes.len() - ok) as u64 }
}

/// The whole event stream of a customize batch, given the render outcome and
/// each directory's install outcome.
pub open spec fn customize_trace(
    dirs: Seq<String>,
    render: Result<(), String>,
    outcomes: Seq<Result<(), String>>,
) -> Seq<Progress> {
    let head = seq![Progress::Started { total: dirs.len() as u64 }, Progress::Rendering];
    match render {
        Err(error) => head.push(Progress::RenderFailed { error }),
        Ok(_) => head + folder_events(dirs, outcomes, dirs.len() as int) + seq![
            completed_event(outcomes),
        ],
    }
}

/// The whole event stream of a reset batch, given each directory's removal
/// outcome.
pub open spec fn reset_trace(dirs: Seq<String>, outcomes: Seq<Result<(), String>>) -> Seq<Progress> {
    seq![Progress::Started { total: dirs.len() as u64 }] + folder_events(
        dirs,
        outcomes,
        dirs.len() as int,
    ) + seq![completed_event(outcomes)]
}

impl Batch {
    /// The batch's counters agree with its phase.
    pub open spec fn wf(&self) -> bool {
        &&& self.directories@.len() <= u64::MAX
        &&& self.next <= self.directories@.len()
        &&& self.succeeded + self.failed == self.next
        &&& self.phase is Working ==> self.next < self.directories@.len()
        &&& (self.phase is Ready || self.phase is Rendering) ==> self.next == 0
        &&& self.phase is Rendering ==> self.kind is Customize
    }

    /// A batch over `directories`, not yet begun.
    pub fn new(kind: BatchKind, directories: Vec<String>) -> (r: Batch)
        requires
            directories@.len() <= u64::MAX,
        ensures
            r.wf(),
            r.kind == kind,
            r.directories == directories,
            r.phase is Ready,
            r.next == 0,
    {
        Batch { kind, directories, phase: Phase::Ready, next: 0, succeeded: 0, failed: 0 }
    }

    /// Moves to directory `self.next`, or completes the batch past the last one.
    fn enter(&mut self, events: &mut Vec<Progress>) -> (a: Action)
        requires
            old(self).wf(),
            old(self).next <= old(self).directories@.len(),
        ensures
            final(self).wf(),
            final(self).kind == old(self).kind,
            final(self).directories == old(self).directories,
            final(self).next == old(self).next,
            final(self).succeeded == old(self).succeeded,
            final(self).failed == old(self).failed,
            final(self).phase == (if old(self).next < old(self).directories@.len() {
                Phase::Working
            } else {
                Phase::Done
            }),
            ({
                let (ev, act) = step_into(
                    old(self).kind,
                    old(self).directories@,
                    old(self).next as int,
                    old(self).succeeded,
                    old(self).failed,
                );
                final(events)@ == old(events)@ + ev && a == act
            }),
    {
        if self.next < self.directories.len() {
            let path = self.directories[self.next].clone();
            events.push(Progress::Processing { path });
            self.phase = Phase::Working;
            match self.kind {
                BatchKind::Customize => Action::Install { index: self.next },
                BatchKind::Reset => Action::Remove { index: self.next },
            }
        } else {
            events.push(Progress::Completed { succeeded: self.succeeded, failed: self.failed });
            self.phase = Phase::Done;
            Action::Finish
        }
    }

    /// Starts the batch: `Started` with the number of directories, then
    /// `Rendering` for a customize batch, or the first directory for a reset.
    pub fn begin(&mut self) -> (r: (Vec<Progress>, Action))
        requires
            old(self).wf(),
            old(self).phase is Ready,
        ensures
            final(self).wf(),
            final(self).kind == old(self).kind,
            final(self).directories == old(self).directories,
            final(self).next == 0,
            old(self).kind is Customize ==> final(self).phase is Rendering && r.0@ == seq![
                Progress::Started { total: old(self).directories@.len() as u64 },
                Progress::Rendering,
            ] && r.1 == Action::Render,
            old(self).kind is Reset ==> ({
                let (ev, act) = step_into(old(self).kind, old(self).directories@, 0, 0, 0);
                &&& r.0@ == seq![
                    Progress::Started { total: old(self).directories@.len() as u64 },
                ] + ev
                &&& r.1 == act
                &&& final(self).phase == if old(self).directories@.len() > 0 {
                    Phase::Working
                } else {
                    Phase::Done
                }
            }),
    {
        let mut events: Vec<Progress> = Vec::new();
        events.push(Progress::Started { total: self.directories.len() as u64 });
        match self.kind {
            BatchKind::Customize => {
                events.push(Progress::Rendering);
                self.phase = Phase::Rendering;
                (events, Action::Render)
            },
            BatchKind::Reset => {
                let a = self.enter(&mut events);
                (events, a)
            },
        }
    }

    /// Takes the render outcome: a failure ends the batch with `RenderFailed`
    /// and no directory attempted; a success moves to the first directory.
    pub fn rendered(&mut self, outcome: Result<(), String>) -> (r: (Vec<Progress>, Action))
        requires
            old(self).wf(),
            old(self).phase is Rendering,
        ensures
            final(self).wf(),
            final(self).kind == old(self).kind,
            final(self).directories == old(self).directories,
            final(self).next == 0,
            outcome matches Err(error) ==> final(self).phase is Done && r.0@ == seq![
                Progress::RenderFailed { error },
            ] && r.1 == Action::Finish,
            outcome is Ok ==> ({
                let (ev, act) = step_into(old(self).kind, old(self).directories@, 0, 0, 0);
                &&& r.0@ == ev
                &&& r.1 == act
                &&& final(self).phase == if old(self).directories@.len() > 0 {
                    Phase::Working
                } else {
                    Phase::Done
                }
            }),
    {
        let mut events: Vec<Progress> = Vec::new();
        match outcome {
            Err(error) => {
                events.push(Progress::RenderFailed { error });
                self.phase = Phase::Done;
                (events, Action::Finish)
            },
            Ok(()) => {
                let a = self.enter(&mut events);
                (events, a)
            },
        }
    }

    /// Takes the outcome of the current directory's work: its terminal event
    /// is emitted and tallied, and the batch moves to the next directory or
    /// completes.
    pub fn folder_finished(&mut self, outcome: Result<(), String>) -> (r: (Vec<Progress>, Action))
        requires
            old(self).wf(),
            old(self).phase is Working,
        ensures
            final(self).wf(),
            final(self).kind == old(self).kind,
            final(self).directories == old(self).directories,
            final(self).next == old(self).next + 1,
            final(self).succeeded == old(self).succeeded + if outcome is Ok {
                1int
            } else {
                0int
            },
            final(self).failed == old(self).failed + if outcome is Ok {
                0int
            } else {
                1int
            },
            ({
                let (ev, act) = step_into(
                    old(self).kind,
                    old(self).directories@,
                    old(self).next + 1,
                    final(self).succeeded,
                    final(self).failed,
                );
                &&& r.0@ == seq![outcome_event(old(self).directories@[old(self).next as int], outcome)]
                    + ev
                &&& r.1 == act
                &&& final(self).phase == if old(self).next + 1 < old(self).directories@.len() {
                    Phase::Working
                } else {
                    Phase::Done
                }
            }),
    {
        let mut events: Vec<Progress> = Vec::new();
        let path = self.directories[self.next].clone();
        match outcome {
            Ok(()) => {
                events.push(Progress::FolderComplete { path });
                self.succeeded = self.succeeded + 1;
            },
            Err(error) => {
                events.push(Progress::FolderFailed { path, error });
                self.failed = self.failed + 1;
            },
        }
        self.phase = Phase::Done;
        let n = self.directories.len();
        assert(self.next < n);
        self.next = self.next + 1;
        let a = self.enter(&mut events);
        (events, a)
    }
}

fn copy_outcome(o: &Result<(), String>) -> (r: Result<(), String>)
    ensures
        r == *o,
{
    match o {
        Ok(u) => Ok(*u),
        Err(e) => Err(e.clone()),
    }
}

/// Feeds each directory's outcome to a batch that is working, until it is done.
fn work_all(batch: &mut Batch, outcomes: &Vec<Result<(), String>>, events: &mut Vec<Progress>)
    requires
        old(batch).wf(),
        old(batch).next == 0,
        old(batch).succeeded == 0,
        outcomes@.len() == old(batch).directories@.len(),
        old(batch).phase is Working || (old(batch).phase is Done && old(
            batch,
        ).directories@.len() == 0),
        old(batch).phase is Working ==> old(events)@.len() > 0 && old(events)@.last() == (
        Progress::Processing { path: old(batch).directories@[0] }),
    ensures
        old(batch).phase is Working ==> final(events)@ == old(events)@.drop_last() + folder_events(
            old(batch).directories@,
            outcomes@,
            outcomes@.len() as int,
        ) + seq![completed_event(outcomes@)],
        old(batch).phase is Done ==> final(events)@ == old(events)@,
{
    if batch.phase == Phase::Done {
        return ;
    }
    let ghost before = events@.drop_last();
    let ghost dirs = batch.directories@;
    assert(events@ =~= before + folder_events(dirs, outcomes@, 0) + seq![
        Progress::Processing { path: dirs[0] },
    ]);
    while batch.phase == Phase::Working
        invariant
            batch.wf(),
            batch.directories@ == dirs,
            outcomes@.len() == dirs.len(),
            batch.succeeded == count_ok(outcomes@, batch.next as int),
            batch.phase is Working || batch.phase is Done,
            batch.phase is Working ==> events@ == before + folder_events(
                dirs,
                outcomes@,
                batch.next as int,
            ) + seq![Progress::Processing { path: dirs[batch.next as int] }],
            batch.phase is Done ==> batch.next == dirs.len() && events@ == before + folder_events(
                dirs,
                outcomes@,
                dirs.len() as int,
            ) + seq![completed_event(outcomes@)],
        decreases dirs.len() - batch.next,
    {
        let i = batch.next;
        let o = copy_outcome(&outcomes[i]);
        let (mut ev, _a) = batch.folder_finished(o);
        events.append(&mut ev);
        proof {
            let fe = folder_events(dirs, outcomes@, i + 1);
            assert(fe == folder_events(dirs, outcomes@, i as int) + seq![
                Progress::Processing { path: dirs[i as int] },
                outcome_event(dirs[i as int], outcomes@[i as int]),
            ]);
            if batch.phase is Working {
                assert(events@ =~= before + fe + seq![
                    Progress::Processing { path: dirs[batch.next as int] },
                ]);
            } else {
                assert(events@ =~= before + fe + seq![completed_event(outcomes@)]);
            }
        }
    }
}

/// The event stream of a customize batch whose render came out as `render`
/// and whose install into `directories[i]` came out as `installs[i]`.
pub fn customize_events(
    directories: Vec<String>,
    render: Result<(), String>,
    installs: Vec<Result<(), String>>,
) -> (r: Vec<Progress>)
    requires
        installs@.len() == directories@.len(),
        directories@.len() <= u64::MAX,
    ensures
        r@ == customize_trace(directories@, render, installs@),
{
    let ghost dirs = directories@;
    let render_failed = match &render {
        Ok(()) => false,
        Err(_) => true,
    };
    let mut batch = Batch::new(BatchKind::Customize, directories);
    let (mut events, _a) = batch.begin();
    let ghost head = events@;
    let (mut ev, _a) = batch.rendered(render);
    events.append(&mut ev);
    if render_failed {
        return events;
    }
    proof {
        if dirs.len() > 0 {
            assert(events@.drop_last() =~= head);
        }
    }
    work_all(&mut batch, &installs, &mut events);
    proof {
        if dirs.len() == 0 {
            assert(count_ok(installs@, 0) == 0);
            assert(events@ =~= customize_trace(dirs, render, installs@));
        }
    }
    events
}

/// The event stream of a reset batch whose removal of `directories[i]` came
/// out as `removals[i]`.
pub fn reset_events(directories: Vec<String>, removals: Vec<Result<(), String>>) -> (r: Vec<
    Progress,
>)
    requires
        removals@.len() == directories@.len(),
        directories@.len() <= u64::MAX,
    ensures
        r@ == reset_trace(directories@, removals@),
{
    let ghost dirs = directories@;
    let mut batch = Batch::new(BatchKind::Reset, directories);
    let (mut events, _a) = batch.begin();
    let ghost head = seq![Progress::Started { total: dirs.len() as u64 }];
    proof {
        if dirs.len() > 0 {
            assert(events@.drop_last() =~= head);
        }
    }
    work_all(&mut batch, &removals, &mut events);
    proof {
        if dirs.len() == 0 {
            assert(count_ok(removals@, 0) == 0);
            assert(events@ =~= reset_trace(dirs, removals@));
        }
    }
    events
}

/// The directory events come in pairs, in list order: directory `i`'s
/// `Processing` at `2 * i`, its terminal event at `2 * i + 1`.
pub proof fn lemma_folder_events_shape(
    dirs: Seq<String>,
    outcomes: Seq<Result<(), String>>,
    n: int,
)
    requires
        0 <= n <= dirs.len(),
        n <= outcomes.len(),
    ensures
        folder_events(dirs, outcomes, n).len() == 2 * n,
        forall|i: int|
            0 <= i < n ==> folder_events(dirs, outcomes, n)[2 * i] == (Progress::Processing {
                path: dirs[i],
            }) && folder_events(dirs, outcomes, n)[2 * i + 1] == outcome_event(
                dirs[i],
                outcomes[i],
            ),
    decreases n,
{
    if n > 0 {
        lemma_folder_events_shape(dirs, outcomes, n - 1);
        let prev = folder_events(dirs, outcomes, n - 1);
        let cur = folder_events(dirs, outcomes, n);
        assert forall|i: int| 0 <= i < n implies cur[2 * i] == (Progress::Processing {
            path: dirs[i],
        }) && cur[2 * i + 1] == outcome_event(dirs[i], outcomes[i]) by {
            if i < n - 1 {
                assert(cur[2 * i] == prev[2 * i]);
                assert(cur[2 * i + 1] == prev[2 * i + 1]);
            }
        }
    }
}

proof fn lemma_count_ok_bound(outcomes: Seq<Result<(), String>>, n: int)
    requires
        0 <= n <= outcomes.len(),
    ensures
        count_ok(outcomes, n) <= n,
        (forall|i: int| 0 <= i < n ==> (#[trigger] outcomes[i]) is Ok) ==> count_ok(outcomes, n)
            == n,
    decreases n,
{
    if n > 0 {
        lemma_count_ok_bound(outcomes, n - 1);
    }
}

/// A finished batch accounts for every directory: the tallies of its
/// `Completed` event add up to the number of directories.
pub proof fn lemma_completed_tally(outcomes: Seq<Result<(), String>>)
    requires
        outcomes.len() <= u64::MAX,
    ensures
        completed_event(outcomes) matches Progress::Completed { succeeded, failed }
            && succeeded + failed == outcomes.len() && succeeded == count_ok(
            outcomes,
            outcomes.len() as int,
        ),
{
    lemma_count_ok_bound(outcomes, outcomes.len() as int);
}

/// When rendering succeeds and every install succeeds, a customize batch
/// emits `Started`, `Rendering`, then `Processing` and `FolderComplete` for
/// each directory in turn, then `Completed` with all succeeded and none failed.
pub proof fn lemma_customize_all_installed(dirs: Seq<String>, outcomes: Seq<Result<(), String>>)
    requires
        dirs.len() <= u64::MAX,
        outcomes.len() == dirs.len(),
        forall|i: int| 0 <= i < outcomes.len() ==> (#[trigger] outcomes[i]) is Ok,
    ensures
        customize_trace(dirs, Ok(()), outcomes) == seq![
            Progress::Started { total: dirs.len() as u64 },
            Progress::Rendering,
        ] + Seq::new(
            2 * dirs.len(),
            |k: int|
                if k % 2 == 0 {
                    Progress::Processing { path: dirs[k / 2] }
                } else {
                    Progress::FolderComplete { path: dirs[k / 2] }
                },
        ) + seq![Progress::Completed { succeeded: dirs.len() as u64, failed: 0 }],
{
    let n = dirs.len() as int;
    lemma_folder_events_shape(dirs, outcomes, n);
    lemma_count_ok_bound(outcomes, n);
    let fe = folder_events(dirs, outcomes, n);
    let expected = Seq::new(
        2 * dirs.len(),
        |k: int|
            if k % 2 == 0 {
                Progress::Processing { path: dirs[k / 2] }
            } else {
                Progress::FolderComplete { path: dirs[k / 2] }
            },
    );
    assert forall|k: int| 0 <= k < 2 * n implies fe[k] == expected[k] by {
        let i = k / 2;
        assert(0 <= i < n);
        if k % 2 == 0 {
            assert(k == 2 * i);
        } else {
            assert(k == 2 * i + 1);
            assert(outcomes[i] is Ok);
        }
    }
    assert(fe =~= expected);
}

/// When rendering fails, a customize batch emits exactly `Started`,
/// `Rendering` and `RenderFailed`: no directory is attempted and no
/// `Completed` follows.
pub proof fn lemma_customize_render_failed(
    dirs: Seq<String>,
    error: String,
    outcomes: Seq<Result<(), String>>,
)
    ensures
        customize_trace(dirs, Err(error), outcomes) == seq![
            Progress::Started { total: dirs.len() as u64 },
            Progress::Rendering,
            Progress::RenderFailed { error },
        ],
{
    assert(customize_trace(dirs, Err(error), outcomes) =~= seq![
        Progress::Started { total: dirs.len() as u64 },
        Progress::Rendering,
        Progress::RenderFailed { error },
    ]);
}

} // verus!
