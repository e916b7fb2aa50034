//! The course of one release run: which step comes next, and what the ledger holds
//! after it. The caller does what each step asks for (it stores the ledger, runs the
//! build, packs the output, publishes) and reports back what came of it.
use vstd::prelude::*;
use crate::error::Error;
use crate::status::{all_clear_in, needs_compile_in, pruned, published_in, record_of};
use crate::status::{status_in, with_published, with_status};
use crate::status::{BuildStatus, Ledger, StatusWrapper};
use crate::table::string_set;
use crate::target::{all_wf, distinct_names, first_of_each, keep_first, name_of, output_name};
use crate::target::{views, Target, TargetView};

verus! {

/// How a run ended.
#[derive(Clone, Copy, Debug, PartialEq, Eq, Structural)]
pub enum Verdict {
    /// Every recorded build succeeded and, where asked for, publishing was tried.
    Succeeded,
    /// Publishing was asked for a release that is already published.
    RePublish,
    /// A recorded build is short of success.
    FailedBuilds,
}

/// Where a run stands. A phase that waits holds the position of its target.
#[derive(Clone, Copy, Debug, PartialEq, Eq, Structural)]
pub enum Phase {
    /// The pruned ledger is being stored.
    SavingPruned,
    /// The ledger that marks the target as started is being stored.
    SavingStarted(usize),
    /// The build of the target is running.
    Building(usize),
    /// The ledger that holds the outcome of the target's build is being stored.
    SavingOutcome(usize, bool),
    /// The output of the target is being packed.
    Packaging(usize),
    /// Every target was seen to; the ledger is being stored.
    Closing,
    /// The release is being published.
    Publishing,
    /// The ledger after the attempt to publish is being stored.
    SavingPublished,
    /// The run is over.
    Done(Verdict),
}

/// What the caller is asked to do next.
#[derive(Clone, Copy, Debug, PartialEq, Eq, Structural)]
pub enum Action {
    /// Store the ledger.
    Persist,
    /// Run the build of the target at this position.
    Build(usize),
    /// Pack the output of the target at this position.
    Package(usize),
    /// Publish the release.
    Publish,
    /// Stop, with this verdict.
    Finish(Verdict),
}

/// What the caller reports.
#[derive(Clone, Copy, Debug, PartialEq, Eq, Structural)]
pub enum Event {
    /// The ledger was stored.
    Persisted,
    /// The build ended, with or without success.
    Built(bool),
    /// The output was packed.
    Packaged,
    /// The attempt to publish ended, with or without success.
    PublishEnded(bool),
}

/// A run as plain values.
pub ghost struct RunView {
    pub phase: Phase,
    /// The names under which the targets are recorded, in the order of the targets.
    pub names: Seq<Seq<char>>,
    pub version: Seq<char>,
    pub force_compile: bool,
    pub publish: bool,
}

/// The names under which targets are recorded.
pub open spec fn output_names(targets: Seq<TargetView>) -> Seq<Seq<char>> {
    Seq::new(
        targets.len(),
        |i: int| output_name(targets[i].os, targets[i].arch, targets[i].build_name),
    )
}

/// The action that a phase waits on.
pub open spec fn pending(phase: Phase) -> Action {
    match phase {
        Phase::SavingPruned => Action::Persist,
        Phase::SavingStarted(_) => Action::Persist,
        Phase::Building(i) => Action::Build(i),
        Phase::SavingOutcome(_, _) => Action::Persist,
        Phase::Packaging(i) => Action::Package(i),
        Phase::Closing => Action::Persist,
        Phase::Publishing => Action::Publish,
        Phase::SavingPublished => Action::Persist,
        Phase::Done(verdict) => Action::Finish(verdict),
    }
}

/// Whether the build at position `i` is to run: always under force, else where the
/// ledger does not record its success.
pub open spec fn due(run: RunView, ledger: Ledger, i: int) -> bool {
    run.force_compile || needs_compile_in(ledger, run.names[i], run.version)
}

/// The first position from `i` on whose build is to run; the number of targets
/// where there is none.
pub open spec fn first_due(run: RunView, ledger: Ledger, i: int) -> int
    decreases run.names.len() - i,
{
    if i < 0 || i >= run.names.len() {
        run.names.len() as int
    } else if due(run, ledger, i) {
        i
    } else {
        first_due(run, ledger, i + 1)
    }
}

/// The step that follows when the targets before `i` are seen to: the next build
/// that is to run is marked as started; where none is left the run closes.
pub open spec fn turn_to(run: RunView, ledger: Ledger, i: int) -> (RunView, Ledger, Action) {
    let j = first_due(run, ledger, i);
    if 0 <= j < run.names.len() {
        (
            RunView { phase: Phase::SavingStarted(j as usize), ..run },
            with_status(ledger, run.names[j], run.version, BuildStatus::Started),
            Action::Persist,
        )
    } else {
        (RunView { phase: Phase::Closing, ..run }, ledger, Action::Persist)
    }
}

/// Ends the run.
pub open spec fn finish(run: RunView, ledger: Ledger, verdict: Verdict) -> (
    RunView,
    Ledger,
    Action,
) {
    (RunView { phase: Phase::Done(verdict), ..run }, ledger, Action::Finish(verdict))
}

/// The first step of a run over the targets recorded as `names`. A request to
/// publish a release that the ledger holds as published ends the run at once and
/// leaves the ledger as it is; otherwise the builds of the release that are recorded
/// under none of the names are dropped, and the ledger is to be stored.
pub open spec fn begun(
    names: Seq<Seq<char>>,
    version: Seq<char>,
    force_compile: bool,
    publish: bool,
    ledger: Ledger,
) -> (RunView, Ledger, Action) {
    let run = RunView { phase: Phase::SavingPruned, names, version, force_compile, publish };
    if publish && published_in(ledger, version) {
        finish(run, ledger, Verdict::RePublish)
    } else {
        (run, pruned(ledger, version, Set::new(|k: Seq<char>| names.contains(k))), Action::Persist)
    }
}

/// One step of a run: the run and the ledger after `event`, and what is asked of the
/// caller next. An event that does not answer what the run waits on changes nothing,
/// and the same is asked again.
pub open spec fn next(run: RunView, ledger: Ledger, event: Event) -> (RunView, Ledger, Action) {
    match (run.phase, event) {
        (Phase::SavingPruned, Event::Persisted) => turn_to(run, ledger, 0),
        (Phase::SavingStarted(i), Event::Persisted) => (
            RunView { phase: Phase::Building(i), ..run },
            ledger,
            Action::Build(i),
        ),
        (Phase::Building(i), Event::Built(success)) => (
            RunView { phase: Phase::SavingOutcome(i, success), ..run },
            with_status(
                ledger,
                run.names[i as int],
                run.version,
                if success {
                    BuildStatus::Success
                } else {
                    BuildStatus::Failed
                },
            ),
            Action::Persist,
        ),
        (Phase::SavingOutcome(i, success), Event::Persisted) => {
            if success {
                (RunView { phase: Phase::Packaging(i), ..run }, ledger, Action::Package(i))
            } else {
                turn_to(run, ledger, i + 1)
            }
        },
        (Phase::Packaging(i), Event::Packaged) => turn_to(run, ledger, i + 1),
        (Phase::Closing, Event::Persisted) => {
            if !all_clear_in(ledger, run.version) {
                finish(run, ledger, Verdict::FailedBuilds)
            } else if run.publish {
                (RunView { phase: Phase::Publishing, ..run }, ledger, Action::Publish)
            } else {
                finish(run, ledger, Verdict::Succeeded)
            }
        },
        (Phase::Publishing, Event::PublishEnded(success)) => (
            RunView { phase: Phase::SavingPublished, ..run },
            if success {
                with_published(ledger, run.version)
            } else {
                ledger
            },
            Action::Persist,
        ),
        (Phase::SavingPublished, Event::Persisted) => finish(run, ledger, Verdict::Succeeded),
        _ => (run, ledger, pending(run.phase)),
    }
}

/// The position that a phase holds, if it holds one.
pub open spec fn position(phase: Phase) -> Option<usize> {
    match phase {
        Phase::SavingStarted(i) => Some(i),
        Phase::Building(i) => Some(i),
        Phase::SavingOutcome(i, _) => Some(i),
        Phase::Packaging(i) => Some(i),
        _ => None,
    }
}

/// Where no build from `i` on is to run, none is found.
pub proof fn lemma_none_due(run: RunView, ledger: Ledger, i: int)
    requires
        0 <= i,
        forall|j: int| i <= j < run.names.len() ==> !due(run, ledger, j),
    ensures
        first_due(run, ledger, i) == run.names.len(),
    decreases run.names.len() - i,
{
    if i < run.names.len() {
        lemma_none_due(run, ledger, i + 1);
    }
}

/// The position that is found holds a build that is to run, and none before it does.
pub proof fn lemma_first_due(run: RunView, ledger: Ledger, i: int)
    requires
        0 <= i <= run.names.len(),
    ensures
        i <= first_due(run, ledger, i) <= run.names.len(),
        first_due(run, ledger, i) < run.names.len() ==> due(
            run,
            ledger,
            first_due(run, ledger, i),
        ),
        forall|j: int| i <= j < first_due(run, ledger, i) ==> !due(run, ledger, j),
    decreases run.names.len() - i,
{
    if i < run.names.len() && !due(run, ledger, i) {
        lemma_first_due(run, ledger, i + 1);
    }
}

/// A request to publish a release that is already published ends the run at once,
/// and the ledger stays as it was.
pub proof fn lemma_republish_rejected(
    names: Seq<Seq<char>>,
    version: Seq<char>,
    force_compile: bool,
    ledger: Ledger,
)
    requires
        published_in(ledger, version),
    ensures
        begun(names, version, force_compile, true, ledger).0.phase == Phase::Done(
            Verdict::RePublish,
        ),
        begun(names, version, force_compile, true, ledger).1 == ledger,
        begun(names, version, force_compile, true, ledger).2 == Action::Finish(
            Verdict::RePublish,
        ),
{
}

/// A run without force over targets that the ledger all records as succeeded asks for
/// no build: after the pruned ledger is stored it closes, and the state of every
/// target is as it was.
pub proof fn lemma_all_skipped(
    names: Seq<Seq<char>>,
    version: Seq<char>,
    publish: bool,
    ledger: Ledger,
)
    requires
        !(publish && published_in(ledger, version)),
        forall|i: int| 0 <= i < names.len() ==> !needs_compile_in(ledger, #[trigger] names[i], version),
    ensures
        ({
            let (run, kept, first) = begun(names, version, false, publish, ledger);
            let (closing, after, second) = next(run, kept, Event::Persisted);
            &&& first == Action::Persist
            &&& second == Action::Persist
            &&& closing.phase == Phase::Closing
            &&& after == kept
            &&& forall|i: int|
                0 <= i < names.len() ==> record_of(after, version).build_names[#[trigger] names[i]]
                    == record_of(ledger, version).build_names[names[i]]
            &&& forall|i: int|
                0 <= i < names.len() ==> !needs_compile_in(after, #[trigger] names[i], version)
        }),
{
    let (run, kept, first) = begun(names, version, false, publish, ledger);
    assert forall|i: int| 0 <= i < names.len() implies !needs_compile_in(
        kept,
        #[trigger] names[i],
        version,
    ) && record_of(kept, version).build_names[names[i]] == record_of(
        ledger,
        version,
    ).build_names[names[i]] by {
        assert(names.contains(names[i]));
    }
    lemma_none_due(run, kept, 0);
}

/// A build that failed does not end the run: the run turns to the targets after it.
pub proof fn lemma_failure_goes_on(run: RunView, ledger: Ledger, i: usize)
    requires
        run.phase == Phase::SavingOutcome(i, false),
    ensures
        next(run, ledger, Event::Persisted) == turn_to(run, ledger, i + 1),
{
}

/// A run that closes over a ledger with a build short of success fails.
pub proof fn lemma_failed_builds(run: RunView, ledger: Ledger)
    requires
        run.phase == Phase::Closing,
        !all_clear_in(ledger, run.version),
    ensures
        next(run, ledger, Event::Persisted).2 == Action::Finish(Verdict::FailedBuilds),
        next(run, ledger, Event::Persisted).1 == ledger,
{
}

/// The ledger agrees with the phase of the run: the target that a phase holds is
/// recorded as started until its build has ended, and with the outcome of its build
/// from then on; and once the run has turned to publishing, every recorded build of
/// the release is a success.
pub open spec fn agrees(run: RunView, ledger: Ledger) -> bool {
    match run.phase {
        Phase::SavingStarted(i) | Phase::Building(i) => i < run.names.len() && status_in(
            ledger,
            run.names[i as int],
            run.version,
        ) == Some(BuildStatus::Started),
        Phase::SavingOutcome(i, success) => i < run.names.len() && status_in(
            ledger,
            run.names[i as int],
            run.version,
        ) == Some(
            if success {
                BuildStatus::Success
            } else {
                BuildStatus::Failed
            },
        ),
        Phase::Packaging(i) => i < run.names.len() && status_in(
            ledger,
            run.names[i as int],
            run.version,
        ) == Some(BuildStatus::Success),
        Phase::Publishing | Phase::SavingPublished | Phase::Done(Verdict::Succeeded) => all_clear_in(
            ledger,
            run.version,
        ),
        _ => true,
    }
}

/// The ledger agrees with a run that has just begun.
pub proof fn lemma_begun_agrees(
    names: Seq<Seq<char>>,
    version: Seq<char>,
    force_compile: bool,
    publish: bool,
    ledger: Ledger,
)
    ensures
        agrees(
            begun(names, version, force_compile, publish, ledger).0,
            begun(names, version, force_compile, publish, ledger).1,
        ),
{
}

/// A ledger that agrees with a run goes on agreeing with it step after step:
/// whenever the run is cut short, the ledger holds what the last step left. A step
/// changes nothing of a run but its phase.
pub proof fn lemma_next_agrees(run: RunView, ledger: Ledger, event: Event)
    requires
        run.names.len() <= usize::MAX,
        agrees(run, ledger),
    ensures
        agrees(next(run, ledger, event).0, next(run, ledger, event).1),
        next(run, ledger, event).0 == (RunView {
            phase: next(run, ledger, event).0.phase,
            ..run
        }),
{
    lemma_first_due(run, ledger, 0);
    match run.phase {
        Phase::SavingOutcome(i, _) => {
            lemma_first_due(run, ledger, i + 1);
        },
        Phase::Packaging(i) => {
            lemma_first_due(run, ledger, i + 1);
        },
        _ => {},
    }
}

/// A run succeeds only over a ledger in which every recorded build of the release is
/// a success: a failure that is recorded is never passed over.
pub proof fn lemma_success_is_clear(run: RunView, ledger: Ledger, event: Event)
    requires
        agrees(run, ledger),
        next(run, ledger, event).2 == Action::Finish(Verdict::Succeeded),
    ensures
        all_clear_in(next(run, ledger, event).1, run.version),
{
}

/// In a run without force a build that the ledger records as a success stays a
/// success through every step.
pub proof fn lemma_success_is_kept(run: RunView, ledger: Ledger, event: Event, name: Seq<char>)
    requires
        run.names.len() <= usize::MAX,
        agrees(run, ledger),
        !run.force_compile,
        status_in(ledger, name, run.version) == Some(BuildStatus::Success),
    ensures
        status_in(next(run, ledger, event).1, name, run.version) == Some(BuildStatus::Success),
{
    lemma_first_due(run, ledger, 0);
    match run.phase {
        Phase::SavingOutcome(i, _) => {
            lemma_first_due(run, ledger, i + 1);
        },
        Phase::Packaging(i) => {
            lemma_first_due(run, ledger, i + 1);
        },
        _ => {},
    }
}

/// Targets without two of one name are recorded under names without repeats.
pub proof fn lemma_names_distinct(targets: Seq<TargetView>)
    requires
        distinct_names(targets),
    ensures
        output_names(targets).no_duplicates(),
{
    let names = output_names(targets);
    assert forall|i: int, j: int| 0 <= i < names.len() && 0 <= j < names.len() && i != j implies names[i]
        != names[j] by {
        assert(names[i] == name_of(targets[i]) && names[j] == name_of(targets[j]));
    }
}

/// Recording the outcome of one build leaves what the ledger holds of every other
/// target of the run as it was.
pub proof fn lemma_outcome_touches_one(
    run: RunView,
    ledger: Ledger,
    i: usize,
    success: bool,
    other: int,
)
    requires
        run.names.no_duplicates(),
        run.phase == Phase::Building(i),
        i < run.names.len(),
        0 <= other < run.names.len(),
        other != i,
    ensures
        status_in(next(run, ledger, Event::Built(success)).1, run.names[other], run.version)
            == status_in(ledger, run.names[other], run.version),
        status_in(next(run, ledger, Event::Built(success)).1, run.names[i as int], run.version)
            == Some(
            if success {
                BuildStatus::Success
            } else {
                BuildStatus::Failed
            },
        ),
{
}

/// The positions before `upto` whose build is not to run, in order.
pub open spec fn not_due(run: RunView, ledger: Ledger, upto: int) -> Seq<usize>
    decreases upto,
{
    if upto <= 0 {
        Seq::empty()
    } else if due(run, ledger, upto - 1) {
        not_due(run, ledger, upto - 1)
    } else {
        not_due(run, ledger, upto - 1).push((upto - 1) as usize)
    }
}

impl Verdict {
    /// The verdict as the result of the run.
    pub fn into_result(self) -> (r: Result<(), Error>)
        ensures
            match self {
                Verdict::Succeeded => r.is_ok(),
                Verdict::RePublish => r == Err::<(), Error>(Error::RePublish),
                Verdict::FailedBuilds => r == Err::<(), Error>(Error::FailedBuilds),
            },
    {
        match self {
            Verdict::Succeeded => Ok(()),
            Verdict::RePublish => Err(Error::RePublish),
            Verdict::FailedBuilds => Err(Error::FailedBuilds),
        }
    }
}

/// One run over a list of targets for one release version.
pub struct Run {
    phase: Phase,
    targets: Vec<Target>,
    names: Vec<String>,
    version: String,
    force_compile: bool,
    publish: bool,
}

impl Run {
    pub closed spec fn view(&self) -> RunView {
        RunView {
            phase: self.phase,
            names: output_names(views(self.targets@)),
            version: self.version@,
            force_compile: self.force_compile,
            publish: self.publish,
        }
    }

    /// The targets of the run.
    pub closed spec fn spec_targets(&self) -> Seq<TargetView> {
        views(self.targets@)
    }

    /// A phase that holds a position holds that of one of the targets.
    pub closed spec fn wf(&self) -> bool {
        &&& all_wf(self.targets@)
        &&& distinct_names(views(self.targets@))
        &&& self.names@.len() == self.targets@.len()
        &&& forall|i: int|
            0 <= i < self.names@.len() ==> (#[trigger] self.names@[i])@ == output_names(
                views(self.targets@),
            )[i]
        &&& match position(self.phase) {
            Some(i) => i < self.targets@.len(),
            None => true,
        }
    }

    /// Begins a run over `targets` for the release `version`, and takes its first
    /// step on `ledger`. Of the targets with one output name the run keeps the first,
    /// so that no build is recorded or packed under the name of another.
    pub fn begin(
        targets: Vec<Target>,
        version: &str,
        force_compile: bool,
        publish: bool,
        ledger: &mut StatusWrapper,
    ) -> (r: (Self, Action))
        requires
            all_wf(targets@),
            old(ledger).wf(),
        ensures
            r.0.wf(),
            r.0.spec_targets() == first_of_each(views(targets@)),
            r.0@.names.no_duplicates(),
            final(ledger).wf(),
            final(ledger).spec_filepath() == old(ledger).spec_filepath(),
            (r.0@, final(ledger)@, r.1) == begun(
                output_names(first_of_each(views(targets@))),
                version@,
                force_compile,
                publish,
                old(ledger)@,
            ),
    {
        let mut targets = targets;
        let _ = keep_first(&mut targets);
        proof {
            lemma_names_distinct(views(targets@));
        }
        let mut names: Vec<String> = Vec::new();
        let mut i: usize = 0;
        while i < targets.len()
            invariant
                i <= targets@.len(),
                names@.len() == i,
                forall|j: int|
                    0 <= j < i ==> (#[trigger] names@[j])@ == output_names(views(targets@))[j],
            decreases targets.len() - i,
        {
            names.push(targets[i].output_str());
            i += 1;
        }
        let mut run = Run {
            phase: Phase::SavingPruned,
            targets,
            names,
            version: version.to_owned(),
            force_compile,
            publish,
        };
        if publish && ledger.is_published(version) {
            run.phase = Phase::Done(Verdict::RePublish);
            (run, Action::Finish(Verdict::RePublish))
        } else {
            proof {
                let names = run@.names;
                assert forall|k: Seq<char>| string_set(run.names@).contains(k) == names.contains(
                    k,
                ) by {
                    if string_set(run.names@).contains(k) {
                        let i = choose|i: int|
                            0 <= i < run.names@.len() && #[trigger] run.names@[i]@ == k;
                        assert(names[i] == k);
                    }
                    if names.contains(k) {
                        let i = names.index_of(k);
                        assert(run.names@[i]@ == k);
                    }
                }
                assert(string_set(run.names@) =~= Set::new(|k: Seq<char>| names.contains(k)));
            }
            ledger.clear_missing_targets(version, run.names.as_slice());
            (run, Action::Persist)
        }
    }

    pub fn phase(&self) -> (r: Phase)
        ensures
            r == self@.phase,
    {
        self.phase
    }

    pub fn targets(&self) -> (r: &[Target])
        ensures
            views(r@) == self.spec_targets(),
            self.wf() ==> all_wf(r@),
            output_names(views(r@)) == self@.names,
    {
        self.targets.as_slice()
    }

    pub fn version(&self) -> (r: &str)
        ensures
            r@ == self@.version,
    {
        self.version.as_str()
    }

    /// The positions of the targets that the run passes over because the ledger
    /// records their success and force is not asked for.
    pub fn skipped(&self, ledger: &StatusWrapper) -> (r: Vec<usize>)
        requires
            self.wf(),
            ledger.wf(),
        ensures
            r@ == not_due(self@, ledger@, self@.names.len() as int),
    {
        let mut out: Vec<usize> = Vec::new();
        let mut i: usize = 0;
        while i < self.names.len()
            invariant
                i <= self.names@.len() == self@.names.len(),
                self.wf(),
                ledger.wf(),
                out@ == not_due(self@, ledger@, i as int),
            decreases self.names.len() - i,
        {
            if !self.force_compile && !ledger.needs_compile(
                self.names[i].as_str(),
                self.version.as_str(),
            ) {
                out.push(i);
            }
            i += 1;
        }
        out
    }

    /// Turns to the first build from `from` on that is to run.
    fn select(&mut self, ledger: &mut StatusWrapper, from: usize) -> (action: Action)
        requires
            old(self).wf(),
            old(ledger).wf(),
            from <= old(self)@.names.len(),
        ensures
            final(self).wf(),
            final(ledger).wf(),
            final(ledger).spec_filepath() == old(ledger).spec_filepath(),
            final(self).spec_targets() == old(self).spec_targets(),
            (final(self)@, final(ledger)@, action) == turn_to(old(self)@, old(ledger)@, from as int),
    {
        let mut i: usize = from;
        while i < self.names.len()
            invariant
                from <= i <= self.names@.len(),
                *self == *old(self),
                *ledger == *old(ledger),
                self.wf(),
                ledger.wf(),
                first_due(self@, ledger@, from as int) == first_due(self@, ledger@, i as int),
            decreases self.names.len() - i,
        {
            if self.force_compile || ledger.needs_compile(self.names[i].as_str(), self.version.as_str()) {
                ledger.start(self.names[i].as_str(), self.version.as_str());
                self.phase = Phase::SavingStarted(i);
                return Action::Persist;
            }
            i += 1;
        }
        self.phase = Phase::Closing;
        Action::Persist
    }

    /// Takes one step: brings the run and the ledger to where they stand after
    /// `event`, and says what is to be done next.
    pub fn step(&mut self, ledger: &mut StatusWrapper, event: Event) -> (action: Action)
        requires
            old(self).wf(),
            old(ledger).wf(),
        ensures
            final(self).wf(),
            final(ledger).wf(),
            final(ledger).spec_filepath() == old(ledger).spec_filepath(),
            final(self).spec_targets() == old(self).spec_targets(),
            (final(self)@, final(ledger)@, action) == next(old(self)@, old(ledger)@, event),
    {
        let total = self.names.len();
        assert(position(self.phase) matches Some(i) ==> i < total);
        match (self.phase, event) {
            (Phase::SavingPruned, Event::Persisted) => self.select(ledger, 0),
            (Phase::SavingStarted(i), Event::Persisted) => {
                self.phase = Phase::Building(i);
                Action::Build(i)
            },
            (Phase::Building(i), Event::Built(success)) => {
                if success {
                    ledger.succeed(self.names[i].as_str(), self.version.as_str());
                } else {
                    ledger.fail(self.names[i].as_str(), self.version.as_str());
                }
                self.phase = Phase::SavingOutcome(i, success);
                Action::Persist
            },
            (Phase::SavingOutcome(i, success), Event::Persisted) => {
                if success {
                    self.phase = Phase::Packaging(i);
                    Action::Package(i)
                } else {
                    self.select(ledger, i + 1)
                }
            },
            (Phase::Packaging(i), Event::Packaged) => self.select(ledger, i + 1),
            (Phase::Closing, Event::Persisted) => {
                if !ledger.all_clear(self.version.as_str()) {
                    self.phase = Phase::Done(Verdict::FailedBuilds);
                    Action::Finish(Verdict::FailedBuilds)
                } else if self.publish {
                    self.phase = Phase::Publishing;
                    Action::Publish
                } else {
                    self.phase = Phase::Done(Verdict::Succeeded);
                    Action::Finish(Verdict::Succeeded)
                }
            },
            (Phase::Publishing, Event::PublishEnded(success)) => {
                if success {
                    ledger.publish(self.version.as_str());
                }
                self.phase = Phase::SavingPublished;
                Action::Persist
            },
            (Phase::SavingPublished, Event::Persisted) => {
                self.phase = Phase::Done(Verdict::Succeeded);
                Action::Finish(Verdict::Succeeded)
            },
            _ => match self.phase {
                Phase::SavingPruned => Action::Persist,
                Phase::SavingStarted(_) => Action::Persist,
                Phase::Building(i) => Action::Build(i),
                Phase::SavingOutcome(_, _) => Action::Persist,
                Phase::Packaging(i) => Action::Package(i),
                Phase::Closing => Action::Persist,
                Phase::Publishing => Action::Publish,
                Phase::SavingPublished => Action::Persist,
                Phase::Done(verdict) => Action::Finish(verdict),
            },
        }
    }
}

} // verus!
