//! The ledger of build outcomes: which builds of which release succeeded, and which
//! releases were published.
use vstd::prelude::*;
use crate::error::Error;
use crate::table::{string_set, Table};

verus! {

/// How far the build of one target has come.
#[derive(Clone, Copy, Debug, PartialEq, Eq, Structural)]
pub enum BuildStatus {
    Waiting,
    Started,
    Success,
    Failed,
}

/// What the ledger holds for one release, as plain values.
pub ghost struct VersionView {
    pub published: bool,
    pub build_names: Map<Seq<char>, BuildStatus>,
}

/// The ledger as plain values: one record per release version.
pub type Ledger = Map<Seq<char>, VersionView>;

/// The record of a release of which nothing is known yet.
pub open spec fn fresh() -> VersionView {
    VersionView { published: false, build_names: Map::empty() }
}

/// The record of `version`; a release that the ledger lacks has a fresh one.
pub open spec fn record_of(ledger: Ledger, version: Seq<char>) -> VersionView {
    if ledger.contains_key(version) {
        ledger[version]
    } else {
        fresh()
    }
}

/// The state that the ledger holds for a build, if it holds one.
pub open spec fn status_in(ledger: Ledger, build_name: Seq<char>, version: Seq<char>) -> Option<
    BuildStatus,
> {
    let builds = record_of(ledger, version).build_names;
    if builds.contains_key(build_name) {
        Some(builds[build_name])
    } else {
        None
    }
}

/// A build is due unless the ledger records its success.
pub open spec fn needs_compile_in(ledger: Ledger, build_name: Seq<char>, version: Seq<char>) -> bool {
    let builds = record_of(ledger, version).build_names;
    !(builds.contains_key(build_name) && builds[build_name] == BuildStatus::Success)
}

/// The ledger after the build `build_name` of `version` took the state `status`.
pub open spec fn with_status(
    ledger: Ledger,
    build_name: Seq<char>,
    version: Seq<char>,
    status: BuildStatus,
) -> Ledger {
    let record = record_of(ledger, version);
    ledger.insert(
        version,
        VersionView { build_names: record.build_names.insert(build_name, status), ..record },
    )
}

/// The ledger with the builds of `version` cut down to those named in `keep`.
pub open spec fn pruned(ledger: Ledger, version: Seq<char>, keep: Set<Seq<char>>) -> Ledger {
    if ledger.contains_key(version) {
        let record = ledger[version];
        ledger.insert(
            version,
            VersionView { build_names: record.build_names.restrict(keep), ..record },
        )
    } else {
        ledger
    }
}

/// Every recorded build of `version` succeeded; true where none is recorded.
pub open spec fn all_clear_in(ledger: Ledger, version: Seq<char>) -> bool {
    let builds = record_of(ledger, version).build_names;
    forall|name: Seq<char>| builds.contains_key(name) ==> #[trigger] builds[name] == BuildStatus::Success
}

/// Whether `version` is recorded as published.
pub open spec fn published_in(ledger: Ledger, version: Seq<char>) -> bool {
    record_of(ledger, version).published
}

/// The ledger after `version` was published.
pub open spec fn with_published(ledger: Ledger, version: Seq<char>) -> Ledger {
    ledger.insert(version, VersionView { published: true, ..record_of(ledger, version) })
}

/// The ledger with every recorded build of `version` waiting again.
pub open spec fn with_all_waiting(ledger: Ledger, version: Seq<char>) -> Ledger {
    let record = record_of(ledger, version);
    ledger.insert(
        version,
        VersionView {
            build_names: Map::new(
                |name: Seq<char>| record.build_names.contains_key(name),
                |name: Seq<char>| BuildStatus::Waiting,
            ),
            ..record
        },
    )
}

/// A state that was recorded is the state that the ledger holds for that build, and
/// every other build of every release is as it was.
pub proof fn lemma_status_recorded(
    ledger: Ledger,
    build_name: Seq<char>,
    version: Seq<char>,
    status: BuildStatus,
)
    ensures
        record_of(with_status(ledger, build_name, version, status), version).build_names
            == record_of(ledger, version).build_names.insert(build_name, status),
        published_in(with_status(ledger, build_name, version, status), version) == published_in(
            ledger,
            version,
        ),
        forall|other: Seq<char>|
            other != version ==> record_of(
                with_status(ledger, build_name, version, status),
                other,
            ) == #[trigger] record_of(ledger, other),
{
}

/// Once a build is recorded as a success it is not due again, whatever is recorded
/// of other builds, as long as pruning keeps its name.
pub proof fn lemma_success_sticks(
    ledger: Ledger,
    build_name: Seq<char>,
    version: Seq<char>,
    other: Seq<char>,
    status: BuildStatus,
    keep: Set<Seq<char>>,
)
    ensures
        !needs_compile_in(
            with_status(ledger, build_name, version, BuildStatus::Success),
            build_name,
            version,
        ),
        !needs_compile_in(ledger, build_name, version) && other != build_name
            ==> !needs_compile_in(
            with_status(ledger, other, version, status),
            build_name,
            version,
        ),
        !needs_compile_in(ledger, build_name, version) && keep.contains(build_name)
            ==> !needs_compile_in(pruned(ledger, version, keep), build_name, version),
        !needs_compile_in(ledger, build_name, version) ==> !needs_compile_in(
            with_published(ledger, version),
            build_name,
            version,
        ),
{
}

/// Pruning drops exactly the builds that are not kept: a kept build stays as it was,
/// any other is due again, and no other release changes.
pub proof fn lemma_pruned(ledger: Ledger, version: Seq<char>, keep: Set<Seq<char>>, name: Seq<char>)
    ensures
        keep.contains(name) ==> record_of(pruned(ledger, version, keep), version).build_names.contains_key(name)
            == record_of(ledger, version).build_names.contains_key(name),
        keep.contains(name) && record_of(ledger, version).build_names.contains_key(name)
            ==> record_of(pruned(ledger, version, keep), version).build_names[name] == record_of(
            ledger,
            version,
        ).build_names[name],
        !keep.contains(name) ==> !record_of(
            pruned(ledger, version, keep),
            version,
        ).build_names.contains_key(name),
        !keep.contains(name) ==> needs_compile_in(pruned(ledger, version, keep), name, version),
        published_in(pruned(ledger, version, keep), version) == published_in(ledger, version),
        forall|other: Seq<char>|
            other != version ==> record_of(pruned(ledger, version, keep), other)
                == #[trigger] record_of(ledger, other),
{
}

/// Publishing twice is publishing once.
pub proof fn lemma_publish_idempotent(ledger: Ledger, version: Seq<char>)
    ensures
        published_in(with_published(ledger, version), version),
        with_published(with_published(ledger, version), version) == with_published(
            ledger,
            version,
        ),
{
    assert(with_published(with_published(ledger, version), version) =~= with_published(
        ledger,
        version,
    ));
}

/// What is recorded of one release.
pub struct VersionStatus {
    published: bool,
    build_names: Table<BuildStatus>,
}

impl VersionStatus {
    pub closed spec fn view(&self) -> VersionView {
        VersionView { published: self.published, build_names: self.build_names@ }
    }

    /// No build is recorded twice.
    pub closed spec fn wf(&self) -> bool {
        self.build_names.wf()
    }

    /// A record with the given flag and builds.
    pub fn new(published: bool, build_names: Table<BuildStatus>) -> (r: Self)
        requires
            build_names.wf(),
        ensures
            r.wf(),
            r@ == (VersionView { published, build_names: build_names@ }),
    {
        VersionStatus { published, build_names }
    }

    pub fn is_published(&self) -> (r: bool)
        ensures
            r == self@.published,
    {
        self.published
    }

    pub fn build_names(&self) -> (r: &Table<BuildStatus>)
        ensures
            r@ == self@.build_names,
            self.wf() ==> r.wf(),
    {
        &self.build_names
    }
}

impl Default for VersionStatus {
    fn default() -> (r: Self)
        ensures
            r.wf(),
            r@ == fresh(),
    {
        VersionStatus { published: false, build_names: Table::new() }
    }
}

/// The records of all releases, by version.
pub type Status = Table<VersionStatus>;

/// The plain values of a table of records.
pub open spec fn ledger_of(status: Map<Seq<char>, VersionStatus>) -> Ledger {
    Map::new(|k: Seq<char>| status.contains_key(k), |k: Seq<char>| status[k]@)
}

/// No version occurs twice, and no build twice under one version.
pub open spec fn status_wf(status: Status) -> bool {
    &&& status.wf()
    &&& forall|i: int| 0 <= i < status.values().len() ==> (#[trigger] status.values()[i]).wf()
}

/// The ledger together with the path of the file that stores it.
pub struct StatusWrapper {
    filepath: String,
    status: Status,
}

impl StatusWrapper {
    pub closed spec fn view(&self) -> Ledger {
        ledger_of(self.status@)
    }

    pub closed spec fn wf(&self) -> bool {
        status_wf(self.status)
    }

    pub closed spec fn spec_filepath(&self) -> Seq<char> {
        self.filepath@
    }

    /// An empty ledger that is stored at `filepath`.
    pub fn new(filepath: &str) -> (r: Self)
        ensures
            r.wf(),
            r@ == Map::<Seq<char>, VersionView>::empty(),
            r.spec_filepath() == filepath@,
    {
        let r = StatusWrapper { status: Table::new(), filepath: filepath.to_owned() };
        assert(r@ =~= Map::<Seq<char>, VersionView>::empty());
        r
    }

    pub fn filepath(&self) -> (r: &str)
        ensures
            r@ == self.spec_filepath(),
    {
        self.filepath.as_str()
    }

    pub fn status(&self) -> (r: &Status)
        ensures
            ledger_of(r@) == self@,
            self.wf() ==> status_wf(*r),
    {
        &self.status
    }

    /// Takes over what was read from the file. Where reading failed the ledger stays
    /// as it was and the failure is handed back.
    pub fn read(&mut self, loaded: Result<Status, Error>) -> (r: Result<(), Error>)
        requires
            old(self).wf(),
            loaded matches Ok(status) ==> status_wf(status),
        ensures
            final(self).wf(),
            final(self).spec_filepath() == old(self).spec_filepath(),
            match loaded {
                Ok(status) => r.is_ok() && final(self)@ == ledger_of(status@),
                Err(e) => r == Err::<(), Error>(e) && final(self)@ == old(self)@,
            },
    {
        match loaded {
            Ok(status) => {
                self.status = status;
                Ok(())
            },
            Err(e) => Err(e),
        }
    }

    /// Replacing one record by a well-formed one replaces it in the ledger.
    proof fn lemma_record_replaced(&self, before: &Self, i: int)
        requires
            before.wf(),
            0 <= i < before.status.keys().len(),
            self.status.keys() == before.status.keys(),
            self.status.values() == before.status.values().update(i, self.status.values()[i]),
            self.status.values()[i].wf(),
        ensures
            self.wf(),
            before@.contains_key(before.status.keys()[i]),
            before@[before.status.keys()[i]] == before.status.values()[i]@,
            self@ == before@.insert(before.status.keys()[i], self.status.values()[i]@),
    {
        self.status.lemma_update(&before.status, i, self.status.values()[i]);
        before.status.lemma_view();
        assert(self@ =~= before@.insert(before.status.keys()[i], self.status.values()[i]@));
    }

    /// The position of the record of `version`, which is added fresh where it is missing.
    fn slot(&mut self, version: &str) -> (i: usize)
        requires
            old(self).wf(),
        ensures
            final(self).wf(),
            final(self).filepath == old(self).filepath,
            i < final(self).status.keys().len(),
            final(self).status.keys()[i as int] == version@,
            final(self).status.values()[i as int]@ == record_of(old(self)@, version@),
            final(self)@ == old(self)@.insert(version@, record_of(old(self)@, version@)),
    {
        proof {
            self.status.lemma_view();
        }
        match self.status.position(version) {
            Some(i) => {
                assert(self@ =~= old(self)@.insert(version@, record_of(old(self)@, version@)));
                i
            },
            None => {
                let last = self.status.len();
                self.status.insert(version.to_owned(), VersionStatus::default());
                proof {
                    self.status.lemma_view();
                    assert(self@ =~= old(self)@.insert(version@, fresh()));
                }
                last
            },
        }
    }

    /// Marks `version` as published where the ledger holds a record of it.
    pub fn published(&mut self, version: &str)
        requires
            old(self).wf(),
        ensures
            final(self).wf(),
            final(self).spec_filepath() == old(self).spec_filepath(),
            final(self)@ == if old(self)@.contains_key(version@) {
                with_published(old(self)@, version@)
            } else {
                old(self)@
            },
    {
        if let Some(i) = self.status.position(version) {
            let ghost before = *self;
            let record = self.status.value_at_mut(i);
            record.published = true;
            proof {
                self.lemma_record_replaced(&before, i as int);
            }
        }
    }

    /// Drops the builds recorded for `version` that `target_strings` does not name.
    pub fn clear_missing_targets(&mut self, version: &str, target_strings: &[String])
        requires
            old(self).wf(),
        ensures
            final(self).wf(),
            final(self).spec_filepath() == old(self).spec_filepath(),
            final(self)@ == pruned(old(self)@, version@, string_set(target_strings@)),
    {
        if let Some(i) = self.status.position(version) {
            let ghost before = *self;
            let record = self.status.value_at_mut(i);
            record.build_names.retain_keys(target_strings);
            proof {
                self.lemma_record_replaced(&before, i as int);
            }
        }
    }

    /// Whether the build `build_name` of `version` has yet to succeed.
    pub fn needs_compile(&self, build_name: &str, version: &str) -> (r: bool)
        requires
            self.wf(),
        ensures
            r == needs_compile_in(self@, build_name@, version@),
    {
        let record = match self.status.get(version) {
            Some(record) => record,
            None => {
                return true;
            },
        };
        proof {
            self.status.lemma_view();
        }
        match record.build_names.get(build_name) {
            Some(status) => match status {
                BuildStatus::Success => false,
                _ => true,
            },
            None => true,
        }
    }

    fn set_status(&mut self, build_name: &str, version: &str, status: BuildStatus)
        requires
            old(self).wf(),
        ensures
            final(self).wf(),
            final(self).spec_filepath() == old(self).spec_filepath(),
            final(self)@ == with_status(old(self)@, build_name@, version@, status),
    {
        let i = self.slot(version);
        let ghost before = *self;
        let record = self.status.value_at_mut(i);
        record.build_names.insert(build_name.to_owned(), status);
        proof {
            self.lemma_record_replaced(&before, i as int);
            assert(self@ =~= with_status(old(self)@, build_name@, version@, status));
        }
    }

    /// Records that the build has begun.
    pub fn start(&mut self, build_name: &str, version: &str)
        requires
            old(self).wf(),
        ensures
            final(self).wf(),
            final(self).spec_filepath() == old(self).spec_filepath(),
            final(self)@ == with_status(old(self)@, build_name@, version@, BuildStatus::Started),
    {
        self.set_status(build_name, version, BuildStatus::Started);
    }

    /// Records that the build succeeded.
    pub fn succeed(&mut self, build_name: &str, version: &str)
        requires
            old(self).wf(),
        ensures
            final(self).wf(),
            final(self).spec_filepath() == old(self).spec_filepath(),
            final(self)@ == with_status(old(self)@, build_name@, version@, BuildStatus::Success),
    {
        self.set_status(build_name, version, BuildStatus::Success);
    }

    /// Records that the build failed.
    pub fn fail(&mut self, build_name: &str, version: &str)
        requires
            old(self).wf(),
        ensures
            final(self).wf(),
            final(self).spec_filepath() == old(self).spec_filepath(),
            final(self)@ == with_status(old(self)@, build_name@, version@, BuildStatus::Failed),
    {
        self.set_status(build_name, version, BuildStatus::Failed);
    }

    /// Sets every recorded build of `version` back to waiting.
    pub fn reset_all(&mut self, version: &str)
        requires
            old(self).wf(),
        ensures
            final(self).wf(),
            final(self).spec_filepath() == old(self).spec_filepath(),
            final(self)@ == with_all_waiting(old(self)@, version@),
    {
        let i = self.slot(version);
        let ghost before = *self;
        let record = self.status.value_at_mut(i);
        record.build_names.set_all(BuildStatus::Waiting);
        proof {
            self.lemma_record_replaced(&before, i as int);
            assert(self@ =~= with_all_waiting(old(self)@, version@));
        }
    }

    /// Whether no recorded build of `version` is short of success.
    pub fn all_clear(&self, version: &str) -> (r: bool)
        requires
            self.wf(),
        ensures
            r == all_clear_in(self@, version@),
    {
        proof {
            self.status.lemma_view();
        }
        if let Some(record) = self.status.get(version) {
            let builds = &record.build_names;
            proof {
                builds.lemma_view();
            }
            let n = builds.len();
            let mut i: usize = 0;
            while i < n
                invariant
                    i <= n == builds.values().len(),
                    builds.wf(),
                    record_of(self@, version@).build_names == builds@,
                    forall|j: int| 0 <= j < i ==> builds.values()[j] == BuildStatus::Success,
                decreases n - i,
            {
                match builds.value_at(i) {
                    BuildStatus::Success => {},
                    _ => {
                        proof {
                            builds.lemma_view();
                            let name = builds.keys()[i as int];
                            let recorded = record_of(self@, version@).build_names;
                            assert(recorded == builds@);
                            assert(recorded.contains_key(name));
                            assert(recorded[name] != BuildStatus::Success);
                        }
                        return false;
                    },
                }
                i += 1;
            }
        }
        true
    }

    /// Marks `version` as published, with a fresh record where it had none.
    pub fn publish(&mut self, version: &str)
        requires
            old(self).wf(),
        ensures
            final(self).wf(),
            final(self).spec_filepath() == old(self).spec_filepath(),
            final(self)@ == with_published(old(self)@, version@),
    {
        let i = self.slot(version);
        let ghost before = *self;
        let record = self.status.value_at_mut(i);
        record.published = true;
        proof {
            self.lemma_record_replaced(&before, i as int);
            assert(self@ =~= with_published(old(self)@, version@));
        }
    }

    pub fn is_published(&self, version: &str) -> (r: bool)
        requires
            self.wf(),
        ensures
            r == published_in(self@, version@),
    {
        match self.status.get(version) {
            Some(record) => record.published,
            None => false,
        }
    }
}

} // verus!
