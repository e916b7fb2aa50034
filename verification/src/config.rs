//! The release configuration: its schema versions, how an older document is brought
//! forward, and how a document resolves to the list of targets to build.
use vstd::prelude::*;
use crate::error::Error;
use crate::table::Table;
use crate::target::{all_wf, arch_named, distinct_names, first_of_each, keep_first};
use crate::target::{lemma_first_of_each_distinct, lemma_kept_is_first};
use crate::target::{os_named, repeated_names, supported, text_map, texts, views};
use crate::target::{Arch, Target, TargetView, OS};

pub mod v0;
pub mod v1;
pub mod v2;

pub use self::v2::Config;

verus! {

/// Whether a document was read as written or brought forward from an older schema.
#[derive(Clone, Copy, Debug, PartialEq, Eq, Structural)]
pub enum ConfigState {
    Current,
    Upgraded,
}

/// What one override record gives a target.
pub ghost struct OverrideView {
    pub build_name: Option<Seq<char>>,
    pub libs: Seq<Seq<char>>,
    pub env: Map<Seq<char>, Seq<char>>,
}

/// The overrides listed under one architecture name.
pub ghost struct ArchEntry {
    pub name: Seq<char>,
    pub overrides: Seq<OverrideView>,
}

/// The architectures listed under one operating system name.
pub ghost struct OsEntry {
    pub name: Seq<char>,
    pub archs: Seq<ArchEntry>,
}

/// A document in the shape of the current schema, in the order in which it lists
/// its entries.
pub ghost struct ConfigView {
    pub release_path: Seq<char>,
    pub included_files: Seq<Seq<char>>,
    pub config: Seq<OsEntry>,
}

/// The target of one override: none where the platform has no build.
pub open spec fn listed_one(os: OS, arch: Arch, record: OverrideView) -> Seq<TargetView> {
    if supported(os, arch) {
        seq![
            TargetView {
                os,
                arch,
                build_name: record.build_name,
                native_dirs: record.libs,
                environment: record.env,
            },
        ]
    } else {
        Seq::empty()
    }
}

/// The targets of the overrides of one architecture, in order.
pub open spec fn listed_overrides(os: OS, arch: Arch, records: Seq<OverrideView>) -> Seq<
    TargetView,
>
    decreases records.len(),
{
    if records.len() == 0 {
        Seq::empty()
    } else {
        listed_overrides(os, arch, records.drop_last()) + listed_one(os, arch, records.last())
    }
}

/// The targets of one architecture entry: none where its name is no architecture.
pub open spec fn listed_arch(os: OS, entry: ArchEntry) -> Seq<TargetView> {
    match arch_named(entry.name) {
        Some(arch) => listed_overrides(os, arch, entry.overrides),
        None => Seq::empty(),
    }
}

/// The targets of the architectures of one operating system, in order.
pub open spec fn listed_archs(os: OS, entries: Seq<ArchEntry>) -> Seq<TargetView>
    decreases entries.len(),
{
    if entries.len() == 0 {
        Seq::empty()
    } else {
        listed_archs(os, entries.drop_last()) + listed_arch(os, entries.last())
    }
}

/// The targets of one operating system entry: none where its name is no operating
/// system.
pub open spec fn listed_os(entry: OsEntry) -> Seq<TargetView> {
    match os_named(entry.name) {
        Some(os) => listed_archs(os, entry.archs),
        None => Seq::empty(),
    }
}

/// The targets that a document lists, in the order of the document, repeats
/// included. Entries that name no platform with a build contribute nothing.
pub open spec fn listed(config: Seq<OsEntry>) -> Seq<TargetView>
    decreases config.len(),
{
    if config.len() == 0 {
        Seq::empty()
    } else {
        listed(config.drop_last()) + listed_os(config.last())
    }
}

/// The targets that a document resolves to, in the order of the document: the
/// targets that it lists, without those whose output name a target before them has.
/// Of the overrides that give one output name the first one counts.
pub open spec fn resolve(config: Seq<OsEntry>) -> Seq<TargetView> {
    first_of_each(listed(config))
}

/// An entry of a document that gives no target, and why.
#[derive(Debug, PartialEq, Eq)]
pub enum Skipped {
    /// The name is no operating system.
    UnknownOs(String),
    /// The name, listed under this operating system, is no architecture.
    UnknownArch(OS, String),
    /// The override stands under a platform that has no build.
    Unsupported(OS, Arch),
    /// The override gives an output name that an override before it has.
    Repeated(String),
}

/// A passed-over entry as plain values.
pub ghost enum SkippedView {
    UnknownOs(Seq<char>),
    UnknownArch(OS, Seq<char>),
    Unsupported(OS, Arch),
    Repeated(Seq<char>),
}

impl Skipped {
    pub open spec fn view(&self) -> SkippedView {
        match self {
            Skipped::UnknownOs(name) => SkippedView::UnknownOs(name@),
            Skipped::UnknownArch(os, name) => SkippedView::UnknownArch(*os, name@),
            Skipped::Unsupported(os, arch) => SkippedView::Unsupported(*os, *arch),
            Skipped::Repeated(name) => SkippedView::Repeated(name@),
        }
    }
}

/// The plain values of a list of passed-over entries.
pub open spec fn skipped_views(entries: Seq<Skipped>) -> Seq<SkippedView> {
    Seq::new(entries.len(), |i: int| entries[i]@)
}

/// What is passed over of one architecture entry: the entry where its name is no
/// architecture, each of its overrides where the platform has no build.
pub open spec fn skipped_arch(os: OS, entry: ArchEntry) -> Seq<SkippedView> {
    match arch_named(entry.name) {
        None => seq![SkippedView::UnknownArch(os, entry.name)],
        Some(arch) => if supported(os, arch) {
            Seq::empty()
        } else {
            Seq::new(entry.overrides.len(), |i: int| SkippedView::Unsupported(os, arch))
        },
    }
}

/// What is passed over of the architectures of one operating system, in order.
pub open spec fn skipped_archs(os: OS, entries: Seq<ArchEntry>) -> Seq<SkippedView>
    decreases entries.len(),
{
    if entries.len() == 0 {
        Seq::empty()
    } else {
        skipped_archs(os, entries.drop_last()) + skipped_arch(os, entries.last())
    }
}

/// What is passed over of one operating system entry: the entry where its name is
/// no operating system.
pub open spec fn skipped_os(entry: OsEntry) -> Seq<SkippedView> {
    match os_named(entry.name) {
        None => seq![SkippedView::UnknownOs(entry.name)],
        Some(os) => skipped_archs(os, entry.archs),
    }
}

/// The entries of a document whose names give no platform with a build, in the
/// order of the document.
pub open spec fn skipped_entries(config: Seq<OsEntry>) -> Seq<SkippedView>
    decreases config.len(),
{
    if config.len() == 0 {
        Seq::empty()
    } else {
        skipped_entries(config.drop_last()) + skipped_os(config.last())
    }
}

/// The output names that the overrides of a document repeat, one for each override
/// that is left out for it, in the order of the document.
pub open spec fn repeats(config: Seq<OsEntry>) -> Seq<SkippedView> {
    Seq::new(
        repeated_names(listed(config)).len(),
        |i: int| SkippedView::Repeated(repeated_names(listed(config))[i]),
    )
}

/// Everything of a document that gives no target: first the entries whose names give
/// no platform with a build, then the overrides that repeat an output name.
pub open spec fn passed_over(config: Seq<OsEntry>) -> Seq<SkippedView> {
    skipped_entries(config) + repeats(config)
}

/// A copy of `source`, text for text.
pub fn copy_strings(source: &[String]) -> (r: Vec<String>)
    ensures
        texts(r@) == texts(source@),
{
    let mut out: Vec<String> = Vec::new();
    let mut i: usize = 0;
    while i < source.len()
        invariant
            i <= source@.len(),
            out@.len() == i,
            forall|j: int| 0 <= j < i ==> out@[j]@ == source@[j]@,
        decreases source.len() - i,
    {
        out.push(source[i].clone());
        i += 1;
    }
    assert(texts(out@) =~= texts(source@));
    out
}

/// A copy of `source`, key for key and text for text, in the same order.
pub fn copy_table(source: &Table<String>) -> (r: Table<String>)
    requires
        source.wf(),
    ensures
        r.wf(),
        r.keys() == source.keys(),
        texts(r.values()) == texts(source.values()),
        text_map(r@) == text_map(source@),
{
    let mut out: Table<String> = Table::new();
    let n = source.len();
    let mut i: usize = 0;
    while i < n
        invariant
            i <= n == source.keys().len(),
            source.wf(),
            out.wf(),
            out.keys() == source.keys().subrange(0, i as int),
            out.values().len() == i,
            forall|j: int| 0 <= j < i ==> out.values()[j]@ == source.values()[j]@,
        decreases n - i,
    {
        let key = source.key_at(i).clone();
        let value = source.value_at(i).clone();
        proof {
            out.lemma_view();
            if out@.contains_key(key@) {
                let j = out.keys().index_of(key@);
                assert(source.keys()[j] == source.keys()[i as int]);
            }
        }
        out.insert(key, value);
        proof {
            assert(out.keys() =~= source.keys().subrange(0, i + 1));
        }
        i += 1;
    }
    proof {
        assert(out.keys() =~= source.keys());
        assert(texts(out.values()) =~= texts(source.values()));
        out.lemma_view();
        source.lemma_view();
        assert forall|k: Seq<char>| #[trigger] source@.contains_key(k) implies out@.contains_key(k)
            && out@[k]@ == source@[k]@ by {
            let j = source.keys().index_of(k);
            assert(out.keys()[j] == k);
        }
        assert(text_map(out@) =~= text_map(source@));
    }
    out
}

/// The schema before the first: no document has it.
pub struct EmptyConfig;

impl EmptyConfig {
    /// There is nothing to read: fails with `Error::Config`.
    pub fn new() -> (r: Result<(Self, ConfigState), Error>)
        ensures
            r == Err::<(Self, ConfigState), Error>(Error::Config),
    {
        Err(Error::Config)
    }

    pub fn targets(&self) -> (r: Vec<Target>)
        ensures
            r@.len() == 0,
    {
        Vec::new()
    }

    /// There is nothing to save: fails with `Error::Config`.
    pub fn save(&self) -> (r: Result<(), Error>)
        ensures
            r == Err::<(), Error>(Error::Config),
    {
        Err(Error::Config)
    }
}

/// The one override that the older schemas hold for a platform.
pub struct TargetConfig {
    libs: Vec<String>,
    env: Table<String>,
}

impl TargetConfig {
    pub closed spec fn view(&self) -> OverrideView {
        OverrideView { build_name: None, libs: texts(self.libs@), env: text_map(self.env@) }
    }

    /// No variable is set twice.
    pub closed spec fn wf(&self) -> bool {
        self.env.wf()
    }

    pub fn new(libs: Vec<String>, env: Table<String>) -> (r: Self)
        requires
            env.wf(),
        ensures
            r.wf(),
            r@ == (OverrideView { build_name: None, libs: texts(libs@), env: text_map(env@) }),
    {
        TargetConfig { libs, env }
    }

    /// The search paths and the variables, handed over.
    pub fn into_parts(self) -> (r: (Vec<String>, Table<String>))
        ensures
            texts(r.0@) == self@.libs,
            text_map(r.1@) == self@.env,
            self@.build_name.is_none(),
            self.wf() ==> r.1.wf(),
    {
        (self.libs, self.env)
    }

    pub fn libs(&self) -> (r: &[String])
        ensures
            texts(r@) == self@.libs,
            self@.build_name.is_none(),
    {
        self.libs.as_slice()
    }

    pub fn env(&self) -> (r: &Table<String>)
        ensures
            text_map(r@) == self@.env,
            self.wf() ==> r.wf(),
    {
        &self.env
    }
}

/// The architecture entries of a table of the older schemas.
pub open spec fn flat_archs(value: Table<TargetConfig>) -> Seq<ArchEntry> {
    Seq::new(
        value.keys().len(),
        |i: int| ArchEntry { name: value.keys()[i], overrides: seq![value.values()[i]@] },
    )
}

/// The operating system entries of a table of the older schemas.
pub open spec fn flat_config(config: Table<Table<TargetConfig>>) -> Seq<OsEntry> {
    Seq::new(
        config.keys().len(),
        |i: int| OsEntry { name: config.keys()[i], archs: flat_archs(config.values()[i]) },
    )
}

/// Every table holds each key once, and every override each variable once.
pub open spec fn flat_archs_wf(value: Table<TargetConfig>) -> bool {
    &&& value.wf()
    &&& forall|i: int| 0 <= i < value.values().len() ==> (#[trigger] value.values()[i]).wf()
}

/// Every table holds each key once, and every override each variable once.
pub open spec fn flat_config_wf(config: Table<Table<TargetConfig>>) -> bool {
    &&& config.wf()
    &&& forall|i: int|
        0 <= i < config.values().len() ==> flat_archs_wf(#[trigger] config.values()[i])
}

/// Adds the target of one override, if its platform has a build.
pub(crate) fn add_target(targets: &mut Vec<Target>, os: OS, arch: Arch, tc: &TargetConfig)
    requires
        tc.wf(),
        all_wf(old(targets)@),
    ensures
        all_wf(final(targets)@),
        views(final(targets)@) == views(old(targets)@) + listed_one(os, arch, tc@),
{
    if let Ok(mut target) = Target::new(os, arch, None) {
        target.add_libs(tc.libs.as_slice());
        target.add_env(&tc.env);
        proof {
            assert(target@.native_dirs =~= tc@.libs);
            assert(target@.environment =~= tc@.env);
        }
        targets.push(target);
        proof {
            assert(views(targets@) =~= views(old(targets)@) + listed_one(os, arch, tc@));
        }
    } else {
        proof {
            assert(views(targets@) =~= views(old(targets)@) + listed_one(os, arch, tc@));
        }
    }
}

/// Adds the targets of the architectures listed for `os`, in order.
pub(crate) fn build_os(targets: &mut Vec<Target>, os: OS, value: &Table<TargetConfig>)
    requires
        flat_archs_wf(*value),
        all_wf(old(targets)@),
    ensures
        all_wf(final(targets)@),
        views(final(targets)@) == views(old(targets)@) + listed_archs(os, flat_archs(*value)),
{
    let n = value.len();
    let mut i: usize = 0;
    proof {
        assert(views(targets@) =~= views(old(targets)@) + listed_archs(
            os,
            flat_archs(*value).subrange(0, 0),
        ));
    }
    while i < n
        invariant
            i <= n == value.keys().len(),
            flat_archs_wf(*value),
            all_wf(targets@),
            views(targets@) == views(old(targets)@) + listed_archs(
                os,
                flat_archs(*value).subrange(0, i as int),
            ),
        decreases n - i,
    {
        let ghost before = targets@;
        let ghost grown = flat_archs(*value).subrange(0, i + 1);
        proof {
            assert(grown.drop_last() =~= flat_archs(*value).subrange(0, i as int));
            assert(grown.last() == flat_archs(*value)[i as int]);
        }
        if let Ok(arch) = Arch::try_from(value.key_at(i).as_str()) {
            add_target(targets, os, arch, value.value_at(i));
            proof {
                let one = seq![value.values()[i as int]@];
                assert(one.last() == value.values()[i as int]@);
                assert(listed_overrides(os, arch, one.drop_last()) =~= Seq::<TargetView>::empty());
                assert(listed_overrides(os, arch, one) =~= listed_one(os, arch, one.last()));
            }
        }
        proof {
            assert(views(targets@) =~= views(old(targets)@) + listed_archs(os, grown));
        }
        i += 1;
    }
    proof {
        assert(flat_archs(*value).subrange(0, n as int) =~= flat_archs(*value));
    }
}

/// The targets of a document of the older schemas, in the order of the document.
pub(crate) fn flat_targets(config: &Table<Table<TargetConfig>>) -> (r: Vec<Target>)
    requires
        flat_config_wf(*config),
    ensures
        all_wf(r@),
        views(r@) == resolve(flat_config(*config)),
        distinct_names(views(r@)),
{
    let mut targets = flat_listed(config);
    let _ = keep_first(&mut targets);
    targets
}

/// The targets that a document of the older schemas lists, repeats included.
fn flat_listed(config: &Table<Table<TargetConfig>>) -> (r: Vec<Target>)
    requires
        flat_config_wf(*config),
    ensures
        all_wf(r@),
        views(r@) == listed(flat_config(*config)),
{
    let mut targets: Vec<Target> = Vec::new();
    let n = config.len();
    let mut i: usize = 0;
    proof {
        assert(views(targets@) =~= listed(flat_config(*config).subrange(0, 0)));
    }
    while i < n
        invariant
            i <= n == config.keys().len(),
            flat_config_wf(*config),
            all_wf(targets@),
            views(targets@) == listed(flat_config(*config).subrange(0, i as int)),
        decreases n - i,
    {
        let ghost grown = flat_config(*config).subrange(0, i + 1);
        proof {
            assert(grown.drop_last() =~= flat_config(*config).subrange(0, i as int));
            assert(grown.last() == flat_config(*config)[i as int]);
        }
        if let Ok(os) = OS::try_from(config.key_at(i).as_str()) {
            build_os(&mut targets, os, config.value_at(i));
        }
        proof {
            assert(views(targets@) =~= listed(grown));
        }
        i += 1;
    }
    proof {
        assert(flat_config(*config).subrange(0, n as int) =~= flat_config(*config));
    }
    targets
}

/// The current document, from the attempts to parse the file under each schema, the
/// newest first. The first attempt that succeeded gives the document: as it is under
/// the current schema, brought forward under an older one. Where every attempt
/// failed, the failure under the current schema is handed back.
pub fn load(
    current: Result<Config, Error>,
    older: Result<v1::Config, Error>,
    oldest: Result<v0::Config, Error>,
) -> (r: Result<(Config, ConfigState), Error>)
    requires
        older matches Ok(p) ==> p.wf(),
        oldest matches Ok(q) ==> q.wf(),
    ensures
        match current {
            Ok(c) => r == Ok::<(Config, ConfigState), Error>((c, ConfigState::Current)),
            Err(e) => match older {
                Ok(p) => r matches Ok((c, state)) && state == ConfigState::Upgraded && c@ == p@
                    && c.wf(),
                Err(_) => match oldest {
                    Ok(q) => r matches Ok((c, state)) && state == ConfigState::Upgraded && c@
                        == q@ && c.wf(),
                    Err(_) => r == Err::<(Config, ConfigState), Error>(e),
                },
            },
        },
{
    let first = v0::Config::new(oldest, EmptyConfig::new());
    let second = v1::Config::new(older, first);
    Config::new(current, second)
}

/// Every target that a document resolves to is a platform with a build, and no two
/// of them have one output name.
pub proof fn lemma_resolved_supported(config: Seq<OsEntry>, i: int)
    requires
        0 <= i < resolve(config).len(),
    ensures
        supported(resolve(config)[i].os, resolve(config)[i].arch),
        distinct_names(resolve(config)),
{
    lemma_first_of_each_distinct(listed(config));
    lemma_kept_is_first(listed(config), i);
    let j = choose|j: int|
        0 <= j < listed(config).len() && #[trigger] listed(config)[j] == resolve(config)[i];
    lemma_listed_supported(config, j);
}

/// Every target that a document lists is a platform with a build.
pub proof fn lemma_listed_supported(config: Seq<OsEntry>, i: int)
    requires
        0 <= i < listed(config).len(),
    ensures
        supported(listed(config)[i].os, listed(config)[i].arch),
    decreases config.len(),
{
    let head = listed(config.drop_last());
    if i < head.len() {
        lemma_listed_supported(config.drop_last(), i);
    } else {
        let os = os_named(config.last().name).unwrap();
        lemma_archs_supported(os, config.last().archs, i - head.len());
    }
}

proof fn lemma_archs_supported(os: OS, entries: Seq<ArchEntry>, i: int)
    requires
        0 <= i < listed_archs(os, entries).len(),
    ensures
        supported(listed_archs(os, entries)[i].os, listed_archs(os, entries)[i].arch),
    decreases entries.len(),
{
    let head = listed_archs(os, entries.drop_last());
    if i < head.len() {
        lemma_archs_supported(os, entries.drop_last(), i);
    } else {
        let arch = arch_named(entries.last().name).unwrap();
        lemma_overrides_supported(os, arch, entries.last().overrides, i - head.len());
    }
}

proof fn lemma_overrides_supported(os: OS, arch: Arch, records: Seq<OverrideView>, i: int)
    requires
        0 <= i < listed_overrides(os, arch, records).len(),
    ensures
        supported(
            listed_overrides(os, arch, records)[i].os,
            listed_overrides(os, arch, records)[i].arch,
        ),
    decreases records.len(),
{
    let head = listed_overrides(os, arch, records.drop_last());
    if i < head.len() {
        lemma_overrides_supported(os, arch, records.drop_last(), i);
    }
}

} // verus!
