//! The current schema: any number of overrides per platform, each with an optional
//! build name.
use vstd::prelude::*;
use crate::config::{copy_strings, copy_table, flat_archs, flat_archs_wf, flat_config, listed};
use crate::config::{passed_over, repeats, resolve, skipped_arch, skipped_archs};
use crate::config::{skipped_entries, skipped_views, Skipped, SkippedView};
use crate::config::{listed_archs, listed_one, listed_overrides};
use crate::config::{ArchEntry, ConfigState, ConfigView, OsEntry, OverrideView};
use crate::error::Error;
use crate::table::Table;
use crate::target::{all_wf, distinct_names, keep_first, repeated_names, text_map, texts};
use crate::target::views;
use crate::target::{Arch, Target, OS};

verus! {

/// One override of a platform.
pub struct TargetConfig {
    build_name: Option<String>,
    libs: Vec<String>,
    env: Table<String>,
}

impl TargetConfig {
    pub closed spec fn view(&self) -> OverrideView {
        OverrideView {
            build_name: match self.build_name {
                Some(name) => Some(name@),
                None => None,
            },
            libs: texts(self.libs@),
            env: text_map(self.env@),
        }
    }

    /// No variable is set twice.
    pub closed spec fn wf(&self) -> bool {
        self.env.wf()
    }

    pub fn new(build_name: Option<String>, libs: Vec<String>, env: Table<String>) -> (r: Self)
        requires
            env.wf(),
        ensures
            r.wf(),
            r@ == (OverrideView {
                build_name: match build_name {
                    Some(name) => Some(name@),
                    None => None,
                },
                libs: texts(libs@),
                env: text_map(env@),
            }),
    {
        TargetConfig { build_name, libs, env }
    }

    /// The override of an older schema, which has no build name.
    pub fn from(tc: super::TargetConfig) -> (r: Self)
        ensures
            r@ == tc@,
            tc.wf() ==> r.wf(),
    {
        let (libs, env) = tc.into_parts();
        TargetConfig { build_name: None, libs, env }
    }

    pub fn build_name(&self) -> (r: Option<&str>)
        ensures
            match r {
                Some(name) => self@.build_name == Some(name@),
                None => self@.build_name.is_none(),
            },
    {
        match &self.build_name {
            Some(name) => Some(name.as_str()),
            None => None,
        }
    }

    pub fn libs(&self) -> (r: &[String])
        ensures
            texts(r@) == self@.libs,
    {
        self.libs.as_slice()
    }

    pub fn env(&self) -> (r: &Table<String>)
        ensures
            text_map(r@) == self@.env,
            self.wf() ==> r.wf(),
    {
        &self.env
    }

    /// A copy of the override of an older schema, which has no build name.
    fn upgraded(tc: &super::TargetConfig) -> (r: Self)
        requires
            tc.wf(),
        ensures
            r.wf(),
            r@ == tc@,
    {
        let libs = copy_strings(tc.libs());
        let env = copy_table(tc.env());
        TargetConfig { build_name: None, libs, env }
    }
}

/// The plain values of a list of overrides.
pub open spec fn overrides_of(records: Seq<TargetConfig>) -> Seq<OverrideView> {
    Seq::new(records.len(), |i: int| records[i]@)
}

/// The architecture entries of a table of the current schema.
pub open spec fn archs_of(value: Table<Vec<TargetConfig>>) -> Seq<ArchEntry> {
    Seq::new(
        value.keys().len(),
        |i: int| ArchEntry { name: value.keys()[i], overrides: overrides_of(value.values()[i]@) },
    )
}

/// The operating system entries of a table of the current schema.
pub open spec fn config_of(config: Table<Table<Vec<TargetConfig>>>) -> Seq<OsEntry> {
    Seq::new(
        config.keys().len(),
        |i: int| OsEntry { name: config.keys()[i], archs: archs_of(config.values()[i]) },
    )
}

/// Every override holds each variable once.
pub open spec fn overrides_wf(records: Seq<TargetConfig>) -> bool {
    forall|i: int| 0 <= i < records.len() ==> (#[trigger] records[i]).wf()
}

/// The table holds each architecture once, and every override each variable once.
pub open spec fn archs_wf(value: Table<Vec<TargetConfig>>) -> bool {
    &&& value.wf()
    &&& forall|i: int| 0 <= i < value.values().len() ==> overrides_wf((#[trigger] value.values()[i])@)
}

/// Every table holds each key once, and every override each variable once.
pub open spec fn config_wf(config: Table<Table<Vec<TargetConfig>>>) -> bool {
    &&& config.wf()
    &&& forall|i: int| 0 <= i < config.values().len() ==> archs_wf(#[trigger] config.values()[i])
}

/// Adds the target of one override, if its platform has a build.
pub(crate) fn add_target(targets: &mut Vec<Target>, os: OS, arch: Arch, tc: &TargetConfig)
    requires
        tc.wf(),
        all_wf(old(targets)@),
    ensures
        all_wf(final(targets)@),
        views(final(targets)@) == views(old(targets)@) + listed_one(os, arch, tc@),
{
    let build_name = match &tc.build_name {
        Some(name) => Some(name.clone()),
        None => None,
    };
    if let Ok(mut target) = Target::new(os, arch, build_name) {
        target.add_libs(tc.libs.as_slice());
        target.add_env(&tc.env);
        proof {
            assert(target@.native_dirs =~= tc@.libs);
            assert(target@.environment =~= tc@.env);
        }
        targets.push(target);
        proof {
            assert(views(targets@) =~= views(old(targets)@) + listed_one(os, arch, tc@));
        }
    } else {
        proof {
            assert(views(targets@) =~= views(old(targets)@) + listed_one(os, arch, tc@));
        }
    }
}

/// Adds the targets of the overrides of one platform, in order.
fn add_targets(targets: &mut Vec<Target>, os: OS, arch: Arch, records: &Vec<TargetConfig>)
    requires
        overrides_wf(records@),
        all_wf(old(targets)@),
    ensures
        all_wf(final(targets)@),
        views(final(targets)@) == views(old(targets)@) + listed_overrides(
            os,
            arch,
            overrides_of(records@),
        ),
{
    let mut i: usize = 0;
    proof {
        assert(views(targets@) =~= views(old(targets)@) + listed_overrides(
            os,
            arch,
            overrides_of(records@).subrange(0, 0),
        ));
    }
    while i < records.len()
        invariant
            i <= records@.len(),
            overrides_wf(records@),
            all_wf(targets@),
            views(targets@) == views(old(targets)@) + listed_overrides(
                os,
                arch,
                overrides_of(records@).subrange(0, i as int),
            ),
        decreases records.len() - i,
    {
        let ghost grown = overrides_of(records@).subrange(0, i + 1);
        proof {
            assert(grown.drop_last() =~= overrides_of(records@).subrange(0, i as int));
            assert(grown.last() == records@[i as int]@);
        }
        add_target(targets, os, arch, &records[i]);
        proof {
            assert(views(targets@) =~= views(old(targets)@) + listed_overrides(os, arch, grown));
        }
        i += 1;
    }
    proof {
        assert(overrides_of(records@).subrange(0, i as int) =~= overrides_of(records@));
    }
}

/// Adds the targets of the architectures listed for `os`, in order.
pub(crate) fn build_os(targets: &mut Vec<Target>, os: OS, value: &Table<Vec<TargetConfig>>)
    requires
        archs_wf(*value),
        all_wf(old(targets)@),
    ensures
        all_wf(final(targets)@),
        views(final(targets)@) == views(old(targets)@) + listed_archs(os, archs_of(*value)),
{
    let n = value.len();
    let mut i: usize = 0;
    proof {
        assert(views(targets@) =~= views(old(targets)@) + listed_archs(
            os,
            archs_of(*value).subrange(0, 0),
        ));
    }
    while i < n
        invariant
            i <= n == value.keys().len(),
            archs_wf(*value),
            all_wf(targets@),
            views(targets@) == views(old(targets)@) + listed_archs(
                os,
                archs_of(*value).subrange(0, i as int),
            ),
        decreases n - i,
    {
        let ghost grown = archs_of(*value).subrange(0, i + 1);
        proof {
            assert(grown.drop_last() =~= archs_of(*value).subrange(0, i as int));
            assert(grown.last() == archs_of(*value)[i as int]);
        }
        if let Ok(arch) = Arch::try_from(value.key_at(i).as_str()) {
            add_targets(targets, os, arch, value.value_at(i));
        }
        proof {
            assert(views(targets@) =~= views(old(targets)@) + listed_archs(os, grown));
        }
        i += 1;
    }
    proof {
        assert(archs_of(*value).subrange(0, n as int) =~= archs_of(*value));
    }
}

/// Adds one entry for each override of a platform that has no build.
fn skip_overrides(out: &mut Vec<Skipped>, os: OS, arch: Arch, count: usize)
    ensures
        skipped_views(final(out)@) == skipped_views(old(out)@) + Seq::new(
            count as nat,
            |i: int| SkippedView::Unsupported(os, arch),
        ),
{
    let mut k: usize = 0;
    proof {
        assert(skipped_views(out@) =~= skipped_views(old(out)@) + Seq::new(
            0,
            |i: int| SkippedView::Unsupported(os, arch),
        ));
    }
    while k < count
        invariant
            k <= count,
            skipped_views(out@) == skipped_views(old(out)@) + Seq::new(
                k as nat,
                |i: int| SkippedView::Unsupported(os, arch),
            ),
        decreases count - k,
    {
        let ghost before = out@;
        out.push(Skipped::Unsupported(os, arch));
        proof {
            assert(out@[out@.len() - 1]@ == SkippedView::Unsupported(os, arch));
            assert(skipped_views(out@) =~= skipped_views(before).push(
                SkippedView::Unsupported(os, arch),
            ));
            assert(skipped_views(out@) =~= skipped_views(old(out)@) + Seq::new(
                (k + 1) as nat,
                |i: int| SkippedView::Unsupported(os, arch),
            ));
        }
        k += 1;
    }
}

/// Adds what is passed over of the architectures listed for `os`, in order.
fn skip_archs(out: &mut Vec<Skipped>, os: OS, value: &Table<Vec<TargetConfig>>)
    requires
        archs_wf(*value),
    ensures
        skipped_views(final(out)@) == skipped_views(old(out)@) + skipped_archs(
            os,
            archs_of(*value),
        ),
{
    let n = value.len();
    let mut i: usize = 0;
    proof {
        assert(skipped_views(out@) =~= skipped_views(old(out)@) + skipped_archs(
            os,
            archs_of(*value).subrange(0, 0),
        ));
    }
    while i < n
        invariant
            i <= n == value.keys().len(),
            archs_wf(*value),
            skipped_views(out@) == skipped_views(old(out)@) + skipped_archs(
                os,
                archs_of(*value).subrange(0, i as int),
            ),
        decreases n - i,
    {
        let ghost before = skipped_views(out@);
        let ghost grown = archs_of(*value).subrange(0, i + 1);
        proof {
            assert(grown.drop_last() =~= archs_of(*value).subrange(0, i as int));
            assert(grown.last() == archs_of(*value)[i as int]);
        }
        match Arch::try_from(value.key_at(i).as_str()) {
            Ok(arch) => {
                if !Target::supports(os, arch) {
                    skip_overrides(out, os, arch, value.value_at(i).len());
                }
            },
            Err(_) => {
                out.push(Skipped::UnknownArch(os, value.key_at(i).clone()));
                proof {
                    assert(skipped_views(out@) =~= before + seq![
                        SkippedView::UnknownArch(os, value.keys()[i as int]),
                    ]);
                }
            },
        }
        proof {
            assert(skipped_views(out@) =~= before + skipped_arch(os, grown.last()));
            assert(skipped_views(out@) =~= skipped_views(old(out)@) + skipped_archs(os, grown));
        }
        i += 1;
    }
    proof {
        assert(archs_of(*value).subrange(0, n as int) =~= archs_of(*value));
    }
}

/// The current schema of the release configuration.
pub struct Config {
    pub release_path: String,
    pub included_files: Vec<String>,
    pub config: Table<Table<Vec<TargetConfig>>>,
}

impl Config {
    /// The document as plain values, in the order in which it lists its entries.
    pub open spec fn view(&self) -> ConfigView {
        ConfigView {
            release_path: self.release_path@,
            included_files: texts(self.included_files@),
            config: config_of(self.config),
        }
    }

    pub open spec fn wf(&self) -> bool {
        config_wf(self.config)
    }

    /// The document that was parsed under this schema; where that failed, the one
    /// that the schema before it gave, brought forward; where both failed, the
    /// failure of this schema.
    pub fn new(
        parsed: Result<Config, Error>,
        previous: Result<(super::v1::Config, ConfigState), Error>,
    ) -> (r: Result<(Config, ConfigState), Error>)
        requires
            previous matches Ok((p, _)) ==> p.wf(),
        ensures
            match parsed {
                Ok(c) => r == Ok::<(Config, ConfigState), Error>((c, ConfigState::Current)),
                Err(e) => match previous {
                    Ok((p, _)) => r matches Ok((c, state)) && state == ConfigState::Upgraded
                        && c@ == p@ && c.wf(),
                    Err(_) => r == Err::<(Config, ConfigState), Error>(e),
                },
            },
    {
        match parsed {
            Ok(c) => Ok((c, ConfigState::Current)),
            Err(e) => match previous {
                Ok((p, _)) => Ok((Config::from(p), ConfigState::Upgraded)),
                Err(_) => Err(e),
            },
        }
    }

    /// The architectures of one operating system, each override as a list of one.
    fn lists_of(value: &Table<super::TargetConfig>) -> (r: Table<Vec<TargetConfig>>)
        requires
            flat_archs_wf(*value),
        ensures
            archs_wf(r),
            archs_of(r) == flat_archs(*value),
    {
        let mut out: Table<Vec<TargetConfig>> = Table::new();
        let n = value.len();
        let mut i: usize = 0;
        while i < n
            invariant
                i <= n == value.keys().len(),
                flat_archs_wf(*value),
                archs_wf(out),
                out.keys() == value.keys().subrange(0, i as int),
                out.values().len() == i,
                forall|j: int|
                    0 <= j < i ==> overrides_of((#[trigger] out.values()[j])@)
                        == seq![value.values()[j]@],
            decreases n - i,
        {
            let key = value.key_at(i).clone();
            let mut list: Vec<TargetConfig> = Vec::new();
            list.push(TargetConfig::upgraded(value.value_at(i)));
            proof {
                assert(overrides_of(list@) =~= seq![value.values()[i as int]@]);
                if out.keys().contains(key@) {
                    let j = out.keys().index_of(key@);
                    assert(value.keys()[j] == value.keys()[i as int]);
                }
            }
            out.insert(key, list);
            proof {
                assert(out.keys() =~= value.keys().subrange(0, i + 1));
            }
            i += 1;
        }
        proof {
            assert(out.keys() =~= value.keys());
            assert(archs_of(out) =~= flat_archs(*value));
        }
        out
    }

    /// Brings a document of the second schema forward: the one override of each
    /// platform becomes a list of one, without a build name; the rest is kept.
    pub fn from(c: super::v1::Config) -> (r: Config)
        requires
            c.wf(),
        ensures
            r.wf(),
            r@ == c@,
    {
        let mut config: Table<Table<Vec<TargetConfig>>> = Table::new();
        let n = c.config.len();
        let mut i: usize = 0;
        while i < n
            invariant
                i <= n == c.config.keys().len(),
                c.wf(),
                config_wf(config),
                config.keys() == c.config.keys().subrange(0, i as int),
                config.values().len() == i,
                forall|j: int|
                    0 <= j < i ==> archs_of(#[trigger] config.values()[j]) == flat_archs(
                        c.config.values()[j],
                    ),
            decreases n - i,
        {
            let key = c.config.key_at(i).clone();
            let archs = Config::lists_of(c.config.value_at(i));
            proof {
                if config.keys().contains(key@) {
                    let j = config.keys().index_of(key@);
                    assert(c.config.keys()[j] == c.config.keys()[i as int]);
                }
            }
            config.insert(key, archs);
            proof {
                assert(config.keys() =~= c.config.keys().subrange(0, i + 1));
            }
            i += 1;
        }
        proof {
            assert(config.keys() =~= c.config.keys());
            assert(config_of(config) =~= flat_config(c.config));
        }
        Config { release_path: c.release_path, included_files: c.included_files, config }
    }

    pub fn included_files(&self) -> (r: &[String])
        ensures
            texts(r@) == self@.included_files,
    {
        self.included_files.as_slice()
    }

    /// The targets that the document resolves to, in its order. An entry whose
    /// names give no platform with a build is passed over, and so is an override
    /// whose output name an override before it has.
    pub fn targets(&self) -> (r: Vec<Target>)
        requires
            self.wf(),
        ensures
            all_wf(r@),
            views(r@) == resolve(self@.config),
            distinct_names(views(r@)),
    {
        let mut targets = self.listed_targets();
        let _ = keep_first(&mut targets);
        targets
    }

    /// Everything of the document that gives no target, for the user to be told:
    /// first the entries whose names give no platform with a build, in the order of
    /// the document, then the overrides that repeat an output name.
    pub fn passed_over(&self) -> (r: Vec<Skipped>)
        requires
            self.wf(),
        ensures
            skipped_views(r@) == passed_over(self@.config),
    {
        let mut out: Vec<Skipped> = Vec::new();
        let n = self.config.len();
        let mut i: usize = 0;
        proof {
            assert(skipped_views(out@) =~= skipped_entries(config_of(self.config).subrange(0, 0)));
        }
        while i < n
            invariant
                i <= n == self.config.keys().len(),
                self.wf(),
                skipped_views(out@) == skipped_entries(
                    config_of(self.config).subrange(0, i as int),
                ),
            decreases n - i,
        {
            let ghost before = skipped_views(out@);
            let ghost grown = config_of(self.config).subrange(0, i + 1);
            proof {
                assert(grown.drop_last() =~= config_of(self.config).subrange(0, i as int));
                assert(grown.last() == config_of(self.config)[i as int]);
            }
            match OS::try_from(self.config.key_at(i).as_str()) {
                Ok(os) => {
                    skip_archs(&mut out, os, self.config.value_at(i));
                },
                Err(_) => {
                    out.push(Skipped::UnknownOs(self.config.key_at(i).clone()));
                    proof {
                        assert(skipped_views(out@) =~= before + seq![
                            SkippedView::UnknownOs(self.config.keys()[i as int]),
                        ]);
                    }
                },
            }
            proof {
                assert(skipped_views(out@) =~= skipped_entries(grown));
            }
            i += 1;
        }
        proof {
            assert(config_of(self.config).subrange(0, n as int) =~= config_of(self.config));
        }
        let mut listed = self.listed_targets();
        let names = keep_first(&mut listed);
        let ghost entries = skipped_views(out@);
        let mut k: usize = 0;
        while k < names.len()
            invariant
                k <= names@.len(),
                texts(names@) == repeated_names(crate::config::listed(self@.config)),
                skipped_views(out@) == entries + repeats(self@.config).subrange(0, k as int),
            decreases names.len() - k,
        {
            let ghost before = out@;
            out.push(Skipped::Repeated(names[k].clone()));
            proof {
                assert(texts(names@)[k as int] == names@[k as int]@);
                assert(out@[out@.len() - 1]@ == SkippedView::Repeated(names@[k as int]@));
                assert(skipped_views(out@) =~= skipped_views(before).push(
                    SkippedView::Repeated(names@[k as int]@),
                ));
                assert(repeats(self@.config).len() == names@.len());
                assert(repeats(self@.config)[k as int] == SkippedView::Repeated(
                    names@[k as int]@,
                ));
                assert(skipped_views(out@) =~= entries + repeats(self@.config).subrange(
                    0,
                    k + 1,
                ));
            }
            k += 1;
        }
        proof {
            assert(repeats(self@.config).subrange(0, k as int) =~= repeats(self@.config));
        }
        out
    }

    /// The targets that the document lists, repeats included.
    fn listed_targets(&self) -> (r: Vec<Target>)
        requires
            self.wf(),
        ensures
            all_wf(r@),
            views(r@) == listed(self@.config),
    {
        let mut targets: Vec<Target> = Vec::new();
        let n = self.config.len();
        let mut i: usize = 0;
        proof {
            assert(views(targets@) =~= listed(config_of(self.config).subrange(0, 0)));
        }
        while i < n
            invariant
                i <= n == self.config.keys().len(),
                self.wf(),
                all_wf(targets@),
                views(targets@) == listed(config_of(self.config).subrange(0, i as int)),
            decreases n - i,
        {
            let ghost grown = config_of(self.config).subrange(0, i + 1);
            proof {
                assert(grown.drop_last() =~= config_of(self.config).subrange(0, i as int));
                assert(grown.last() == config_of(self.config)[i as int]);
            }
            if let Ok(os) = OS::try_from(self.config.key_at(i).as_str()) {
                build_os(&mut targets, os, self.config.value_at(i));
            }
            proof {
                assert(views(targets@) =~= listed(grown));
            }
            i += 1;
        }
        proof {
            assert(config_of(self.config).subrange(0, n as int) =~= config_of(self.config));
        }
        targets
    }
}

} // verus!
