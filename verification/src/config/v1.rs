//! The second schema: one override per platform, and a list of included files.
use vstd::prelude::*;
use crate::config::{flat_config, flat_config_wf, flat_targets, resolve};
use crate::config::{ConfigState, ConfigView, TargetConfig};
use crate::error::Error;
use crate::table::Table;
use crate::target::{all_wf, distinct_names, texts, views, Target};

verus! {

pub struct Config {
    pub release_path: String,
    pub included_files: Vec<String>,
    pub config: Table<Table<TargetConfig>>,
}

impl Config {
    /// The document in the shape of the current schema.
    pub open spec fn view(&self) -> ConfigView {
        ConfigView {
            release_path: self.release_path@,
            included_files: texts(self.included_files@),
            config: flat_config(self.config),
        }
    }

    pub open spec fn wf(&self) -> bool {
        flat_config_wf(self.config)
    }

    /// The document that was parsed under this schema; where that failed, the one
    /// that the schema before it gave, brought forward; where both failed, the
    /// failure of this schema.
    pub fn new(
        parsed: Result<Config, Error>,
        previous: Result<(super::v0::Config, ConfigState), Error>,
    ) -> (r: Result<(Config, ConfigState), Error>)
        ensures
            match parsed {
                Ok(c) => r == Ok::<(Config, ConfigState), Error>((c, ConfigState::Current)),
                Err(e) => match previous {
                    Ok((p, _)) => r matches Ok((c, state)) && state == ConfigState::Upgraded
                        && c@ == p@ && (p.wf() ==> c.wf()),
                    Err(_) => r == Err::<(Config, ConfigState), Error>(e),
                },
            },
    {
        match parsed {
            Ok(c) => Ok((c, ConfigState::Current)),
            Err(e) => match previous {
                Ok((p, _)) => Ok((Config::from(p), ConfigState::Upgraded)),
                Err(_) => Err(e),
            },
        }
    }

    /// Brings a document of the first schema forward: the readme and the licence
    /// become the included files, in that order; the rest is kept.
    pub fn from(c: super::v0::Config) -> (r: Config)
        ensures
            r@ == c@,
            r.config == c.config,
            c.wf() ==> r.wf(),
    {
        let ghost before = c@;
        let mut v = Vec::new();
        v.push(c.readme);
        v.push(c.license);
        proof {
            assert(texts(v@) =~= before.included_files);
        }
        Config { release_path: c.release_path, included_files: v, config: c.config }
    }

    pub fn included_files(&self) -> (r: &[String])
        ensures
            texts(r@) == self@.included_files,
    {
        self.included_files.as_slice()
    }

    /// The targets that the document resolves to, in its order.
    pub fn targets(&self) -> (r: Vec<Target>)
        requires
            self.wf(),
        ensures
            all_wf(r@),
            views(r@) == resolve(self@.config),
            distinct_names(views(r@)),
    {
        flat_targets(&self.config)
    }
}

} // verus!
