//! The first schema: one override per platform, and the licence and the readme as
//! fields of their own.
use vstd::prelude::*;
use crate::config::{flat_config, flat_config_wf, flat_targets, resolve};
use crate::config::{ConfigState, ConfigView, EmptyConfig, TargetConfig};
use crate::error::Error;
use crate::table::Table;
use crate::target::{all_wf, distinct_names, views, Target};

verus! {

pub struct Config {
    pub release_path: String,
    pub license: String,
    pub readme: String,
    pub config: Table<Table<TargetConfig>>,
}

impl Config {
    /// The document in the shape of the current schema: the readme and the licence
    /// become the two included files, in that order.
    pub open spec fn view(&self) -> ConfigView {
        ConfigView {
            release_path: self.release_path@,
            included_files: seq![self.readme@, self.license@],
            config: flat_config(self.config),
        }
    }

    pub open spec fn wf(&self) -> bool {
        flat_config_wf(self.config)
    }

    /// The document that was parsed; before this schema there is none to bring
    /// forward, so a failure to parse stands.
    pub fn new(parsed: Result<Config, Error>, previous: Result<(EmptyConfig, ConfigState), Error>) -> (r: Result<(Config, ConfigState), Error>)
        ensures
            match parsed {
                Ok(c) => r == Ok::<(Config, ConfigState), Error>((c, ConfigState::Current)),
                Err(e) => match previous {
                    Ok(_) => r matches Ok((c, state)) && state == ConfigState::Upgraded
                        && c@ == (ConfigView {
                        release_path: Seq::empty(),
                        included_files: seq![Seq::empty(), Seq::empty()],
                        config: Seq::empty(),
                    }) && c.wf(),
                    Err(_) => r == Err::<(Config, ConfigState), Error>(e),
                },
            },
    {
        match parsed {
            Ok(c) => Ok((c, ConfigState::Current)),
            Err(e) => match previous {
                Ok((p, _)) => Ok((Config::from(p), ConfigState::Upgraded)),
                Err(_) => Err(e),
            },
        }
    }

    /// The empty document.
    pub fn from(_empty: EmptyConfig) -> (r: Config)
        ensures
            r.wf(),
            r@ == (ConfigView {
                release_path: Seq::empty(),
                included_files: seq![Seq::empty(), Seq::empty()],
                config: Seq::empty(),
            }),
    {
        let r = Config {
            release_path: String::new(),
            license: String::new(),
            readme: String::new(),
            config: Table::new(),
        };
        proof {
            assert(r@.config =~= Seq::empty());
        }
        r
    }

    /// The targets that the document resolves to, in its order.
    pub fn targets(&self) -> (r: Vec<Target>)
        requires
            self.wf(),
        ensures
            all_wf(r@),
            views(r@) == resolve(self@.config),
            distinct_names(views(r@)),
    {
        flat_targets(&self.config)
    }
}

} // verus!
