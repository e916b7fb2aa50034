//! What the command line asks of a run.
use vstd::prelude::*;

verus! {

/// The options of one invocation.
#[derive(Debug)]
pub struct Opt {
    force_compile: bool,
    skip_dependencies: bool,
    publish: bool,
    verbose: bool,
    release_config: Option<String>,
    status_file: Option<String>,
}

/// The options as plain values.
pub ghost struct OptView {
    pub force_compile: bool,
    pub skip_dependencies: bool,
    pub publish: bool,
    pub verbose: bool,
    pub release_config: Option<Seq<char>>,
    pub status_file: Option<Seq<char>>,
}

/// The text of an optional string.
pub open spec fn text_of_option(s: Option<String>) -> Option<Seq<char>> {
    match s {
        Some(s) => Some(s@),
        None => None,
    }
}

impl Opt {
    pub closed spec fn view(&self) -> OptView {
        OptView {
            force_compile: self.force_compile,
            skip_dependencies: self.skip_dependencies,
            publish: self.publish,
            verbose: self.verbose,
            release_config: text_of_option(self.release_config),
            status_file: text_of_option(self.status_file),
        }
    }

    pub fn new(
        force_compile: bool,
        skip_dependencies: bool,
        publish: bool,
        verbose: bool,
        release_config: Option<String>,
        status_file: Option<String>,
    ) -> (r: Self)
        ensures
            r@ == (OptView {
                force_compile,
                skip_dependencies,
                publish,
                verbose,
                release_config: text_of_option(release_config),
                status_file: text_of_option(status_file),
            }),
    {
        Opt { force_compile, skip_dependencies, publish, verbose, release_config, status_file }
    }

    pub fn force_compile(&self) -> (r: bool)
        ensures
            r == self@.force_compile,
    {
        self.force_compile
    }

    pub fn publish(&self) -> (r: bool)
        ensures
            r == self@.publish,
    {
        self.publish
    }

    pub fn verbose(&self) -> (r: bool)
        ensures
            r == self@.verbose,
    {
        self.verbose
    }

    pub fn skip_dependencies(&self) -> (r: bool)
        ensures
            r == self@.skip_dependencies,
    {
        self.skip_dependencies
    }

    pub fn release_config(&self) -> (r: Option<&str>)
        ensures
            match r {
                Some(path) => self@.release_config == Some(path@),
                None => self@.release_config.is_none(),
            },
    {
        match self.release_config {
            Some(ref rc) => Some(rc.as_str()),
            None => None,
        }
    }

    pub fn status_file(&self) -> (r: Option<&str>)
        ensures
            match r {
                Some(path) => self@.status_file == Some(path@),
                None => self@.status_file.is_none(),
            },
    {
        match self.status_file {
            Some(ref rc) => Some(rc.as_str()),
            None => None,
        }
    }
}

} // verus!
