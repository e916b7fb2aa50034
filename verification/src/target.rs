//! Build targets: which platforms exist, how they are named, and what each build is given.
use vstd::prelude::*;
use vstd::string::StringExecFns;
use crate::error::Error;
use crate::table::{same_text, Table};

verus! {

#[derive(Clone, Copy, Debug, PartialEq, Eq, Structural)]
pub enum Arch {
    Aarch64,
    Armv7h,
    Armv7hMusl,
    Armh,
    ArmhMusl,
    Amd64,
    Amd64Musl,
    I686,
}

#[derive(Clone, Copy, Debug, PartialEq, Eq, Structural)]
pub enum OS {
    Linux,
    Windows,
    Mac,
}

/// The architecture that a configuration file calls `name`.
pub open spec fn arch_named(name: Seq<char>) -> Option<Arch> {
    if name == "aarch64"@ {
        Some(Arch::Aarch64)
    } else if name == "armv7h"@ {
        Some(Arch::Armv7h)
    } else if name == "armv7hmusl"@ {
        Some(Arch::Armv7hMusl)
    } else if name == "armh"@ {
        Some(Arch::Armh)
    } else if name == "armhmusl"@ {
        Some(Arch::ArmhMusl)
    } else if name == "amd64"@ {
        Some(Arch::Amd64)
    } else if name == "amd64musl"@ {
        Some(Arch::Amd64Musl)
    } else if name == "i686"@ {
        Some(Arch::I686)
    } else {
        None
    }
}

/// The operating system that a configuration file calls `name`.
pub open spec fn os_named(name: Seq<char>) -> Option<OS> {
    if name == "Linux"@ {
        Some(OS::Linux)
    } else if name == "Windows"@ {
        Some(OS::Windows)
    } else if name == "Mac"@ {
        Some(OS::Mac)
    } else {
        None
    }
}

/// The pairs for which a build exists.
pub open spec fn supported(os: OS, arch: Arch) -> bool {
    match (os, arch) {
        (OS::Linux, Arch::I686) => false,
        (OS::Linux, _) => true,
        (OS::Windows, Arch::Amd64) => true,
        (OS::Windows, Arch::I686) => true,
        (OS::Mac, Arch::Amd64) => true,
        _ => false,
    }
}

/// The platform triple of a pair; `unknown` for a pair without a build.
pub open spec fn triple(os: OS, arch: Arch) -> Seq<char> {
    match (os, arch) {
        (OS::Linux, Arch::Aarch64) => "aarch64-unknown-linux-gnu"@,
        (OS::Linux, Arch::Armv7h) => "armv7-unknown-linux-gnueabihf"@,
        (OS::Linux, Arch::Armv7hMusl) => "armv7-unknown-linux-musleabihf"@,
        (OS::Linux, Arch::Armh) => "arm-unknown-linux-gnueabihf"@,
        (OS::Linux, Arch::ArmhMusl) => "arm-unknown-linux-musleabihf"@,
        (OS::Linux, Arch::Amd64) => "x86_64-unknown-linux-gnu"@,
        (OS::Linux, Arch::Amd64Musl) => "x86_64-unknown-linux-musl"@,
        (OS::Windows, Arch::Amd64) => "x86_64-pc-windows-gnu"@,
        (OS::Windows, Arch::I686) => "i686-pc-windows-gnu"@,
        (OS::Mac, Arch::Amd64) => "x86_64-apple-darwin"@,
        _ => "unknown"@,
    }
}

/// The name under which a build is recorded and its archive is stored.
pub open spec fn output_name(os: OS, arch: Arch, build_name: Option<Seq<char>>) -> Seq<char> {
    match build_name {
        Some(name) => triple(os, arch) + seq!['-'] + name,
        None => triple(os, arch),
    }
}

/// One linker search flag per directory, separated by single spaces.
pub open spec fn link_flags(dirs: Seq<Seq<char>>) -> Seq<char>
    decreases dirs.len(),
{
    if dirs.len() == 0 {
        Seq::empty()
    } else if dirs.len() == 1 {
        "-L native="@ + dirs[0]
    } else {
        link_flags(dirs.drop_last()) + seq![' '] + "-L native="@ + dirs.last()
    }
}

/// The texts of a sequence of strings.
pub open spec fn texts(v: Seq<String>) -> Seq<Seq<char>> {
    Seq::new(v.len(), |i: int| v[i]@)
}

/// The texts of a table of strings.
pub open spec fn text_map(t: Map<Seq<char>, String>) -> Map<Seq<char>, Seq<char>> {
    Map::new(|k: Seq<char>| t.contains_key(k), |k: Seq<char>| t[k]@)
}

impl Arch {
    pub fn try_from<'a>(value: &'a str) -> (r: Result<Arch, &'a str>)
        ensures
            match r {
                Ok(arch) => arch_named(value@) == Some(arch),
                Err(rest) => arch_named(value@).is_none() && rest@ == value@,
            },
    {
        if same_text(value, "aarch64") {
            Ok(Arch::Aarch64)
        } else if same_text(value, "armv7h") {
            Ok(Arch::Armv7h)
        } else if same_text(value, "armv7hmusl") {
            Ok(Arch::Armv7hMusl)
        } else if same_text(value, "armh") {
            Ok(Arch::Armh)
        } else if same_text(value, "armhmusl") {
            Ok(Arch::ArmhMusl)
        } else if same_text(value, "amd64") {
            Ok(Arch::Amd64)
        } else if same_text(value, "amd64musl") {
            Ok(Arch::Amd64Musl)
        } else if same_text(value, "i686") {
            Ok(Arch::I686)
        } else {
            Err(value)
        }
    }
}

impl OS {
    pub fn try_from<'a>(value: &'a str) -> (r: Result<OS, &'a str>)
        ensures
            match r {
                Ok(os) => os_named(value@) == Some(os),
                Err(rest) => os_named(value@).is_none() && rest@ == value@,
            },
    {
        if same_text(value, "Linux") {
            Ok(OS::Linux)
        } else if same_text(value, "Windows") {
            Ok(OS::Windows)
        } else if same_text(value, "Mac") {
            Ok(OS::Mac)
        } else {
            Err(value)
        }
    }
}

/// What a target is, as plain values.
pub ghost struct TargetView {
    pub os: OS,
    pub arch: Arch,
    pub build_name: Option<Seq<char>>,
    pub native_dirs: Seq<Seq<char>>,
    pub environment: Map<Seq<char>, Seq<char>>,
}

/// One platform to build for, with the search paths and variables its build is given.
pub struct Target {
    os: OS,
    arch: Arch,
    build_name: Option<String>,
    native_dirs: Vec<String>,
    environment: Table<String>,
}

/// The name under which a target is recorded.
pub open spec fn name_of(target: TargetView) -> Seq<char> {
    output_name(target.os, target.arch, target.build_name)
}

/// Whether a target of the list is recorded under `name`.
pub open spec fn has_name(targets: Seq<TargetView>, name: Seq<char>) -> bool {
    exists|i: int| 0 <= i < targets.len() && #[trigger] name_of(targets[i]) == name
}

/// No two targets of the list are recorded under one name.
pub open spec fn distinct_names(targets: Seq<TargetView>) -> bool {
    forall|i: int, j: int|
        0 <= i < j < targets.len() ==> name_of(#[trigger] targets[i]) != name_of(
            #[trigger] targets[j],
        )
}

/// The list without every target whose name a target before it has: of the targets
/// recorded under one name the first stays, and the order is kept.
pub open spec fn first_of_each(targets: Seq<TargetView>) -> Seq<TargetView>
    decreases targets.len(),
{
    if targets.len() == 0 {
        Seq::empty()
    } else {
        let head = first_of_each(targets.drop_last());
        if has_name(targets.drop_last(), name_of(targets.last())) {
            head
        } else {
            head.push(targets.last())
        }
    }
}

/// The names of the targets whose name a target before them has, in order: those
/// that `first_of_each` leaves out.
pub open spec fn repeated_names(targets: Seq<TargetView>) -> Seq<Seq<char>>
    decreases targets.len(),
{
    if targets.len() == 0 {
        Seq::empty()
    } else {
        let head = repeated_names(targets.drop_last());
        if has_name(targets.drop_last(), name_of(targets.last())) {
            head.push(name_of(targets.last()))
        } else {
            head
        }
    }
}

/// Leaving out the repeats loses no name and adds none.
pub proof fn lemma_names_kept(targets: Seq<TargetView>, name: Seq<char>)
    ensures
        has_name(first_of_each(targets), name) == has_name(targets, name),
    decreases targets.len(),
{
    if targets.len() > 0 {
        let rest = targets.drop_last();
        let last = targets.last();
        let head = first_of_each(rest);
        lemma_names_kept(rest, name);
        lemma_names_kept(rest, name_of(last));
        if has_name(first_of_each(targets), name) {
            let i = choose|i: int|
                0 <= i < first_of_each(targets).len() && #[trigger] name_of(
                    first_of_each(targets)[i],
                ) == name;
            if i < head.len() {
                assert(name_of(head[i]) == name);
                let j = choose|j: int| 0 <= j < rest.len() && #[trigger] name_of(rest[j]) == name;
                assert(name_of(targets[j]) == name);
            } else {
                assert(name_of(targets[targets.len() - 1]) == name);
            }
        }
        if has_name(targets, name) {
            let j = choose|j: int| 0 <= j < targets.len() && #[trigger] name_of(targets[j]) == name;
            if j < rest.len() {
                assert(name_of(rest[j]) == name);
                let i = choose|i: int| 0 <= i < head.len() && #[trigger] name_of(head[i]) == name;
                assert(name_of(first_of_each(targets)[i]) == name);
            } else if has_name(rest, name_of(last)) {
                let i = choose|i: int| 0 <= i < head.len() && #[trigger] name_of(head[i]) == name;
                assert(name_of(first_of_each(targets)[i]) == name);
            } else {
                assert(name_of(first_of_each(targets)[head.len() as int]) == name);
            }
        }
    }
}

/// What is left has no two targets under one name.
pub proof fn lemma_first_of_each_distinct(targets: Seq<TargetView>)
    ensures
        distinct_names(first_of_each(targets)),
    decreases targets.len(),
{
    if targets.len() > 0 {
        let rest = targets.drop_last();
        let head = first_of_each(rest);
        lemma_first_of_each_distinct(rest);
        lemma_names_kept(rest, name_of(targets.last()));
        if !has_name(rest, name_of(targets.last())) {
            let kept = first_of_each(targets);
            assert forall|i: int, j: int| 0 <= i < j < kept.len() implies name_of(
                #[trigger] kept[i],
            ) != name_of(#[trigger] kept[j]) by {
                if j < head.len() {
                    assert(kept[i] == head[i] && kept[j] == head[j]);
                } else {
                    assert(kept[i] == head[i]);
                    assert(!has_name(head, name_of(targets.last())));
                }
            }
        }
    }
}

/// Every target that is left is the first of the list under its name.
pub proof fn lemma_kept_is_first(targets: Seq<TargetView>, i: int)
    requires
        0 <= i < first_of_each(targets).len(),
    ensures
        exists|j: int|
            0 <= j < targets.len() && #[trigger] targets[j] == first_of_each(targets)[i]
                && !has_name(targets.subrange(0, j), name_of(targets[j])),
    decreases targets.len(),
{
    let rest = targets.drop_last();
    let head = first_of_each(rest);
    if i < head.len() {
        lemma_kept_is_first(rest, i);
        let j = choose|j: int|
            0 <= j < rest.len() && #[trigger] rest[j] == head[i] && !has_name(
                rest.subrange(0, j),
                name_of(rest[j]),
            );
        assert(rest.subrange(0, j) =~= targets.subrange(0, j));
        assert(targets[j] == first_of_each(targets)[i]);
    } else {
        let j = targets.len() - 1;
        assert(targets.subrange(0, j) =~= rest);
        assert(targets[j] == first_of_each(targets)[i]);
    }
}

/// What is left stands in the order of the list.
pub proof fn lemma_order_kept(targets: Seq<TargetView>, a: int, b: int)
    requires
        0 <= a < b < first_of_each(targets).len(),
    ensures
        exists|i: int, j: int|
            0 <= i < j < targets.len() && #[trigger] targets[i] == first_of_each(targets)[a]
                && #[trigger] targets[j] == first_of_each(targets)[b],
    decreases targets.len(),
{
    let rest = targets.drop_last();
    let head = first_of_each(rest);
    if b < head.len() {
        lemma_order_kept(rest, a, b);
        let (i, j) = choose|i: int, j: int|
            0 <= i < j < rest.len() && #[trigger] rest[i] == head[a] && #[trigger] rest[j]
                == head[b];
        assert(targets[i] == first_of_each(targets)[a] && targets[j] == first_of_each(
            targets,
        )[b]);
    } else {
        lemma_kept_is_first(rest, a);
        let i = choose|i: int| 0 <= i < rest.len() && #[trigger] rest[i] == head[a];
        let j = targets.len() - 1;
        assert(targets[i] == first_of_each(targets)[a] && targets[j] == first_of_each(
            targets,
        )[b]);
    }
}

/// A list without repeats is left as it is.
pub proof fn lemma_distinct_unchanged(targets: Seq<TargetView>)
    requires
        distinct_names(targets),
    ensures
        first_of_each(targets) == targets,
        repeated_names(targets) == Seq::<Seq<char>>::empty(),
    decreases targets.len(),
{
    if targets.len() > 0 {
        let rest = targets.drop_last();
        assert(distinct_names(rest)) by {
            assert forall|i: int, j: int| 0 <= i < j < rest.len() implies name_of(
                #[trigger] rest[i],
            ) != name_of(#[trigger] rest[j]) by {
                assert(rest[i] == targets[i] && rest[j] == targets[j]);
            }
        }
        lemma_distinct_unchanged(rest);
        if has_name(rest, name_of(targets.last())) {
            let i = choose|i: int|
                0 <= i < rest.len() && #[trigger] name_of(rest[i]) == name_of(targets.last());
            assert(rest[i] == targets[i]);
            assert(targets.last() == targets[targets.len() - 1]);
        }
        assert(first_of_each(targets) =~= targets);
    } else {
        assert(first_of_each(targets) =~= targets);
    }
}

/// The plain values of a list of targets.
pub open spec fn views(targets: Seq<Target>) -> Seq<TargetView> {
    Seq::new(targets.len(), |i: int| targets[i]@)
}

/// Every target of the list is well formed.
pub open spec fn all_wf(targets: Seq<Target>) -> bool {
    forall|i: int| 0 <= i < targets.len() ==> (#[trigger] targets[i]).wf()
}

impl Target {
    pub closed spec fn view(&self) -> TargetView {
        TargetView {
            os: self.os,
            arch: self.arch,
            build_name: match self.build_name {
                Some(name) => Some(name@),
                None => None,
            },
            native_dirs: texts(self.native_dirs@),
            environment: text_map(self.environment@),
        }
    }

    /// The platform has a build and no variable is held twice.
    pub closed spec fn wf(&self) -> bool {
        supported(self.os, self.arch) && self.environment.wf()
    }

    /// A well-formed target is one of the supported platforms.
    pub proof fn lemma_supported(&self)
        requires
            self.wf(),
        ensures
            supported(self@.os, self@.arch),
    {
    }

    /// Whether the platform has a build.
    pub fn supports(os: OS, arch: Arch) -> (r: bool)
        ensures
            r == supported(os, arch),
    {
        match (os, arch) {
            (OS::Linux, Arch::Aarch64)
            | (OS::Linux, Arch::Armv7h)
            | (OS::Linux, Arch::Armv7hMusl)
            | (OS::Linux, Arch::Armh)
            | (OS::Linux, Arch::ArmhMusl)
            | (OS::Linux, Arch::Amd64)
            | (OS::Linux, Arch::Amd64Musl)
            | (OS::Windows, Arch::Amd64)
            | (OS::Windows, Arch::I686)
            | (OS::Mac, Arch::Amd64) => true,
            _ => false,
        }
    }

    pub fn new(os: OS, arch: Arch, build_name: Option<String>) -> (r: Result<Self, Error>)
        ensures
            match r {
                Ok(target) => supported(os, arch) && target.wf() && target@ == (TargetView {
                    os,
                    arch,
                    build_name: match build_name {
                        Some(name) => Some(name@),
                        None => None,
                    },
                    native_dirs: Seq::empty(),
                    environment: Map::empty(),
                }),
                Err(e) => !supported(os, arch) && e == Error::InvalidTarget,
            },
    {
        let known = Target::supports(os, arch);
        if known {
            let target = Target {
                os,
                arch,
                build_name,
                native_dirs: Vec::new(),
                environment: Table::new(),
            };
            proof {
                assert(target@.native_dirs =~= Seq::empty());
                assert(target@.environment =~= Map::empty());
            }
            Ok(target)
        } else {
            Err(Error::InvalidTarget)
        }
    }

    pub fn target_str(&self) -> (r: &str)
        ensures
            r@ == triple(self@.os, self@.arch),
    {
        match (self.os, self.arch) {
            (OS::Linux, Arch::Aarch64) => "aarch64-unknown-linux-gnu",
            (OS::Linux, Arch::Armv7h) => "armv7-unknown-linux-gnueabihf",
            (OS::Linux, Arch::Armv7hMusl) => "armv7-unknown-linux-musleabihf",
            (OS::Linux, Arch::Armh) => "arm-unknown-linux-gnueabihf",
            (OS::Linux, Arch::ArmhMusl) => "arm-unknown-linux-musleabihf",
            (OS::Linux, Arch::Amd64) => "x86_64-unknown-linux-gnu",
            (OS::Linux, Arch::Amd64Musl) => "x86_64-unknown-linux-musl",
            (OS::Windows, Arch::Amd64) => "x86_64-pc-windows-gnu",
            (OS::Windows, Arch::I686) => "i686-pc-windows-gnu",
            (OS::Mac, Arch::Amd64) => "x86_64-apple-darwin",
            _ => "unknown",
        }
    }

    pub fn output_str(&self) -> (r: String)
        ensures
            r@ == output_name(self@.os, self@.arch, self@.build_name),
    {
        match &self.build_name {
            Some(name) => {
                proof {
                    reveal_strlit("-");
                    assert("-"@ =~= seq!['-']);
                }
                self.target_str().to_owned().concat("-").concat(name.as_str())
            },
            None => self.target_str().to_owned(),
        }
    }

    /// Appends `libs` to the library search paths, keeping order and repeats.
    pub fn add_libs(&mut self, libs: &[String])
        requires
            old(self).wf(),
        ensures
            final(self).wf(),
            final(self)@ == (TargetView {
                native_dirs: old(self)@.native_dirs + texts(libs@),
                ..old(self)@
            }),
    {
        let mut i: usize = 0;
        while i < libs.len()
            invariant
                i <= libs@.len(),
                self.wf(),
                self@ == (TargetView {
                    native_dirs: old(self)@.native_dirs + texts(libs@.subrange(0, i as int)),
                    ..old(self)@
                }),
            decreases libs.len() - i,
        {
            let ghost before = self.native_dirs@;
            self.native_dirs.push(libs[i].clone());
            proof {
                assert(texts(self.native_dirs@) =~= texts(before) + texts(
                    libs@.subrange(0, i + 1),
                ).subrange(i as int, i + 1));
                assert(texts(self.native_dirs@) =~= old(self)@.native_dirs + texts(
                    libs@.subrange(0, i + 1),
                ));
            }
            i += 1;
        }
        proof {
            assert(libs@.subrange(0, i as int) =~= libs@);
        }
    }

    /// Sets every variable of `env`; a variable already held takes the new value.
    pub fn add_env(&mut self, env: &Table<String>)
        requires
            old(self).wf(),
            env.wf(),
        ensures
            final(self).wf(),
            final(self)@ == (TargetView {
                environment: old(self)@.environment.union_prefer_right(text_map(env@)),
                ..old(self)@
            }),
    {
        let n = env.len();
        let mut i: usize = 0;
        proof {
            env.lemma_view();
        }
        while i < n
            invariant
                i <= n == env.keys().len(),
                env.wf(),
                self.wf(),
                self@.os == old(self)@.os,
                self@.arch == old(self)@.arch,
                self@.build_name == old(self)@.build_name,
                self@.native_dirs == old(self)@.native_dirs,
                forall|k: Seq<char>| #[trigger]
                    self@.environment.contains_key(k) <==> old(self)@.environment.contains_key(k)
                        || env.keys().subrange(0, i as int).contains(k),
                forall|k: Seq<char>|
                    env.keys().subrange(0, i as int).contains(k)
                        ==> #[trigger] self@.environment[k] == env@[k]@,
                forall|k: Seq<char>|
                    old(self)@.environment.contains_key(k) && !env.keys().subrange(
                        0,
                        i as int,
                    ).contains(k) ==> #[trigger] self@.environment[k] == old(self)@.environment[k],
            decreases n - i,
        {
            let key = env.key_at(i).clone();
            let value = env.value_at(i).clone();
            let ghost before = self@.environment;
            self.environment.insert(key, value);
            proof {
                let k = env.keys()[i as int];
                assert(self@.environment =~= before.insert(k, env.values()[i as int]@));
                assert(env@[k] == env.values()[i as int]);
                let grown = env.keys().subrange(0, i + 1);
                let prefix = env.keys().subrange(0, i as int);
                assert(grown =~= prefix.push(k));
                assert forall|x: Seq<char>| grown.contains(x) <==> prefix.contains(x) || x == k by {
                    if grown.contains(x) {
                        let j = grown.index_of(x);
                        if j < i {
                            assert(prefix[j] == x);
                        }
                    }
                    if prefix.contains(x) {
                        let j = prefix.index_of(x);
                        assert(grown[j] == x);
                    }
                    if x == k {
                        assert(grown[i as int] == x);
                    }
                }
            }
            i += 1;
        }
        proof {
            assert(env.keys().subrange(0, n as int) =~= env.keys());
            assert(self@.environment =~= old(self)@.environment.union_prefer_right(
                text_map(env@),
            ));
        }
    }

    /// The linker search flags for the library paths.
    pub fn libs(&self) -> (r: String)
        ensures
            r@ == link_flags(self@.native_dirs),
    {
        let mut out = String::new();
        let mut i: usize = 0;
        while i < self.native_dirs.len()
            invariant
                i <= self.native_dirs@.len(),
                out@ == link_flags(texts(self.native_dirs@).subrange(0, i as int)),
            decreases self.native_dirs.len() - i,
        {
            proof {
                reveal_strlit(" ");
                assert(" "@ =~= seq![' ']);
                let grown = texts(self.native_dirs@).subrange(0, i + 1);
                assert(grown.drop_last() =~= texts(self.native_dirs@).subrange(0, i as int));
                assert(grown.last() == self.native_dirs@[i as int]@);
                if i == 0 {
                    assert(out@ + "-L native="@ + self.native_dirs@[0]@ =~= "-L native="@
                        + grown[0]);
                }
            }
            if i > 0 {
                out.append(" ");
            }
            out.append("-L native=");
            out.append(self.native_dirs[i].as_str());
            i += 1;
        }
        proof {
            assert(texts(self.native_dirs@).subrange(0, i as int) =~= texts(self.native_dirs@));
        }
        out
    }

    /// The compiler flags handed to the build: static linking, then the search flags.
    pub fn rustflags(&self) -> (r: String)
        ensures
            r@ == "-C target-feature=+crt-static "@ + link_flags(self@.native_dirs),
    {
        let flags = self.libs();
        "-C target-feature=+crt-static ".to_owned().concat(flags.as_str())
    }

    /// The arguments of the build command: a release build for this platform alone.
    pub fn build_args(&self) -> (r: Vec<String>)
        ensures
            texts(r@) == seq![
                "build"@,
                "--target"@,
                triple(self@.os, self@.arch),
                "--release"@,
            ],
    {
        let mut args: Vec<String> = Vec::new();
        args.push("build".to_owned());
        args.push("--target".to_owned());
        args.push(self.target_str().to_owned());
        args.push("--release".to_owned());
        proof {
            assert(texts(args@) =~= seq![
                "build"@,
                "--target"@,
                triple(self@.os, self@.arch),
                "--release"@,
            ]);
        }
        args
    }

    pub fn os(&self) -> (r: OS)
        ensures
            r == self@.os,
    {
        self.os
    }

    pub fn arch(&self) -> (r: Arch)
        ensures
            r == self@.arch,
    {
        self.arch
    }

    pub fn build_name(&self) -> (r: Option<&str>)
        ensures
            match r {
                Some(name) => self@.build_name == Some(name@),
                None => self@.build_name.is_none(),
            },
    {
        match &self.build_name {
            Some(name) => Some(name.as_str()),
            None => None,
        }
    }

    pub fn native_dirs(&self) -> (r: &[String])
        ensures
            texts(r@) == self@.native_dirs,
    {
        self.native_dirs.as_slice()
    }

    pub fn environment(&self) -> (r: &Table<String>)
        ensures
            r.wf() <== self.wf(),
            text_map(r@) == self@.environment,
    {
        &self.environment
    }
}

/// Whether one of the first `upto` targets is recorded under `name`.
pub fn occurs(targets: &Vec<Target>, upto: usize, name: &str) -> (r: bool)
    requires
        upto <= targets@.len(),
    ensures
        r == has_name(views(targets@).subrange(0, upto as int), name@),
{
    let mut k: usize = 0;
    while k < upto
        invariant
            k <= upto <= targets@.len(),
            forall|m: int| 0 <= m < k ==> name_of(#[trigger] views(targets@)[m]) != name@,
        decreases upto - k,
    {
        let other = targets[k].output_str();
        if same_text(other.as_str(), name) {
            proof {
                let prefix = views(targets@).subrange(0, upto as int);
                assert(name_of(prefix[k as int]) == name@);
            }
            return true;
        }
        k += 1;
    }
    proof {
        let prefix = views(targets@).subrange(0, upto as int);
        assert forall|m: int| 0 <= m < prefix.len() implies name_of(#[trigger] prefix[m])
            != name@ by {
            assert(prefix[m] == views(targets@)[m]);
        }
    }
    false
}

/// Takes out every target whose output name a target before it has, so that of the
/// targets under one name the first stays. Hands back the names taken out, one for
/// each target, in order.
pub fn keep_first(targets: &mut Vec<Target>) -> (dropped: Vec<String>)
    ensures
        views(final(targets)@) == first_of_each(views(old(targets)@)),
        texts(dropped@) == repeated_names(views(old(targets)@)),
        distinct_names(views(final(targets)@)),
        all_wf(old(targets)@) ==> all_wf(final(targets)@),
{
    let ghost all = views(targets@);
    let total = targets.len();
    let mut dropped: Vec<String> = Vec::new();
    let mut i: usize = 0;
    let mut j: usize = 0;
    proof {
        assert(views(targets@) =~= first_of_each(all.subrange(0, 0)) + all.subrange(
            0,
            total as int,
        ));
        assert(texts(dropped@) =~= repeated_names(all.subrange(0, 0)));
    }
    while i < targets.len()
        invariant
            all == views(old(targets)@),
            i <= j <= total == all.len(),
            targets@.len() == i + (total - j),
            i == first_of_each(all.subrange(0, j as int)).len(),
            views(targets@) == first_of_each(all.subrange(0, j as int)) + all.subrange(
                j as int,
                total as int,
            ),
            texts(dropped@) == repeated_names(all.subrange(0, j as int)),
            all_wf(old(targets)@) ==> all_wf(targets@),
        decreases targets.len() - i,
    {
        let ghost before = targets@;
        let ghost seen = all.subrange(0, j as int);
        let ghost grown = all.subrange(0, j + 1);
        let name = targets[i].output_str();
        let repeat = occurs(targets, i, name.as_str());
        proof {
            assert(grown.drop_last() =~= seen);
            assert(grown.last() == all[j as int]);
            assert(views(before)[i as int] == all[j as int]);
            assert(views(before).subrange(0, i as int) =~= first_of_each(seen));
            lemma_names_kept(seen, name@);
        }
        if repeat {
            let ghost names = dropped@;
            targets.remove(i);
            dropped.push(name);
            proof {
                assert(views(targets@) =~= views(before).remove(i as int));
                assert(first_of_each(grown) == first_of_each(seen));
                assert(views(targets@) =~= first_of_each(grown) + all.subrange(
                    j + 1,
                    total as int,
                ));
                assert(texts(dropped@) =~= texts(names).push(name@));
                if all_wf(before) {
                    assert forall|k: int| 0 <= k < targets@.len() implies (
                    #[trigger] targets@[k]).wf() by {
                        if k < i {
                            assert(targets@[k] == before[k]);
                        } else {
                            assert(targets@[k] == before[k + 1]);
                        }
                    }
                }
            }
        } else {
            proof {
                assert(views(targets@) =~= first_of_each(grown) + all.subrange(
                    j + 1,
                    total as int,
                ));
            }
            i += 1;
        }
        j += 1;
    }
    proof {
        assert(all.subrange(0, total as int) =~= all);
        assert(views(targets@) =~= first_of_each(all));
        lemma_first_of_each_distinct(all);
    }
    dropped
}

} // verus!
