use release_manager::config::v0;
use release_manager::config::v1;
use release_manager::config::v2;
use release_manager::config::{load, Config, ConfigState, EmptyConfig, Skipped, TargetConfig};
use release_manager::error::Error;
use release_manager::table::Table;
use release_manager::target::{Arch, OS};

fn env_of(pairs: &[(&str, &str)]) -> Table<String> {
    let mut env = Table::new();
    for (k, v) in pairs {
        env.insert(k.to_string(), v.to_string());
    }
    env
}

fn flat(libs: &[&str], env: &[(&str, &str)]) -> TargetConfig {
    TargetConfig::new(libs.iter().map(|s| s.to_string()).collect(), env_of(env))
}

fn old_config() -> Table<Table<TargetConfig>> {
    let mut linux = Table::new();
    linux.insert("amd64".to_string(), flat(&["/l1", "/l2"], &[("CC", "gcc")]));
    linux.insert("i686".to_string(), flat(&[], &[]));
    linux.insert("sparc".to_string(), flat(&[], &[]));
    linux.insert("armh".to_string(), flat(&[], &[]));
    let mut plan9 = Table::new();
    plan9.insert("amd64".to_string(), flat(&[], &[]));
    let mut windows = Table::new();
    windows.insert("i686".to_string(), flat(&["/w"], &[]));
    windows.insert("aarch64".to_string(), flat(&[], &[]));
    let mut config = Table::new();
    config.insert("Linux".to_string(), linux);
    config.insert("Plan9".to_string(), plan9);
    config.insert("Windows".to_string(), windows);
    config
}

fn first() -> v0::Config {
    v0::Config {
        release_path: "out".to_string(),
        license: "LICENSE".to_string(),
        readme: "README.md".to_string(),
        config: old_config(),
    }
}

fn names(targets: &[release_manager::Target]) -> Vec<String> {
    targets.iter().map(|t| t.output_str()).collect()
}

#[test]
fn the_first_schema_resolves_its_targets_in_order() {
    let targets = first().targets();
    assert_eq!(
        names(&targets),
        vec![
            "x86_64-unknown-linux-gnu".to_string(),
            "arm-unknown-linux-gnueabihf".to_string(),
            "i686-pc-windows-gnu".to_string(),
        ]
    );
    assert_eq!(targets[0].os(), OS::Linux);
    assert_eq!(targets[0].arch(), Arch::Amd64);
    assert_eq!(targets[0].libs(), "-L native=/l1 -L native=/l2");
    assert_eq!(targets[0].environment().get("CC"), Some(&"gcc".to_string()));
    assert_eq!(targets[2].libs(), "-L native=/w");
    assert_eq!(targets[2].build_name(), None);
}

#[test]
fn the_second_schema_takes_readme_and_licence_as_included_files() {
    let second = v1::Config::from(first());
    assert_eq!(second.release_path, "out");
    assert_eq!(second.included_files(), &["README.md".to_string(), "LICENSE".to_string()]);
    assert_eq!(second.config.len(), 3);
    assert_eq!(names(&second.targets()), names(&first().targets()));
}

#[test]
fn the_current_schema_lists_one_override_per_old_platform() {
    let current = v2::Config::from(v1::Config::from(first()));
    assert_eq!(current.release_path, "out");
    assert_eq!(current.included_files(), &["README.md".to_string(), "LICENSE".to_string()]);
    assert_eq!(current.config.len(), 3);
    assert_eq!(current.config.key_at(0), "Linux");
    assert_eq!(current.config.key_at(1), "Plan9");
    assert_eq!(current.config.key_at(2), "Windows");
    let linux = current.config.get("Linux").unwrap();
    assert_eq!(linux.len(), 4);
    assert_eq!(linux.key_at(0), "amd64");
    let overrides = linux.get("amd64").unwrap();
    assert_eq!(overrides.len(), 1);
    assert_eq!(overrides[0].build_name(), None);
    assert_eq!(overrides[0].libs(), &["/l1".to_string(), "/l2".to_string()]);
    assert_eq!(overrides[0].env().get("CC"), Some(&"gcc".to_string()));
    assert_eq!(overrides[0].env().len(), 1);
    assert_eq!(linux.get("sparc").unwrap().len(), 1);
}

#[test]
fn bringing_a_document_forward_keeps_its_targets() {
    let current = v2::Config::from(v1::Config::from(first()));
    let before = first().targets();
    let after = current.targets();
    assert_eq!(names(&after), names(&before));
    assert_eq!(after[0].libs(), before[0].libs());
    assert_eq!(after[0].environment().get("CC"), Some(&"gcc".to_string()));
}

#[test]
fn an_override_of_the_old_schemas_gets_no_build_name() {
    let tc = v2::TargetConfig::from(flat(&["/a"], &[("K", "V")]));
    assert_eq!(tc.build_name(), None);
    assert_eq!(tc.libs(), &["/a".to_string()]);
    assert_eq!(tc.env().get("K"), Some(&"V".to_string()));
}

fn current() -> Config {
    let mut amd64 = Vec::new();
    amd64.push(v2::TargetConfig::new(None, vec!["/a".to_string()], env_of(&[("A", "1")])));
    amd64.push(v2::TargetConfig::new(
        Some("slim".to_string()),
        vec!["/b".to_string(), "/c".to_string()],
        env_of(&[("A", "2"), ("B", "3")]),
    ));
    let mut i686 = Vec::new();
    i686.push(v2::TargetConfig::new(Some("never".to_string()), Vec::new(), env_of(&[])));
    let mut linux = Table::new();
    linux.insert("amd64".to_string(), amd64);
    linux.insert("i686".to_string(), i686);
    linux.insert("aarch64".to_string(), Vec::new());
    let mut mac = Table::new();
    mac.insert(
        "amd64".to_string(),
        vec![v2::TargetConfig::new(None, Vec::new(), env_of(&[]))],
    );
    mac.insert(
        "bogus".to_string(),
        vec![v2::TargetConfig::new(None, Vec::new(), env_of(&[]))],
    );
    let mut config = Table::new();
    config.insert("Linux".to_string(), linux);
    config.insert("Solaris".to_string(), Table::new());
    config.insert("Mac".to_string(), mac);
    Config {
        release_path: "release".to_string(),
        included_files: vec!["LICENSE".to_string()],
        config,
    }
}

#[test]
fn the_current_schema_resolves_every_override() {
    let targets = current().targets();
    assert_eq!(
        names(&targets),
        vec![
            "x86_64-unknown-linux-gnu".to_string(),
            "x86_64-unknown-linux-gnu-slim".to_string(),
            "x86_64-apple-darwin".to_string(),
        ]
    );
    assert_eq!(targets[1].build_name(), Some("slim"));
    assert_eq!(targets[1].libs(), "-L native=/b -L native=/c");
    assert_eq!(targets[1].environment().get("A"), Some(&"2".to_string()));
    assert_eq!(targets[1].environment().get("B"), Some(&"3".to_string()));
    assert_eq!(targets[0].environment().len(), 1);
    assert_eq!(current().included_files(), &["LICENSE".to_string()]);
}

#[test]
fn an_entry_without_a_build_adds_no_target() {
    let mut windows = Table::new();
    windows.insert(
        "armh".to_string(),
        vec![v2::TargetConfig::new(None, Vec::new(), env_of(&[]))],
    );
    let mut config = Table::new();
    config.insert("Windows".to_string(), windows);
    let c = Config { release_path: String::new(), included_files: Vec::new(), config };
    assert_eq!(c.targets().len(), 0);
}

#[test]
fn load_takes_the_current_schema_as_it_is() {
    let loaded = load(Ok(current()), Ok(v1::Config::from(first())), Ok(first()));
    let (config, state) = loaded.unwrap();
    assert_eq!(state, ConfigState::Current);
    assert_eq!(config.release_path, "release");
    assert_eq!(config.targets().len(), 3);
}

#[test]
fn load_brings_the_second_schema_forward() {
    let loaded = load(
        Err(Error::TomlRead("missing field".to_string())),
        Ok(v1::Config::from(first())),
        Err(Error::TomlRead("other".to_string())),
    );
    let (config, state) = loaded.unwrap();
    assert_eq!(state, ConfigState::Upgraded);
    assert_eq!(config.release_path, "out");
    assert_eq!(config.included_files(), &["README.md".to_string(), "LICENSE".to_string()]);
    assert_eq!(config.config.get("Windows").unwrap().get("i686").unwrap().len(), 1);
}

#[test]
fn load_brings_the_first_schema_forward_through_the_second() {
    let loaded = load(
        Err(Error::TomlRead("current".to_string())),
        Err(Error::TomlRead("second".to_string())),
        Ok(first()),
    );
    let (config, state) = loaded.unwrap();
    assert_eq!(state, ConfigState::Upgraded);
    assert_eq!(config.included_files(), &["README.md".to_string(), "LICENSE".to_string()]);
    assert_eq!(names(&config.targets()), names(&first().targets()));
}

#[test]
fn load_hands_back_the_failure_of_the_current_schema() {
    let loaded = load(
        Err(Error::TomlRead("current".to_string())),
        Err(Error::TomlRead("second".to_string())),
        Err(Error::IO("first".to_string())),
    );
    assert!(matches!(loaded, Err(Error::TomlRead(ref text)) if text == "current"));
}

#[test]
fn each_schema_keeps_its_own_failure_when_the_one_before_fails_too() {
    let r = v1::Config::new(Err(Error::TomlRead("mine".to_string())), Err(Error::Config));
    assert!(matches!(r, Err(Error::TomlRead(ref text)) if text == "mine"));
    let r = v0::Config::new(Err(Error::IO("mine".to_string())), EmptyConfig::new());
    assert!(matches!(r, Err(Error::IO(ref text)) if text == "mine"));
    let r = v2::Config::new(Err(Error::NotTable), Err(Error::Config));
    assert!(matches!(r, Err(Error::NotTable)));
}

#[test]
fn the_empty_schema_reads_and_saves_nothing() {
    assert!(matches!(EmptyConfig::new(), Err(Error::Config)));
    assert!(matches!(EmptyConfig.save(), Err(Error::Config)));
    assert_eq!(EmptyConfig.targets().len(), 0);
    let c = v0::Config::from(EmptyConfig);
    assert_eq!(c.release_path, "");
    assert_eq!(c.license, "");
    assert_eq!(c.readme, "");
    assert_eq!(c.config.len(), 0);
}

fn repeating() -> Config {
    let mut amd64 = Vec::new();
    amd64.push(v2::TargetConfig::new(
        Some("gui".to_string()),
        vec!["/first".to_string()],
        env_of(&[("WHICH", "first")]),
    ));
    amd64.push(v2::TargetConfig::new(None, Vec::new(), env_of(&[])));
    amd64.push(v2::TargetConfig::new(
        Some("gui".to_string()),
        vec!["/second".to_string()],
        env_of(&[("WHICH", "second")]),
    ));
    amd64.push(v2::TargetConfig::new(None, vec!["/again".to_string()], env_of(&[])));
    amd64.push(v2::TargetConfig::new(Some("cli".to_string()), Vec::new(), env_of(&[])));
    let mut linux = Table::new();
    linux.insert("amd64".to_string(), amd64);
    let mut config = Table::new();
    config.insert("Linux".to_string(), linux);
    Config { release_path: "release".to_string(), included_files: Vec::new(), config }
}

#[test]
fn two_overrides_of_one_build_name_give_one_target() {
    let targets = repeating().targets();
    assert_eq!(
        names(&targets),
        vec![
            "x86_64-unknown-linux-gnu-gui".to_string(),
            "x86_64-unknown-linux-gnu".to_string(),
            "x86_64-unknown-linux-gnu-cli".to_string(),
        ]
    );
    assert_eq!(targets[0].libs(), "-L native=/first");
    assert_eq!(targets[0].environment().get("WHICH"), Some(&"first".to_string()));
    assert_eq!(targets[1].libs(), "");
}

#[test]
fn resolved_targets_have_distinct_output_names() {
    for config in [repeating(), current()] {
        let found = names(&config.targets());
        for i in 0..found.len() {
            for j in 0..i {
                assert_ne!(found[i], found[j]);
            }
        }
    }
}

#[test]
fn passed_over_lists_the_repeated_overrides() {
    assert_eq!(
        repeating().passed_over(),
        vec![
            Skipped::Repeated("x86_64-unknown-linux-gnu-gui".to_string()),
            Skipped::Repeated("x86_64-unknown-linux-gnu".to_string()),
        ]
    );
}

#[test]
fn passed_over_lists_what_names_no_platform_with_a_build() {
    assert_eq!(
        current().passed_over(),
        vec![
            Skipped::Unsupported(OS::Linux, Arch::I686),
            Skipped::UnknownOs("Solaris".to_string()),
            Skipped::UnknownArch(OS::Mac, "bogus".to_string()),
        ]
    );
}

#[test]
fn passed_over_counts_every_override_of_a_platform_without_a_build() {
    let mut windows = Table::new();
    windows.insert(
        "armh".to_string(),
        vec![
            v2::TargetConfig::new(None, Vec::new(), env_of(&[])),
            v2::TargetConfig::new(Some("x".to_string()), Vec::new(), env_of(&[])),
        ],
    );
    windows.insert("aarch64".to_string(), Vec::new());
    let mut config = Table::new();
    config.insert("Windows".to_string(), windows);
    let c = Config { release_path: String::new(), included_files: Vec::new(), config };
    assert_eq!(
        c.passed_over(),
        vec![
            Skipped::Unsupported(OS::Windows, Arch::Armh),
            Skipped::Unsupported(OS::Windows, Arch::Armh),
        ]
    );
    assert_eq!(c.targets().len(), 0);
}

#[test]
fn a_document_that_resolves_whole_passes_nothing_over() {
    let current = v2::Config::from(v1::Config::from(v0::Config::from(EmptyConfig)));
    assert_eq!(current.passed_over(), Vec::new());
}
