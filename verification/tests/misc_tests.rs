use release_manager::commandline::Opt;
use release_manager::error::Error;
use release_manager::package::{chosen_info, package_info, string_field, table_str};
use release_manager::paths::{archive_name, build_path, join, release_dir, with_exe};

fn parse(text: &str) -> toml::Value {
    toml::Value::Table(text.parse::<toml::Table>().unwrap())
}

#[test]
fn error_messages() {
    assert_eq!(Error::IO("disk".to_string()).message(), "IO Error: disk");
    assert_eq!(Error::TomlRead("bad".to_string()).message(), "Error reading TOML: bad");
    assert_eq!(Error::TomlWrite("bad".to_string()).message(), "Error writing TOML: bad");
    assert_eq!(Error::Zip("full".to_string()).message(), "Error making .zip: full");
    assert_eq!(Error::ZipPath.message(), "Path for zip file is invalid");
    assert_eq!(Error::PathString.message(), "Path could not be converted to string");
    assert_eq!(Error::InvalidTarget.message(), "Supplied target is not supported");
    assert_eq!(Error::PackageMissing.message(), "Crate is missing [package] section");
    assert_eq!(Error::NameMissing.message(), "Crate is missing the 'name' parameter");
    assert_eq!(Error::VersionMissing.message(), "Crate is missing the 'version' parameter");
    assert_eq!(
        Error::NotString.message(),
        "Expected a toml::Value::String, got something else"
    );
    assert_eq!(
        Error::NotTable.message(),
        "Expected a toml::Value::Table, got somethign else"
    );
    assert_eq!(Error::RePublish.message(), "Cannot re-publish an already published crate");
    assert_eq!(Error::FailedBuilds.message(), "Some builds failed");
    assert_eq!(Error::Config.message(), "No usable release configuration");
}

#[test]
fn table_str_gives_the_text_under_a_key() {
    let doc = parse("name = \"tool\"\nversion = \"1.2.3\"\nyear = 2017\n");
    assert!(matches!(table_str(&doc, "name", Error::NameMissing), Ok("tool")));
    assert!(matches!(table_str(&doc, "version", Error::VersionMissing), Ok("1.2.3")));
}

#[test]
fn table_str_gives_the_error_for_a_missing_key() {
    let doc = parse("name = \"tool\"\n");
    assert!(matches!(
        table_str(&doc, "version", Error::VersionMissing),
        Err(Error::VersionMissing)
    ));
    assert!(matches!(table_str(&doc, "Name", Error::NameMissing), Err(Error::NameMissing)));
}

#[test]
fn table_str_refuses_what_is_no_string() {
    let doc = parse("year = 2017\n[package]\nname = \"tool\"\n");
    assert!(matches!(table_str(&doc, "year", Error::NameMissing), Err(Error::NotString)));
    assert!(matches!(table_str(&doc, "package", Error::NameMissing), Err(Error::NotString)));
}

#[test]
fn table_str_finds_nothing_in_what_is_no_table() {
    let doc = parse("name = \"tool\"\n");
    let name = doc.get("name").unwrap();
    assert!(matches!(table_str(name, "name", Error::NotTable), Err(Error::NotTable)));
}

#[test]
fn string_field_tells_the_three_cases_apart() {
    assert!(matches!(string_field(None, Error::NameMissing), Err(Error::NameMissing)));
    assert!(matches!(string_field(Some(None), Error::NameMissing), Err(Error::NotString)));
    assert!(matches!(string_field(Some(Some("x")), Error::NameMissing), Ok("x")));
}

#[test]
fn package_info_reads_name_and_version() {
    let doc = parse("[package]\nname = \"tool\"\nversion = \"1.0.0\"\n[dependencies]\n");
    let (name, version) = package_info(&doc).unwrap();
    assert_eq!(name, "tool");
    assert_eq!(version, "1.0.0");
}

#[test]
fn package_info_names_what_is_missing() {
    assert!(matches!(
        package_info(&parse("[dependencies]\n")),
        Err(Error::PackageMissing)
    ));
    assert!(matches!(
        package_info(&parse("[package]\nversion = \"1.0.0\"\n")),
        Err(Error::NameMissing)
    ));
    assert!(matches!(
        package_info(&parse("[package]\nname = \"tool\"\n")),
        Err(Error::VersionMissing)
    ));
    assert!(matches!(
        package_info(&parse("[package]\nname = \"tool\"\nversion = 1\n")),
        Err(Error::NotString)
    ));
    assert!(matches!(
        package_info(&parse("[package]\nname = 1\n")),
        Err(Error::NotString)
    ));
}

#[test]
fn paths_of_a_release() {
    assert_eq!(join("a", "b"), "a/b");
    assert_eq!(join("", ""), "/");
    assert_eq!(release_dir("release", "tool", "1.0.0"), "release/tool/1.0.0");
    assert_eq!(
        build_path("/work", "x86_64-pc-windows-gnu", "tool"),
        "/work/target/x86_64-pc-windows-gnu/release/tool"
    );
    assert_eq!(with_exe("/work/tool"), "/work/tool.exe");
    assert_eq!(archive_name("x86_64-unknown-linux-gnu-slim"), "x86_64-unknown-linux-gnu-slim.zip");
}

#[test]
fn options_hand_back_what_they_were_given() {
    let opt = Opt::new(true, false, true, false, Some("R.toml".to_string()), None);
    assert!(opt.force_compile());
    assert!(!opt.skip_dependencies());
    assert!(opt.publish());
    assert!(!opt.verbose());
    assert_eq!(opt.release_config(), Some("R.toml"));
    assert_eq!(opt.status_file(), None);
    let opt = Opt::new(false, true, false, true, None, Some("S.toml".to_string()));
    assert!(!opt.force_compile());
    assert!(opt.skip_dependencies());
    assert!(!opt.publish());
    assert!(opt.verbose());
    assert_eq!(opt.release_config(), None);
    assert_eq!(opt.status_file(), Some("S.toml"));
}

#[test]
fn chosen_info_puts_the_name_before_the_version() {
    assert!(matches!(chosen_info(None), Err(Error::PackageMissing)));
    assert!(matches!(
        chosen_info(Some((Err(Error::NameMissing), Err(Error::VersionMissing)))),
        Err(Error::NameMissing)
    ));
    assert!(matches!(
        chosen_info(Some((Ok("tool"), Err(Error::NotString)))),
        Err(Error::NotString)
    ));
    let (name, version) = chosen_info(Some((Ok("tool"), Ok("0.3.1")))).unwrap();
    assert_eq!(name, "tool");
    assert_eq!(version, "0.3.1");
}
