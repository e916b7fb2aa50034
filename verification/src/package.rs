//! Reading the name and the version of the crate to release out of its parsed
//! manifest.
use vstd::prelude::*;
use crate::error::Error;

verus! {

/// `toml::Value`, carried through as it is.
#[verifier::external_type_specification]
#[verifier::external_body]
pub struct ExValue(toml::Value);

/// The value that `table` holds under the key `name`: none where `table` is no
/// table or has no such key.
pub uninterp spec fn entry_of(table: toml::Value, name: Seq<char>) -> Option<toml::Value>;

/// The text of `value`: none where `value` is no string.
pub uninterp spec fn text_of(value: toml::Value) -> Option<Seq<char>>;

/// `toml::Value::get` with a string as the index. It looks the string up among the
/// keys where the value is a table and gives nothing for any other value; the
/// contract gives that result the name `entry_of`.
#[verifier::external_body]
fn entry<'a>(table: &'a toml::Value, name: &str) -> (r: Option<&'a toml::Value>)
    ensures
        match r {
            Some(value) => entry_of(*table, name@) == Some(*value),
            None => entry_of(*table, name@).is_none(),
        },
{
    table.get(name)
}

/// `toml::Value::as_str`. It gives the text where the value is a string and nothing
/// for any other value; the contract gives that result the name `text_of`.
#[verifier::external_body]
fn text<'a>(value: &'a toml::Value) -> (r: Option<&'a str>)
    ensures
        match r {
            Some(s) => text_of(*value) == Some(s@),
            None => text_of(*value).is_none(),
        },
{
    value.as_str()
}

/// The text of a field, from what was found under its key: `missing_err` where
/// nothing was found, `Error::NotString` where what was found is no string.
pub fn string_field<'a>(found: Option<Option<&'a str>>, missing_err: Error) -> (r: Result<
    &'a str,
    Error,
>)
    ensures
        match found {
            None => r == Err::<&str, Error>(missing_err),
            Some(None) => r == Err::<&str, Error>(Error::NotString),
            Some(Some(s)) => r == Ok::<&str, Error>(s),
        },
{
    match found {
        None => Err(missing_err),
        Some(None) => Err(Error::NotString),
        Some(Some(s)) => Ok(s),
    }
}

/// What `table_str` gives for a table, a key and the error for a missing key.
pub open spec fn field_of(table: toml::Value, name: Seq<char>, missing_err: Error) -> Result<
    Seq<char>,
    Error,
> {
    match entry_of(table, name) {
        None => Err(missing_err),
        Some(value) => match text_of(value) {
            None => Err(Error::NotString),
            Some(s) => Ok(s),
        },
    }
}

/// The text that `table` holds under the key `name`.
pub fn table_str<'a>(table: &'a toml::Value, name: &str, missing_err: Error) -> (r: Result<
    &'a str,
    Error,
>)
    ensures
        match field_of(*table, name@, missing_err) {
            Ok(s) => r matches Ok(t) && t@ == s,
            Err(e) => r == Err::<&str, Error>(e),
        },
{
    let found = match entry(table, name) {
        Some(value) => Some(text(value)),
        None => None,
    };
    string_field(found, missing_err)
}

/// What `package_info` gives for a manifest.
pub open spec fn info_of(manifest: toml::Value) -> Result<(Seq<char>, Seq<char>), Error> {
    match entry_of(manifest, "package"@) {
        None => Err(Error::PackageMissing),
        Some(package) => match field_of(package, "name"@, Error::NameMissing) {
            Err(e) => Err(e),
            Ok(name) => match field_of(package, "version"@, Error::VersionMissing) {
                Err(e) => Err(e),
                Ok(version) => Ok((name, version)),
            },
        },
    }
}

/// The name and the version, from what was found in a manifest: nothing where it has
/// no `package` section, else what was found of the two fields. A failure to find the
/// name comes before one to find the version.
pub fn chosen_info(found: Option<(Result<&str, Error>, Result<&str, Error>)>) -> (r: Result<
    (String, String),
    Error,
>)
    ensures
        match found {
            None => r == Err::<(String, String), Error>(Error::PackageMissing),
            Some((Err(e), _)) => r == Err::<(String, String), Error>(e),
            Some((Ok(_), Err(e))) => r == Err::<(String, String), Error>(e),
            Some((Ok(name), Ok(version))) => r matches Ok((n, v)) && n@ == name@ && v@
                == version@,
        },
{
    match found {
        None => Err(Error::PackageMissing),
        Some((Err(e), _)) => Err(e),
        Some((Ok(_), Err(e))) => Err(e),
        Some((Ok(name), Ok(version))) => Ok((name.to_owned(), version.to_owned())),
    }
}

/// The name and the version that the `package` section of a manifest declares.
pub fn package_info(manifest: &toml::Value) -> (r: Result<(String, String), Error>)
    ensures
        match info_of(*manifest) {
            Ok((name, version)) => r matches Ok((n, v)) && n@ == name && v@ == version,
            Err(e) => r == Err::<(String, String), Error>(e),
        },
{
    let found = match entry(manifest, "package") {
        Some(package) => Some(
            (
                table_str(package, "name", Error::NameMissing),
                table_str(package, "version", Error::VersionMissing),
            ),
        ),
        None => None,
    };
    chosen_info(found)
}

} // verus!
