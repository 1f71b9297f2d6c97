use vstd::prelude::*;
use crate::uri::str_chars;
use crate::error::{WrapError, ErrV};

verus! {

/// The `format` field of the manifest, read as JSON; what it is depends on
/// the text alone.
pub uninterp spec fn json_manifest_format(s: Seq<char>) -> Option<Seq<char>>;

/// The `format` field of the manifest, read as YAML; what it is depends on
/// the text alone.
pub uninterp spec fn yaml_manifest_format(s: Seq<char>) -> Option<Seq<char>>;

/// Whether the text is a valid semantic version.
pub uninterp spec fn semver_valid(s: Seq<char>) -> bool;

/// The ordering of two valid semantic versions: negative, zero or positive
/// as the first is lower than, equal to or higher than the second.
pub uninterp spec fn semver_cmp_of(a: Seq<char>, b: Seq<char>) -> i8;

/// Relies on serde_json::from_str and serde_json::Value::{get, as_str}: the
/// string under the manifest's `format` key, if the text is JSON and has
/// one, depends on the text alone.
#[verifier::external_body]
fn manifest_format_json(s: &str) -> (r: Option<String>)
    ensures
        (match r {
            Some(f) => json_manifest_format(s@) == Some(f@),
            None => json_manifest_format(s@) is None,
        }),
{
    match serde_json::from_str::<serde_json::Value>(s) {
        Ok(v) => match v.get("format") {
            Some(f) => match f.as_str() {
                Some(x) => Some(x.to_string()),
                None => None,
            },
            None => None,
        },
        Err(_) => None,
    }
}

/// Relies on serde_yaml::from_str and serde_json::Value::{get, as_str}: the
/// string under the manifest's `format` key, if the text is YAML and has
/// one, depends on the text alone.
#[verifier::external_body]
fn manifest_format_yaml(s: &str) -> (r: Option<String>)
    ensures
        (match r {
            Some(f) => yaml_manifest_format(s@) == Some(f@),
            None => yaml_manifest_format(s@) is None,
        }),
{
    match serde_yaml::from_str::<serde_json::Value>(s) {
        Ok(v) => match v.get("format") {
            Some(f) => match f.as_str() {
                Some(x) => Some(x.to_string()),
                None => None,
            },
            None => None,
        },
        Err(_) => None,
    }
}

/// Relies on semver::Version::parse: whether the text parses as a semantic
/// version depends on the text alone.
#[verifier::external_body]
fn is_valid_version(s: &str) -> (r: bool)
    ensures
        r == semver_valid(s@),
{
    semver::Version::parse(s).is_ok()
}

/// Relies on semver::Version::parse and its `Ord`: the ordering of two
/// valid versions depends on the texts alone.
#[verifier::external_body]
fn compare_versions(a: &str, b: &str) -> (r: i8)
    requires
        semver_valid(a@),
        semver_valid(b@),
    ensures
        r == semver_cmp_of(a@, b@),
{
    match (semver::Version::parse(a), semver::Version::parse(b)) {
        (Ok(x), Ok(y)) => match x.cmp(&y) {
            core::cmp::Ordering::Less => -1,
            core::cmp::Ordering::Equal => 0,
            core::cmp::Ordering::Greater => 1,
        },
        _ => 0,
    }
}

/// A deserialized manifest: the core reads only its format version.
pub struct WrapManifest {
    pub format: Vec<char>,
}

/// How a manifest is deserialized.
pub struct DeserializeManifestOptions {
    /// Skip schema validation.
    pub no_validate: bool,
}

/// The manifest's format string: the text is read as JSON first and as YAML
/// second.
pub open spec fn manifest_format_of(s: Seq<char>) -> Option<Seq<char>> {
    match json_manifest_format(s) {
        Some(f) => Some(f),
        None => yaml_manifest_format(s),
    }
}

/// What deserializing a manifest text yields: the format string of a
/// manifest whose format is a valid version equal to the latest supported
/// one, or a manifest error.
pub open spec fn deserialize_manifest_result(s: Seq<char>) -> Result<Seq<char>, ErrV> {
    match manifest_format_of(s) {
        None => Err(ErrV::Manifest("the manifest holds neither JSON nor YAML with a format"@)),
        Some(f) => if !semver_valid(f) {
            Err(ErrV::Manifest("the manifest format is not a valid version"@))
        } else if !semver_valid("0.1.0"@) {
            Err(ErrV::Manifest("the latest supported format is not a valid version"@))
        } else if semver_cmp_of(f, "0.1.0"@) == 0 {
            Ok(f)
        } else {
            Err(ErrV::Manifest("unsupported manifest version"@))
        },
    }
}

/// Deserializes a manifest text: reads its format as JSON or YAML, and
/// accepts the manifest exactly when the format is a valid version equal to
/// the latest supported one, `0.1.0`.
pub fn deserialize_polywrap_manifest(
    manifest: &str,
    options: Option<DeserializeManifestOptions>,
) -> (r: Result<WrapManifest, WrapError>)
    ensures
        (match r {
            Ok(m) => deserialize_manifest_result(manifest@) == Ok::<Seq<char>, ErrV>(m.format@),
            Err(e) => deserialize_manifest_result(manifest@) == Err::<Seq<char>, ErrV>(e@),
        }),
{
    let format: String = match manifest_format_json(manifest) {
        Some(f) => f,
        None => {
            match manifest_format_yaml(manifest) {
                Some(f) => f,
                None => {
                    return Err(
                        WrapError::ManifestError(
                            str_chars("the manifest holds neither JSON nor YAML with a format"),
                        ),
                    );
                },
            }
        },
    };
    if !is_valid_version(format.as_str()) {
        return Err(
            WrapError::ManifestError(str_chars("the manifest format is not a valid version")),
        );
    }
    if !is_valid_version("0.1.0") {
        return Err(
            WrapError::ManifestError(
                str_chars("the latest supported format is not a valid version"),
            ),
        );
    }
    if compare_versions(format.as_str(), "0.1.0") == 0 {
        Ok(WrapManifest { format: str_chars(format.as_str()) })
    } else {
        Err(WrapError::ManifestError(str_chars("unsupported manifest version")))
    }
}

} // verus!
