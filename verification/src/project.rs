//! Versioning rules of the project file: which `format_version` values a
//! build accepts, and the migration chain that brings an accepted file up to
//! the current format.
use vstd::prelude::*;
use crate::text::{nat_text, push_nat, push_str};

verus! {

/// Current project-file format version.
pub const PROJECT_FORMAT_VERSION: u32 = 1;

/// What a project file holds under `format_version`.
#[derive(Debug, Clone, Copy, PartialEq, Eq, Structural)]
pub enum FormatVersionField {
    /// The key is absent.
    Missing,
    /// The value is not a non-negative integer.
    NotUnsigned,
    /// A non-negative integer.
    Value(u64),
}

pub open spec fn missing_version_message() -> Seq<char> {
    "not a pcbmotorgen project file: missing format_version"@
}

pub open spec fn bad_version_message() -> Seq<char> {
    "corrupt project file: format_version must be a non-negative integer"@
}

pub open spec fn newer_version_message(v: u64) -> Seq<char> {
    "project file was saved by a newer version of pcbmotorgen (format v"@ + nat_text(v as nat)
        + "); this build supports up to v"@ + nat_text(PROJECT_FORMAT_VERSION as nat)
        + ". Update the app to open this file."@
}

pub open spec fn no_migration_message(v: u32) -> Seq<char> {
    "no migration path from project format v"@ + nat_text(v as nat)
}

/// The version a file declares, or why it is refused: a missing or
/// non-integer version, or one newer than this build (compared as the full
/// integer the file holds).
pub fn project_format_version(field: FormatVersionField) -> (r: Result<u32, String>)
    ensures
        match field {
            FormatVersionField::Missing => r matches Err(m) && m@ == missing_version_message(),
            FormatVersionField::NotUnsigned => r matches Err(m) && m@ == bad_version_message(),
            FormatVersionField::Value(v) => if v > PROJECT_FORMAT_VERSION {
                r matches Err(m) && m@ == newer_version_message(v)
            } else {
                r == Ok::<u32, String>(v as u32)
            },
        },
{
    match field {
        FormatVersionField::Missing => {
            let mut m = String::new();
            push_str(&mut m, "not a pcbmotorgen project file: missing format_version");
            Err(m)
        },
        FormatVersionField::NotUnsigned => {
            let mut m = String::new();
            push_str(&mut m, "corrupt project file: format_version must be a non-negative integer");
            Err(m)
        },
        FormatVersionField::Value(v) => {
            if v > PROJECT_FORMAT_VERSION as u64 {
                let mut m = String::new();
                push_str(&mut m, "project file was saved by a newer version of pcbmotorgen (format v");
                push_nat(&mut m, v);
                push_str(&mut m, "); this build supports up to v");
                push_nat(&mut m, PROJECT_FORMAT_VERSION as u64);
                push_str(&mut m, ". Update the app to open this file.");
                Err(m)
            } else {
                Ok(v as u32)
            }
        },
    }
}

/// One step of the migration chain: the step from `v` to `v + 1`, if there
/// is one. Version 1 is current, so its step is the identity.
pub open spec fn has_migration_step(v: u32) -> bool {
    v == 1
}

/// Walk the migration chain from `from` up to the current version: every
/// step must exist. Fails at the first version without a step.
pub fn migration_path(from: u32) -> (r: Result<u32, String>)
    ensures
        from >= PROJECT_FORMAT_VERSION ==> r == Ok::<u32, String>(from),
        from < PROJECT_FORMAT_VERSION ==> (r matches Err(m) && m@ == no_migration_message(from)),
{
    let mut v = from;
    while v < PROJECT_FORMAT_VERSION
        invariant
            from <= v,
            v < PROJECT_FORMAT_VERSION ==> v == from,
            from >= PROJECT_FORMAT_VERSION ==> v == from,
            from < PROJECT_FORMAT_VERSION ==> v < PROJECT_FORMAT_VERSION,
        decreases PROJECT_FORMAT_VERSION - v,
    {
        if v == 1 {
            v = v + 1;
        } else {
            let mut m = String::new();
            push_str(&mut m, "no migration path from project format v");
            push_nat(&mut m, v as u64);
            return Err(m);
        }
    }
    Ok(v)
}

} // verus!
