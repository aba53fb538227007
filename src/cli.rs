//! Names of schemata and export formats as given on a command line.

use vstd::prelude::*;

use crate::contract::str_eq;
use crate::schema::Subschema;

verus! {

/// An argument value that names nothing known.
#[derive(Clone, PartialEq, Eq, Debug, Hash)]
pub struct InvalidName(pub String);

/// Schemata that can be exported.
#[derive(Copy, Clone, Eq, PartialEq, Structural, Ord, PartialOrd, Hash, Debug)]
#[non_exhaustive]
pub enum SchemaName {
    /// The root RGB20 schema.
    LegacyBasic,
    /// The RGB20 schema without burn & replace, renomination and epochs.
    LegacyComplete,
}

/// The schema name that `s` spells, if any.
pub open spec fn schema_name_of(s: Seq<char>) -> Option<SchemaName> {
    if s == "legacy-basic"@ {
        Some(SchemaName::LegacyBasic)
    } else if s == "legacy-complete"@ {
        Some(SchemaName::LegacyComplete)
    } else {
        None
    }
}

impl SchemaName {
    /// Parses `legacy-basic` or `legacy-complete`.
    pub fn parse(s: &str) -> (r: Result<SchemaName, InvalidName>)
        ensures
            match r {
                Ok(n) => schema_name_of(s@) == Some(n),
                Err(InvalidName(w)) => schema_name_of(s@) is None && w@ == s@,
            },
    {
        if str_eq(s, "legacy-basic") {
            Ok(SchemaName::LegacyBasic)
        } else if str_eq(s, "legacy-complete") {
            Ok(SchemaName::LegacyComplete)
        } else {
            Err(InvalidName(s.to_owned()))
        }
    }

    /// The schema variant that the name stands for.
    pub fn subschema(self) -> (r: Subschema)
        ensures
            r == match self {
                SchemaName::LegacyBasic => Subschema::Full,
                SchemaName::LegacyComplete => Subschema::Inflationary,
            },
    {
        match self {
            SchemaName::LegacyBasic => Subschema::Full,
            SchemaName::LegacyComplete => Subschema::Inflationary,
        }
    }
}

impl std::str::FromStr for SchemaName {
    type Err = InvalidName;

    fn from_str(s: &str) -> Result<Self, Self::Err> {
        SchemaName::parse(s)
    }
}

/// Formats a schema can be exported in.
#[derive(Copy, Clone, Eq, PartialEq, Structural, Ord, PartialOrd, Hash, Debug)]
pub enum ExportFormat {
    /// Strict binary encoding.
    Binary,
    /// Bech32 string of the compressed binary encoding.
    Bech32,
    /// Base64 string of the binary encoding.
    Base64,
    /// JSON.
    Json,
    /// YAML.
    Yaml,
}

/// The export format that `s` spells, if any.
pub open spec fn export_format_of(s: Seq<char>) -> Option<ExportFormat> {
    if s == "bin"@ {
        Some(ExportFormat::Binary)
    } else if s == "bech32"@ {
        Some(ExportFormat::Bech32)
    } else if s == "base64"@ {
        Some(ExportFormat::Base64)
    } else if s == "json"@ {
        Some(ExportFormat::Json)
    } else if s == "yaml"@ {
        Some(ExportFormat::Yaml)
    } else {
        None
    }
}

impl ExportFormat {
    /// Parses `bin`, `bech32`, `base64`, `json` or `yaml`.
    pub fn parse(s: &str) -> (r: Result<ExportFormat, InvalidName>)
        ensures
            match r {
                Ok(f) => export_format_of(s@) == Some(f),
                Err(InvalidName(w)) => export_format_of(s@) is None && w@ == s@,
            },
    {
        if str_eq(s, "bin") {
            Ok(ExportFormat::Binary)
        } else if str_eq(s, "bech32") {
            Ok(ExportFormat::Bech32)
        } else if str_eq(s, "base64") {
            Ok(ExportFormat::Base64)
        } else if str_eq(s, "json") {
            Ok(ExportFormat::Json)
        } else if str_eq(s, "yaml") {
            Ok(ExportFormat::Yaml)
        } else {
            Err(InvalidName(s.to_owned()))
        }
    }
}

impl std::str::FromStr for ExportFormat {
    type Err = InvalidName;

    fn from_str(s: &str) -> Result<Self, Self::Err> {
        ExportFormat::parse(s)
    }
}

} // verus!
