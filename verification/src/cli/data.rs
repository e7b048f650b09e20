//! The formats of data and configuration files, chosen by file extension.
use vstd::prelude::*;

use crate::strings::str_eq;

verus! {

/// A format of data files: lists of records.
#[derive(Debug, Clone, Copy, PartialEq, Eq, Structural)]
pub enum DataFormat {
    Json,
    Csv,
    NdJson,
}

/// A format of configuration files.
#[derive(Debug, Clone, Copy, PartialEq, Eq, Structural)]
pub enum ConfigFormat {
    Json,
    Yaml,
    Toml,
}


/// The data format of a file extension, if it names one.
pub open spec fn data_format_of(ext: Seq<char>) -> Option<DataFormat> {
    if ext == "json"@ {
        Some(DataFormat::Json)
    } else if ext == "csv"@ {
        Some(DataFormat::Csv)
    } else if ext == "ndjson"@ {
        Some(DataFormat::NdJson)
    } else {
        None
    }
}

impl DataFormat {
    /// The data format of the file extension `ext`: `json`, `csv` or
    /// `ndjson`.
    pub fn from_ext(ext: &str) -> (f: Option<DataFormat>)
        ensures
            f == data_format_of(ext@),
    {
        if str_eq(ext, "json") {
            Some(DataFormat::Json)
        } else if str_eq(ext, "csv") {
            Some(DataFormat::Csv)
        } else if str_eq(ext, "ndjson") {
            Some(DataFormat::NdJson)
        } else {
            None
        }
    }

    /// The format of a data file: that of its extension, when it has one
    /// that names a format, else `default_format`.
    pub fn for_file(ext: Option<&str>, default_format: DataFormat) -> (f: DataFormat)
        ensures
            f == match ext {
                Some(e) => match data_format_of(e@) {
                    Some(g) => g,
                    None => default_format,
                },
                None => default_format,
            },
    {
        match ext {
            Some(e) => match DataFormat::from_ext(e) {
                Some(g) => g,
                None => default_format,
            },
            None => default_format,
        }
    }
}

/// The configuration format of a file extension, if it names one.
pub open spec fn config_format_of(ext: Seq<char>) -> Option<ConfigFormat> {
    if ext == "json"@ {
        Some(ConfigFormat::Json)
    } else if ext == "yaml"@ || ext == "yml"@ {
        Some(ConfigFormat::Yaml)
    } else if ext == "toml"@ {
        Some(ConfigFormat::Toml)
    } else {
        None
    }
}

impl ConfigFormat {
    /// The configuration format of the file extension `ext`: `json`,
    /// `yaml` or `yml`, or `toml`.
    pub fn from_ext(ext: &str) -> (f: Option<ConfigFormat>)
        ensures
            f == config_format_of(ext@),
    {
        if str_eq(ext, "json") {
            Some(ConfigFormat::Json)
        } else if str_eq(ext, "yaml") || str_eq(ext, "yml") {
            Some(ConfigFormat::Yaml)
        } else if str_eq(ext, "toml") {
            Some(ConfigFormat::Toml)
        } else {
            None
        }
    }

    /// The format of a configuration file: that of its extension, when it
    /// has one that names a format, else `default_format`.
    pub fn for_file(ext: Option<&str>, default_format: ConfigFormat) -> (f: ConfigFormat)
        ensures
            f == match ext {
                Some(e) => match config_format_of(e@) {
                    Some(g) => g,
                    None => default_format,
                },
                None => default_format,
            },
    {
        match ext {
            Some(e) => match ConfigFormat::from_ext(e) {
                Some(g) => g,
                None => default_format,
            },
            None => default_format,
        }
    }
}

} // verus!
