//! The errors the library reports.

use vstd::prelude::*;
use crate::text::concat;

verus! {

/// Everything that can go wrong. Errors that come from elsewhere (the
/// filesystem, a parser, a subprocess) carry that source's message.
#[derive(Debug)]
pub enum Error {
    Config { message: String },
    Clap { message: String },
    SerdeJson { message: String },
    Which { message: String },
    Buffer { stream: String },
    ExternalCommand { message: String },
    ConfigKeyValue { message: String },
    NoStorageConfigured,
    NoTrackerConfigured,
    MissingStorageConfig { driver: String },
    MissingInfoConfig { driver: String },
    MissingVcsConfig { driver: String },
    MissingProcessorConfig { processor: String },
    UnsupportedStorage { driver: String },
    FeatureNotEnabled { feature: String },
    Glob { message: String },
    NonUnicodePath,
    CurrentExecutable { message: String },
    InvalidAssetId { message: String },
    Io { message: String },
    Filesystem { message: String },
    Deserialize { message: String },
    Serialize { message: String },
    Hash { message: String },
    Template { message: String },
    AssetHashExists { id: String },
    AssetProcessed,
    UnknownAssetId { id: String },
    UnknownMetaKey { key: String },
}

/// The text an error is displayed as.
pub open spec fn error_text(e: Error) -> Seq<char> {
    match e {
        Error::Config { message } => "Configuration error: "@ + message@,
        Error::Clap { message } => "CLI argument error: "@ + message@,
        Error::SerdeJson { message } => "JSON serialization error: "@ + message@,
        Error::Which { message } => "Which error: "@ + message@,
        Error::Buffer { stream } => "IO buffer error in "@ + stream@ + " stream"@,
        Error::ExternalCommand { message } => message@,
        Error::ConfigKeyValue { message } => message@,
        Error::NoStorageConfigured => "No storage driver has been configured"@,
        Error::NoTrackerConfigured => "No version tracker has been configured"@,
        Error::MissingStorageConfig { driver } => "The storage driver `"@ + driver@
            + "` requires a valid configuration"@,
        Error::MissingInfoConfig { driver } => "The info storage `"@ + driver@
            + "` requires a valid configuration"@,
        Error::MissingVcsConfig { driver } => "The version tracker `"@ + driver@
            + "` requires a valid configuration"@,
        Error::MissingProcessorConfig { processor } => "The processor `"@ + processor@
            + "` requires a valid configuration"@,
        Error::UnsupportedStorage { driver } =>
            "This build is not compiled with support for the `"@ + driver@ + "` storage driver"@,
        Error::FeatureNotEnabled { feature } => "This build does not have the feature(s) `"@
            + feature@ + "` enabled"@,
        Error::Glob { message } => "Invalid glob pattern: "@ + message@,
        Error::NonUnicodePath => "Unable to convert non-Unicode paths"@,
        Error::CurrentExecutable { message } => "Unable determine current executable path: "@
            + message@,
        Error::InvalidAssetId { message } => "Invalid asset ID: "@ + message@,
        Error::Io { message } => "IO error: "@ + message@,
        Error::Filesystem { message } => "Filesystem error: "@ + message@,
        Error::Deserialize { message } => "Deserialize error: "@ + message@,
        Error::Serialize { message } => "Serialize error: "@ + message@,
        Error::Hash { message } => "Invalid hash: "@ + message@,
        Error::Template { message } => "Template error: "@ + message@,
        Error::AssetHashExists { id } => "The checksum is already used by '"@ + id@ + "'"@,
        Error::AssetProcessed => "The asset has already been processed"@,
        Error::UnknownAssetId { id } => "The asset ID '"@ + id@ + "' is not in the storage"@,
        Error::UnknownMetaKey { key } => "The field '"@ + key@ + "' is not a known meta data key"@,
    }
}

fn wrap(a: &str, m: &String, b: &str) -> (r: String)
    ensures
        r@ == a@ + m@ + b@,
{
    let x = concat(a, m.as_str());
    concat(x.as_str(), b)
}

impl Error {
    /// The text this error is displayed as.
    pub fn message(&self) -> (r: String)
        ensures
            r@ == error_text(*self),
    {
        match self {
            Error::Config { message } => concat("Configuration error: ", message.as_str()),
            Error::Clap { message } => concat("CLI argument error: ", message.as_str()),
            Error::SerdeJson { message } => concat("JSON serialization error: ", message.as_str()),
            Error::Which { message } => concat("Which error: ", message.as_str()),
            Error::Buffer { stream } => wrap("IO buffer error in ", stream, " stream"),
            Error::ExternalCommand { message } => message.clone(),
            Error::ConfigKeyValue { message } => message.clone(),
            Error::NoStorageConfigured => "No storage driver has been configured".to_owned(),
            Error::NoTrackerConfigured => "No version tracker has been configured".to_owned(),
            Error::MissingStorageConfig { driver } => wrap(
                "The storage driver `",
                driver,
                "` requires a valid configuration",
            ),
            Error::MissingInfoConfig { driver } => wrap(
                "The info storage `",
                driver,
                "` requires a valid configuration",
            ),
            Error::MissingVcsConfig { driver } => wrap(
                "The version tracker `",
                driver,
                "` requires a valid configuration",
            ),
            Error::MissingProcessorConfig { processor } => wrap(
                "The processor `",
                processor,
                "` requires a valid configuration",
            ),
            Error::UnsupportedStorage { driver } => wrap(
                "This build is not compiled with support for the `",
                driver,
                "` storage driver",
            ),
            Error::FeatureNotEnabled { feature } => wrap(
                "This build does not have the feature(s) `",
                feature,
                "` enabled",
            ),
            Error::Glob { message } => concat("Invalid glob pattern: ", message.as_str()),
            Error::NonUnicodePath => "Unable to convert non-Unicode paths".to_owned(),
            Error::CurrentExecutable { message } => concat(
                "Unable determine current executable path: ",
                message.as_str(),
            ),
            Error::InvalidAssetId { message } => concat("Invalid asset ID: ", message.as_str()),
            Error::Io { message } => concat("IO error: ", message.as_str()),
            Error::Filesystem { message } => concat("Filesystem error: ", message.as_str()),
            Error::Deserialize { message } => concat("Deserialize error: ", message.as_str()),
            Error::Serialize { message } => concat("Serialize error: ", message.as_str()),
            Error::Hash { message } => concat("Invalid hash: ", message.as_str()),
            Error::Template { message } => concat("Template error: ", message.as_str()),
            Error::AssetHashExists { id } => wrap("The checksum is already used by '", id, "'"),
            Error::AssetProcessed => "The asset has already been processed".to_owned(),
            Error::UnknownAssetId { id } => wrap("The asset ID '", id, "' is not in the storage"),
            Error::UnknownMetaKey { key } => wrap(
                "The field '",
                key,
                "' is not a known meta data key",
            ),
        }
    }
}

} // verus!
