//! Process-wide settings: built once at startup, read by every request.

use crate::value::{decimal, Json, Mapping, StructuredValue};
use vstd::prelude::*;

verus! {

/// The number of in-flight requests allowed where no limit is given.
pub const DEFAULT_CONCURRENCY_LIMIT: usize = 16;

/// Process-wide settings.
#[derive(Debug)]
pub struct Opt {
    /// Server bind address.
    pub address: String,
    /// The most requests that may be in flight at once.
    pub concurrency_limit: usize,
    /// Path to the config file. What a request sends overrides its contents.
    pub config_path: String,
    /// A local directory to use as a cache for input, if any.
    pub cache: Option<String>,
    /// The log level.
    pub log_level: String,
}

impl Clone for Opt {
    fn clone(&self) -> (r: Opt)
        ensures
            r == *self,
    {
        Opt {
            address: self.address.clone(),
            concurrency_limit: self.concurrency_limit,
            config_path: self.config_path.clone(),
            cache: match &self.cache {
                Some(dir) => Some(dir.clone()),
                None => None,
            },
            log_level: self.log_level.clone(),
        }
    }
}

impl Default for Opt {
    /// The settings of a process started without any flag.
    fn default() -> (r: Opt)
        ensures
            r.address@ == "0.0.0.0:8080"@,
            r.concurrency_limit == DEFAULT_CONCURRENCY_LIMIT,
            r.config_path@ == "host/config/config.json"@,
            r.cache is None,
            r.log_level@ == "info"@,
    {
        Opt {
            address: "0.0.0.0:8080".to_owned(),
            concurrency_limit: DEFAULT_CONCURRENCY_LIMIT,
            config_path: "host/config/config.json".to_owned(),
            cache: None,
            log_level: "info".to_owned(),
        }
    }
}

impl Opt {
    /// Whether a server can run under these settings: the concurrency limit
    /// has to be a positive number.
    pub open spec fn valid(self) -> bool {
        self.concurrency_limit >= 1
    }

    /// Computes `valid`.
    pub fn is_valid(&self) -> (r: bool)
        ensures
            r == self.valid(),
    {
        self.concurrency_limit >= 1
    }

    /// The settings as a structured value: a mapping with one key per field.
    /// The limit is a number, the cache directory is `Null` where there is
    /// none, and the rest are strings.
    pub open spec fn serialized(self) -> Json {
        Json::Mapping(
            Map::<Seq<char>, Json>::empty().insert("address"@, Json::String(self.address@)).insert(
                "concurrency_limit"@,
                Json::Number(decimal(self.concurrency_limit as nat)),
            ).insert("config_path"@, Json::String(self.config_path@)).insert(
                "cache"@,
                match self.cache {
                    Some(dir) => Json::String(dir@),
                    None => Json::Null,
                },
            ).insert("log_level"@, Json::String(self.log_level@)),
        )
    }

    /// Writes the settings down as a structured value.
    pub fn to_value(&self) -> (r: StructuredValue)
        ensures
            r@ == self.serialized(),
    {
        let mut fields = Mapping::new();
        fields.insert("address".to_owned(), StructuredValue::String(self.address.clone()));
        fields.insert(
            "concurrency_limit".to_owned(),
            StructuredValue::from_u64(self.concurrency_limit as u64),
        );
        fields.insert("config_path".to_owned(), StructuredValue::String(self.config_path.clone()));
        let cache = match &self.cache {
            Some(dir) => StructuredValue::String(dir.clone()),
            None => StructuredValue::Null,
        };
        fields.insert("cache".to_owned(), cache);
        fields.insert("log_level".to_owned(), StructuredValue::String(self.log_level.clone()));
        StructuredValue::Mapping(fields)
    }
}

} // verus!
