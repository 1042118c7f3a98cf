//! Resolution of the effective configuration of one request from its three
//! sources: the config file, the process settings, and what the request
//! itself overrides. Each later source wins over the earlier ones.

use crate::error::ConfigError;
use crate::json::{document, parse};
use crate::merge::{merge, merged, slot};
use crate::settings::Opt;
use crate::value::{Json, Mapping, StructuredValue};
use vstd::prelude::*;

verus! {

/// The effective configuration: the file's values merged into an empty
/// mapping, the process settings merged over them, and the request's
/// override, where there is one, merged over both.
pub open spec fn effective(file: Json, process: Json, request: Option<Json>) -> Json {
    let settled = merged(merged(Json::Mapping(Map::empty()), file), process);
    match request {
        Some(overriding) => merged(settled, overriding),
        None => settled,
    }
}

/// What resolution gives for the contents of the config file (`None` where
/// the file could not be read), the process settings and the request's
/// override: the effective configuration, or the error of the first step
/// that fails.
pub open spec fn resolved(file: Option<Seq<u8>>, process: Json, request: Option<Json>) -> Result<
    Json,
    ConfigError,
> {
    match file {
        None => Err(ConfigError::Read),
        Some(bytes) => match document(bytes) {
            None => Err(ConfigError::Parse),
            Some(held) => Ok(effective(held, process, request)),
        },
    }
}

/// The view of an optional value.
pub open spec fn view_of(v: Option<StructuredValue>) -> Option<Json> {
    match v {
        Some(held) => Some(held@),
        None => None,
    }
}

/// The view of the contents of a file.
pub open spec fn bytes_of(file: Option<&[u8]>) -> Option<Seq<u8>> {
    match file {
        Some(bytes) => Some(bytes@),
        None => None,
    }
}

/// Lays the three sources over one another, the later over the earlier.
pub fn resolve_layers(
    file_config: &StructuredValue,
    process_config: &StructuredValue,
    request_config: Option<StructuredValue>,
) -> (config: StructuredValue)
    ensures
        config@ == effective(file_config@, process_config@, view_of(request_config)),
{
    let mut config = StructuredValue::Mapping(Mapping::new());
    merge(&mut config, file_config);
    merge(&mut config, process_config);
    if let Some(overriding) = request_config {
        merge(&mut config, &overriding);
    }
    config
}

/// Gets the configuration of one request, going through all its sources.
///
/// `file` holds the bytes of the config file, or `None` where the file
/// could not be opened or read. The config file has the lowest preference,
/// the process settings come over it, and what the request sent has the
/// highest.
pub fn get_config(opt: &Opt, file: Option<&[u8]>, request_config: Option<StructuredValue>) -> (r:
    Result<StructuredValue, ConfigError>)
    ensures
        match resolved(bytes_of(file), opt.serialized(), view_of(request_config)) {
            Ok(config) => r matches Ok(v) && v@ == config,
            Err(e) => r matches Err(f) && f == e,
        },
{
    match file {
        None => Err(ConfigError::Read),
        Some(bytes) => {
            match parse(bytes) {
                Err(e) => Err(e),
                Ok(file_config) => {
                    let process_config = opt.to_value();
                    Ok(resolve_layers(&file_config, &process_config, request_config))
                },
            }
        },
    }
}

/// The override that a request's payload holds. A request without a
/// payload, or with one of no bytes, overrides nothing; any other payload
/// has to be a well-formed document.
pub open spec fn override_of(payload: Option<Seq<u8>>) -> Result<Option<Json>, ConfigError> {
    match payload {
        None => Ok(None),
        Some(bytes) => if bytes.len() == 0 {
            Ok(None)
        } else {
            match document(bytes) {
                Some(held) => Ok(Some(held)),
                None => Err(ConfigError::Parse),
            }
        },
    }
}

/// What resolution gives for a request that came with `payload`: the file
/// is read and parsed first, so its errors come first.
pub open spec fn resolved_for(
    file: Option<Seq<u8>>,
    process: Json,
    payload: Option<Seq<u8>>,
) -> Result<Json, ConfigError> {
    match resolved(file, process, None) {
        Err(e) => Err(e),
        Ok(_) => match override_of(payload) {
            Err(e) => Err(e),
            Ok(request) => resolved(file, process, request),
        },
    }
}

/// Resolves the configuration of one request from the bytes of the config
/// file (`None` where it could not be read) and the bytes of the request's
/// override payload (`None` where it sent none).
pub fn resolve(opt: &Opt, file: Option<&[u8]>, payload: Option<&[u8]>) -> (r: Result<
    StructuredValue,
    ConfigError,
>)
    ensures
        match resolved_for(bytes_of(file), opt.serialized(), bytes_of(payload)) {
            Ok(config) => r matches Ok(v) && v@ == config,
            Err(e) => r matches Err(f) && f == e,
        },
{
    match file {
        None => Err(ConfigError::Read),
        Some(bytes) => {
            match parse(bytes) {
                Err(e) => Err(e),
                Ok(file_config) => {
                    let request_config = match payload {
                        None => None,
                        Some(sent) => {
                            if sent.len() == 0 {
                                None
                            } else {
                                match parse(sent) {
                                    Err(e) => {
                                        return Err(e);
                                    },
                                    Ok(held) => Some(held),
                                }
                            }
                        },
                    };
                    let process_config = opt.to_value();
                    Ok(resolve_layers(&file_config, &process_config, request_config))
                },
            }
        },
    }
}

/// Merging into an empty mapping gives the overlay itself: resolution may
/// as well start from the file's values.
pub proof fn empty_start_is_neutral(file: Json)
    ensures
        merged(Json::Mapping(Map::empty()), file) == file,
{
    match file {
        Json::Mapping(held) => {
            let r = merged(Json::Mapping(Map::empty()), file)->Mapping_0;
            assert forall|k: Seq<char>| held.contains_key(k) implies r[k] == held[k] by {
                assert(merged(Json::Null, held[k]) == held[k]);
            }
            assert(r =~= held);
        },
        _ => {},
    }
}

/// The process settings win over the file: under a key of the settings
/// whose value is no mapping, the effective configuration of a request
/// without an override holds the settings' value.
pub proof fn settings_win_over_file(file: Json, process: Json, k: Seq<char>)
    requires
        process matches Json::Mapping(p) && p.contains_key(k) && !(p[k] is Mapping),
    ensures
        effective(file, process, None) matches Json::Mapping(m) && m.contains_key(k) && m[k]
            == process->Mapping_0[k],
{
    empty_start_is_neutral(file);
    let p = process->Mapping_0;
    match file {
        Json::Mapping(held) => {
            assert(merged(slot(held, k), p[k]) == p[k]);
        },
        _ => {},
    }
}

/// The request wins over both the file and the process settings: under a
/// key of its override whose value is no mapping, the effective
/// configuration holds the override's value.
pub proof fn request_wins(file: Json, process: Json, request: Json, k: Seq<char>)
    requires
        request matches Json::Mapping(q) && q.contains_key(k) && !(q[k] is Mapping),
    ensures
        effective(file, process, Some(request)) matches Json::Mapping(m) && m.contains_key(k)
            && m[k] == request->Mapping_0[k],
{
    let settled = effective(file, process, None);
    let q = request->Mapping_0;
    match settled {
        Json::Mapping(below) => {
            assert(merged(slot(below, k), q[k]) == q[k]);
        },
        _ => {},
    }
}

} // verus!
