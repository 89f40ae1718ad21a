//! The gallery configuration row: raw storage shape, typed shape, and the
//! insert-else-update store the config endpoints write through.

use crate::error::{AppError, AppResult};
use vstd::prelude::*;
use vstd::string::StringExecFns;

verus! {

/// The configuration as the endpoints exchange it.
#[derive(Debug)]
pub struct ConfigData {
    pub random_equal_folders: i32,
    pub photo_per_random: i32,
    pub folders_per_page: i32,
    pub equal_enabled: bool,
}

/// The configuration as the endpoints report it.
#[derive(Debug)]
pub struct JsonConfigDataResponse {
    pub random_equal_folders: i32,
    pub photo_per_random: i32,
    pub folders_per_page: i32,
    pub equal_enabled: bool,
}

/// The stored row: the flag kept as a raw integer.
#[derive(Debug)]
pub struct ConfigSchemaRaw {
    pub id: Option<i32>,
    pub random_equal_folders: i32,
    pub photo_per_random: i32,
    pub folders_per_page: i32,
    pub equal_enabled: i32,
}

/// The typed row: the flag decoded, a missing id defaulted to 1.
#[derive(Debug)]
pub struct ConfigSchema {
    pub id: i32,
    pub random_equal_folders: i32,
    pub photo_per_random: i32,
    pub folders_per_page: i32,
    pub equal_enabled: bool,
}

/// A configuration update.
#[derive(Debug)]
pub struct ConfigInfo {
    pub random_equal_folders: i32,
    pub photo_per_random: i32,
    pub folders_per_page: i32,
    pub equal_enabled: bool,
}

impl From<ConfigSchemaRaw> for ConfigSchema {
    /// Decodes the raw row: any nonzero flag means enabled; a missing id
    /// becomes 1.
    fn from(raw: ConfigSchemaRaw) -> (r: ConfigSchema) {
        ConfigSchema {
            id: match raw.id {
                Some(v) => v,
                None => 1,
            },
            random_equal_folders: raw.random_equal_folders,
            photo_per_random: raw.photo_per_random,
            folders_per_page: raw.folders_per_page,
            equal_enabled: raw.equal_enabled != 0,
        }
    }
}

impl vstd::std_specs::convert::FromSpecImpl<ConfigSchemaRaw> for ConfigSchema {
    open spec fn obeys_from_spec() -> bool {
        true
    }

    open spec fn from_spec(raw: ConfigSchemaRaw) -> ConfigSchema {
        ConfigSchema {
            id: match raw.id {
                Some(v) => v,
                None => 1,
            },
            random_equal_folders: raw.random_equal_folders,
            photo_per_random: raw.photo_per_random,
            folders_per_page: raw.folders_per_page,
            equal_enabled: raw.equal_enabled != 0,
        }
    }
}

impl From<ConfigInfo> for ConfigSchemaRaw {
    /// Encodes an update as the raw row with id 1.
    fn from(info: ConfigInfo) -> (r: ConfigSchemaRaw) {
        ConfigSchemaRaw {
            id: Some(1),
            random_equal_folders: info.random_equal_folders,
            photo_per_random: info.photo_per_random,
            folders_per_page: info.folders_per_page,
            equal_enabled: if info.equal_enabled {
                1
            } else {
                0
            },
        }
    }
}

impl vstd::std_specs::convert::FromSpecImpl<ConfigInfo> for ConfigSchemaRaw {
    open spec fn obeys_from_spec() -> bool {
        true
    }

    open spec fn from_spec(info: ConfigInfo) -> ConfigSchemaRaw {
        ConfigSchemaRaw {
            id: Some(1),
            random_equal_folders: info.random_equal_folders,
            photo_per_random: info.photo_per_random,
            folders_per_page: info.folders_per_page,
            equal_enabled: if info.equal_enabled {
                1
            } else {
                0
            },
        }
    }
}

/// The typed shape a raw row decodes to.
pub open spec fn spec_config_of_raw(raw: ConfigSchemaRaw) -> ConfigSchema {
    ConfigSchema {
        id: match raw.id {
            Some(v) => v,
            None => 1,
        },
        random_equal_folders: raw.random_equal_folders,
        photo_per_random: raw.photo_per_random,
        folders_per_page: raw.folders_per_page,
        equal_enabled: raw.equal_enabled != 0,
    }
}

/// The raw row an update encodes to.
pub open spec fn spec_raw_of_info(info: ConfigInfo) -> ConfigSchemaRaw {
    ConfigSchemaRaw {
        id: Some(1),
        random_equal_folders: info.random_equal_folders,
        photo_per_random: info.photo_per_random,
        folders_per_page: info.folders_per_page,
        equal_enabled: if info.equal_enabled {
            1
        } else {
            0
        },
    }
}

/// The single-row configuration store.
pub struct ConfigStore {
    row: Option<ConfigSchemaRaw>,
}

impl ConfigStore {
    /// The stored row, if any.
    pub closed spec fn row(&self) -> Option<ConfigSchemaRaw> {
        self.row
    }

    /// An empty store.
    pub fn new() -> (s: ConfigStore)
        ensures
            s.row() is None,
    {
        ConfigStore { row: None }
    }

    /// The typed configuration, or not-found when none was ever written.
    pub fn get_config(&self) -> (r: AppResult<ConfigSchema>)
        ensures
            match r {
                Ok(cfg) => self.row() matches Some(raw) && cfg == spec_config_of_raw(raw),
                Err(e) => e is NotFound && self.row() is None,
            },
    {
        match &self.row {
            Some(raw) => Ok(
                ConfigSchema::from(
                    ConfigSchemaRaw {
                        id: raw.id,
                        random_equal_folders: raw.random_equal_folders,
                        photo_per_random: raw.photo_per_random,
                        folders_per_page: raw.folders_per_page,
                        equal_enabled: raw.equal_enabled,
                    },
                ),
            ),
            None => {
                proof {
                    reveal_strlit("Record not found");
                }
                Err(AppError::NotFound(String::from_str("Record not found")))
            },
        }
    }

    /// Insert-else-update: the row becomes the encoding of the update;
    /// returns the number of rows written.
    pub fn update(&mut self, config: ConfigInfo) -> (r: usize)
        ensures
            r == 1,
            final(self).row() == Some(spec_raw_of_info(config)),
    {
        self.row = Some(ConfigSchemaRaw::from(config));
        1
    }
}

/// Validates a configuration update: every numeric field must be positive.
pub fn validate_config(data: &ConfigData) -> (r: AppResult<()>)
    ensures
        match r {
            Ok(_) => data.random_equal_folders > 0 && data.photo_per_random > 0
                && data.folders_per_page > 0,
            Err(e) => e is ValidationError && (data.random_equal_folders <= 0
                || data.photo_per_random <= 0 || data.folders_per_page <= 0),
        },
{
    if data.random_equal_folders <= 0 {
        proof {
            reveal_strlit("random_equal_folders must be positive");
        }
        return Err(AppError::validation("random_equal_folders must be positive"));
    }
    if data.photo_per_random <= 0 {
        proof {
            reveal_strlit("photo_per_random must be positive");
        }
        return Err(AppError::validation("photo_per_random must be positive"));
    }
    if data.folders_per_page <= 0 {
        proof {
            reveal_strlit("folders_per_page must be positive");
        }
        return Err(AppError::validation("folders_per_page must be positive"));
    }
    Ok(())
}

/// Handles a config update: rejects non-positive fields, else writes the
/// row and echoes the stored values.
pub fn update_config(store: &mut ConfigStore, data: ConfigData) -> (r: AppResult<ConfigInfo>)
    ensures
        match r {
            Ok(info) => {
                &&& data.random_equal_folders > 0 && data.photo_per_random > 0
                    && data.folders_per_page > 0
                &&& info.random_equal_folders == data.random_equal_folders
                &&& info.photo_per_random == data.photo_per_random
                &&& info.folders_per_page == data.folders_per_page
                &&& info.equal_enabled == data.equal_enabled
                &&& final(store).row() matches Some(raw) && raw.random_equal_folders
                    == data.random_equal_folders && raw.photo_per_random == data.photo_per_random
                    && raw.folders_per_page == data.folders_per_page && raw.equal_enabled == (
                if data.equal_enabled {
                    1int
                } else {
                    0int
                })
            },
            Err(e) => e is ValidationError && (data.random_equal_folders <= 0
                || data.photo_per_random <= 0 || data.folders_per_page <= 0) && *final(store)
                == *old(store),
        },
{
    match validate_config(&data) {
        Ok(_) => {},
        Err(e) => {
            return Err(e);
        },
    }
    let c_data = ConfigInfo {
        random_equal_folders: data.random_equal_folders,
        photo_per_random: data.photo_per_random,
        folders_per_page: data.folders_per_page,
        equal_enabled: data.equal_enabled,
    };
    let echoed = ConfigInfo {
        random_equal_folders: data.random_equal_folders,
        photo_per_random: data.photo_per_random,
        folders_per_page: data.folders_per_page,
        equal_enabled: data.equal_enabled,
    };
    let _ = store.update(c_data);
    Ok(echoed)
}

/// Handles a config read: reports the stored configuration.
pub fn get_config(store: &ConfigStore) -> (r: AppResult<JsonConfigDataResponse>)
    ensures
        match r {
            Ok(resp) => store.row() matches Some(raw) && resp.random_equal_folders
                == raw.random_equal_folders && resp.photo_per_random == raw.photo_per_random
                && resp.folders_per_page == raw.folders_per_page && resp.equal_enabled == (
            raw.equal_enabled != 0),
            Err(e) => e is NotFound && store.row() is None,
        },
{
    let config_data = match store.get_config() {
        Ok(c) => c,
        Err(e) => {
            return Err(e);
        },
    };
    Ok(
        JsonConfigDataResponse {
            photo_per_random: config_data.photo_per_random,
            folders_per_page: config_data.folders_per_page,
            random_equal_folders: config_data.random_equal_folders,
            equal_enabled: config_data.equal_enabled,
        },
    )
}

} // verus!
