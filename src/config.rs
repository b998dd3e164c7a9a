//! The settings needed to reach the tracker, and what can go wrong with them.

use vstd::prelude::*;

use crate::redmine::{CustomField, User};

verus! {

/// What is needed to reach the tracker on behalf of a user.
#[derive(Debug)]
pub struct Config {
    pub key: String,
    pub base_url: url::Url,
    pub login: String,
    pub user_id: i32,
    pub custom_fields: Vec<CustomField>,
}

/// What can go wrong while setting up, loading or storing a `Config`.
#[derive(Debug)]
pub enum ConfigError {
    /// The home directory could not be found.
    HomeDirNotFound,
    /// The settings could not be read or written.
    Io(std::io::Error),
    /// The settings could not be encoded or decoded.
    Json(serde_json::Error),
    /// The user has no API key.
    ApiKeyMissing,
}

impl Config {
    /// The settings of `user` on the tracker at `base_url`; fails when the user has
    /// no API key.
    pub fn new(base_url: url::Url, user: User) -> (r: Result<Config, ConfigError>)
        ensures
            r is Ok <==> user.api_key is Some,
            r matches Err(e) ==> e is ApiKeyMissing,
            r matches Ok(c) ==> {
                &&& user.api_key == Some(c.key)
                &&& c.base_url == base_url
                &&& c.login == user.login
                &&& c.user_id == user.id
                &&& c.custom_fields@.len() == 0
            },
    {
        match user.api_key {
            Some(key) => Ok(
                Config {
                    key,
                    base_url,
                    login: user.login,
                    user_id: user.id,
                    custom_fields: Vec::new(),
                },
            ),
            None => Err(ConfigError::ApiKeyMissing),
        }
    }
}

} // verus!
