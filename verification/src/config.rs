//! Configuration logic of the two programs: where the client keeps its
//! settings, how an `init` invocation changes them, and where the backend's
//! datastore lives inside a database URL.

use vstd::prelude::*;
use vstd::string::StringExecFns;

verus! {

/// The client's stored configuration.
#[derive(Debug)]
pub struct GlobalConfig {
    pub api_url: Option<String>,
    pub api_key: Option<String>,
}

impl Default for GlobalConfig {
    /// A configuration with nothing set yet.
    fn default() -> (c: GlobalConfig)
        ensures
            c.api_url is None,
            c.api_key is None,
    {
        GlobalConfig { api_url: None, api_key: None }
    }
}

/// Why an `init` invocation was refused.
#[derive(Clone, Copy, Debug, PartialEq, Eq, Structural)]
pub enum InitError {
    /// Neither a single setting nor the url/key pair was given.
    Usage,
}

/// The client's configuration directory under the platform's base
/// configuration directory.
pub fn config_dir_path(base: &str) -> (r: String)
    ensures
        r@ == base@ + "/real-kanban"@,
{
    let mut out = base.to_owned();
    out.append("/real-kanban");
    out
}

/// The client's configuration file inside its configuration directory.
pub fn global_config_path(dir: &str) -> (r: String)
    ensures
        r@ == dir@ + "/config.json"@,
{
    let mut out = dir.to_owned();
    out.append("/config.json");
    out
}

/// The new configuration an `init` invocation produces: `--url` replaces
/// only the URL, else `--key` replaces only the key, else a url/key pair
/// replaces the whole configuration; anything else is a usage error and
/// changes nothing.
pub fn apply_init(
    config: GlobalConfig,
    url: Option<String>,
    api_key: Option<String>,
    set_url: Option<String>,
    set_key: Option<String>,
) -> (r: Result<GlobalConfig, InitError>)
    ensures
        set_url is Some ==> (r matches Ok(c) && c.api_url == Some(set_url->0) && c.api_key
            == config.api_key),
        set_url is None && set_key is Some ==> (r matches Ok(c) && c.api_key == Some(set_key->0)
            && c.api_url == config.api_url),
        set_url is None && set_key is None && url is Some && api_key is Some ==> (r matches Ok(c)
            && c.api_url == Some(url->0) && c.api_key == Some(api_key->0)),
        set_url is None && set_key is None && !(url is Some && api_key is Some) ==> r == Err::<
            GlobalConfig,
            InitError,
        >(InitError::Usage),
{
    match set_url {
        Some(u) => {
            return Ok(GlobalConfig { api_url: Some(u), api_key: config.api_key });
        },
        None => {},
    }
    match set_key {
        Some(k) => {
            return Ok(GlobalConfig { api_url: config.api_url, api_key: Some(k) });
        },
        None => {},
    }
    match (url, api_key) {
        (Some(u), Some(k)) => Ok(GlobalConfig { api_url: Some(u), api_key: Some(k) }),
        _ => Err(InitError::Usage),
    }
}

/// The filesystem path inside a database URL: a "sqlite://" scheme prefix
/// is dropped, and any other URL is taken as a bare path.
pub fn db_file_path(database_url: &str) -> (r: String)
    ensures
        r@ == (if ("sqlite://"@).is_prefix_of(database_url@) {
            database_url@.skip(9)
        } else {
            database_url@
        }),
{
    proof {
        reveal_strlit("sqlite://");
    }
    if crate::strutil::str_is_prefix("sqlite://", database_url) {
        let n = database_url.unicode_len();
        let rest = database_url.substring_char(9, n);
        proof {
            assert(rest@ =~= database_url@.skip(9));
        }
        rest.to_owned()
    } else {
        database_url.to_owned()
    }
}

} // verus!
