use vstd::prelude::*;
use vstd::string::StringExecFns;

verus! {

/// Default timeout, in seconds, for talking to the display-configuration
/// service when the caller gives none.
pub fn default_timeout() -> (r: u64)
    ensures
        r == 10,
{
    10
}

/// Why no default preset-file path could be determined.
#[derive(Debug, PartialEq, Eq, Structural, Clone, Copy)]
pub enum ConfigPathError {
    NoConfigDir,
}

/// The default preset-file path for the given environment: under the
/// user's configuration directory when one is named, under `.config` in the
/// home directory otherwise, and an error when neither is known.
pub open spec fn config_path_spec(xdg: Option<String>, home: Option<String>) -> Result<
    Seq<char>,
    ConfigPathError,
> {
    match xdg {
        Some(x) => Ok(x@ + "/display-presets.json"@),
        None => match home {
            Some(h) => Ok(h@ + "/.config/display-presets.json"@),
            None => Err(ConfigPathError::NoConfigDir),
        },
    }
}

/// Builds the default preset-file path from the values of the two
/// configuration-directory environment variables, where set.
pub fn resolve_config_file_path(xdg_config_home: Option<String>, home: Option<String>) -> (r:
    Result<String, ConfigPathError>)
    ensures
        match r {
            Ok(p) => config_path_spec(xdg_config_home, home) == Ok::<Seq<char>, ConfigPathError>(
                p@,
            ),
            Err(e) => config_path_spec(xdg_config_home, home) == Err::<Seq<char>, ConfigPathError>(
                e,
            ),
        },
{
    match xdg_config_home {
        Some(mut x) => {
            x.append("/display-presets.json");
            Ok(x)
        },
        None => match home {
            Some(mut h) => {
                h.append("/.config/display-presets.json");
                Ok(h)
            },
            None => Err(ConfigPathError::NoConfigDir),
        },
    }
}

} // verus!
