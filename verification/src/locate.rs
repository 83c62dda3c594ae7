use vstd::prelude::*;

use crate::errors::Error;

verus! {

/// Choose the configuration file. An explicit path wins when its file
/// exists; otherwise exactly one candidate found in the working directory
/// is accepted. The caller supplies the facts that only the filesystem
/// knows: whether the explicit file exists, and which candidate files
/// (`.toml` extension) the working directory holds, in directory order.
pub fn find_config_file(explicit: Option<String>, explicit_exists: bool, toml_files: Vec<String>) -> (r: Result<
    String,
    Error,
>)
    ensures
        match r {
            Ok(p) => (explicit matches Some(e) && explicit_exists && p == e) || (explicit is None
                && toml_files@.len() == 1 && p == toml_files@[0]),
            Err(Error::ConfigNotFound(p)) => explicit matches Some(e) && !explicit_exists && p
                == e,
            Err(Error::NoConfig) => explicit is None && toml_files@.len() == 0,
            Err(Error::AmbiguousConfig(fs)) => explicit is None && toml_files@.len() >= 2 && fs
                == toml_files,
            Err(_) => false,
        },
{
    match explicit {
        Some(path) => {
            if explicit_exists {
                Ok(path)
            } else {
                Err(Error::ConfigNotFound(path))
            }
        },
        None => {
            if toml_files.len() == 0 {
                Err(Error::NoConfig)
            } else if toml_files.len() == 1 {
                Ok(toml_files[0].clone())
            } else {
                Err(Error::AmbiguousConfig(toml_files))
            }
        },
    }
}

} // verus!
