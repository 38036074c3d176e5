//! The command-line arguments, once parsed.

use vstd::prelude::*;
use crate::text::concat_str;

verus! {

/// The file to open and how many folders of its path the title shows.
#[derive(Debug, Clone, PartialEq, Eq)]
pub struct Args {
    pub file_path: Option<String>,
    pub displayed_folders: Option<u32>,
}

impl Args {
    /// The arguments from the parsed command line: the path given, and the folder count
    /// given, or every folder (`u32::MAX`) when `absolute` was asked for.
    pub fn from_parsed(file_path: Option<String>, absolute: bool, folder_count: Option<u32>) -> (r: Args)
        ensures
            r.file_path == file_path,
            r.displayed_folders == (if absolute {
                Some(u32::MAX)
            } else {
                folder_count
            }),
    {
        let displayed_folders = if absolute {
            Some(u32::MAX)
        } else {
            folder_count
        };
        Args { file_path, displayed_folders }
    }
}

/// The help text that names the configuration and cache files.
pub fn configuration_help(config_path: &str, cache_path: &str) -> (r: String)
    ensures
        r@ == "CONFIGURATION:\n    config file: "@ + config_path@ + "\n    cache file:  "@ + cache_path@,
{
    let a = concat_str("CONFIGURATION:\n    config file: ", config_path);
    let b = concat_str(a.as_str(), "\n    cache file:  ");
    concat_str(b.as_str(), cache_path)
}

} // verus!
