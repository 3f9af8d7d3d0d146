//! The options of the `config` command: read a configuration dump from a file.

use vstd::prelude::*;

verus! {

/// Where to read a configuration dump, and where to write the exports.
pub struct ConfigArgs {
    pub config_file: String,
    pub excel_file: Option<String>,
    pub json_file: Option<String>,
}

} // verus!
