//! Writing a file in one step: its new content is written beside it, and then takes
//! its place.

use vstd::prelude::*;

use crate::common::{join_path, joined};
use crate::numbers::{decimal, u128_decimal, u64_decimal};
use crate::paths::{file_name, file_name_of, parent_of, parent_path};

verus! {

/// The directory that a file stands in.
pub open spec fn directory_of(path: Seq<char>) -> Seq<char> {
    match parent_of(path) {
        Some(parent) => if parent.len() > 0 {
            parent
        } else {
            "."@
        },
        None => "."@,
    }
}

/// The file beside `path` that its new content is written to first. Its name is told
/// apart by the process and the time.
pub open spec fn temp_path(path: Seq<char>, process: u32, nanos: u128) -> Seq<char> {
    let name = match file_name_of(path) {
        Some(name) => name,
        None => "file"@,
    };
    joined(
        directory_of(path),
        "."@ + name + "."@ + decimal(process as nat) + "."@ + decimal(nanos as nat) + ".tmp"@,
    )
}

/// The file beside `path` that its new content is written to first.
pub fn unique_temp_path(path: &str, process: u32, nanos: u128) -> (r: String)
    ensures
        r@ == temp_path(path@, process, nanos),
{
    let dir: String = match parent_path(path) {
        Some(parent) => if parent.as_str().is_empty() {
            ".".to_owned()
        } else {
            parent
        },
        None => ".".to_owned(),
    };
    let name: String = match file_name(path) {
        Some(name) => name,
        None => "file".to_owned(),
    };
    let mut own = ".".to_owned();
    own.append(name.as_str());
    own.append(".");
    own.append(u64_decimal(process as u64).as_str());
    own.append(".");
    own.append(u128_decimal(nanos).as_str());
    own.append(".tmp");
    join_path(dir.as_str(), own.as_str())
}

} // verus!
