//! Naming of the registry file on disk and of the copy a corrupt file is
//! moved aside to.

use vstd::prelude::*;
use crate::text::{decimal, decimal_text};

verus! {

/// The registry's file name in the application's configuration directory.
pub const FILE_NAME: &'static str = "plugins.json";

/// The version written into the registry file.
pub const SCHEMA_VERSION: u32 = 1;

/// The name a corrupt registry file is renamed to: its own file name (the
/// registry's name when the path has none) followed by `.corrupt-` and the
/// time in Unix seconds.
pub open spec fn corrupt_name(file_name: Option<Seq<char>>, now: nat) -> Seq<char> {
    let base = match file_name {
        Some(n) => n,
        None => FILE_NAME@,
    };
    base + ".corrupt-"@ + decimal_text(now)
}

/// The name a corrupt registry file is moved aside to, so that its bytes
/// survive for inspection while the registry starts over empty.
pub fn corrupt_backup_name(file_name: Option<&str>, now: u64) -> (r: String)
    ensures
        r@ == corrupt_name(
            match file_name {
                Some(n) => Some(n@),
                None => None,
            },
            now as nat,
        ),
{
    let mut s = match file_name {
        Some(n) => String::from_str(n),
        None => String::from_str(FILE_NAME),
    };
    s.append(".corrupt-");
    let d = decimal(now);
    s.append(d.as_str());
    s
}

} // verus!
