//! The name of the external node binary shipped for each supported
//! platform.

use vstd::prelude::*;

use crate::strutil::str_eq;

verus! {

use vstd::string::StringExecFns;

/// A platform the binary is shipped for.
pub open spec fn supported_target(os: Seq<char>, arch: Seq<char>) -> bool {
    ||| os == "windows"@ && arch == "x86_64"@
    ||| os == "darwin"@ && (arch == "x86_64"@ || arch == "aarch64"@)
    ||| os == "linux"@ && arch == "x86_64"@
}

/// The shipped binary's file name for a supported platform.
pub open spec fn binary_name_for(os: Seq<char>, arch: Seq<char>) -> Seq<char> {
    if os == "windows"@ {
        "merod-x86_64-pc-windows-msvc"@
    } else if os == "darwin"@ {
        if arch == "x86_64"@ {
            "merod_x86_64-apple-darwin"@
        } else {
            "merod_aarch64-apple-darwin"@
        }
    } else {
        "merod_x86_64-unknown-linux-gnu"@
    }
}

/// Maps an OS and architecture to the shipped binary's file name; callers
/// must hold to the supported platforms.
pub fn map_os_arch_to_binary_name(os: &str, arch: &str) -> (r: String)
    requires
        supported_target(os@, arch@),
    ensures
        r@ == binary_name_for(os@, arch@),
{
    if str_eq(os, "windows") {
        String::from_str("merod-x86_64-pc-windows-msvc")
    } else if str_eq(os, "darwin") {
        if str_eq(arch, "x86_64") {
            String::from_str("merod_x86_64-apple-darwin")
        } else {
            String::from_str("merod_aarch64-apple-darwin")
        }
    } else {
        String::from_str("merod_x86_64-unknown-linux-gnu")
    }
}

} // verus!
