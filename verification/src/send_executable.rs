//! Where an observer receives an uploaded executable.
use vstd::prelude::*;
use vstd::string::*;

verus! {

/// Whether an upload is the observer's own executable or one of its dependencies.
#[derive(PartialEq, Eq, Structural, Clone, Copy, Debug)]
pub enum ExeType {
    Main,
    Dep,
}

/// The path, relative to the observer's base URL, that receives uploads of this kind.
pub open spec fn endpoint_suffix(exe_type: ExeType) -> Seq<char> {
    match exe_type {
        ExeType::Main => "/exe"@,
        ExeType::Dep => "/dep"@,
    }
}

/// The URL an upload of this kind is posted to: the base URL followed by `/exe` or `/dep`.
pub fn endpoint_url(base_url: &str, exe_type: ExeType) -> (r: String)
    ensures
        r@ == base_url@ + endpoint_suffix(exe_type),
{
    let mut url = String::from_str(base_url);
    match exe_type {
        ExeType::Main => url.append("/exe"),
        ExeType::Dep => url.append("/dep"),
    }
    url
}

} // verus!
