//! Which entries of the build output directory are executables.
use vstd::prelude::*;
use vstd::string::*;

verus! {

/// The Unix permission bits that grant execution to the owner, the group or others.
pub const EXEC_PERMISSION_BITS: u32 = 0o111u32;

/// Whether a file's Unix permission bits grant execution to anyone.
pub fn has_exec_permission(mode: u32) -> (r: bool)
    ensures
        r == (mode & EXEC_PERMISSION_BITS != 0),
{
    mode & EXEC_PERMISSION_BITS != 0
}

/// Whether a directory entry is recorded as a build artifact: it is a regular
/// file and its permissions (`None` when they could not be read) grant execution.
pub fn is_build_artifact(is_file: bool, mode: Option<u32>) -> (r: bool)
    ensures
        r == (is_file && (mode matches Some(m) && m & EXEC_PERMISSION_BITS != 0)),
{
    if !is_file {
        return false;
    }
    match mode {
        Some(m) => has_exec_permission(m),
        None => false,
    }
}

/// The file name has the extension `exe`: it ends in `.exe` with at least one
/// character before the dot (a name like `.exe` has no extension).
pub open spec fn exe_extension(file_name: Seq<char>) -> bool {
    file_name.len() > 4 && file_name.subrange(file_name.len() - 4, file_name.len() as int) == ".exe"@
}

/// Whether a file is executable by its name alone, as on Windows: its extension is `exe`.
pub fn has_exe_extension(file_name: &str) -> (r: bool)
    ensures
        r == exe_extension(file_name@),
{
    proof {
        reveal_strlit(".exe");
    }
    let n = file_name.unicode_len();
    if n <= 4 {
        return false;
    }
    let r = file_name.get_char(n - 4) == '.' && file_name.get_char(n - 3) == 'e'
        && file_name.get_char(n - 2) == 'x' && file_name.get_char(n - 1) == 'e';
    proof {
        let tail = file_name@.subrange(n - 4, n as int);
        if r {
            assert(tail =~= ".exe"@);
        } else if tail == ".exe"@ {
            assert(tail[0] == file_name@[n - 4]);
            assert(tail[1] == file_name@[n - 3]);
            assert(tail[2] == file_name@[n - 2]);
            assert(tail[3] == file_name@[n - 1]);
        }
    }
    r
}

} // verus!
