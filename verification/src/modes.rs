use vstd::prelude::*;

verus! {

/// The three entry modes a tree in this system can hold: a regular file,
/// an executable file, or a directory.
#[derive(Clone, Copy, PartialEq, Eq, Structural, Debug)]
pub enum FileMode {
    Regular,
    Executable,
    Directory,
}

/// The numeric mode stored in a tree entry for each `FileMode`.
pub open spec fn spec_filemode_code(m: FileMode) -> int {
    match m {
        FileMode::Regular => 0o100644,
        FileMode::Executable => 0o100755,
        FileMode::Directory => 0o040000,
    }
}

/// Leaf mode for a file whose Unix permission bits are `bits`:
/// executable iff any execute bit is set, otherwise regular.
pub fn mode_for_permission_bits(bits: u32) -> (m: FileMode)
    ensures
        m == FileMode::Executable <==> bits & 0o111 != 0,
        m == FileMode::Regular <==> bits & 0o111 == 0,
{
    if bits & 0o111 != 0 {
        FileMode::Executable
    } else {
        FileMode::Regular
    }
}

/// The numeric tree-entry mode for `m`.
pub fn filemode_code(m: FileMode) -> (c: i32)
    ensures
        c == spec_filemode_code(m),
{
    match m {
        FileMode::Regular => 0o100644,
        FileMode::Executable => 0o100755,
        FileMode::Directory => 0o040000,
    }
}

} // verus!
