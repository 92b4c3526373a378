//! The write-temp-then-rename persistence discipline, as a model of the
//! directory holding the record files.
//!
//! Every record update writes the complete new content to a sibling
//! temporary file and then renames it over the destination. The rename is
//! atomic, so a reader of the destination only ever observes the old
//! complete content or the new complete content — never a truncated or
//! half-written record.

use vstd::prelude::*;

verus! {

/// Writing a file sets its content, whole or partial; any previous content
/// at that path is replaced.
pub open spec fn write_file(
    d: Map<Seq<char>, Seq<u8>>,
    path: Seq<char>,
    content: Seq<u8>,
) -> Map<Seq<char>, Seq<u8>> {
    d.insert(path, content)
}

/// Atomically renaming moves the source file's content over the
/// destination; the source ceases to exist.
pub open spec fn rename_file(
    d: Map<Seq<char>, Seq<u8>>,
    from: Seq<char>,
    to: Seq<char>,
) -> Map<Seq<char>, Seq<u8>> {
    d.remove(from).insert(to, d[from])
}

/// Law: crash safety of a record update. While the new content — or any
/// partial prefix of it a crash may leave — sits in the temporary file, the
/// destination still holds exactly the old content; only the atomic rename
/// changes what a reader of the destination sees, and then it is the
/// complete new content.
pub proof fn lemma_record_update_crash_safe(
    d0: Map<Seq<char>, Seq<u8>>,
    tmp: Seq<char>,
    dst: Seq<char>,
    new_content: Seq<u8>,
    partial: Seq<u8>,
)
    requires
        tmp != dst,
        d0.dom().contains(dst),
    ensures
        write_file(d0, tmp, partial)[dst] == d0[dst],
        write_file(d0, tmp, partial).dom().contains(dst),
        rename_file(write_file(d0, tmp, new_content), tmp, dst)[dst] == new_content,
        !rename_file(write_file(d0, tmp, new_content), tmp, dst).dom().contains(tmp),
{
}

/// Law: a record created for the first time by the same discipline is also
/// never observable half-written — the destination is absent until the
/// rename, and holds the complete new content after it.
pub proof fn lemma_record_create_crash_safe(
    d0: Map<Seq<char>, Seq<u8>>,
    tmp: Seq<char>,
    dst: Seq<char>,
    new_content: Seq<u8>,
    partial: Seq<u8>,
)
    requires
        tmp != dst,
        !d0.dom().contains(dst),
    ensures
        !write_file(d0, tmp, partial).dom().contains(dst),
        rename_file(write_file(d0, tmp, new_content), tmp, dst)[dst] == new_content,
{
}

} // verus!
