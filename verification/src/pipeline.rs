//! One file's patch on in-memory bytes: keep a backup of the old header,
//! replace it with the source's header, then truncate — the same steps
//! the protocol in `task` orders against the real file system.

use vstd::prelude::*;
use crate::errors::Error;
use crate::bytes::header_bytes;
use crate::bytes::with_header;
use crate::bytes::shrunk;
use crate::bytes::replace_header;
use crate::bytes::truncate;
use crate::bytes::lemma_with_header_parts;

verus! {

/// A destination is patchable when both files hold a whole header and the
/// truncation does not exceed the destination's (unchanged) length.
pub open spec fn file_ok(source: Seq<u8>, dest: Seq<u8>, h: nat, shrink: u64) -> bool {
    h <= source.len() && h <= dest.len() && shrink as nat <= dest.len()
}

/// What the destination's bytes become: the source's header followed by
/// the destination's old tail, with `shrink` trailing bytes cut off.
pub open spec fn patched_contents(source: Seq<u8>, dest: Seq<u8>, h: nat, shrink: u64) -> Seq<
    u8,
> {
    shrunk(with_header(dest, header_bytes(source, h)), shrink as nat)
}

/// The error a failed patch of one file reports: a short header read wins
/// over the truncation underflow, because the headers are read first.
pub open spec fn file_error(source: Seq<u8>, dest: Seq<u8>, h: nat) -> Error {
    if dest.len() < h || source.len() < h {
        Error::ShortRead
    } else {
        Error::Underflow
    }
}

/// Patch one destination in place: back up its first `header_size` bytes
/// (the returned value), overwrite them with the source's first
/// `header_size` bytes, and remove `shrink` trailing bytes. A short
/// source or destination leaves the destination untouched; a truncation
/// past the file's length leaves the header replaced but the length
/// unchanged, mirroring the two separate steps on disk.
pub fn patch_file(source: &Vec<u8>, dest: &mut Vec<u8>, header_size: usize, shrink: u64) -> (r:
    Result<Vec<u8>, Error>)
    ensures
        r is Ok <==> file_ok(source@, old(dest)@, header_size as nat, shrink),
        r matches Ok(backup) ==> backup@ == header_bytes(old(dest)@, header_size as nat)
            && final(dest)@ == patched_contents(
            source@,
            old(dest)@,
            header_size as nat,
            shrink,
        ),
        r matches Err(e) ==> e == file_error(source@, old(dest)@, header_size as nat),
        r == Err::<Vec<u8>, Error>(Error::ShortRead) ==> final(dest)@ == old(dest)@,
        r == Err::<Vec<u8>, Error>(Error::Underflow) ==> final(dest)@ == with_header(
            old(dest)@,
            header_bytes(source@, header_size as nat),
        ),
{
    let backup = match replace_header(source, dest, header_size) {
        Ok(b) => b,
        Err(e) => {
            return Err(e);
        },
    };
    proof {
        lemma_with_header_parts(old(dest)@, header_bytes(source@, header_size as nat));
    }
    match truncate(dest, shrink) {
        Ok(()) => Ok(backup),
        Err(e) => Err(e),
    }
}

} // verus!
