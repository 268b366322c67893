//! Byte-level core: headers, in-place header replacement, and truncation
//! on in-memory byte blocks.

use vstd::prelude::*;
use crate::errors::Error;

verus! {

/// The header of `data`: its first `h` bytes, treated as an opaque block.
pub open spec fn header_bytes(data: Seq<u8>, h: nat) -> Seq<u8> {
    data.subrange(0, h as int)
}

/// `dest` with its leading `header.len()` bytes replaced by `header`:
/// the length stays the same and everything past the header is untouched.
pub open spec fn with_header(dest: Seq<u8>, header: Seq<u8>) -> Seq<u8> {
    header + dest.skip(header.len() as int)
}

/// `data` with its trailing `shrink` bytes removed.
pub open spec fn shrunk(data: Seq<u8>, shrink: nat) -> Seq<u8> {
    data.take(data.len() - shrink)
}

/// Replacing the header keeps the length, makes the leading bytes equal
/// the new header, and leaves every byte past the header unchanged.
pub proof fn lemma_with_header_parts(dest: Seq<u8>, header: Seq<u8>)
    requires
        header.len() <= dest.len(),
    ensures
        with_header(dest, header).len() == dest.len(),
        header_bytes(with_header(dest, header), header.len()) == header,
        forall|j: int| header.len() <= j < dest.len() ==> with_header(dest, header)[j] == dest[j],
{
    assert(header_bytes(with_header(dest, header), header.len()) =~= header);
}

/// Truncation only discards trailing bytes: every byte before the new
/// length is unchanged.
pub proof fn lemma_shrunk_prefix(data: Seq<u8>, shrink: nat)
    requires
        shrink <= data.len(),
    ensures
        shrunk(data, shrink).len() == data.len() - shrink,
        forall|j: int| 0 <= j < data.len() - shrink ==> shrunk(data, shrink)[j] == data[j],
{
}

/// A copy of the first `header_size` bytes of `data`, or `ShortRead` when
/// `data` is too short to hold a whole header.
pub fn read_header(data: &Vec<u8>, header_size: usize) -> (r: Result<Vec<u8>, Error>)
    ensures
        r is Ok <==> header_size <= data@.len(),
        r matches Ok(head) ==> head@ == header_bytes(data@, header_size as nat),
        r is Err ==> r == Err::<Vec<u8>, Error>(Error::ShortRead),
{
    if data.len() < header_size {
        Err(Error::ShortRead)
    } else {
        let mut head: Vec<u8> = Vec::new();
        proof {
            assert(head@ =~= header_bytes(data@, 0));
        }
        let mut i: usize = 0;
        while i < header_size
            invariant
                i <= header_size,
                header_size <= data@.len(),
                head@ == header_bytes(data@, i as nat),
            decreases header_size - i,
        {
            head.push(data[i]);
            i = i + 1;
            proof {
                assert(head@ =~= header_bytes(data@, i as nat));
            }
        }
        Ok(head)
    }
}

/// Overwrite the leading `header.len()` bytes of `dest` with `header`, in
/// place; the length and every byte past the header are unchanged.
pub fn write_header(dest: &mut Vec<u8>, header: &Vec<u8>)
    requires
        header@.len() <= old(dest)@.len(),
    ensures
        final(dest)@ == with_header(old(dest)@, header@),
{
    let ghost dest0: Seq<u8> = dest@;
    let mut i: usize = 0;
    while i < header.len()
        invariant
            i <= header@.len(),
            header@.len() <= dest@.len(),
            dest@.len() == dest0.len(),
            forall|j: int| 0 <= j < i ==> dest@[j] == header@[j],
            forall|j: int| i <= j < dest0.len() ==> dest@[j] == dest0[j],
        decreases header@.len() - i,
    {
        let b: u8 = header[i];
        dest[i] = b;
        i = i + 1;
    }
    proof {
        assert(dest@ =~= with_header(dest0, header@));
    }
}

/// Reduce `data` by `shrink` trailing bytes. Rejects a request larger
/// than the current length with `Underflow`, leaving `data` unchanged;
/// it never wraps and never clamps.
pub fn truncate(data: &mut Vec<u8>, shrink: u64) -> (r: Result<(), Error>)
    ensures
        r is Ok <==> shrink as nat <= old(data)@.len(),
        r is Ok ==> final(data)@ == shrunk(old(data)@, shrink as nat),
        r is Err ==> final(data)@ == old(data)@ && r == Err::<(), Error>(Error::Underflow),
{
    if shrink > data.len() as u64 {
        Err(Error::Underflow)
    } else {
        let new_len: usize = data.len() - shrink as usize;
        data.truncate(new_len);
        proof {
            assert(data@ =~= shrunk(old(data)@, shrink as nat));
        }
        Ok(())
    }
}

/// The length left after removing `shrink` bytes from a file `current`
/// bytes long; `Underflow` when more is removed than the file holds.
pub fn new_length(current: u64, shrink: u64) -> (r: Result<u64, Error>)
    ensures
        r is Ok <==> shrink <= current,
        r matches Ok(n) ==> n == current - shrink,
        r is Err ==> r == Err::<u64, Error>(Error::Underflow),
{
    if shrink > current {
        Err(Error::Underflow)
    } else {
        Ok(current - shrink)
    }
}

/// Replace the leading `header_size` bytes of `dest` with those of
/// `source`, returning a copy of the destination's original header (the
/// backup). When either file is shorter than the header, nothing is
/// changed and `ShortRead` comes back.
pub fn replace_header(source: &Vec<u8>, dest: &mut Vec<u8>, header_size: usize) -> (r: Result<
    Vec<u8>,
    Error,
>)
    ensures
        r is Ok <==> header_size <= source@.len() && header_size <= old(dest)@.len(),
        r matches Ok(backup) ==> backup@ == header_bytes(old(dest)@, header_size as nat)
            && final(dest)@ == with_header(
            old(dest)@,
            header_bytes(source@, header_size as nat),
        ),
        r is Err ==> final(dest)@ == old(dest)@ && r == Err::<Vec<u8>, Error>(Error::ShortRead),
{
    let backup = match read_header(dest, header_size) {
        Ok(b) => b,
        Err(e) => {
            return Err(e);
        },
    };
    let src_head = match read_header(source, header_size) {
        Ok(b) => b,
        Err(e) => {
            return Err(e);
        },
    };
    write_header(dest, &src_head);
    Ok(backup)
}

} // verus!
