//! The destination directory tree and the walk over it: every regular
//! file under the root is patched exactly once, in directory-entry order,
//! and the first failure aborts the whole walk.

use vstd::prelude::*;
use crate::errors::Error;
use crate::bytes::header_bytes;
use crate::pipeline::file_ok;
use crate::pipeline::patched_contents;
use crate::pipeline::file_error;
use crate::pipeline::patch_file;

verus! {

/// A directory tree: a regular file with its contents, or a directory
/// with its entries in directory-entry order.
pub enum Node {
    File { data: Vec<u8> },
    Dir { entries: Vec<Node> },
}

/// The contents of every regular file under `t`, in visiting order.
pub open spec fn files_in(t: Node) -> Seq<Seq<u8>>
    decreases t,
{
    match t {
        Node::File { data } => seq![data@],
        Node::Dir { entries } => files_in_seq(entries@),
    }
}

/// The contents of every regular file under a row of entries, in order.
pub open spec fn files_in_seq(s: Seq<Node>) -> Seq<Seq<u8>>
    decreases s,
{
    if s.len() == 0 {
        Seq::empty()
    } else {
        files_in(s[0]) + files_in_seq(s.drop_first())
    }
}

/// The outcome for one visited file: the backup of its original header
/// and its contents after the patch.
#[derive(Debug, PartialEq, Eq)]
pub struct Patched {
    pub backup: Vec<u8>,
    pub contents: Vec<u8>,
}

/// Every file of `files` can be patched.
pub open spec fn all_files_ok(source: Seq<u8>, files: Seq<Seq<u8>>, h: nat, shrink: u64) -> bool {
    forall|i: int| 0 <= i < files.len() ==> file_ok(source, #[trigger] files[i], h, shrink)
}

/// `out` patches `files` one for one: as many outcomes as files, each
/// holding that file's original header and its patched contents.
pub open spec fn patches_files(
    source: Seq<u8>,
    files: Seq<Seq<u8>>,
    h: nat,
    shrink: u64,
    out: Seq<Patched>,
) -> bool {
    &&& out.len() == files.len()
    &&& forall|i: int|
        0 <= i < files.len() ==> (#[trigger] out[i]).backup@ == header_bytes(files[i], h)
            && out[i].contents@ == patched_contents(source, files[i], h, shrink)
}

/// The index of the first file of `files` that cannot be patched (the
/// length of `files` when every one can).
pub open spec fn first_bad(source: Seq<u8>, files: Seq<Seq<u8>>, h: nat, shrink: u64) -> int
    decreases files.len(),
{
    if files.len() == 0 {
        0
    } else if !file_ok(source, files[0], h, shrink) {
        0
    } else {
        1 + first_bad(source, files.drop_first(), h, shrink)
    }
}

/// `first_bad` lies in range, points at a file that cannot be patched
/// exactly when one exists, and everything before it can be patched.
pub proof fn lemma_first_bad_in_range(source: Seq<u8>, files: Seq<Seq<u8>>, h: nat, shrink: u64)
    ensures
        0 <= first_bad(source, files, h, shrink) <= files.len(),
        all_files_ok(source, files, h, shrink) <==> first_bad(source, files, h, shrink)
            == files.len(),
        !all_files_ok(source, files, h, shrink) ==> !file_ok(
            source,
            files[first_bad(source, files, h, shrink)],
            h,
            shrink,
        ),
        forall|j: int|
            0 <= j < first_bad(source, files, h, shrink) ==> file_ok(
                source,
                #[trigger] files[j],
                h,
                shrink,
            ),
    decreases files.len(),
{
    if files.len() == 0 {
    } else if !file_ok(source, files[0], h, shrink) {
    } else {
        lemma_first_bad_in_range(source, files.drop_first(), h, shrink);
        let rest = files.drop_first();
        assert(forall|j: int| 0 <= j < rest.len() ==> #[trigger] rest[j] == files[j + 1]);
        assert forall|j: int|
            0 <= j < first_bad(source, files, h, shrink) implies file_ok(
            source,
            #[trigger] files[j],
            h,
            shrink,
        ) by {
            if j > 0 {
                assert(files[j] == rest[j - 1]);
            }
        }
        if !all_files_ok(source, files, h, shrink) {
            let b: int = choose|b: int|
                0 <= b < files.len() && !file_ok(source, #[trigger] files[b], h, shrink);
            assert(b > 0 && rest[b - 1] == files[b]);
            assert(!all_files_ok(source, rest, h, shrink));
        }
        if !all_files_ok(source, rest, h, shrink) {
            let b: int = choose|b: int|
                0 <= b < rest.len() && !file_ok(source, #[trigger] rest[b], h, shrink);
            assert(files[b + 1] == rest[b]);
            assert(!all_files_ok(source, files, h, shrink));
        }
    }
}

/// When every file of `a` is fine, the first failure of `a + b` lies in
/// `b`, shifted past `a`.
proof fn lemma_first_bad_concat(
    source: Seq<u8>,
    a: Seq<Seq<u8>>,
    b: Seq<Seq<u8>>,
    h: nat,
    shrink: u64,
)
    requires
        all_files_ok(source, a, h, shrink),
    ensures
        first_bad(source, a + b, h, shrink) == a.len() + first_bad(source, b, h, shrink),
    decreases a.len(),
{
    if a.len() == 0 {
        assert(a + b =~= b);
    } else {
        assert((a + b)[0] == a[0]);
        assert(file_ok(source, a[0], h, shrink));
        assert((a + b).drop_first() =~= a.drop_first() + b);
        assert(all_files_ok(source, a.drop_first(), h, shrink)) by {
            assert(forall|j: int|
                0 <= j < a.drop_first().len() ==> #[trigger] a.drop_first()[j] == a[j + 1]);
        }
        lemma_first_bad_concat(source, a.drop_first(), b, h, shrink);
    }
}

/// When some file of `a` fails, the first failure of `a + b` is `a`'s.
proof fn lemma_first_bad_left(
    source: Seq<u8>,
    a: Seq<Seq<u8>>,
    b: Seq<Seq<u8>>,
    h: nat,
    shrink: u64,
)
    requires
        !all_files_ok(source, a, h, shrink),
    ensures
        first_bad(source, a + b, h, shrink) == first_bad(source, a, h, shrink),
        (a + b)[first_bad(source, a + b, h, shrink)] == a[first_bad(source, a, h, shrink)],
    decreases a.len(),
{
    lemma_first_bad_in_range(source, a, h, shrink);
    if a.len() == 0 {
    } else if !file_ok(source, a[0], h, shrink) {
        assert((a + b)[0] == a[0]);
    } else {
        assert((a + b)[0] == a[0]);
        assert((a + b).drop_first() =~= a.drop_first() + b);
        assert(!all_files_ok(source, a.drop_first(), h, shrink)) by {
            let bad: int = choose|bad: int|
                0 <= bad < a.len() && !file_ok(source, #[trigger] a[bad], h, shrink);
            assert(bad > 0 && a.drop_first()[bad - 1] == a[bad]);
        }
        lemma_first_bad_left(source, a.drop_first(), b, h, shrink);
        lemma_first_bad_in_range(source, a.drop_first(), h, shrink);
        assert(a[first_bad(source, a, h, shrink)] == a.drop_first()[first_bad(
            source,
            a.drop_first(),
            h,
            shrink,
        )]);
    }
}

proof fn lemma_files_in_seq_split(s: Seq<Node>, i: int)
    requires
        0 <= i <= s.len(),
    ensures
        files_in_seq(s) == files_in_seq(s.take(i)) + files_in_seq(s.skip(i)),
    decreases i,
{
    if i == 0 {
        assert(s.take(0) =~= Seq::<Node>::empty());
        assert(s.skip(0) =~= s);
        assert(files_in_seq(s) =~= files_in_seq(s.take(0)) + files_in_seq(s.skip(0)));
    } else {
        lemma_files_in_seq_split(s.drop_first(), i - 1);
        assert(s.drop_first().take(i - 1) =~= s.take(i).drop_first());
        assert(s.drop_first().skip(i - 1) =~= s.skip(i));
        assert(s.take(i)[0] == s[0]);
        assert(files_in_seq(s) == files_in(s[0]) + files_in_seq(s.drop_first()));
        assert(files_in_seq(s.take(i)) == files_in(s[0]) + files_in_seq(s.take(i).drop_first()));
        assert(files_in_seq(s) =~= files_in_seq(s.take(i)) + files_in_seq(s.skip(i)));
    }
}

proof fn lemma_files_in_seq_snoc(s: Seq<Node>, i: int)
    requires
        0 <= i < s.len(),
    ensures
        files_in_seq(s.take(i + 1)) == files_in_seq(s.take(i)) + files_in(s[i]),
{
    lemma_files_in_seq_split(s.take(i + 1), i);
    assert(s.take(i + 1).take(i) =~= s.take(i));
    let tail = s.take(i + 1).skip(i);
    assert(tail.len() == 1 && tail[0] == s[i]);
    assert(tail.drop_first() =~= Seq::<Node>::empty());
    assert(files_in_seq(tail) == files_in(tail[0]) + files_in_seq(tail.drop_first()));
    assert(files_in_seq(Seq::<Node>::empty()) == Seq::<Seq<u8>>::empty());
    assert(files_in_seq(tail) =~= files_in(s[i]));
}

/// A fresh copy of `data`.
fn copy_bytes(data: &Vec<u8>) -> (r: Vec<u8>)
    ensures
        r@ == data@,
{
    let mut r: Vec<u8> = Vec::new();
    let mut i: usize = 0;
    while i < data.len()
        invariant
            i <= data@.len(),
            r@ == data@.take(i as int),
        decreases data@.len() - i,
    {
        r.push(data[i]);
        i = i + 1;
        proof {
            assert(r@ =~= data@.take(i as int));
        }
    }
    proof {
        assert(r@ =~= data@);
    }
    r
}

/// Patch every regular file under `t`, in directory-entry order, against
/// the single source `source`: each gets the source's header and loses
/// `shrink` trailing bytes, and its original header is kept as a backup.
/// The first file that cannot be patched aborts the whole walk with its
/// error, and no outcomes are returned.
pub fn walk(source: &Vec<u8>, t: &Node, header_size: usize, shrink: u64) -> (r: Result<
    Vec<Patched>,
    Error,
>)
    ensures
        r is Ok <==> all_files_ok(source@, files_in(*t), header_size as nat, shrink),
        r matches Ok(out) ==> patches_files(
            source@,
            files_in(*t),
            header_size as nat,
            shrink,
            out@,
        ),
        r matches Err(e) ==> !all_files_ok(source@, files_in(*t), header_size as nat, shrink)
            && e == file_error(
            source@,
            files_in(*t)[first_bad(source@, files_in(*t), header_size as nat, shrink)],
            header_size as nat,
        ),
    decreases *t,
{
    match t {
        Node::File { data } => {
            let mut contents = copy_bytes(data);
            match patch_file(source, &mut contents, header_size, shrink) {
                Ok(backup) => {
                    let mut out: Vec<Patched> = Vec::new();
                    out.push(Patched { backup, contents });
                    proof {
                        assert(files_in(*t) == seq![data@]);
                        assert(files_in(*t)[0] == data@);
                        assert(patches_files(
                            source@,
                            files_in(*t),
                            header_size as nat,
                            shrink,
                            out@,
                        ));
                    }
                    Ok(out)
                },
                Err(e) => {
                    proof {
                        assert(files_in(*t)[0] == data@);
                        assert(!file_ok(source@, files_in(*t)[0], header_size as nat, shrink));
                        assert(first_bad(source@, files_in(*t), header_size as nat, shrink) == 0);
                    }
                    Err(e)
                },
            }
        },
        Node::Dir { entries } => {
            let ghost all: Seq<Seq<u8>> = files_in_seq(entries@);
            proof {
                assert(files_in(*t) == all);
            }
            let mut out: Vec<Patched> = Vec::new();
            let mut i: usize = 0;
            #[verifier::loop_isolation(false)]
            while i < entries.len()
                invariant
                    i <= entries@.len(),
                    all == files_in_seq(entries@),
                    all == files_in(*t),
                    all_files_ok(
                        source@,
                        files_in_seq(entries@.take(i as int)),
                        header_size as nat,
                        shrink,
                    ),
                    patches_files(
                        source@,
                        files_in_seq(entries@.take(i as int)),
                        header_size as nat,
                        shrink,
                        out@,
                    ),
                decreases entries@.len() - i,
            {
                proof {
                    assert(decreases_to!(*t => t->Dir_entries));
                    assert(decreases_to!(t->Dir_entries => t->Dir_entries@));
                    assert(t->Dir_entries@ == entries@);
                    assert(decreases_to!(entries@ => entries@[i as int]));
                    assert(decreases_to!(*t => entries@[i as int]));
                }
                let ghost done: Seq<Seq<u8>> = files_in_seq(entries@.take(i as int));
                let sub = walk(source, &entries[i], header_size, shrink);
                match sub {
                    Ok(mut part) => {
                        proof {
                            lemma_files_in_seq_snoc(entries@, i as int);
                        }
                        let ghost out0: Seq<Patched> = out@;
                        let ghost part0: Seq<Patched> = part@;
                        out.append(&mut part);
                        proof {
                            let next = files_in_seq(entries@.take(i + 1 as int));
                            assert(next == done + files_in(entries@[i as int]));
                            assert forall|j: int|
                                0 <= j < next.len() implies file_ok(
                                source@,
                                #[trigger] next[j],
                                header_size as nat,
                                shrink,
                            ) by {
                                if j < done.len() {
                                    assert(next[j] == done[j]);
                                } else {
                                    assert(next[j] == files_in(entries@[i as int])[j - done.len()]);
                                }
                            }
                            assert forall|j: int|
                                0 <= j < next.len() implies (#[trigger] out@[j]).backup@
                                == header_bytes(next[j], header_size as nat)
                                && out@[j].contents@ == patched_contents(
                                source@,
                                next[j],
                                header_size as nat,
                                shrink,
                            ) by {
                                if j < done.len() {
                                    assert(out@[j] == out0[j]);
                                    assert(next[j] == done[j]);
                                } else {
                                    assert(out@[j] == part0[j - done.len()]);
                                    assert(next[j] == files_in(entries@[i as int])[j - done.len()]);
                                }
                            }
                        }
                    },
                    Err(e) => {
                        proof {
                            let h: nat = header_size as nat;
                            lemma_files_in_seq_split(entries@, i as int);
                            let sk = entries@.skip(i as int);
                            assert(sk[0] == entries@[i as int]);
                            let mid = files_in(entries@[i as int]);
                            let rest = files_in_seq(sk.drop_first());
                            assert(files_in_seq(sk) == mid + rest);
                            lemma_first_bad_in_range(source@, mid, h, shrink);
                            lemma_first_bad_left(source@, mid, rest, h, shrink);
                            assert(all =~= done + (mid + rest));
                            lemma_first_bad_concat(source@, done, mid + rest, h, shrink);
                            let fb: int = first_bad(source@, all, h, shrink);
                            assert(fb == done.len() + first_bad(source@, mid + rest, h, shrink));
                            assert(all[fb] == (mid + rest)[first_bad(
                                source@,
                                mid + rest,
                                h,
                                shrink,
                            )]);
                            assert(all[fb] == mid[first_bad(source@, mid, h, shrink)]);
                            lemma_first_bad_in_range(source@, all, h, shrink);
                            assert(fb < all.len());
                            assert(!all_files_ok(source@, all, h, shrink));
                        }
                        return Err(e);
                    },
                }
                i = i + 1;
            }
            proof {
                assert(entries@.take(entries@.len() as int) =~= entries@);
            }
            Ok(out)
        },
    }
}

} // verus!
