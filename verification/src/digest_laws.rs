//! What a digest is taken over says which files it covers: no two sets of files share it.

use crate::signature::{covers_listing, layout, listed_hash, Covered};
use vstd::prelude::*;
use vstd::utf8::{encode_scalar, encode_utf8};

verus! {

/// Whether covered files can be told apart by their layout: every hash has its full length,
/// and no path holds a zero character, as none on disk can.
pub open spec fn plain(files: Seq<Covered>) -> bool {
    forall|i: int|
        0 <= i < files.len() ==> (#[trigger] files[i]).1.len() == 32 && plain_path(files[i].0)
}

pub open spec fn plain_path(path: Seq<char>) -> bool {
    forall|i: int| 0 <= i < path.len() ==> #[trigger] path[i] != '\0'
}

/// What one file adds to a layout.
spec fn part(file: Covered) -> Seq<u8> {
    encode_utf8(file.0) + seq![0u8] + file.1 + seq![0u8]
}

/// A layout starts with what its first file adds.
proof fn first_part(files: Seq<Covered>)
    requires
        files.len() > 0,
    ensures
        layout(files) == part(files[0]) + layout(files.drop_first()),
    decreases files.len(),
{
    let most = files.drop_last();
    if most.len() > 0 {
        first_part(most);
        assert(files.drop_first().drop_last() =~= most.drop_first());
        assert(files.drop_first().last() == files.last());
        assert(layout(files) =~= part(files[0]) + layout(files.drop_first()));
    } else {
        assert(layout(most) =~= Seq::empty());
        assert(layout(files.drop_first()) =~= Seq::empty());
        assert(layout(files) =~= part(files[0]) + layout(files.drop_first()));
    }
}

proof fn one_byte(v: u32)
    by (bit_vector)
    requires
        0 < v <= 0x7F,
    ensures
        (v & 0x7F) as u8 != 0,
{
}

proof fn marked_bytes(v: u32)
    by (bit_vector)
    ensures
        0xC0u8 | ((v >> 6) & 0x1F) as u8 != 0,
        0xE0u8 | ((v >> 12) & 0x0F) as u8 != 0,
        0xF0u8 | ((v >> 18) & 0x7) as u8 != 0,
        0x80u8 | (v & 0x3F) as u8 != 0,
        0x80u8 | ((v >> 6) & 0x3F) as u8 != 0,
        0x80u8 | ((v >> 12) & 0x3F) as u8 != 0,
{
}

/// Only a zero character is encoded with a zero byte.
proof fn no_zero(path: Seq<char>)
    requires
        plain_path(path),
    ensures
        forall|i: int| 0 <= i < encode_utf8(path).len() ==> #[trigger] encode_utf8(path)[i] != 0,
    decreases path.len(),
{
    if path.len() > 0 {
        let v = path[0] as u32;
        let rest = path.drop_first();
        assert forall|i: int| 0 <= i < rest.len() implies #[trigger] rest[i] != '\0' by {
            assert(rest[i] == path[i + 1]);
        }
        no_zero(rest);
        marked_bytes(v);
        if v <= 0x7F {
            assert(v != 0) by {
                assert(path[0] != '\0');
                vstd::utf8::char_u32_cast(path[0], v);
                assert('\0' as u32 == 0);
                vstd::utf8::char_u32_cast('\0', 0u32);
            }
            one_byte(v);
        }
        let lead = encode_scalar(v);
        assert forall|i: int| 0 <= i < lead.len() implies #[trigger] lead[i] != 0 by {}
        assert forall|i: int| 0 <= i < encode_utf8(path).len() implies #[trigger] encode_utf8(
            path,
        )[i] != 0 by {
            if i < lead.len() {
                assert(encode_utf8(path)[i] == lead[i]);
            } else {
                assert(encode_utf8(path)[i] == encode_utf8(rest)[i - lead.len()]);
            }
        }
    }
}

/// The bytes a digest is taken over determine the files it covers and their hashes: what was
/// signed for one set of files is never what is signed for another.
pub proof fn layout_is_unambiguous(a: Seq<Covered>, b: Seq<Covered>)
    requires
        plain(a),
        plain(b),
        layout(a) == layout(b),
    ensures
        a == b,
    decreases a.len(),
{
    if a.len() == 0 || b.len() == 0 {
        if a.len() > 0 {
            first_part(a);
        }
        if b.len() > 0 {
            first_part(b);
        }
        assert(a =~= b);
    } else {
        first_part(a);
        first_part(b);
        let all = layout(a);
        let pa = encode_utf8(a[0].0);
        let pb = encode_utf8(b[0].0);
        no_zero(a[0].0);
        no_zero(b[0].0);
        assert(all[pa.len() as int] == 0);
        assert(all[pb.len() as int] == 0);
        if pa.len() < pb.len() {
            assert(all[pa.len() as int] == pb[pa.len() as int]);
        } else if pb.len() < pa.len() {
            assert(all[pb.len() as int] == pa[pb.len() as int]);
        }
        let n = pa.len() as int;
        assert(pa =~= all.subrange(0, n));
        assert(pb =~= all.subrange(0, n));
        vstd::utf8::encode_utf8_decode_utf8(a[0].0);
        vstd::utf8::encode_utf8_decode_utf8(b[0].0);
        assert(a[0].1 =~= all.subrange(n + 1, n + 33));
        assert(b[0].1 =~= all.subrange(n + 1, n + 33));
        let ra = a.drop_first();
        let rb = b.drop_first();
        assert(layout(ra) =~= all.subrange(n + 34, all.len() as int));
        assert(layout(rb) =~= all.subrange(n + 34, all.len() as int));
        assert(plain(ra)) by {
            assert forall|i: int| 0 <= i < ra.len() implies (#[trigger] ra[i]).1.len() == 32
                && plain_path(ra[i].0) by {
                assert(ra[i] == a[i + 1]);
            }
        }
        assert(plain(rb)) by {
            assert forall|i: int| 0 <= i < rb.len() implies (#[trigger] rb[i]).1.len() == 32
                && plain_path(rb[i].0) by {
                assert(rb[i] == b[i + 1]);
            }
        }
        layout_is_unambiguous(ra, rb);
        assert(a =~= seq![a[0]] + ra);
        assert(b =~= seq![b[0]] + rb);
    }
}

/// Two directories whose digests are taken over the same bytes hold the same files, each with
/// the same hash, apart from those that carry a signature.
pub proof fn same_bytes_same_directory(
    a: Seq<Covered>,
    b: Seq<Covered>,
    one: Seq<(String, Vec<u8>)>,
    other: Seq<(String, Vec<u8>)>,
)
    requires
        covers_listing(a, one),
        covers_listing(b, other),
        plain(a),
        plain(b),
        layout(a) == layout(b),
    ensures
        forall|path: Seq<char>| #[trigger] listed_hash(one, path) == listed_hash(other, path),
{
    layout_is_unambiguous(a, b);
    assert forall|path: Seq<char>| #[trigger] listed_hash(one, path) == listed_hash(
        other,
        path,
    ) by {
        assert(crate::signature::hash_at(a, path) == listed_hash(one, path));
        assert(crate::signature::hash_at(b, path) == listed_hash(other, path));
    }
}

/// What is hashed of a directory is each of its files by itself, in the order of their paths: the
/// path, a nought, the hash and a nought.
pub proof fn each_file_is_laid_out_by_itself(a: Seq<Covered>, b: Seq<Covered>, file: Covered)
    ensures
        layout(a + b) == layout(a) + layout(b),
        layout(seq![file]) == encode_utf8(file.0) + seq![0u8] + file.1 + seq![0u8],
    decreases b.len(),
{
    let none = Seq::<u8>::empty();
    let path = encode_utf8(file.0);
    assert(seq![file].drop_last() =~= Seq::<Covered>::empty());
    assert(layout(seq![file].drop_last()) == none);
    assert(none + path =~= path);
    if b.len() == 0 {
        assert(a + b =~= a);
        assert(layout(a) + none =~= layout(a));
    } else {
        each_file_is_laid_out_by_itself(a, b.drop_last(), file);
        assert((a + b).drop_last() =~= a + b.drop_last());
        let x = layout(a);
        let y = layout(b.drop_last());
        let p = encode_utf8(b.last().0);
        let h = b.last().1;
        assert(x + y + p + seq![0u8] + h + seq![0u8] =~= x + (y + p + seq![0u8] + h + seq![0u8]));
    }
}

} // verus!
