use crate::error::PipelineError;
use vstd::prelude::*;

verus! {

/// The bytes of `.png`.
pub open spec fn png_suffix() -> Seq<u8> {
    seq![46u8, 112u8, 110u8, 103u8]
}

/// The bytes of `.jpg`.
pub open spec fn jpg_suffix() -> Seq<u8> {
    seq![46u8, 106u8, 112u8, 103u8]
}

/// The bytes of `.jpeg`.
pub open spec fn jpeg_suffix() -> Seq<u8> {
    seq![46u8, 106u8, 112u8, 101u8, 103u8]
}

/// `name` ends with `suffix`, byte for byte.
pub open spec fn ends_with(name: Seq<u8>, suffix: Seq<u8>) -> bool {
    suffix.len() <= name.len() && name.subrange(name.len() - suffix.len(), name.len() as int)
        == suffix
}

/// A file takes part iff its name ends with one of the three extensions,
/// letter case included.
pub open spec fn is_image_name(name: Seq<u8>) -> bool {
    ends_with(name, png_suffix()) || ends_with(name, jpg_suffix()) || ends_with(
        name,
        jpeg_suffix(),
    )
}

/// The byte strings that a list of names holds.
pub open spec fn names(entries: Seq<Vec<u8>>) -> Seq<Seq<u8>> {
    entries.map_values(|e: Vec<u8>| e@)
}

/// The accepted names of a listing, in the listing's order.
pub open spec fn accepted(listing: Seq<Seq<u8>>) -> Seq<Seq<u8>> {
    listing.filter(|n: Seq<u8>| is_image_name(n))
}

/// Whether `name` ends with `suffix`.
pub fn has_suffix(name: &Vec<u8>, suffix: &Vec<u8>) -> (r: bool)
    ensures
        r == ends_with(name@, suffix@),
{
    let n: usize = name.len();
    let m: usize = suffix.len();
    if m > n {
        return false;
    }
    let start: usize = n - m;
    let mut i: usize = 0;
    while i < m
        invariant
            i <= m,
            m <= n,
            start == n - m,
            n == name.len(),
            m == suffix.len(),
            forall|j: int| 0 <= j < i ==> name[start + j] == suffix[j],
        decreases m - i,
    {
        if name[start + i] != suffix[i] {
            proof {
                assert(name@.subrange(start as int, n as int)[i as int] == name@[start + i]);
            }
            return false;
        }
        i += 1;
    }
    proof {
        assert(name@.subrange(start as int, n as int) =~= suffix@);
    }
    true
}

/// Whether a file of this name takes part in the clustering.
pub fn is_image(name: &Vec<u8>) -> (r: bool)
    ensures
        r == is_image_name(name@),
{
    let png: Vec<u8> = vec![46u8, 112u8, 110u8, 103u8];
    let jpg: Vec<u8> = vec![46u8, 106u8, 112u8, 103u8];
    let jpeg: Vec<u8> = vec![46u8, 106u8, 112u8, 101u8, 103u8];
    proof {
        assert(png@ =~= png_suffix());
        assert(jpg@ =~= jpg_suffix());
        assert(jpeg@ =~= jpeg_suffix());
    }
    has_suffix(name, &png) || has_suffix(name, &jpg) || has_suffix(name, &jpeg)
}

/// A fresh vector with the same bytes.
pub fn copy_bytes(bytes: &Vec<u8>) -> (r: Vec<u8>)
    ensures
        r@ == bytes@,
{
    let mut out: Vec<u8> = Vec::new();
    let mut i: usize = 0;
    while i < bytes.len()
        invariant
            i <= bytes.len(),
            out@ == bytes@.take(i as int),
        decreases bytes.len() - i,
    {
        out.push(bytes[i]);
        proof {
            assert(out@ =~= bytes@.take(i + 1));
        }
        i += 1;
    }
    proof {
        assert(out@ =~= bytes@);
    }
    out
}

/// Unfolds `accepted` over a listing's last name.
pub proof fn lemma_accepted_push(listing: Seq<Seq<u8>>, name: Seq<u8>)
    ensures
        accepted(listing.push(name)) == if is_image_name(name) {
            accepted(listing).push(name)
        } else {
            accepted(listing)
        },
{
    reveal(Seq::filter);
    assert(listing.push(name).drop_last() =~= listing);
}

/// Picks the image files out of a directory listing, keeping its order.
///
/// Fails with `NoImagesFound` exactly when no name is accepted.
pub fn collect(entries: &Vec<Vec<u8>>) -> (r: Result<Vec<Vec<u8>>, PipelineError>)
    ensures
        r is Err <==> accepted(names(entries@)).len() == 0,
        r is Err ==> r == Err::<Vec<Vec<u8>>, PipelineError>(PipelineError::NoImagesFound),
        r matches Ok(found) ==> names(found@) == accepted(names(entries@)),
{
    let mut found: Vec<Vec<u8>> = Vec::new();
    let mut i: usize = 0;
    proof {
        assert(names(entries@.take(0)) =~= Seq::<Seq<u8>>::empty());
        assert(names(found@) =~= Seq::<Seq<u8>>::empty());
    }
    while i < entries.len()
        invariant
            i <= entries.len(),
            names(found@) == accepted(names(entries@.take(i as int))),
        decreases entries.len() - i,
    {
        let ghost before = names(found@);
        proof {
            assert(names(entries@.take(i + 1)) =~= names(entries@.take(i as int)).push(
                entries[i as int]@,
            ));
            lemma_accepted_push(names(entries@.take(i as int)), entries[i as int]@);
        }
        if is_image(&entries[i]) {
            let name = copy_bytes(&entries[i]);
            found.push(name);
            proof {
                assert(names(found@) =~= before.push(entries[i as int]@));
            }
        }
        i += 1;
    }
    proof {
        assert(entries@.take(i as int) =~= entries@);
    }
    if found.len() == 0 {
        Err(PipelineError::NoImagesFound)
    } else {
        Ok(found)
    }
}

} // verus!
