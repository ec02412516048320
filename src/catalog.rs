//! Building a catalog from the files that a scan found.
use vstd::prelude::*;

use crate::photo::{is_image_extension, supported_extension_seq, Photo};
use crate::text::lower_of;

verus! {

/// What the file system reports of a file.
#[derive(Clone, Copy, Debug, PartialEq, Eq, Structural)]
pub struct FileStat {
    pub size: u64,
    pub modified_at: Option<u64>,
}

/// A file found by a scan, with what could be read of it.
#[derive(Clone, Debug)]
pub struct Candidate {
    pub path: String,
    pub name: String,
    /// The extension as found, in any case.
    pub extension: String,
    /// `None` when the file's metadata could not be read.
    pub stat: Option<FileStat>,
    /// `None` when the file could not be read as an image.
    pub dimensions: Option<(u32, u32)>,
}

/// The candidate becomes a catalog entry.
pub open spec fn admitted(c: Candidate) -> bool {
    c.stat is Some && supported_extension_seq().contains(lower_of(c.extension@))
}

/// `p` is the entry made of candidate `c`.
pub open spec fn entry_of(p: Photo, c: Candidate) -> bool {
    &&& p.path@ == c.path@
    &&& p.name@ == c.name@
    &&& p.extension@ == lower_of(c.extension@)
    &&& p.size == c.stat->0.size
    &&& p.modified_at == c.stat->0.modified_at
    &&& match c.dimensions {
        Some((w, h)) => p.width == w && p.height == h,
        None => p.width == 0 && p.height == 0,
    }
}

/// `catalog` holds an entry for each admitted candidate, in the order of the
/// candidates, and nothing else.
pub open spec fn is_catalog_of(candidates: Seq<Candidate>, catalog: Seq<Photo>) -> bool
    decreases candidates.len(),
{
    if candidates.len() == 0 {
        catalog.len() == 0
    } else if admitted(candidates.last()) {
        &&& catalog.len() > 0
        &&& entry_of(catalog.last(), candidates.last())
        &&& is_catalog_of(candidates.drop_last(), catalog.drop_last())
    } else {
        is_catalog_of(candidates.drop_last(), catalog)
    }
}

/// The entry that a candidate file becomes, if any: a file whose extension is
/// not a supported format, or whose metadata could not be read, is left out;
/// one whose pixel dimensions could not be read is kept with width and height 0.
pub fn admit_entry(
    path: String,
    name: String,
    extension: &str,
    stat: Option<FileStat>,
    dimensions: Option<(u32, u32)>,
) -> (r: Option<Photo>)
    ensures
        r is Some <==> (stat is Some && supported_extension_seq().contains(lower_of(extension@))),
        r is Some ==> ({
            let p = r->0;
            &&& p.path == path
            &&& p.name == name
            &&& p.extension@ == lower_of(extension@)
            &&& p.size == stat->0.size
            &&& p.modified_at == stat->0.modified_at
            &&& match dimensions {
                Some((w, h)) => p.width == w && p.height == h,
                None => p.width == 0 && p.height == 0,
            }
        }),
{
    if !is_image_extension(extension) {
        return None;
    }
    match stat {
        None => None,
        Some(st) => {
            let (width, height) = match dimensions {
                Some((w, h)) => (w, h),
                None => (0, 0),
            };
            Some(Photo::new(path, name, extension, width, height, st.size, st.modified_at))
        },
    }
}

/// No two candidates share a path.
pub open spec fn distinct_paths(candidates: Seq<Candidate>) -> bool {
    forall|i: int, j: int|
        0 <= i < j < candidates.len() ==> candidates[i].path@ != candidates[j].path@
}

/// One of the first `n` candidates has this path.
pub open spec fn path_among(candidates: Seq<Candidate>, n: int, path: Seq<char>) -> bool {
    exists|j: int| 0 <= j < n && #[trigger] candidates[j].path@ == path
}

/// The catalog made of the files that a scan found: a file of another format,
/// or one whose metadata could not be read, is left out; the others are kept
/// in the order found.
pub fn build_catalog(candidates: &Vec<Candidate>) -> (r: Vec<Photo>)
    ensures
        is_catalog_of(candidates@, r@),
        distinct_paths(candidates@) ==> forall|a: int, b: int|
            0 <= a < b < r.len() ==> r[a].path@ != r[b].path@,
{
    let mut r: Vec<Photo> = Vec::new();
    let mut i: usize = 0;
    while i < candidates.len()
        invariant
            i <= candidates.len(),
            is_catalog_of(candidates@.take(i as int), r@),
            forall|m: int| 0 <= m < r.len() ==> path_among(candidates@, i as int, #[trigger] r[m].path@),
            distinct_paths(candidates@) ==> forall|a: int, b: int|
                0 <= a < b < r.len() ==> r[a].path@ != r[b].path@,
        decreases candidates.len() - i,
    {
        let c = &candidates[i];
        let entry = admit_entry(c.path.clone(), c.name.clone(), c.extension.as_str(), c.stat, c.dimensions);
        proof {
            assert(candidates@.take(i + 1).drop_last() =~= candidates@.take(i as int));
            assert(candidates@.take(i + 1).last() == *c);
        }
        match entry {
            Some(p) => {
                let ghost before = r@;
                r.push(p);
                assert(r@.drop_last() =~= before);
                proof {
                    assert(candidates[i as int].path@ == r[r.len() - 1].path@);
                    assert forall|m: int| 0 <= m < r.len() implies path_among(
                        candidates@,
                        i + 1,
                        #[trigger] r[m].path@,
                    ) by {
                        if m < r.len() - 1 {
                            assert(r[m] == before[m]);
                            assert(path_among(candidates@, i as int, before[m].path@));
                        } else {
                            assert(candidates@[i as int].path@ == r[m].path@);
                        }
                    }
                    if distinct_paths(candidates@) {
                        assert forall|a: int, b: int| 0 <= a < b < r.len() implies r[a].path@
                            != r[b].path@ by {
                            if b == r.len() - 1 {
                                assert(r[a] == before[a]);
                                assert(path_among(candidates@, i as int, before[a].path@));
                                let j = choose|j: int| 0 <= j < i && #[trigger] candidates@[j].path@ == before[a].path@;
                                assert(candidates[j].path@ != candidates[i as int].path@);
                            } else {
                                assert(r[a] == before[a] && r[b] == before[b]);
                            }
                        }
                    }
                }
            },
            None => {},
        }
        i = i + 1;
    }
    assert(candidates@.take(candidates.len() as int) =~= candidates@);
    r
}

} // verus!
