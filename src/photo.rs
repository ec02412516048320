//! Catalog entries, the supported image formats and the pixel-area buckets.
use vstd::prelude::*;

use crate::text::{lower_of, lowercase};

verus! {

/// Largest pixel area that still counts as a small image.
pub const SMALL_AREA_MAX: u64 = 100_000;

/// Largest pixel area that still counts as a medium image.
pub const MEDIUM_AREA_MAX: u64 = 500_000;

/// A pixel-area bucket, or `All` for no restriction.
#[derive(Clone, Copy, Debug, PartialEq, Eq, Structural)]
pub enum SizeFilter {
    All,
    Small,
    Medium,
    Large,
}

/// One image file of a catalog.
#[derive(Clone, Debug)]
pub struct Photo {
    /// Full path of the file; unique within a catalog.
    pub path: String,
    /// Base name of the file.
    pub name: String,
    /// Lower-case file extension.
    pub extension: String,
    /// Width in pixels, 0 when it could not be read.
    pub width: u32,
    /// Height in pixels, 0 when it could not be read.
    pub height: u32,
    /// File size in bytes, 0 when it could not be read.
    pub size: u64,
    /// Modification time in seconds since the Unix epoch, when known.
    pub modified_at: Option<u64>,
}

impl Photo {
    pub open spec fn area(&self) -> int {
        self.width as int * self.height as int
    }

    /// Builds an entry; the extension is stored in lower case.
    pub fn new(
        path: String,
        name: String,
        extension: &str,
        width: u32,
        height: u32,
        size: u64,
        modified_at: Option<u64>,
    ) -> (r: Photo)
        ensures
            r.path == path,
            r.name == name,
            r.extension@ == lower_of(extension@),
            r.width == width,
            r.height == height,
            r.size == size,
            r.modified_at == modified_at,
    {
        Photo { path, name, extension: lowercase(extension), width, height, size, modified_at }
    }

    /// Width times height.
    pub fn pixel_area(&self) -> (r: u64)
        ensures
            r == self.area(),
    {
        let w = self.width as u64;
        let h = self.height as u64;
        assert(w * h <= u32::MAX as u64 * u32::MAX as u64) by (nonlinear_arith)
            requires
                w <= u32::MAX,
                h <= u32::MAX,
        ;
        w * h
    }
}

/// The bucket that a pixel area falls in: small up to `SMALL_AREA_MAX`
/// inclusive, medium up to `MEDIUM_AREA_MAX` inclusive, large above.
pub open spec fn bucket_of(area: int) -> SizeFilter {
    if area <= SMALL_AREA_MAX as int {
        SizeFilter::Small
    } else if area <= MEDIUM_AREA_MAX as int {
        SizeFilter::Medium
    } else {
        SizeFilter::Large
    }
}

/// The filter lets an image of this area through.
pub open spec fn filter_admits(filter: SizeFilter, area: int) -> bool {
    filter == SizeFilter::All || bucket_of(area) == filter
}

/// Classifies a pixel area.
pub fn classify_area(area: u64) -> (r: SizeFilter)
    ensures
        r == bucket_of(area as int),
{
    if area <= SMALL_AREA_MAX {
        SizeFilter::Small
    } else if area <= MEDIUM_AREA_MAX {
        SizeFilter::Medium
    } else {
        SizeFilter::Large
    }
}

impl SizeFilter {
    /// Whether an image of this pixel area passes the filter.
    pub fn admits(&self, area: u64) -> (r: bool)
        ensures
            r == filter_admits(*self, area as int),
    {
        match self {
            SizeFilter::All => true,
            _ => classify_area(area) == *self,
        }
    }
}

/// The image formats the catalog takes in, as lower-case extensions, in the
/// order in which they are offered.
pub open spec fn supported_extension_seq() -> Seq<Seq<char>> {
    seq!["jpg"@, "jpeg"@, "png"@, "gif"@, "bmp"@, "tiff"@, "webp"@]
}

/// No extension is listed twice.
pub proof fn lemma_supported_extensions_distinct()
    ensures
        forall|i: int, j: int|
            0 <= i < j < supported_extension_seq().len() ==> supported_extension_seq()[i]
                != supported_extension_seq()[j],
{
    reveal_strlit("jpg");
    reveal_strlit("jpeg");
    reveal_strlit("png");
    reveal_strlit("gif");
    reveal_strlit("bmp");
    reveal_strlit("tiff");
    reveal_strlit("webp");
    let s = supported_extension_seq();
    assert forall|i: int, j: int| 0 <= i < j < s.len() implies s[i] != s[j] by {
        if i == 0 && j == 1 {
            assert(s[i][2] != s[j][2]);
        } else {
            assert(s[i][0] != s[j][0]);
        }
    }
}

/// The supported extensions, in order.
pub fn supported_extensions() -> (r: Vec<String>)
    ensures
        r.len() == supported_extension_seq().len(),
        forall|i: int| 0 <= i < r.len() ==> #[trigger] r[i]@ == supported_extension_seq()[i],
{
    let r: Vec<String> = vec![
        String::from_str("jpg"),
        String::from_str("jpeg"),
        String::from_str("png"),
        String::from_str("gif"),
        String::from_str("bmp"),
        String::from_str("tiff"),
        String::from_str("webp"),
    ];
    r
}

/// Whether a lower-case extension is one of the supported ones.
pub fn is_supported_extension(lowered: &String) -> (r: bool)
    ensures
        r == supported_extension_seq().contains(lowered@),
{
    let known = supported_extensions();
    let mut i: usize = 0;
    while i < known.len()
        invariant
            i <= known.len(),
            known.len() == supported_extension_seq().len(),
            forall|j: int| 0 <= j < known.len() ==> #[trigger] known[j]@ == supported_extension_seq()[j],
            forall|j: int| 0 <= j < i ==> supported_extension_seq()[j] != lowered@,
        decreases known.len() - i,
    {
        if known[i] == *lowered {
            return true;
        }
        i = i + 1;
    }
    false
}

/// Whether a file extension, in any mix of cases, names a supported format.
pub fn is_image_extension(extension: &str) -> (r: bool)
    ensures
        r == supported_extension_seq().contains(lower_of(extension@)),
{
    is_supported_extension(&lowercase(extension))
}

} // verus!
