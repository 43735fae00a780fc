//! Where a document's images live inside the data directory.

use vstd::prelude::*;
use crate::text::push_str;

verus! {

/// `base` joined with `rel` the way `Path::join` does it for `/`-separated
/// paths: an absolute `rel` replaces `base`; otherwise one separator is put
/// between them unless `base` is empty or already ends with one.
pub open spec fn joined(base: Seq<char>, rel: Seq<char>) -> Seq<char> {
    if rel.len() > 0 && rel[0] == '/' {
        rel
    } else if base.len() == 0 || base[base.len() - 1] == '/' {
        base + rel
    } else {
        base + seq!['/'] + rel
    }
}

/// Path of a document's original scan, relative to the data directory.
pub open spec fn original_rel(doc_id: Seq<char>) -> Seq<char> {
    "originals/"@ + doc_id + "/scan.jpg"@
}

/// Path of a document's thumbnail, relative to the data directory.
pub open spec fn thumbnail_rel(doc_id: Seq<char>) -> Seq<char> {
    "thumbnails/"@ + doc_id + "/thumb.webp"@
}

/// Joins a relative path onto a base directory.
pub fn join_path(base: &str, rel: &str) -> (r: String)
    ensures
        r@ == joined(base@, rel@),
{
    let rel_len = rel.unicode_len();
    if rel_len > 0 && rel.get_char(0) == '/' {
        return rel.to_string();
    }
    let base_len = base.unicode_len();
    let mut out = base.to_string();
    if base_len > 0 && base.get_char(base_len - 1) != '/' {
        crate::text::push_char(&mut out, '/');
    }
    push_str(&mut out, rel);
    out
}

/// Returns the relative path for an original image: `originals/{ulid}/scan.jpg`.
pub fn original_rel_path(doc_id: &str) -> (r: String)
    ensures
        r@ == original_rel(doc_id@),
{
    let mut r = String::from_str("originals/");
    push_str(&mut r, doc_id);
    push_str(&mut r, "/scan.jpg");
    r
}

/// Returns the relative path for a thumbnail: `thumbnails/{ulid}/thumb.webp`.
pub fn thumbnail_rel_path(doc_id: &str) -> (r: String)
    ensures
        r@ == thumbnail_rel(doc_id@),
{
    let mut r = String::from_str("thumbnails/");
    push_str(&mut r, doc_id);
    push_str(&mut r, "/thumb.webp");
    r
}

/// Returns the absolute path for an original image.
pub fn original_abs_path(data_dir: &str, doc_id: &str) -> (r: String)
    ensures
        r@ == joined(data_dir@, original_rel(doc_id@)),
{
    let rel = original_rel_path(doc_id);
    join_path(data_dir, rel.as_str())
}

/// Returns the absolute path for a thumbnail.
pub fn thumbnail_abs_path(data_dir: &str, doc_id: &str) -> (r: String)
    ensures
        r@ == joined(data_dir@, thumbnail_rel(doc_id@)),
{
    let rel = thumbnail_rel_path(doc_id);
    join_path(data_dir, rel.as_str())
}


/// The directory of a document's original scan (what deleting its images removes).
pub fn original_dir(data_dir: &str, doc_id: &str) -> (r: String)
    ensures
        r@ == joined(joined(data_dir@, "originals"@), doc_id@),
{
    let d = join_path(data_dir, "originals");
    join_path(d.as_str(), doc_id)
}

/// The directory of a document's thumbnail (what deleting its images removes).
pub fn thumbnail_dir(data_dir: &str, doc_id: &str) -> (r: String)
    ensures
        r@ == joined(joined(data_dir@, "thumbnails"@), doc_id@),
{
    let d = join_path(data_dir, "thumbnails");
    join_path(d.as_str(), doc_id)
}

/// A document's images lie inside the directories that deleting its images
/// removes: the original is `scan.jpg` in its original directory, the
/// thumbnail `thumb.webp` in its thumbnail directory.
pub proof fn lemma_images_inside_their_directories(data_dir: Seq<char>, doc_id: Seq<char>)
    requires
        doc_id.len() == 0 || doc_id[0] != '/',
    ensures
        joined(data_dir, original_rel(doc_id)) == joined(joined(data_dir, "originals"@), doc_id)
            + "/scan.jpg"@,
        joined(data_dir, thumbnail_rel(doc_id)) == joined(joined(data_dir, "thumbnails"@), doc_id)
            + "/thumb.webp"@,
{
    reveal_strlit("originals/");
    reveal_strlit("originals");
    reveal_strlit("/scan.jpg");
    reveal_strlit("thumbnails/");
    reveal_strlit("thumbnails");
    reveal_strlit("/thumb.webp");
    assert(original_rel(doc_id)[0] == 'o');
    assert(thumbnail_rel(doc_id)[0] == 't');
    let a = joined(data_dir, "originals"@);
    assert(a.len() > 0 && a[a.len() - 1] == 's');
    let b = joined(data_dir, "thumbnails"@);
    assert(b.len() > 0 && b[b.len() - 1] == 's');
    assert(joined(data_dir, original_rel(doc_id)) =~= joined(a, doc_id) + "/scan.jpg"@);
    assert(joined(data_dir, thumbnail_rel(doc_id)) =~= joined(b, doc_id) + "/thumb.webp"@);
}

/// A document's original and thumbnail are never the same file.
pub proof fn lemma_original_and_thumbnail_differ(a: Seq<char>, b: Seq<char>)
    ensures
        original_rel(a) != thumbnail_rel(b),
{
    reveal_strlit("originals/");
    reveal_strlit("thumbnails/");
    assert(original_rel(a)[0] != thumbnail_rel(b)[0]);
}


/// Below a data directory (not ending in `/`), a document's images take
/// exactly three more path components: `thumbnails`, the id and
/// `thumb.webp` for the thumbnail, `originals`, the id and `scan.jpg` for the
/// original, when the id is a single plain component (not empty, no `/`,
/// not `.` or `..`). So both paths start with the data directory and stay
/// inside it.
pub proof fn lemma_image_path_components(data_dir: Seq<char>, doc_id: Seq<char>)
    requires
        data_dir.len() > 0,
        data_dir.last() != '/',
        doc_id.len() > 0,
        forall|i: int| 0 <= i < doc_id.len() ==> doc_id[i] != '/',
        doc_id != seq!['.'],
        doc_id != seq!['.', '.'],
    ensures
        joined(data_dir, thumbnail_rel(doc_id)).take(data_dir.len() as int) == data_dir,
        joined(data_dir, original_rel(doc_id)).take(data_dir.len() as int) == data_dir,
        joined(data_dir, thumbnail_rel(doc_id)) == data_dir + seq!['/'] + "thumbnails"@ + seq!['/']
            + doc_id + seq!['/'] + "thumb.webp"@,
        joined(data_dir, original_rel(doc_id)) == data_dir + seq!['/'] + "originals"@ + seq!['/']
            + doc_id + seq!['/'] + "scan.jpg"@,
{
    reveal_strlit("originals/");
    reveal_strlit("originals");
    reveal_strlit("/scan.jpg");
    reveal_strlit("scan.jpg");
    reveal_strlit("thumbnails/");
    reveal_strlit("thumbnails");
    reveal_strlit("/thumb.webp");
    reveal_strlit("thumb.webp");
    assert(thumbnail_rel(doc_id)[0] == 't');
    assert(original_rel(doc_id)[0] == 'o');
    assert(joined(data_dir, thumbnail_rel(doc_id)) =~= data_dir + seq!['/'] + "thumbnails"@ + seq!['/']
        + doc_id + seq!['/'] + "thumb.webp"@);
    assert(joined(data_dir, original_rel(doc_id)) =~= data_dir + seq!['/'] + "originals"@ + seq!['/']
        + doc_id + seq!['/'] + "scan.jpg"@);
    assert(joined(data_dir, thumbnail_rel(doc_id)).take(data_dir.len() as int) =~= data_dir);
    assert(joined(data_dir, original_rel(doc_id)).take(data_dir.len() as int) =~= data_dir);
}

} // verus!
