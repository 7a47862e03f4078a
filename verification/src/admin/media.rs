//! Media in the admin area: paging, stored file names and thumbnail paths.
use crate::paths::{
    path_file_name, path_file_name_of, path_file_stem, path_file_stem_of, path_parent, path_parent_of,
};
use crate::text::{chars_of, ends_with, ends_with_at, push_all, string_push_str};
use vstd::prelude::*;

verus! {

/// Paging of the media list.
#[derive(Debug)]
pub struct ListQuery {
    pub page: Option<u32>,
}

/// The path of the thumbnail of the upload at `relative_path`: its file name
/// (or `thumb.webp`) with `thumb_` before it, in the same directory.
pub open spec fn thumb_path_spec(relative_path: Seq<char>) -> Seq<char> {
    let parent = match path_parent_of(relative_path) {
        Some(p) => p,
        None => Seq::<char>::empty(),
    };
    let name = match path_file_name_of(relative_path) {
        Some(f) => f,
        None => "thumb.webp"@,
    };
    if parent.len() == 0 {
        "thumb_"@ + name
    } else {
        parent + "/thumb_"@ + name
    }
}

/// The thumbnail path of an upload.
pub fn thumb_relative_path(relative_path: &str) -> (r: String)
    ensures
        r@ == thumb_path_spec(relative_path@),
{
    let parent = match path_parent(relative_path) {
        Some(p) => p,
        None => String::new(),
    };
    let name = match path_file_name(relative_path) {
        Some(f) => f,
        None => "thumb.webp".to_owned(),
    };
    let pv = chars_of(parent.as_str());
    if pv.len() == 0 {
        let mut s = "thumb_".to_owned();
        push_all(&mut s, &name);
        s
    } else {
        let mut s = parent.clone();
        string_push_str(&mut s, "/thumb_");
        push_all(&mut s, &name);
        s
    }
}

/// The name an upload is stored under: when it is stored as WebP and its
/// name does not end in `.webp`, its stem (or `upload`) with `.webp`;
/// otherwise its own name.
pub open spec fn stored_name_spec(file_name: Seq<char>, mime_type: Seq<char>) -> Seq<char> {
    if mime_type == "image/webp"@ && !ends_with(file_name, ".webp"@) {
        match path_file_stem_of(file_name) {
            Some(stem) => stem + ".webp"@,
            None => "upload.webp"@,
        }
    } else {
        file_name
    }
}

/// The name an upload is stored under (see `stored_name_spec`).
pub fn stored_file_name(file_name: &str, mime_type: &str) -> (r: String)
    ensures
        r@ == stored_name_spec(file_name@, mime_type@),
{
    let fv = chars_of(file_name);
    let ext = chars_of(".webp");
    let webp_name = ends_with_at(&fv, 0, fv.len(), &ext);
    assert(fv@.subrange(0, fv.len() as int) == fv@);
    if crate::builder::keyed::str_eq(mime_type, "image/webp") && !webp_name {
        match path_file_stem(file_name) {
            Some(stem) => {
                let mut s = stem;
                string_push_str(&mut s, ".webp");
                s
            },
            None => "upload.webp".to_owned(),
        }
    } else {
        file_name.to_owned()
    }
}

/// The file name recorded for an upload stored at `relative_path`: its last
/// component, or nothing.
pub fn media_file_name(relative_path: &str) -> (r: String)
    ensures
        r@ == match path_file_name_of(relative_path@) {
            Some(f) => f,
            None => Seq::empty(),
        },
{
    match path_file_name(relative_path) {
        Some(f) => f,
        None => String::new(),
    }
}

} // verus!
