//! The multipart form of an upload.

use vstd::prelude::*;
use crate::errors::AppError;
use crate::json::same_text;

verus! {

/// Which part of an upload a multipart field carries.
#[derive(Debug)]
pub enum FormField {
    /// The image bytes (field `image`).
    Image,
    /// When the photo was taken (field `captured_at`).
    CapturedAt,
    /// Anything else; ignored.
    Other,
}

pub open spec fn field_kind(name: Option<Seq<char>>) -> FormField {
    match name {
        Some(n) => if n == "image"@ {
            FormField::Image
        } else if n == "captured_at"@ {
            FormField::CapturedAt
        } else {
            FormField::Other
        },
        None => FormField::Other,
    }
}

/// The part of an upload that a multipart field with this name carries.
pub fn form_field(name: Option<&str>) -> (r: FormField)
    ensures
        r == field_kind(match name {
            Some(n) => Some(n@),
            None => None,
        }),
{
    match name {
        Some(n) => if same_text(n, "image") {
            FormField::Image
        } else if same_text(n, "captured_at") {
            FormField::CapturedAt
        } else {
            FormField::Other
        },
        None => FormField::Other,
    }
}

/// The fields of an upload read so far; a later field of the same name
/// replaces an earlier one.
#[derive(Debug)]
pub struct UploadForm {
    pub image: Option<Vec<u8>>,
    pub captured_at: Option<String>,
}

impl UploadForm {
    /// A form with no field read yet.
    pub fn new() -> (r: UploadForm)
        ensures
            r.image is None,
            r.captured_at is None,
    {
        UploadForm { image: None, captured_at: None }
    }

    /// The image bytes and the capture time of a complete form; the capture
    /// time is `now` when the form gave none. A form without an image is
    /// refused.
    pub fn finish(self, now: String) -> (r: Result<(Vec<u8>, String), AppError>)
        ensures
            self.image is None <==> r is Err,
            r matches Err(e) ==> (e matches AppError::Validation(m) && m@ == "missing 'image' field"@),
            r matches Ok((img, at)) ==> (self.image == Some(img) && at@ == match self.captured_at {
                Some(c) => c@,
                None => now@,
            }),
    {
        match self.image {
            None => {
                let m = "missing 'image' field".to_string();
                Err(AppError::Validation(m))
            },
            Some(img) => {
                let at = match self.captured_at {
                    Some(c) => c,
                    None => now,
                };
                Ok((img, at))
            },
        }
    }
}

} // verus!
