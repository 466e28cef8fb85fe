//! Deciding on the outcome of reading the selection and of OCR capture.
use vstd::prelude::*;

use crate::text::{blank_range, chars_of, is_blank, owned, push_str, string_of, trim, trim_bounds};

verus! {

broadcast use vstd::string::group_string_axioms;

/// Why no text came from the screen.
pub enum CaptureError {
    /// Neither the PRIMARY selection nor the clipboard holds text.
    NoSelection,
    /// The region picker was cancelled.
    Cancelled,
    /// The picker ended without writing an image.
    NothingCaptured,
    /// tesseract failed; its error output.
    OcrFailed(String),
    /// tesseract found no text.
    NoText,
}

/// The output of the first selection source that gave non-blank text.
pub open spec fn first_selection(outputs: Seq<Option<String>>, i: int) -> Option<Seq<char>>
    decreases outputs.len() - i,
{
    if i < 0 || i >= outputs.len() {
        None
    } else {
        match outputs[i] {
            Some(s) => if !is_blank(s@) {
                Some(s@)
            } else {
                first_selection(outputs, i + 1)
            },
            None => first_selection(outputs, i + 1),
        }
    }
}

/// Read the current selection from the outputs of the selection sources, tried
/// in order (`None` where a source could not be run or failed): the first
/// non-blank output, as it is.
pub fn read_primary(outputs: &Vec<Option<String>>) -> (r: Result<String, CaptureError>)
    ensures
        match first_selection(outputs@, 0) {
            Some(s) => r matches Ok(t) && t@ == s,
            None => r matches Err(CaptureError::NoSelection),
        },
{
    let mut i: usize = 0;
    while i < outputs.len()
        invariant
            0 <= i <= outputs.len(),
            first_selection(outputs@, 0) == first_selection(outputs@, i as int),
        decreases outputs.len() - i,
    {
        match &outputs[i] {
            Some(s) => {
                let v = chars_of(s.as_str());
                assert(v@.subrange(0, v@.len() as int) =~= v@);
                if !blank_range(&v, 0, v.len()) {
                    return Ok(s.clone());
                }
            },
            None => {},
        }
        i = i + 1;
    }
    Err(CaptureError::NoSelection)
}

/// Whether the region capture produced an image to read.
pub fn check_capture(succeeded: bool, image_exists: bool) -> (r: Result<(), CaptureError>)
    ensures
        !succeeded ==> r matches Err(CaptureError::Cancelled),
        succeeded && !image_exists ==> r matches Err(CaptureError::NothingCaptured),
        succeeded && image_exists ==> r is Ok,
{
    if !succeeded {
        Err(CaptureError::Cancelled)
    } else if !image_exists {
        Err(CaptureError::NothingCaptured)
    } else {
        Ok(())
    }
}

/// The text that tesseract read, from its exit status and (lossily decoded) output.
pub fn ocr_text(succeeded: bool, stdout: &str, stderr: &str) -> (r: Result<String, CaptureError>)
    ensures
        !succeeded ==> (r matches Err(CaptureError::OcrFailed(e)) && e@ == stderr@),
        succeeded && trim(stdout@).len() == 0 ==> r matches Err(CaptureError::NoText),
        succeeded && trim(stdout@).len() > 0 ==> (r matches Ok(t) && t@ == trim(stdout@)),
{
    if !succeeded {
        return Err(CaptureError::OcrFailed(owned(stderr)));
    }
    let v = chars_of(stdout);
    let (b, e) = trim_bounds(&v, 0, v.len());
    assert(v@.subrange(0, v@.len() as int) =~= v@);
    if b == e {
        return Err(CaptureError::NoText);
    }
    Ok(string_of(&v, b, e))
}

impl CaptureError {
    /// The message shown for this error.
    pub fn message(&self) -> (r: String)
        ensures
            r@ == match *self {
                CaptureError::NoSelection => "no text selected (PRIMARY selection and clipboard are empty)"@,
                CaptureError::Cancelled => "region capture was cancelled"@,
                CaptureError::NothingCaptured => "no region was captured"@,
                CaptureError::OcrFailed(e) => "tesseract failed: "@ + e@,
                CaptureError::NoText => "OCR found no text in the captured region (try a clearer area or add a language pack)"@,
            },
    {
        match self {
            CaptureError::NoSelection => owned(
                "no text selected (PRIMARY selection and clipboard are empty)",
            ),
            CaptureError::Cancelled => owned("region capture was cancelled"),
            CaptureError::NothingCaptured => owned("no region was captured"),
            CaptureError::OcrFailed(e) => {
                let mut r = owned("tesseract failed: ");
                push_str(&mut r, e.as_str());
                r
            },
            CaptureError::NoText => owned(
                "OCR found no text in the captured region (try a clearer area or add a language pack)",
            ),
        }
    }
}

} // verus!
