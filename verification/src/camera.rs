//! The camera server: what goes out for a captured picture.

use vstd::prelude::*;

verus! {

/// What goes out for `GET /capture`.
#[derive(Clone, Copy, Debug)]
pub enum CaptureReply<'a> {
    /// Status 200 with the given content type and body.
    Picture { content_type: &'static str, body: &'a [u8] },
    /// An empty reply with the given status.
    Status(u16),
}

/// Answers `GET /capture`: the picture, or a server error where the camera has none.
pub fn capture_reply<'a>(frame: Option<&'a [u8]>) -> (r: CaptureReply<'a>)
    ensures
        match frame {
            Some(data) => r matches CaptureReply::Picture { content_type, body }
                && content_type@ == "image/jpeg"@ && body@ == data@,
            None => r == CaptureReply::Status(500),
        },
        frame is Some <==> r is Picture,
{
    match frame {
        Some(data) => CaptureReply::Picture { content_type: "image/jpeg", body: data },
        None => CaptureReply::Status(500),
    }
}

} // verus!
