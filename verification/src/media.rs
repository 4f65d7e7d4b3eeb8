//! What becomes of a message's attachments.
use crate::text::{occurs_at, starts_with};
use vstd::prelude::*;
use vstd::string::*;

verus! {

/// The largest attachment that is downloaded, in bytes.
pub const MAX_ATTACHMENT_BYTES: u64 = 20 * 1024 * 1024;

/// What becomes of one attachment.
#[derive(PartialEq, Eq, Structural, Clone, Copy, Debug)]
pub enum AttachmentAction {
    /// It is larger than `MAX_ATTACHMENT_BYTES`: it is not downloaded, and the prompt says
    /// so.
    TooLarge,
    /// It is an image, a video or audio: it is downloaded and handed to the model.
    Download,
    /// Anything else is left aside.
    Skip,
}

/// Whether a MIME type is that of an image, a video or audio.
pub open spec fn is_media_type(mime: Seq<char>) -> bool {
    occurs_at(mime, "image/"@, 0) || occurs_at(mime, "video/"@, 0) || occurs_at(mime, "audio/"@, 0)
}

/// What becomes of an attachment of `size` bytes and the given MIME type (none counts as
/// the empty type).
pub open spec fn spec_attachment_action(size: u64, content_type: Option<Seq<char>>) -> AttachmentAction {
    if size > MAX_ATTACHMENT_BYTES {
        AttachmentAction::TooLarge
    } else if is_media_type(
        match content_type {
            Some(t) => t,
            None => ""@,
        },
    ) {
        AttachmentAction::Download
    } else {
        AttachmentAction::Skip
    }
}

/// What becomes of an attachment of `size` bytes and the given MIME type.
pub fn attachment_action(size: u64, content_type: Option<&str>) -> (r: AttachmentAction)
    ensures
        r == spec_attachment_action(
            size,
            match content_type {
                Some(t) => Some(t@),
                None => None,
            },
        ),
{
    if size > MAX_ATTACHMENT_BYTES {
        return AttachmentAction::TooLarge;
    }
    let mime = match content_type {
        Some(t) => t,
        None => "",
    };
    if starts_with(mime, "image/") || starts_with(mime, "video/") || starts_with(mime, "audio/") {
        AttachmentAction::Download
    } else {
        AttachmentAction::Skip
    }
}

/// The note added to the prompt for an attachment whose download failed.
pub open spec fn spec_download_failed_note(filename: Seq<char>) -> Seq<char> {
    "\n[Attachment '"@ + filename + "' download timed out or failed]"@
}

/// The note added to the prompt for an attachment whose download failed or timed out.
pub fn download_failed_note(filename: &str) -> (r: String)
    ensures
        r@ == spec_download_failed_note(filename@),
{
    let mut s = String::from_str("\n[Attachment '");
    s.append(filename);
    s.append("' download timed out or failed]");
    s
}

} // verus!
