//! Kinds of media a submission can carry, and the names, placeholder icons
//! and file extensions the renderer and the sender give each kind.
use vstd::prelude::*;

verus! {

/// What an attachment of a message is.
#[derive(Clone, Copy, Debug, PartialEq, Eq, Structural)]
pub enum MediaKind {
    Image,
    Video,
    File,
    Audio,
    Other,
    Sticker,
}

/// Stickers are pictures too: both are drawn inline as images.
pub open spec fn renderable_image_spec(kind: MediaKind) -> bool {
    kind is Image || kind is Sticker
}

/// Whether an attachment of this kind is drawn as a picture.
pub fn is_renderable_image(kind: MediaKind) -> (r: bool)
    ensures
        r == renderable_image_spec(kind),
{
    match kind {
        MediaKind::Image | MediaKind::Sticker => true,
        _ => false,
    }
}

/// Whether an attachment of this kind gets a video preview frame.
pub fn is_video_media(kind: MediaKind) -> (r: bool)
    ensures
        r == (kind is Video),
{
    match kind {
        MediaKind::Video => true,
        _ => false,
    }
}

/// The caption used for an attachment of this kind in placeholder cards.
pub open spec fn media_label_spec(kind: MediaKind) -> &'static str {
    match kind {
        MediaKind::Image => "Image",
        MediaKind::Video => "Video",
        MediaKind::File => "File",
        MediaKind::Audio => "Audio",
        MediaKind::Other => "Attachment",
        MediaKind::Sticker => "Image",
    }
}

pub fn media_label(kind: MediaKind) -> (r: &'static str)
    ensures
        r == media_label_spec(kind),
{
    match kind {
        MediaKind::Image => "Image",
        MediaKind::Video => "Video",
        MediaKind::File => "File",
        MediaKind::Audio => "Audio",
        MediaKind::Other => "Attachment",
        MediaKind::Sticker => "Image",
    }
}

/// The three or four letters drawn inside the icon of an attachment card.
pub open spec fn media_icon_spec(kind: MediaKind) -> Seq<char> {
    match kind {
        MediaKind::Video => "VID"@,
        MediaKind::Audio => "AUD"@,
        MediaKind::Other => "ATT"@,
        MediaKind::Sticker => "IMG"@,
        _ => "FILE"@,
    }
}

pub fn media_icon_text(kind: MediaKind) -> (r: String)
    ensures
        r@ == media_icon_spec(kind),
{
    match kind {
        MediaKind::Video => String::from_str("VID"),
        MediaKind::Audio => String::from_str("AUD"),
        MediaKind::Other => String::from_str("ATT"),
        MediaKind::Sticker => String::from_str("IMG"),
        _ => String::from_str("FILE"),
    }
}

/// The extension a cached copy of a media payload is stored under.
pub open spec fn default_ext_spec(kind: MediaKind) -> &'static str {
    match kind {
        MediaKind::Image => "png",
        MediaKind::Video => "mp4",
        MediaKind::Audio => "mp3",
        MediaKind::File => "bin",
        MediaKind::Other => "bin",
        MediaKind::Sticker => "png",
    }
}

pub fn default_ext_for_kind(kind: MediaKind) -> (r: &'static str)
    ensures
        r == default_ext_spec(kind),
{
    match kind {
        MediaKind::Image => "png",
        MediaKind::Video => "mp4",
        MediaKind::Audio => "mp3",
        MediaKind::File | MediaKind::Other => "bin",
        MediaKind::Sticker => "png",
    }
}

/// A sticker is labelled, stored and drawn exactly as an image is; only the
/// card icon tells the two apart.
pub proof fn lemma_sticker_treated_as_image()
    ensures
        media_label_spec(MediaKind::Sticker) == media_label_spec(MediaKind::Image),
        default_ext_spec(MediaKind::Sticker) == default_ext_spec(MediaKind::Image),
        renderable_image_spec(MediaKind::Sticker) && renderable_image_spec(MediaKind::Image),
{
}

/// The kinds that are drawn as pictures are exactly those captioned "Image".
pub proof fn lemma_renderable_iff_image_label(kind: MediaKind)
    ensures
        renderable_image_spec(kind) <==> media_label_spec(kind) == "Image",
{
    reveal_strlit("Image");
    reveal_strlit("Video");
    reveal_strlit("File");
    reveal_strlit("Audio");
    reveal_strlit("Attachment");
}

} // verus!
