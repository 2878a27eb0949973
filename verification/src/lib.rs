use vstd::prelude::*;

pub mod text;
pub mod record;
pub mod journal;
pub mod snapshot;
pub mod debug_log;
pub mod shortcut;
pub mod json;
pub mod codec;
pub mod thankyou;
pub mod qzone;
pub mod render;
pub mod card;
pub mod inline;
pub mod image_cache;
pub mod media;
pub mod qr;
pub mod measure;
pub mod wrap;
pub mod sender;
pub mod card_layout;
pub mod forward_layout;
pub mod post_layout;

verus! {
} // verus!
