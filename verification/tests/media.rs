use oqqwall::media::{
    default_ext_for_kind, is_renderable_image, is_video_media, media_icon_text, media_label,
    MediaKind,
};

const ALL: [MediaKind; 6] = [
    MediaKind::Image,
    MediaKind::Video,
    MediaKind::File,
    MediaKind::Audio,
    MediaKind::Other,
    MediaKind::Sticker,
];

#[test]
fn media_labels_per_kind() {
    let labels: Vec<&str> = ALL.iter().map(|k| media_label(*k)).collect();
    assert_eq!(labels, vec!["Image", "Video", "File", "Audio", "Attachment", "Image"]);
}

#[test]
fn media_icons_per_kind() {
    let icons: Vec<String> = ALL.iter().map(|k| media_icon_text(*k)).collect();
    assert_eq!(icons, vec!["FILE", "VID", "FILE", "AUD", "ATT", "IMG"]);
}

#[test]
fn default_extensions_per_kind() {
    let exts: Vec<&str> = ALL.iter().map(|k| default_ext_for_kind(*k)).collect();
    assert_eq!(exts, vec!["png", "mp4", "bin", "mp3", "bin", "png"]);
}

#[test]
fn renderable_kinds_are_images_and_stickers() {
    for k in ALL {
        assert_eq!(is_renderable_image(k), media_label(k) == "Image");
        assert_eq!(is_video_media(k), k == MediaKind::Video);
    }
    assert!(is_renderable_image(MediaKind::Sticker));
    assert!(!is_renderable_image(MediaKind::File));
}
