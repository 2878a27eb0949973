use oqqwall::image_cache::{ImageCacheKey, ImageMemoryCache};
use oqqwall::render::ResolvedImage;

fn image(byte: u8) -> ResolvedImage {
    ResolvedImage { bytes: Some(vec![byte]), width: Some(1), height: Some(1) }
}

fn src(s: &str) -> ImageCacheKey {
    ImageCacheKey::Source(s.to_string())
}

#[test]
fn images_are_kept_by_key() {
    let mut cache = ImageMemoryCache::new();
    assert!(cache.get(&src("a.png")).is_none());
    cache.insert(src("a.png"), image(1));
    cache.insert(ImageCacheKey::Blob(7), image(2));
    cache.insert(src("a.png"), image(3));
    assert_eq!(cache.get(&src("a.png")).unwrap().bytes, Some(vec![3]));
    assert!(cache.contains(&ImageCacheKey::Blob(7)));
    cache.remove(&ImageCacheKey::Blob(7));
    assert!(!cache.contains(&ImageCacheKey::Blob(7)));
    assert!(cache.contains(&src("a.png")));
}

#[test]
fn forgetting_a_message_drops_its_images() {
    let mut cache = ImageMemoryCache::new();
    cache.insert(src("a.png"), image(1));
    cache.insert(src("b.png"), image(2));
    cache.insert(src("c.png"), image(3));
    cache.remember_source(1, 0, src("a.png"));
    cache.remember_source(1, 1, src("b.png"));
    cache.remember_source(2, 0, src("c.png"));
    cache.clear_for_ingress(1);
    assert!(!cache.contains(&src("a.png")));
    assert!(!cache.contains(&src("b.png")));
    assert!(cache.contains(&src("c.png")));
    assert!(cache.take_source(1, 0).is_none());
    assert_eq!(cache.take_source(2, 0), Some(src("c.png")));
    assert!(cache.take_source(2, 0).is_none());
}

#[test]
fn released_keys_are_dropped_with_their_attachments() {
    let mut cache = ImageMemoryCache::new();
    cache.insert(src("a.png"), image(1));
    cache.insert(ImageCacheKey::Blob(9), image(2));
    cache.remember_source(1, 0, src("a.png"));
    cache.remember_source(1, 1, src("x.png"));
    cache.release_keys(&vec![src("a.png")]);
    assert!(!cache.contains(&src("a.png")));
    assert!(cache.contains(&ImageCacheKey::Blob(9)));
    assert!(cache.take_source(1, 0).is_none());
    assert_eq!(cache.take_source(1, 1), Some(src("x.png")));
}
