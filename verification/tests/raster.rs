use dynamic_diagram::raster::{encode, RasterCache};
use resvg::tiny_skia;

#[test]
fn opaque_fast_path_matches_general_encoder_pixels() {
    let mut pm = tiny_skia::Pixmap::new(20, 10).unwrap();
    pm.fill(tiny_skia::Color::from_rgba8(20, 35, 50, 255));
    let expected = tiny_skia::Pixmap::decode_png(&pm.encode_png().unwrap()).unwrap();
    let actual = tiny_skia::Pixmap::decode_png(&encode(20, 10, pm.data()).unwrap()).unwrap();
    assert_eq!(actual.data(), expected.data());
    pm.fill(tiny_skia::Color::from_rgba8(20, 35, 50, 100));
    let actual = tiny_skia::Pixmap::decode_png(&encode(20, 10, pm.data()).unwrap()).unwrap();
    assert_eq!(actual.data(), pm.data());
}

#[test]
fn encode_output_is_a_png_of_the_pixels() {
    let data = vec![255u8; 4 * 3 * 2];
    let png = encode(3, 2, &data).unwrap();
    assert_eq!(&png[..8], b"\x89PNG\r\n\x1a\n");
    let back = tiny_skia::Pixmap::decode_png(&png).unwrap();
    assert_eq!((back.width(), back.height()), (3, 2));
    assert_eq!(back.data(), &data[..]);
}

#[test]
fn cache_keeps_density_distinct_and_enforces_its_budget() {
    let svg = "<svg/>";
    let mut c = RasterCache::new();
    c.insert(svg, 1, vec![1, 2, 3]);
    c.insert(svg, 2, vec![4, 5, 6, 7]);
    assert_eq!(c.get(svg, 2), Some(vec![4, 5, 6, 7]));
    assert_eq!(c.get(svg, 1), Some(vec![1, 2, 3]));
    assert_eq!(c.len(), 2);
    let mut none = RasterCache::with_budget(0);
    none.insert(svg, 1, vec![1]);
    assert_eq!(none.len(), 0);
    assert_eq!(none.get(svg, 1), None);
}

#[test]
fn cache_evicts_least_recently_used_to_stay_in_budget() {
    let mut c = RasterCache::with_budget(10);
    c.insert("a", 1, vec![0; 4]);
    c.insert("b", 1, vec![0; 4]);
    assert_eq!(c.bytes(), 10);
    assert!(c.get("a", 1).is_some());
    c.insert("c", 1, vec![0; 4]);
    assert!(c.get("b", 1).is_none());
    assert!(c.get("a", 1).is_some());
    assert!(c.get("c", 1).is_some());
    assert!(c.bytes() <= 10);
    c.insert("big", 1, vec![0; 20]);
    assert!(c.get("big", 1).is_none());
    assert_eq!(c.len(), 2);
    c.clear();
    assert_eq!((c.len(), c.bytes()), (0, 0));
}

#[test]
fn cache_holds_at_most_64_frames() {
    let mut c = RasterCache::new();
    for i in 0..70u32 {
        c.insert("s", i, vec![0]);
    }
    assert_eq!(c.len(), 64);
    assert!(c.get("s", 0).is_none());
    assert!(c.get("s", 69).is_some());
}

#[test]
fn stored_frame_is_found_next() {
    let mut c = RasterCache::with_budget(100);
    c.insert("frame", 3, vec![9, 9]);
    assert_eq!(c.get("frame", 3), Some(vec![9, 9]));
    assert_eq!(c.get("frame", 4), None);
}
