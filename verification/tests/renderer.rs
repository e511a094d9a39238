use pdf_shard::error::{OpenFailure, RenderError};
use pdf_shard::png::RasterImage;
use pdf_shard::renderer::Renderer;
use pdf_shard::tile_cache::{TileCache, TILE_CACHE_CAPACITY};
use std::cell::Cell;

#[test]
fn cache_returns_what_was_stored() {
    let mut cache = TileCache::new();
    assert!(cache.get(&(1, 0, 100)).is_none());
    cache.put((1, 0, 100), vec![7, 8]);
    assert_eq!(cache.get(&(1, 0, 100)), Some(&vec![7, 8]));
    cache.put((1, 0, 100), vec![9]);
    assert_eq!(cache.get(&(1, 0, 100)), Some(&vec![9]));
}

#[test]
fn cache_evicts_the_oldest_first() {
    let mut cache = TileCache::new();
    for i in 0..TILE_CACHE_CAPACITY as u16 {
        cache.put((1, i, 100), vec![i as u8]);
    }
    // reading does not refresh a tile
    assert!(cache.get(&(1, 0, 100)).is_some());
    // storing again an existing key keeps its place
    cache.put((1, 0, 100), vec![42]);
    cache.put((1, 999, 100), vec![1]);
    assert!(cache.get(&(1, 0, 100)).is_none());
    assert!(cache.get(&(1, 1, 100)).is_some());
    assert!(cache.get(&(1, 999, 100)).is_some());
    cache.put((2, 0, 100), vec![2]);
    assert!(cache.get(&(1, 1, 100)).is_none());
    assert!(cache.get(&(1, 2, 100)).is_some());
}

#[test]
fn cache_distinguishes_every_part_of_the_key() {
    let mut cache = TileCache::new();
    cache.put((1, 2, -3), vec![1]);
    cache.put((1, 2, 3), vec![2]);
    cache.put((2, 1, 3), vec![3]);
    assert_eq!(cache.get(&(1, 2, -3)), Some(&vec![1]));
    assert_eq!(cache.get(&(1, 2, 3)), Some(&vec![2]));
    assert_eq!(cache.get(&(2, 1, 3)), Some(&vec![3]));
    assert!(cache.get(&(2, 1, -3)).is_none());
}

#[test]
fn invalidating_a_document_drops_only_its_tiles() {
    let mut cache = TileCache::new();
    cache.put((1, 0, 100), vec![1]);
    cache.put((2, 0, 100), vec![2]);
    cache.put((1, 1, 100), vec![3]);
    cache.invalidate_doc(1);
    assert!(cache.get(&(1, 0, 100)).is_none());
    assert!(cache.get(&(1, 1, 100)).is_none());
    assert_eq!(cache.get(&(2, 0, 100)), Some(&vec![2]));
}

fn raster(w: u32, h: u32) -> RasterImage {
    RasterImage { width: w, height: h, rgba: vec![255u8; (w * h * 4) as usize] }
}

#[test]
fn documento_no_abierto_devuelve_error() {
    let r: Renderer<(), String> = Renderer::new(());
    assert!(matches!(r.doc(999), Err(RenderError::UnknownDocument(999))));
}

#[test]
fn open_hands_out_increasing_keys() {
    let mut r: Renderer<(), String> = Renderer::new(());
    assert_eq!(r.next_key(), 1);
    let a = r.open(Ok(("a".to_string(), 3)), false);
    let b = r.open(Ok(("b".to_string(), 5)), false);
    assert!(matches!(a, Ok((1, 3))));
    assert!(matches!(b, Ok((2, 5))));
    assert_eq!(r.doc(1).ok(), Some(&"a".to_string()));
    assert_eq!(r.doc(2).ok(), Some(&"b".to_string()));
    r.close(1);
    assert!(matches!(r.doc(1), Err(RenderError::UnknownDocument(1))));
    // a closed key is not handed out again
    let c = r.open(Ok(("c".to_string(), 1)), false);
    assert!(matches!(c, Ok((3, 1))));
    // closing twice, or an unknown key, changes nothing
    r.close(1);
    r.close(77);
    assert_eq!(r.doc(2).ok(), Some(&"b".to_string()));
}

#[test]
fn failed_opens_are_classified() {
    let mut r: Renderer<(), String> = Renderer::new(());
    let needs = r.open(Err(OpenFailure { password_error: true, detail: String::new() }), false);
    assert!(matches!(needs, Err(RenderError::PasswordRequired)));
    let wrong = r.open(Err(OpenFailure { password_error: true, detail: String::new() }), true);
    assert!(matches!(wrong, Err(RenderError::WrongPassword)));
    let other = r.open(Err(OpenFailure { password_error: false, detail: "FileError".to_string() }), true);
    match other {
        Err(RenderError::Pdfium(d)) => assert_eq!(d, "FileError"),
        _ => panic!("expected a PDFium error"),
    }
    // failures take no key
    assert_eq!(r.next_key(), 1);
}

#[test]
fn rendered_tiles_are_cached() {
    let mut r: Renderer<(), String> = Renderer::new(());
    let (key, _) = r.open(Ok(("doc".to_string(), 1)), false).ok().unwrap();
    let calls = Cell::new(0);
    let rasterize = |_d: &String, _i: u16, _w: i32| {
        calls.set(calls.get() + 1);
        Ok(raster(2, 3))
    };
    let first = r.render_page_png(key, 0, 100, &rasterize).ok().unwrap();
    assert_eq!(&first[..8], &[0x89, b'P', b'N', b'G', 0x0d, 0x0a, 0x1a, 0x0a]);
    let second = r.render_page_png(key, 0, 100, &rasterize).ok().unwrap();
    assert_eq!(first, second);
    assert_eq!(calls.get(), 1);
    // another width is another tile
    let _ = r.render_page_png(key, 0, 200, &rasterize).ok().unwrap();
    assert_eq!(calls.get(), 2);
    // closing drops the cached tiles of the document
    r.close(key);
    assert!(matches!(r.render_page_png(key, 0, 100, &rasterize), Err(RenderError::UnknownDocument(k)) if k == key));
    assert_eq!(calls.get(), 2);
}

#[test]
fn render_failures_are_passed_on_and_not_cached() {
    let mut r: Renderer<(), String> = Renderer::new(());
    let (key, _) = r.open(Ok(("doc".to_string(), 1)), false).ok().unwrap();
    let failing = |_d: &String, _i: u16, _w: i32| -> Result<RasterImage, RenderError> {
        Err(RenderError::Pdfium("PageIndexOutOfBounds".to_string()))
    };
    assert!(matches!(r.render_page_png(key, 9, 100, failing), Err(RenderError::Pdfium(_))));
    let short = |_d: &String, _i: u16, _w: i32| {
        Ok(RasterImage { width: 2, height: 2, rgba: vec![0u8; 15] })
    };
    match r.render_page_png(key, 9, 100, short) {
        Err(RenderError::Pdfium(m)) => assert_eq!(m, "ImageError"),
        _ => panic!("expected the image error"),
    }
    // nothing was cached: a working rasterizer is asked
    assert!(r.render_page_png(key, 9, 100, |_d: &String, _i: u16, _w: i32| Ok(raster(1, 1))).is_ok());
}

#[test]
fn png_encoding_keeps_the_pixels_size() {
    let mut r: Renderer<(), String> = Renderer::new(());
    let (key, _) = r.open(Ok(("doc".to_string(), 1)), false).ok().unwrap();
    let png = r.render_page_png(key, 0, 100, |_d: &String, _i: u16, _w: i32| Ok(raster(7, 5))).ok().unwrap();
    // IHDR width and height, big endian
    assert_eq!(&png[16..20], &7u32.to_be_bytes());
    assert_eq!(&png[20..24], &5u32.to_be_bytes());
    // a zero-sized image is refused by the encoder
    let empty = r.render_page_png(key, 1, 100, |_d: &String, _i: u16, _w: i32| Ok(raster(0, 0)));
    assert!(matches!(empty, Err(RenderError::Image(_))));
}

#[test]
fn storing_an_encoding_outcome() {
    let mut r: Renderer<(), String> = Renderer::new(());
    let (key, _) = r.open(Ok(("doc".to_string(), 1)), false).ok().unwrap();
    assert_eq!(r.store_tile(key, 0, 100, Ok(vec![4, 5, 6])).ok(), Some(vec![4, 5, 6]));
    // the stored tile is served without rendering again
    let never = |_d: &String, _i: u16, _w: i32| -> Result<RasterImage, RenderError> { panic!("not cached") };
    assert_eq!(r.render_page_png(key, 0, 100, never).ok(), Some(vec![4, 5, 6]));
    match r.store_tile(key, 1, 100, Err("bad".to_string())) {
        Err(RenderError::Image(m)) => assert_eq!(m, "bad"),
        _ => panic!("expected an image error"),
    }
}
