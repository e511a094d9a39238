use pdf_shard::tile_path::{invalid_tile_path_reply, parse_tile_path, tile_reply};
use pdf_shard::error::RenderError;

#[test]
fn parsea_ruta_de_tile_valida() {
    assert_eq!(parse_tile_path("/tile/3/0/1200"), Some((3, 0, 1200)));
}

#[test]
fn rechaza_rutas_invalidas() {
    assert_eq!(parse_tile_path("/otra/3/0/1200"), None);
    assert_eq!(parse_tile_path("/tile/3/0/49"), None);
    assert_eq!(parse_tile_path("/tile/x/0/1200"), None);
}

#[test]
fn width_limits_are_inclusive() {
    assert_eq!(parse_tile_path("/tile/1/2/50"), Some((1, 2, 50)));
    assert_eq!(parse_tile_path("/tile/1/2/8000"), Some((1, 2, 8000)));
    assert_eq!(parse_tile_path("/tile/1/2/8001"), None);
    assert_eq!(parse_tile_path("/tile/1/2/-100"), None);
}

#[test]
fn numbers_parse_as_the_standard_library_does() {
    // an explicit plus sign is accepted, leading zeros too
    assert_eq!(parse_tile_path("/tile/+7/007/+0100"), Some((7, 7, 100)));
    // a minus sign is not accepted for unsigned pieces
    assert_eq!(parse_tile_path("/tile/-0/0/100"), None);
    // a sign alone, or an empty piece, is not a number
    assert_eq!(parse_tile_path("/tile/+/0/100"), None);
    assert_eq!(parse_tile_path("/tile//0/100"), None);
    // out of range for the type
    assert_eq!(parse_tile_path("/tile/4294967295/65535/100"), Some((4294967295, 65535, 100)));
    assert_eq!(parse_tile_path("/tile/4294967296/0/100"), None);
    assert_eq!(parse_tile_path("/tile/1/65536/100"), None);
}

#[test]
fn slashes_and_extra_pieces() {
    // any number of leading slashes, or none
    assert_eq!(parse_tile_path("tile/3/0/1200"), Some((3, 0, 1200)));
    assert_eq!(parse_tile_path("///tile/3/0/1200"), Some((3, 0, 1200)));
    // pieces after the width are ignored
    assert_eq!(parse_tile_path("/tile/3/0/1200/extra"), Some((3, 0, 1200)));
    assert_eq!(parse_tile_path("/tile/3/0/1200/"), Some((3, 0, 1200)));
    // too few pieces
    assert_eq!(parse_tile_path("/tile/3/0"), None);
    assert_eq!(parse_tile_path(""), None);
    assert_eq!(parse_tile_path("/tiles/3/0/1200"), None);
}

#[test]
fn roundtrip_of_written_paths() {
    for (id, page, width) in [(0u32, 0u16, 50i32), (12, 345, 678), (u32::MAX, u16::MAX, 8000)] {
        let path = format!("/tile/{id}/{page}/{width}");
        assert_eq!(parse_tile_path(&path), Some((id, page, width)));
    }
}

#[test]
fn replies_to_tile_requests() {
    let bad = invalid_tile_path_reply();
    assert_eq!(bad.status, 400);
    assert_eq!(bad.mime, "text/plain");
    assert_eq!(bad.body, b"ruta invalida".to_vec());

    let ok = tile_reply(Ok(vec![1, 2, 3]));
    assert_eq!(ok.status, 200);
    assert_eq!(ok.mime, "image/png");
    assert_eq!(ok.body, vec![1, 2, 3]);

    let missing = tile_reply(Err(RenderError::UnknownDocument(9)));
    assert_eq!(missing.status, 404);
    assert_eq!(missing.body, b"documento no abierto".to_vec());

    let failed = tile_reply(Err(RenderError::Pdfium("boom".to_string())));
    assert_eq!(failed.status, 500);
    assert_eq!(failed.mime, "text/plain");
    assert_eq!(failed.body, b"pdfium: boom".to_vec());
}
