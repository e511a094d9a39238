use lopdf::{Document, Object};
use pdf_shard::corpus::{generar_formulario, generar_texto_simple, SCAN_HEIGHT, SCAN_WIDTH};
use pdf_shard::corpus_pdf::{
    agregar_campo_nombre, documento_base, documento_escaneado_sim, documento_formulario, imagen_escaneada,
};
use pdf_shard::pdf_doc::PdfValue;
use pdf_shard::platform::{first_existing, lib_dir_candidates, LibDirCandidate};
use pdf_shard::selection::selection_span;
use pdf_shard::tile_cache::{TileCache, TILE_CACHE_CAPACITY};
use pdf_shard::renderer::Renderer;

fn dict<'a>(doc: &'a Document, id: (u32, u16)) -> &'a lopdf::Dictionary {
    doc.get_dictionary(id).expect("dictionary")
}

#[test]
fn base_document_has_the_expected_objects() {
    let contenido = generar_texto_simple();
    let (doc, page) = documento_base(contenido.clone(), None);
    assert_eq!(page, (5, 0));
    assert_eq!(doc.version, "1.7");
    assert_eq!(doc.objects.len(), 6);
    assert_eq!(doc.max_id, 6);
    assert_eq!(doc.trailer.get(b"Root").unwrap().as_reference().unwrap(), (6, 0));
    let pages = dict(&doc, (1, 0));
    assert_eq!(pages.get(b"Type").unwrap().as_name().unwrap(), b"Pages");
    assert_eq!(pages.get(b"Count").unwrap().as_i64().unwrap(), 1);
    assert_eq!(pages.get(b"Kids").unwrap().as_array().unwrap(), &vec![Object::Reference((5, 0))]);
    let font = dict(&doc, (3, 0));
    assert_eq!(font.get(b"BaseFont").unwrap().as_name().unwrap(), b"Helvetica-Bold");
    let p = dict(&doc, (5, 0));
    let keys: Vec<&[u8]> = p.iter().map(|(k, _)| k.as_slice()).collect();
    assert_eq!(keys, vec![&b"Type"[..], b"Parent", b"MediaBox", b"Contents", b"Resources"]);
    let mb: Vec<f32> = p.get(b"MediaBox").unwrap().as_array().unwrap().iter().map(|o| o.as_float().unwrap()).collect();
    assert_eq!(mb, vec![0.0, 0.0, 612.0, 792.0]);
    let mb_objects = p.get(b"MediaBox").unwrap().as_array().unwrap();
    assert!(matches!(mb_objects[0], Object::Integer(0)));
    assert!(matches!(mb_objects[1], Object::Integer(0)));
    assert!(matches!(mb_objects[2], Object::Real(_)));
    assert!(matches!(mb_objects[3], Object::Real(_)));
    assert_eq!(p.get(b"Contents").unwrap().as_reference().unwrap(), (4, 0));
    let fonts = p.get(b"Resources").unwrap().as_dict().unwrap().get(b"Font").unwrap().as_dict().unwrap();
    assert_eq!(fonts.get(b"F1").unwrap().as_reference().unwrap(), (2, 0));
    assert_eq!(fonts.get(b"F2").unwrap().as_reference().unwrap(), (3, 0));
    let content = doc.get_object((4, 0)).unwrap().as_stream().unwrap();
    assert_eq!(content.content, contenido.as_bytes());
    assert_eq!(content.dict.get(b"Length").unwrap().as_i64().unwrap(), contenido.len() as i64);
    let catalog = dict(&doc, (6, 0));
    assert_eq!(catalog.get(b"Pages").unwrap().as_reference().unwrap(), (1, 0));
}

#[test]
fn form_document_has_its_text_field() {
    let doc = documento_formulario();
    assert_eq!(doc.objects.len(), 9);
    assert_eq!(doc.max_id, 9);
    let content = doc.get_object((4, 0)).unwrap().as_stream().unwrap();
    assert_eq!(content.content, generar_formulario().as_bytes());
    let page = dict(&doc, (5, 0));
    assert_eq!(page.get(b"Annots").unwrap().as_array().unwrap(), &vec![Object::Reference((8, 0))]);
    let helv = dict(&doc, (7, 0));
    assert_eq!(helv.get(b"BaseFont").unwrap().as_name().unwrap(), b"Helvetica");
    let field = dict(&doc, (8, 0));
    assert_eq!(field.get(b"Subtype").unwrap().as_name().unwrap(), b"Widget");
    assert_eq!(field.get(b"FT").unwrap().as_name().unwrap(), b"Tx");
    assert_eq!(field.get(b"T").unwrap().as_str().unwrap(), b"nombre");
    assert_eq!(field.get(b"V").unwrap().as_str().unwrap(), b"");
    assert_eq!(field.get(b"F").unwrap().as_i64().unwrap(), 4);
    assert_eq!(field.get(b"P").unwrap().as_reference().unwrap(), (5, 0));
    assert_eq!(field.get(b"DA").unwrap().as_str().unwrap(), b"/Helv 11 Tf 0 g");
    let rect: Vec<i64> = field.get(b"Rect").unwrap().as_array().unwrap().iter().map(|o| o.as_i64().unwrap()).collect();
    assert_eq!(rect, vec![140, 650, 390, 672]);
    let catalog = dict(&doc, (6, 0));
    assert_eq!(catalog.get(b"AcroForm").unwrap().as_reference().unwrap(), (9, 0));
    let form = dict(&doc, (9, 0));
    assert_eq!(form.get(b"Fields").unwrap().as_array().unwrap(), &vec![Object::Reference((8, 0))]);
    assert_eq!(form.get(b"DA").unwrap().as_str().unwrap(), b"/Helv 0 Tf 0 g");
    assert_eq!(form.get(b"NeedAppearances").unwrap().as_bool().unwrap(), true);
    let dr_font = form.get(b"DR").unwrap().as_dict().unwrap().get(b"Font").unwrap().as_dict().unwrap();
    assert_eq!(dr_font.get(b"Helv").unwrap().as_reference().unwrap(), (7, 0));
}

#[test]
fn a_field_on_a_missing_page_leaves_the_page_alone() {
    let (mut doc, _) = documento_base("BT ET\n".to_string(), None);
    agregar_campo_nombre(&mut doc, (42, 0));
    assert_eq!(doc.objects.len(), 9);
    assert!(doc.get_object((42, 0)).is_err());
    assert!(dict(&doc, (5, 0)).get(b"Annots").is_err());
    assert_eq!(dict(&doc, (8, 0)).get(b"P").unwrap().as_reference().unwrap(), (42, 0));
    assert_eq!(dict(&doc, (6, 0)).get(b"AcroForm").unwrap().as_reference().unwrap(), (9, 0));
}

#[test]
fn scan_document_embeds_the_image() {
    let (doc, page) = documento_escaneado_sim();
    assert_eq!(page, (6, 0));
    assert_eq!(doc.objects.len(), 7);
    assert_eq!(doc.trailer.get(b"Root").unwrap().as_reference().unwrap(), (7, 0));
    let img = doc.get_object((4, 0)).unwrap().as_stream().unwrap();
    assert_eq!(img.dict.get(b"Subtype").unwrap().as_name().unwrap(), b"Image");
    assert_eq!(img.dict.get(b"Width").unwrap().as_i64().unwrap(), SCAN_WIDTH as i64);
    assert_eq!(img.dict.get(b"Height").unwrap().as_i64().unwrap(), SCAN_HEIGHT as i64);
    assert_eq!(img.dict.get(b"ColorSpace").unwrap().as_name().unwrap(), b"DeviceRGB");
    assert_eq!(img.dict.get(b"BitsPerComponent").unwrap().as_i64().unwrap(), 8);
    assert_eq!(img.dict.get(b"Length").unwrap().as_i64().unwrap(), (3 * SCAN_WIDTH * SCAN_HEIGHT) as i64);
    assert_eq!(img.content.len(), 3 * SCAN_WIDTH * SCAN_HEIGHT);
    let p = dict(&doc, (6, 0));
    assert_eq!(p.get(b"Contents").unwrap().as_reference().unwrap(), (5, 0));
    let xo = p.get(b"Resources").unwrap().as_dict().unwrap().get(b"XObject").unwrap().as_dict().unwrap();
    assert_eq!(xo.get(b"Im1").unwrap().as_reference().unwrap(), (4, 0));
}

#[test]
fn image_stream_holds_the_given_bytes() {
    match imagen_escaneada(vec![1, 2, 3]) {
        PdfValue::Stream(entries, data) => {
            assert_eq!(data, vec![1, 2, 3]);
            let keys: Vec<&str> = entries.iter().map(|(k, _)| k.as_str()).collect();
            assert_eq!(keys, vec!["Type", "Subtype", "Width", "Height", "ColorSpace", "BitsPerComponent"]);
        }
        _ => panic!("not a stream"),
    }
}

#[test]
fn pdfium_directories_are_tried_in_order() {
    assert_eq!(
        lib_dir_candidates(true, 2, true),
        vec![
            LibDirCandidate::EnvDir,
            LibDirCandidate::UnderAncestor(0),
            LibDirCandidate::UnderAncestor(1),
            LibDirCandidate::BesideExe
        ]
    );
    assert_eq!(lib_dir_candidates(false, 1, false), vec![LibDirCandidate::UnderAncestor(0)]);
    assert!(lib_dir_candidates(false, 0, false).is_empty());
}

#[test]
fn a_tile_stays_until_capacity_newer_tiles_arrive() {
    let mut cache = TileCache::new();
    cache.put((1, 0, 100), vec![5]);
    for i in 1..TILE_CACHE_CAPACITY as u16 {
        cache.put((1, i, 100), vec![0]);
        cache.put((1, i, 100), vec![1]);
    }
    assert_eq!(cache.get(&(1, 0, 100)), Some(&vec![5]));
    cache.put((2, 0, 100), vec![0]);
    assert!(cache.get(&(1, 0, 100)).is_none());
}

#[test]
fn dragging_backwards_selects_the_same_span() {
    assert_eq!(selection_span(Some(9), Some(3)), selection_span(Some(3), Some(9)));
    assert_eq!(selection_span(Some(3), Some(9)), Some((3, 7)));
    assert_eq!(selection_span(None, Some(3)), selection_span(Some(3), None));
}

#[test]
fn a_field_on_a_page_reached_by_reference_lands_on_the_page() {
    let (mut doc, _) = documento_base("BT ET\n".to_string(), None);
    doc.objects.insert((20, 0), Object::Reference((5, 0)));
    agregar_campo_nombre(&mut doc, (20, 0));
    assert_eq!(dict(&doc, (5, 0)).get(b"Annots").unwrap().as_array().unwrap(), &vec![Object::Reference((8, 0))]);
    assert_eq!(doc.objects.get(&(20, 0)), Some(&Object::Reference((5, 0))));
}

#[test]
fn the_first_existing_directory_is_chosen() {
    assert_eq!(first_existing(&vec![false, true, true]), Some(1));
    assert_eq!(first_existing(&vec![true]), Some(0));
    assert_eq!(first_existing(&vec![false, false]), None);
    assert_eq!(first_existing(&vec![]), None);
}

#[test]
fn a_tile_survives_closing_other_documents() {
    let mut cache = TileCache::new();
    cache.put((1, 0, 100), vec![5]);
    for i in 1..TILE_CACHE_CAPACITY as u16 {
        cache.put((2, i, 100), vec![0]);
        cache.invalidate_doc(3);
    }
    cache.invalidate_doc(2);
    for i in 1..TILE_CACHE_CAPACITY as u16 {
        cache.put((4, i, 100), vec![0]);
    }
    // the tiles of document 2 left with it, so nothing has pushed (1, 0, 100) out
    assert_eq!(cache.get(&(1, 0, 100)), Some(&vec![5]));
    cache.put((5, 0, 100), vec![0]);
    assert!(cache.get(&(1, 0, 100)).is_none());
}

#[test]
fn keys_keep_rising_across_closes() {
    let mut r: Renderer<(), u8> = Renderer::new(());
    assert_eq!(r.open(Ok((1, 1)), false).ok(), Some((1, 1)));
    r.close(1);
    assert!(r.open(Err(pdf_shard::error::OpenFailure { password_error: false, detail: String::new() }), false).is_err());
    assert_eq!(r.open(Ok((2, 4)), false).ok(), Some((2, 4)));
    assert_eq!(r.open(Ok((3, 2)), false).ok(), Some((3, 2)));
    assert!(r.doc(1).is_err());
    assert_eq!(r.doc(2).ok(), Some(&2));
    assert_eq!(r.doc(3).ok(), Some(&3));
}
