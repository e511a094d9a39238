//! The documents of the synthetic test corpus: one US Letter page whose
//! content stream draws with the two standard Helvetica fonts, an optional
//! image, and for the form document a text field with its AcroForm.

use crate::pdf_doc::{
    add_object, entries_view, name_value, new_document, new_object_id, pdf_max_id, pdf_objects,
    pdf_root, pdf_version, push_entry, push_value, reference_value, root_of, set_entry, set_object,
    set_root, stored, text_value, values_view, entry_set, PdfValue, PdfValueView,
};
use crate::corpus::{
    escaneado_spec, formulario_spec, generar_escaneado_sim, generar_formulario, scan_byte,
    SCAN_HEIGHT, SCAN_WIDTH,
};
use vstd::prelude::*;
use vstd::utf8::encode_utf8;

verus! {

pub open spec fn name_v(s: Seq<char>) -> PdfValueView {
    PdfValueView::Name(s)
}

pub open spec fn ref_v(id: (u32, u16)) -> PdfValueView {
    PdfValueView::Reference(id.0, id.1)
}

/// A standard Type 1 font dictionary.
pub open spec fn font_spec(base: Seq<char>) -> PdfValueView {
    PdfValueView::Dictionary(
        seq![("Type"@, name_v("Font"@)), ("Subtype"@, name_v("Type1"@)), ("BaseFont"@, name_v(base))],
    )
}

/// The page's resources: fonts `F1` (object 2) and `F2` (object 3), and,
/// where there is one, an image named `xobject` (object 4).
pub open spec fn resources_spec(xobject: Option<Seq<char>>) -> PdfValueView {
    let fonts = ("Font"@, PdfValueView::Dictionary(seq![("F1"@, ref_v((2, 0))), ("F2"@, ref_v((3, 0)))]));
    match xobject {
        None => PdfValueView::Dictionary(seq![fonts]),
        Some(n) => PdfValueView::Dictionary(
            seq![fonts, ("XObject"@, PdfValueView::Dictionary(seq![(n, ref_v((4, 0)))]))],
        ),
    }
}

/// The page box of a US Letter page: the origin as integers, the width and
/// height in points as reals.
pub open spec fn page_box() -> PdfValueView {
    PdfValueView::Array(
        seq![
            PdfValueView::Integer(0),
            PdfValueView::Integer(0),
            PdfValueView::Real(612),
            PdfValueView::Real(792),
        ],
    )
}

/// The page dictionary: its parent is object 1.
pub open spec fn page_spec(contents: (u32, u16), xobject: Option<Seq<char>>) -> PdfValueView {
    PdfValueView::Dictionary(
        seq![
            ("Type"@, name_v("Page"@)),
            ("Parent"@, ref_v((1, 0))),
            ("MediaBox"@, page_box()),
            ("Contents"@, ref_v(contents)),
            ("Resources"@, resources_spec(xobject)),
        ],
    )
}

/// The page tree with its one page.
pub open spec fn pages_spec(page: (u32, u16)) -> PdfValueView {
    PdfValueView::Dictionary(
        seq![
            ("Type"@, name_v("Pages"@)),
            ("Kids"@, PdfValueView::Array(seq![ref_v(page)])),
            ("Count"@, PdfValueView::Integer(1)),
        ],
    )
}

/// The catalog, whose page tree is object 1.
pub open spec fn catalog_spec() -> PdfValueView {
    PdfValueView::Dictionary(seq![("Type"@, name_v("Catalog"@)), ("Pages"@, ref_v((1, 0)))])
}

/// A content stream holding `bytes`.
pub open spec fn content_stream(bytes: Seq<u8>) -> PdfValueView {
    PdfValueView::Stream(Seq::empty(), bytes)
}

/// How many objects the optional image adds (0 or 1).
pub open spec fn extra_count(extra: Option<(Seq<char>, PdfValueView)>) -> u32 {
    if extra is Some {
        1
    } else {
        0
    }
}

/// The id of the page of a one-page corpus document.
pub open spec fn base_page_id(extra: Option<(Seq<char>, PdfValueView)>) -> (u32, u16) {
    ((5 + extra_count(extra)) as u32, 0)
}

/// The id of the catalog of a one-page corpus document.
pub open spec fn base_catalog_id(extra: Option<(Seq<char>, PdfValueView)>) -> (u32, u16) {
    ((6 + extra_count(extra)) as u32, 0)
}

/// The objects of a one-page corpus document with page content `content`
/// and an optional image (its resource name and its stream): the page tree
/// (1), the fonts (2 and 3), the image (4, where there is one), then the
/// content stream, the page and the catalog.
pub open spec fn base_objects(content: Seq<char>, extra: Option<(Seq<char>, PdfValueView)>) -> Map<
    (u32, u16),
    PdfValueView,
> {
    let k = extra_count(extra);
    let m0 = Map::<(u32, u16), PdfValueView>::empty().insert(
        (1, 0),
        stored(pages_spec(base_page_id(extra))),
    ).insert((2, 0), stored(font_spec("Helvetica"@))).insert(
        (3, 0),
        stored(font_spec("Helvetica-Bold"@)),
    );
    let m1 = match extra {
        Some(x) => m0.insert((4, 0), stored(x.1)),
        None => m0,
    };
    let xname = match extra {
        Some(x) => Some(x.0),
        None => None,
    };
    m1.insert(((4 + k) as u32, 0), stored(content_stream(encode_utf8(content)))).insert(
        base_page_id(extra),
        stored(page_spec(((4 + k) as u32, 0), xname)),
    ).insert(base_catalog_id(extra), stored(catalog_spec()))
}

/// The view of an optional image resource.
pub open spec fn extra_view(extra: Option<(String, PdfValue)>) -> Option<(Seq<char>, PdfValueView)> {
    match extra {
        Some(x) => Some((x.0@, x.1@)),
        None => None,
    }
}

/// A standard Type 1 font dictionary.
fn font_value(base: &str) -> (v: PdfValue)
    ensures
        v@ == font_spec(base@),
{
    let mut e: Vec<(String, PdfValue)> = Vec::new();
    push_entry(&mut e, "Type", name_value("Font"));
    push_entry(&mut e, "Subtype", name_value("Type1"));
    push_entry(&mut e, "BaseFont", name_value(base));
    let v = PdfValue::Dictionary(e);
    assert(entries_view(Seq::empty()) == Seq::<(Seq<char>, PdfValueView)>::empty());
    assert(v@ == font_spec(base@)) by {
        assert(entries_view(e@) =~= seq![
            ("Type"@, name_v("Font"@)),
            ("Subtype"@, name_v("Type1"@)),
            ("BaseFont"@, name_v(base@)),
        ]);
    }
    v
}

fn resources_value(xobject: Option<(String, (u32, u16))>) -> (v: PdfValue)
    requires
        xobject matches Some(x) ==> x.1 == (4u32, 0u16),
    ensures
        v@ == resources_spec(
            match xobject {
                Some(x) => Some(x.0@),
                None => None,
            },
        ),
{
    let mut fonts: Vec<(String, PdfValue)> = Vec::new();
    push_entry(&mut fonts, "F1", reference_value((2, 0)));
    push_entry(&mut fonts, "F2", reference_value((3, 0)));
    let ghost fv = entries_view(fonts@);
    assert(fv =~= seq![("F1"@, ref_v((2, 0))), ("F2"@, ref_v((3, 0)))]);
    let mut e: Vec<(String, PdfValue)> = Vec::new();
    push_entry(&mut e, "Font", PdfValue::Dictionary(fonts));
    match xobject {
        Some((n, id)) => {
            let ghost nv = n@;
            let mut xo: Vec<(String, PdfValue)> = Vec::new();
            push_entry(&mut xo, n.as_str(), reference_value(id));
            assert(entries_view(xo@) =~= seq![(nv, ref_v((4, 0)))]);
            push_entry(&mut e, "XObject", PdfValue::Dictionary(xo));
            assert(entries_view(e@) =~= seq![
                ("Font"@, PdfValueView::Dictionary(fv)),
                ("XObject"@, PdfValueView::Dictionary(seq![(nv, ref_v((4, 0)))])),
            ]);
        },
        None => {
            assert(entries_view(e@) =~= seq![("Font"@, PdfValueView::Dictionary(fv))]);
        },
    }
    PdfValue::Dictionary(e)
}

fn page_value(contents: (u32, u16), xobject: Option<(String, (u32, u16))>) -> (v: PdfValue)
    requires
        xobject matches Some(x) ==> x.1 == (4u32, 0u16),
    ensures
        v@ == page_spec(
            contents,
            match xobject {
                Some(x) => Some(x.0@),
                None => None,
            },
        ),
{
    let mut media: Vec<PdfValue> = Vec::new();
    push_value(&mut media, PdfValue::Integer(0));
    push_value(&mut media, PdfValue::Integer(0));
    push_value(&mut media, PdfValue::Real(612));
    push_value(&mut media, PdfValue::Real(792));
    assert(values_view(media@) =~= seq![
        PdfValueView::Integer(0),
        PdfValueView::Integer(0),
        PdfValueView::Real(612),
        PdfValueView::Real(792),
    ]);
    let resources = resources_value(xobject);
    let ghost rv = resources@;
    let mut e: Vec<(String, PdfValue)> = Vec::new();
    push_entry(&mut e, "Type", name_value("Page"));
    push_entry(&mut e, "Parent", reference_value((1, 0)));
    push_entry(&mut e, "MediaBox", PdfValue::Array(media));
    push_entry(&mut e, "Contents", reference_value(contents));
    push_entry(&mut e, "Resources", resources);
    assert(entries_view(e@) =~= seq![
        ("Type"@, name_v("Page"@)),
        ("Parent"@, ref_v((1, 0))),
        ("MediaBox"@, page_box()),
        ("Contents"@, ref_v(contents)),
        ("Resources"@, rv),
    ]);
    PdfValue::Dictionary(e)
}

fn pages_value(page: (u32, u16)) -> (v: PdfValue)
    ensures
        v@ == pages_spec(page),
{
    let mut kids: Vec<PdfValue> = Vec::new();
    push_value(&mut kids, reference_value(page));
    assert(values_view(kids@) =~= seq![ref_v(page)]);
    let mut e: Vec<(String, PdfValue)> = Vec::new();
    push_entry(&mut e, "Type", name_value("Pages"));
    push_entry(&mut e, "Kids", PdfValue::Array(kids));
    push_entry(&mut e, "Count", PdfValue::Integer(1));
    assert(entries_view(e@) =~= seq![
        ("Type"@, name_v("Pages"@)),
        ("Kids"@, PdfValueView::Array(seq![ref_v(page)])),
        ("Count"@, PdfValueView::Integer(1)),
    ]);
    PdfValue::Dictionary(e)
}

fn catalog_value() -> (v: PdfValue)
    ensures
        v@ == catalog_spec(),
{
    let mut e: Vec<(String, PdfValue)> = Vec::new();
    push_entry(&mut e, "Type", name_value("Catalog"));
    push_entry(&mut e, "Pages", reference_value((1, 0)));
    assert(entries_view(e@) =~= seq![("Type"@, name_v("Catalog"@)), ("Pages"@, ref_v((1, 0)))]);
    PdfValue::Dictionary(e)
}

/// A one-page document whose page draws `contenido` with fonts `F1`
/// (Helvetica) and `F2` (Helvetica-Bold) and, where `extra_xobject` is
/// given, can draw the image stream under that resource name. Returns the
/// document and its page's id.
pub fn documento_base(contenido: String, extra_xobject: Option<(String, PdfValue)>) -> (r: (
    lopdf::Document,
    (u32, u16),
))
    ensures
        pdf_objects(r.0) == base_objects(contenido@, extra_view(extra_xobject)),
        r.1 == base_page_id(extra_view(extra_xobject)),
        pdf_root(r.0) == Some(base_catalog_id(extra_view(extra_xobject))),
        pdf_max_id(r.0) == base_catalog_id(extra_view(extra_xobject)).0,
        pdf_version(r.0) == "1.7"@,
{
    let ghost ev = extra_view(extra_xobject);
    let mut doc = new_document("1.7");
    let pages_id = new_object_id(&mut doc);
    let font_id = add_object(&mut doc, &font_value("Helvetica"));
    let font_bold_id = add_object(&mut doc, &font_value("Helvetica-Bold"));
    assert(font_id == (2u32, 0u16) && font_bold_id == (3u32, 0u16));
    let xobject = match extra_xobject {
        Some((nombre, stream)) => {
            let xobj_id = add_object(&mut doc, &stream);
            Some((nombre, xobj_id))
        },
        None => None,
    };
    let bytes = contenido.as_str().as_bytes_vec();
    let content_id = add_object(&mut doc, &PdfValue::Stream(Vec::new(), bytes));
    let page_id = add_object(&mut doc, &page_value(content_id, xobject));
    set_object(&mut doc, pages_id, &pages_value(page_id));
    let catalog_id = add_object(&mut doc, &catalog_value());
    set_root(&mut doc, catalog_id);
    assert(pdf_objects(doc) =~= base_objects(contenido@, ev));
    (doc, page_id)
}

/// The widget of the text field `nombre` on page `page`: empty, printable,
/// drawn in the box (140, 650)-(390, 672) with 11-point Helvetica.
pub open spec fn field_spec(page: (u32, u16)) -> PdfValueView {
    PdfValueView::Dictionary(
        seq![
            ("Type"@, name_v("Annot"@)),
            ("Subtype"@, name_v("Widget"@)),
            ("FT"@, name_v("Tx"@)),
            ("T"@, PdfValueView::Text("nombre"@)),
            ("V"@, PdfValueView::Text(""@)),
            ("F"@, PdfValueView::Integer(4)),
            ("Rect"@, field_rect()),
            ("P"@, ref_v(page)),
            ("DA"@, PdfValueView::Text("/Helv 11 Tf 0 g"@)),
        ],
    )
}

/// The box of the text field, in points.
pub open spec fn field_rect() -> PdfValueView {
    PdfValueView::Array(
        seq![
            PdfValueView::Integer(140),
            PdfValueView::Integer(650),
            PdfValueView::Integer(390),
            PdfValueView::Integer(672),
        ],
    )
}

/// The interactive form: its one field, Helvetica (`helv`) as its default
/// resource, and viewers asked to draw the field's appearance.
pub open spec fn acroform_spec(field: (u32, u16), helv: (u32, u16)) -> PdfValueView {
    PdfValueView::Dictionary(
        seq![
            ("Fields"@, PdfValueView::Array(seq![ref_v(field)])),
            ("DA"@, PdfValueView::Text("/Helv 0 Tf 0 g"@)),
            ("DR"@, PdfValueView::Dictionary(
                seq![("Font"@, PdfValueView::Dictionary(seq![("Helv"@, ref_v(helv))]))],
            )),
            ("NeedAppearances"@, PdfValueView::Boolean(true)),
        ],
    )
}

/// The objects after `key` is set to `v` in the dictionary that `id`
/// leads to; unchanged where it leads to no dictionary.
pub open spec fn set_in(
    objs: Map<(u32, u16), PdfValueView>,
    id: (u32, u16),
    key: Seq<char>,
    v: PdfValueView,
) -> Map<(u32, u16), PdfValueView> {
    match entry_set(objs, id, key, v) {
        Some(m) => m,
        None => objs,
    }
}

/// The objects after the text field `nombre` is added to a document whose
/// highest object number is `m`: Helvetica as object `m + 1`, the widget
/// as `m + 2`, the page's `Annots` set to the widget, the AcroForm as
/// `m + 3`, and the catalog's `AcroForm` set to it.
pub open spec fn name_field_objects(
    objs: Map<(u32, u16), PdfValueView>,
    m: u32,
    page: (u32, u16),
    root: (u32, u16),
) -> Map<(u32, u16), PdfValueView> {
    let helv = ((m + 1) as u32, 0u16);
    let field = ((m + 2) as u32, 0u16);
    let form = ((m + 3) as u32, 0u16);
    let o1 = objs.insert(helv, stored(font_spec("Helvetica"@))).insert(field, stored(field_spec(page)));
    let o2 = set_in(o1, page, "Annots"@, PdfValueView::Array(seq![ref_v(field)]));
    let o3 = o2.insert(form, stored(acroform_spec(field, helv)));
    set_in(o3, root, "AcroForm"@, ref_v(form))
}

fn field_value(page: (u32, u16)) -> (v: PdfValue)
    ensures
        v@ == field_spec(page),
{
    let mut rect: Vec<PdfValue> = Vec::new();
    push_value(&mut rect, PdfValue::Integer(140));
    push_value(&mut rect, PdfValue::Integer(650));
    push_value(&mut rect, PdfValue::Integer(390));
    push_value(&mut rect, PdfValue::Integer(672));
    assert(values_view(rect@) =~= seq![
        PdfValueView::Integer(140),
        PdfValueView::Integer(650),
        PdfValueView::Integer(390),
        PdfValueView::Integer(672),
    ]);
    let mut e: Vec<(String, PdfValue)> = Vec::new();
    push_entry(&mut e, "Type", name_value("Annot"));
    push_entry(&mut e, "Subtype", name_value("Widget"));
    push_entry(&mut e, "FT", name_value("Tx"));
    push_entry(&mut e, "T", text_value("nombre"));
    push_entry(&mut e, "V", text_value(""));
    push_entry(&mut e, "F", PdfValue::Integer(4));
    push_entry(&mut e, "Rect", PdfValue::Array(rect));
    push_entry(&mut e, "P", reference_value(page));
    push_entry(&mut e, "DA", text_value("/Helv 11 Tf 0 g"));
    assert(entries_view(e@) =~= seq![
        ("Type"@, name_v("Annot"@)),
        ("Subtype"@, name_v("Widget"@)),
        ("FT"@, name_v("Tx"@)),
        ("T"@, PdfValueView::Text("nombre"@)),
        ("V"@, PdfValueView::Text(""@)),
        ("F"@, PdfValueView::Integer(4)),
        ("Rect"@, field_rect()),
        ("P"@, ref_v(page)),
        ("DA"@, PdfValueView::Text("/Helv 11 Tf 0 g"@)),
    ]);
    PdfValue::Dictionary(e)
}

fn acroform_value(field: (u32, u16), helv: (u32, u16)) -> (v: PdfValue)
    ensures
        v@ == acroform_spec(field, helv),
{
    let mut fields: Vec<PdfValue> = Vec::new();
    push_value(&mut fields, reference_value(field));
    assert(values_view(fields@) =~= seq![ref_v(field)]);
    let mut fonts: Vec<(String, PdfValue)> = Vec::new();
    push_entry(&mut fonts, "Helv", reference_value(helv));
    let ghost fv = entries_view(fonts@);
    assert(fv =~= seq![("Helv"@, ref_v(helv))]);
    let mut dr: Vec<(String, PdfValue)> = Vec::new();
    push_entry(&mut dr, "Font", PdfValue::Dictionary(fonts));
    let ghost drv = entries_view(dr@);
    assert(drv =~= seq![("Font"@, PdfValueView::Dictionary(fv))]);
    let mut e: Vec<(String, PdfValue)> = Vec::new();
    push_entry(&mut e, "Fields", PdfValue::Array(fields));
    push_entry(&mut e, "DA", text_value("/Helv 0 Tf 0 g"));
    push_entry(&mut e, "DR", PdfValue::Dictionary(dr));
    push_entry(&mut e, "NeedAppearances", PdfValue::Boolean(true));
    assert(entries_view(e@) =~= seq![
        ("Fields"@, PdfValueView::Array(seq![ref_v(field)])),
        ("DA"@, PdfValueView::Text("/Helv 0 Tf 0 g"@)),
        ("DR"@, PdfValueView::Dictionary(drv)),
        ("NeedAppearances"@, PdfValueView::Boolean(true)),
    ]);
    PdfValue::Dictionary(e)
}

/// Adds the text field `nombre` to page `page` of a document: a Helvetica
/// font, the field's widget (which names the page), the page's `Annots`,
/// and an AcroForm that the catalog names. Where the page or the catalog
/// leads to no dictionary, that entry is left out.
pub fn agregar_campo_nombre(doc: &mut lopdf::Document, page: (u32, u16))
    requires
        pdf_max_id(*old(doc)) + 3 <= u32::MAX,
        pdf_root(*old(doc)) is Some,
    ensures
        pdf_objects(*final(doc)) == name_field_objects(
            pdf_objects(*old(doc)),
            pdf_max_id(*old(doc)),
            page,
            pdf_root(*old(doc))->Some_0,
        ),
        pdf_max_id(*final(doc)) == pdf_max_id(*old(doc)) + 3,
        pdf_root(*final(doc)) == pdf_root(*old(doc)),
        pdf_version(*final(doc)) == pdf_version(*old(doc)),
{
    let ghost objs = pdf_objects(*doc);
    let ghost m = pdf_max_id(*doc);
    let ghost root = pdf_root(*doc)->Some_0;
    let helv_id = add_object(doc, &font_value("Helvetica"));
    let field_id = add_object(doc, &field_value(page));
    let mut annots: Vec<PdfValue> = Vec::new();
    push_value(&mut annots, reference_value(field_id));
    assert(values_view(annots@) =~= seq![ref_v(field_id)]);
    let _ = set_entry(doc, page, "Annots", &PdfValue::Array(annots));
    let acroform_id = add_object(doc, &acroform_value(field_id, helv_id));
    let root_id = root_of(doc);
    match root_id {
        Some(root_id) => {
            let _ = set_entry(doc, root_id, "AcroForm", &reference_value(acroform_id));
        },
        None => {},
    }
}

/// The image stream of the simulated scan: `SCAN_WIDTH` by `SCAN_HEIGHT`
/// RGB pixels, 8 bits per channel.
pub open spec fn scan_image_spec(data: Seq<u8>) -> PdfValueView {
    PdfValueView::Stream(
        seq![
            ("Type"@, name_v("XObject"@)),
            ("Subtype"@, name_v("Image"@)),
            ("Width"@, PdfValueView::Integer(SCAN_WIDTH as i64)),
            ("Height"@, PdfValueView::Integer(SCAN_HEIGHT as i64)),
            ("ColorSpace"@, name_v("DeviceRGB"@)),
            ("BitsPerComponent"@, PdfValueView::Integer(8)),
        ],
        data,
    )
}

/// The pixels of the simulated scan, row by row.
pub open spec fn scan_data() -> Seq<u8> {
    Seq::new((3 * SCAN_WIDTH * SCAN_HEIGHT) as nat, |j: int| scan_byte(SCAN_WIDTH as nat, j as nat))
}

/// The image stream of the simulated scan, holding `data`.
pub fn imagen_escaneada(data: Vec<u8>) -> (v: PdfValue)
    ensures
        v@ == scan_image_spec(data@),
{
    let ghost dv = data@;
    let mut e: Vec<(String, PdfValue)> = Vec::new();
    push_entry(&mut e, "Type", name_value("XObject"));
    push_entry(&mut e, "Subtype", name_value("Image"));
    push_entry(&mut e, "Width", PdfValue::Integer(SCAN_WIDTH as i64));
    push_entry(&mut e, "Height", PdfValue::Integer(SCAN_HEIGHT as i64));
    push_entry(&mut e, "ColorSpace", name_value("DeviceRGB"));
    push_entry(&mut e, "BitsPerComponent", PdfValue::Integer(8));
    assert(entries_view(e@) =~= seq![
        ("Type"@, name_v("XObject"@)),
        ("Subtype"@, name_v("Image"@)),
        ("Width"@, PdfValueView::Integer(SCAN_WIDTH as i64)),
        ("Height"@, PdfValueView::Integer(SCAN_HEIGHT as i64)),
        ("ColorSpace"@, name_v("DeviceRGB"@)),
        ("BitsPerComponent"@, PdfValueView::Integer(8)),
    ]);
    PdfValue::Stream(e, data)
}

/// The form test document: the one-page document with the form page's
/// content, and the text field `nombre` on its page.
pub fn documento_formulario() -> (d: lopdf::Document)
    ensures
        pdf_objects(d) == name_field_objects(base_objects(formulario_spec(), None), 6, (5, 0), (6, 0)),
        pdf_max_id(d) == 9,
        pdf_root(d) == Some((6u32, 0u16)),
        pdf_version(d) == "1.7"@,
{
    let (mut doc, page_id) = documento_base(generar_formulario(), None);
    agregar_campo_nombre(&mut doc, page_id);
    doc
}

/// The simulated-scan test document: the one-page document with the scan
/// page's content and the scanned image as resource `Im1`. Returns the
/// document and its page's id.
pub fn documento_escaneado_sim() -> (r: (lopdf::Document, (u32, u16)))
    ensures
        pdf_objects(r.0) == base_objects(escaneado_spec(), Some(("Im1"@, scan_image_spec(scan_data())))),
        r.1 == (6u32, 0u16),
        pdf_max_id(r.0) == 7,
        pdf_root(r.0) == Some((7u32, 0u16)),
        pdf_version(r.0) == "1.7"@,
{
    let (contenido, data) = generar_escaneado_sim();
    assert(data@ =~= scan_data());
    let imagen = imagen_escaneada(data);
    documento_base(contenido, Some((String::from_str("Im1"), imagen)))
}

} // verus!
