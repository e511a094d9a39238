//! Content of the synthetic test corpus: the drawing operators of the pages
//! of the five test documents, and the pixels of the simulated scan.
//!
//! Coordinates are in PDF points on a US Letter page (612 x 792).

use crate::text::{dec_chars, push_decimal};
use vstd::prelude::*;

verus! {

/// The operators that draw `s` in font `font` at `size` points, starting at
/// (`x`, `y`).
pub open spec fn texto_spec(x: nat, y: nat, font: Seq<char>, size: nat, s: Seq<char>) -> Seq<char> {
    "BT /"@ + font + " "@ + dec_chars(size) + " Tf "@ + dec_chars(x) + " "@ + dec_chars(y)
        + " Td ("@ + s + ") Tj ET\n"@
}

/// The operators that draw one line of text (see `texto_spec`).
pub fn texto(x: u32, y: u32, font: &str, size: u32, s: &str) -> (r: String)
    ensures
        r@ == texto_spec(x as nat, y as nat, font@, size as nat, s@),
{
    let mut r = String::from_str("BT /");
    r.append(font);
    r.append(" ");
    push_decimal(&mut r, size as u64);
    r.append(" Tf ");
    push_decimal(&mut r, x as u64);
    r.append(" ");
    push_decimal(&mut r, y as u64);
    r.append(" Td (");
    r.append(s);
    r.append(") Tj ET\n");
    r
}

pub open spec fn lorem() -> Seq<char> {
    "Linea de parrafo con texto determinista para el corpus de pruebas."@
}

/// The paragraph lines 0 .. `n` of the simple-text page.
pub open spec fn simple_lines(n: nat) -> Seq<char>
    decreases n,
{
    if n == 0 {
        Seq::empty()
    } else {
        let i = (n - 1) as nat;
        simple_lines(i) + texto_spec(72, (660 - 18 * i) as nat, "F1"@, 11, lorem() + " Nro "@
            + dec_chars(i) + "."@)
    }
}

/// Page content of `01_texto_simple.pdf`: a title, a subtitle and twenty
/// numbered paragraph lines 18 points apart.
pub open spec fn texto_simple_spec() -> Seq<char> {
    texto_spec(72, 720, "F2"@, 18, "PDF SHARD - Corpus 01"@) + texto_spec(
        72,
        690,
        "F1"@,
        12,
        "Documento de texto simple para pruebas de render."@,
    ) + simple_lines(20)
}

/// The page content of the simple-text test document.
pub fn generar_texto_simple() -> (c: String)
    ensures
        c@ == texto_simple_spec(),
{
    let mut c = texto(72, 720, "F2", 18, "PDF SHARD - Corpus 01");
    let sub = texto(72, 690, "F1", 12, "Documento de texto simple para pruebas de render.");
    c.append(sub.as_str());
    let ghost head = c@;
    let mut i: u32 = 0;
    while i < 20
        invariant
            i <= 20,
            c@ == head + simple_lines(i as nat),
        decreases 20 - i,
    {
        let mut line = String::from_str(
            "Linea de parrafo con texto determinista para el corpus de pruebas.",
        );
        line.append(" Nro ");
        push_decimal(&mut line, i as u64);
        line.append(".");
        let t = texto(72, 660 - 18 * i, "F1", 11, line.as_str());
        c.append(t.as_str());
        i += 1;
    }
    c
}

/// The lines 0 .. `n` of column `col` of the two-column page.
pub open spec fn column_lines(col: nat, n: nat) -> Seq<char>
    decreases n,
{
    if n == 0 {
        Seq::empty()
    } else {
        let i = (n - 1) as nat;
        column_lines(col, i) + texto_spec(
            72 + 240 * col,
            (680 - 14 * i) as nat,
            "F1"@,
            9,
            "Col "@ + dec_chars(col + 1) + " linea "@ + dec_chars(i) + " texto de columna angosta."@,
        )
    }
}

/// Page content of `02_multicolumna.pdf`: a title and two columns of
/// twenty-five numbered lines each, 240 points apart.
pub open spec fn multicolumna_spec() -> Seq<char> {
    texto_spec(72, 720, "F2"@, 16, "Corpus 02 - Dos columnas"@) + column_lines(0, 25)
        + column_lines(1, 25)
}

/// The page content of the two-column test document.
pub fn generar_multicolumna() -> (c: String)
    ensures
        c@ == multicolumna_spec(),
{
    let mut c = texto(72, 720, "F2", 16, "Corpus 02 - Dos columnas");
    let ghost head = c@;
    let mut col: u32 = 0;
    while col < 2
        invariant
            col <= 2,
            c@ == head + if col == 0 {
                Seq::empty()
            } else if col == 1 {
                column_lines(0, 25)
            } else {
                column_lines(0, 25) + column_lines(1, 25)
            },
        decreases 2 - col,
    {
        let ghost before = c@;
        let x = 72 + col * 240;
        let mut i: u32 = 0;
        while i < 25
            invariant
                i <= 25,
                col < 2,
                x == 72 + 240 * col,
                c@ == before + column_lines(col as nat, i as nat),
            decreases 25 - i,
        {
            let mut line = String::from_str("Col ");
            push_decimal(&mut line, (col + 1) as u64);
            line.append(" linea ");
            push_decimal(&mut line, i as u64);
            line.append(" texto de columna angosta.");
            let t = texto(x, 680 - 14 * i, "F1", 9, line.as_str());
            c.append(t.as_str());
            i += 1;
        }
        proof {
            if col == 1 {
                assert(head + column_lines(0, 25) + column_lines(1, 25) =~= head + (column_lines(0, 25)
                    + column_lines(1, 25)));
            } else {
                assert(head + Seq::<char>::empty() =~= head);
            }
        }
        col += 1;
    }
    c
}

/// The horizontal table rules 0 .. `n` of the shapes page, 30 points apart.
pub open spec fn table_rows(n: nat) -> Seq<char>
    decreases n,
{
    if n == 0 {
        Seq::empty()
    } else {
        let i = (n - 1) as nat;
        table_rows(i) + "0.5 0.5 0.5 RG 0.8 w 72 "@ + dec_chars((480 - 30 * i) as nat) + " m 400 "@
            + dec_chars((480 - 30 * i) as nat) + " l S\n"@
    }
}

/// The vertical table rules of the shapes page, at the given horizontal
/// positions (already written as numbers).
pub open spec fn table_columns(xs: Seq<Seq<char>>) -> Seq<char>
    decreases xs.len(),
{
    if xs.len() == 0 {
        Seq::empty()
    } else {
        table_columns(xs.drop_last()) + "0.5 0.5 0.5 RG 0.8 w "@ + xs.last() + " 480 m "@ + xs.last()
            + " 360 l S\n"@
    }
}

/// Page content of `03_formas.pdf`: a title, a filled and a stroked
/// rectangle, a rule, a table of five horizontal and four vertical rules at
/// `column_xs`, and two cell labels.
pub open spec fn formas_spec(column_xs: Seq<Seq<char>>) -> Seq<char> {
    texto_spec(72, 730, "F2"@, 16, "Corpus 03 - Formas vectoriales"@)
        + "0.2 0.5 0.8 rg 72 560 150 100 re f\n"@ + "0.9 0.2 0.2 RG 3 w 260 560 150 100 re S\n"@
        + "0 0 0 RG 1 w 72 520 m 540 520 l S\n"@ + table_rows(5) + table_columns(column_xs)
        + texto_spec(80, 455, "F1"@, 10, "Celda A1"@) + texto_spec(190, 455, "F1"@, 10, "Celda B1"@)
}

/// The page content of the shapes test document; `column_xs` are the
/// horizontal positions of the table's vertical rules as they are to be
/// written (72 + 109.3·i points in single precision, for i in 0 .. 4).
pub fn generar_formas(column_xs: &Vec<String>) -> (c: String)
    ensures
        c@ == formas_spec(column_xs@.map_values(|s: String| s@)),
{
    let ghost xs = column_xs@.map_values(|s: String| s@);
    let mut c = texto(72, 730, "F2", 16, "Corpus 03 - Formas vectoriales");
    c.append("0.2 0.5 0.8 rg 72 560 150 100 re f\n");
    c.append("0.9 0.2 0.2 RG 3 w 260 560 150 100 re S\n");
    c.append("0 0 0 RG 1 w 72 520 m 540 520 l S\n");
    let ghost head = c@;
    let mut i: u32 = 0;
    while i < 5
        invariant
            i <= 5,
            c@ == head + table_rows(i as nat),
        decreases 5 - i,
    {
        let y = 480 - i * 30;
        c.append("0.5 0.5 0.5 RG 0.8 w 72 ");
        push_decimal(&mut c, y as u64);
        c.append(" m 400 ");
        push_decimal(&mut c, y as u64);
        c.append(" l S\n");
        proof {
            assert(c@ =~= head + table_rows((i + 1) as nat));
        }
        i += 1;
    }
    let ghost mid = c@;
    let mut k: usize = 0;
    while k < column_xs.len()
        invariant
            k <= column_xs@.len(),
            xs == column_xs@.map_values(|s: String| s@),
            c@ == mid + table_columns(xs.take(k as int)),
        decreases column_xs@.len() - k,
    {
        c.append("0.5 0.5 0.5 RG 0.8 w ");
        c.append(column_xs[k].as_str());
        c.append(" 480 m ");
        c.append(column_xs[k].as_str());
        c.append(" 360 l S\n");
        proof {
            assert(xs.take(k + 1).drop_last() =~= xs.take(k as int));
            assert(c@ =~= mid + table_columns(xs.take(k + 1)));
        }
        k += 1;
    }
    assert(xs.take(column_xs@.len() as int) =~= xs);
    let a1 = texto(80, 455, "F1", 10, "Celda A1");
    c.append(a1.as_str());
    let b1 = texto(190, 455, "F1", 10, "Celda B1");
    c.append(b1.as_str());
    proof {
        assert(c@ =~= formas_spec(xs));
    }
    c
}

/// Page content of `04_formulario.pdf`: a title, the label of the form's
/// text field and the box drawn around the field.
pub open spec fn formulario_spec() -> Seq<char> {
    texto_spec(72, 720, "F2"@, 16, "Corpus 04 - Formulario AcroForm"@) + texto_spec(
        72,
        660,
        "F1"@,
        12,
        "Nombre:"@,
    ) + "0.6 0.6 0.6 RG 1 w 140 650 250 22 re S\n"@
}

/// The page content of the form test document.
pub fn generar_formulario() -> (c: String)
    ensures
        c@ == formulario_spec(),
{
    let mut c = texto(72, 720, "F2", 16, "Corpus 04 - Formulario AcroForm");
    let label = texto(72, 660, "F1", 12, "Nombre:");
    c.append(label.as_str());
    c.append("0.6 0.6 0.6 RG 1 w 140 650 250 22 re S\n");
    c
}

/// Width of the simulated scan, in pixels.
pub const SCAN_WIDTH: usize = 300;

/// Height of the simulated scan, in pixels.
pub const SCAN_HEIGHT: usize = 200;

/// The color of pixel (`x`, `y`) of the simulated scan: dark specks along
/// diagonals of 10-pixel cells, on horizontal bands 25 pixels high that
/// alternate between two paper tones.
pub open spec fn scan_pixel(x: nat, y: nat) -> (u8, u8, u8) {
    if (x / 10 + y / 10) % 7 == 0 {
        (30, 30, 30)
    } else if (y / 25) % 2 == 0 {
        (235, 235, 225)
    } else {
        (245, 245, 240)
    }
}

/// Channel `c` (0 red, 1 green, 2 blue) of a color.
pub open spec fn channel(p: (u8, u8, u8), c: nat) -> u8 {
    if c == 0 {
        p.0
    } else if c == 1 {
        p.1
    } else {
        p.2
    }
}

/// Byte `j` of the RGB pixels of an image `w` pixels wide whose pixel
/// colors are `scan_pixel`, row by row.
pub open spec fn scan_byte(w: nat, j: nat) -> u8 {
    channel(scan_pixel((j / 3) % w, (j / 3) / w), j % 3)
}

proof fn lemma_pixel_index(w: nat, x: nat, y: nat, c: nat)
    requires
        x < w,
        c < 3,
    ensures
        ((3 * (y * w + x) + c) / 3) % w == x,
        ((3 * (y * w + x) + c) / 3) / w == y,
        (3 * (y * w + x) + c) % 3 == c,
{
    assert((3 * (y * w + x) + c) / 3 == y * w + x) by (nonlinear_arith)
        requires
            c < 3,
    ;
    assert((3 * (y * w + x) + c) % 3 == c) by (nonlinear_arith)
        requires
            c < 3,
    ;
    assert((y * w + x) % w == x && (y * w + x) / w == y) by (nonlinear_arith)
        requires
            x < w,
    ;
}

fn scan_color(x: usize, y: usize) -> (p: (u8, u8, u8))
    ensures
        p == scan_pixel(x as nat, y as nat),
{
    if (x / 10 + y / 10) % 7 == 0 {
        (30u8, 30u8, 30u8)
    } else if (y / 25) % 2 == 0 {
        (235u8, 235u8, 225u8)
    } else {
        (245u8, 245u8, 240u8)
    }
}

/// The RGB pixels (three bytes per pixel, row by row) of the simulated scan
/// in `05_escaneado_sim.pdf`, `w` by `h` pixels.
pub fn scan_pixels(w: usize, h: usize) -> (data: Vec<u8>)
    requires
        w * h * 3 <= usize::MAX,
    ensures
        data@.len() == 3 * w * h,
        forall|j: int| 0 <= j < data@.len() ==> #[trigger] data@[j] == scan_byte(w as nat, j as nat),
{
    let mut data: Vec<u8> = Vec::new();
    let mut y: usize = 0;
    while y < h
        invariant
            y <= h,
            w * h * 3 <= usize::MAX,
            data@.len() == 3 * (y * w),
            forall|j: int| 0 <= j < data@.len() ==> #[trigger] data@[j] == scan_byte(w as nat, j as nat),
        decreases h - y,
    {
        let mut x: usize = 0;
        while x < w
            invariant
                x <= w,
                y < h,
                w * h * 3 <= usize::MAX,
                data@.len() == 3 * (y * w + x),
                forall|j: int|
                    0 <= j < data@.len() ==> #[trigger] data@[j] == scan_byte(w as nat, j as nat),
            decreases w - x,
        {
            proof {
                assert(3 * (y * w + x) + 3 <= w * h * 3) by (nonlinear_arith)
                    requires
                        x < w,
                        y < h,
                ;
                lemma_pixel_index(w as nat, x as nat, y as nat, 0);
                lemma_pixel_index(w as nat, x as nat, y as nat, 1);
                lemma_pixel_index(w as nat, x as nat, y as nat, 2);
            }
            let p = scan_color(x, y);
            data.push(p.0);
            data.push(p.1);
            data.push(p.2);
            x += 1;
        }
        proof {
            assert(3 * (y * w + w) == 3 * ((y + 1) * w)) by (nonlinear_arith);
        }
        y += 1;
    }
    assert(3 * (h * w) == 3 * w * h) by (nonlinear_arith);
    data
}

/// Page content of `05_escaneado_sim.pdf`: a title, and the scanned image
/// drawn 450 by 300 points at (81, 380).
pub open spec fn escaneado_spec() -> Seq<char> {
    texto_spec(72, 740, "F2"@, 14, "Corpus 05 - Escaneado simulado (sin capa de texto)"@)
        + "q 450 0 0 300 81 380 cm /Im1 Do Q\n"@
}

/// The page content and the image pixels (`SCAN_WIDTH` by `SCAN_HEIGHT`) of
/// the simulated-scan test document.
pub fn generar_escaneado_sim() -> (r: (String, Vec<u8>))
    ensures
        r.0@ == escaneado_spec(),
        r.1@.len() == 3 * SCAN_WIDTH * SCAN_HEIGHT,
        forall|j: int| 0 <= j < r.1@.len() ==> #[trigger] r.1@[j] == scan_byte(SCAN_WIDTH as nat, j as nat),
{
    let data = scan_pixels(SCAN_WIDTH, SCAN_HEIGHT);
    let mut c = texto(72, 740, "F2", 14, "Corpus 05 - Escaneado simulado (sin capa de texto)");
    c.append("q 450 0 0 300 81 380 cm /Im1 Do Q\n");
    (c, data)
}

/// The simulated scan's specks lie on diagonals 10-pixel cells wide: a
/// pixel is a speck exactly when the pixel 10 to the right and 10 up is
/// one; the pixels 10, 20, ... 60 to the right of a speck, and the one 10
/// below it, are not specks, the one 70 to the right is; and the corner
/// pixel (0, 0) is one.
pub proof fn law_scan_specks_diagonal(x: nat, y: nat)
    ensures
        (scan_pixel(x, y + 10) == (30u8, 30u8, 30u8)) == (scan_pixel(x + 10, y) == (30u8, 30u8, 30u8)),
        scan_pixel(x, y) == (30u8, 30u8, 30u8) ==> scan_pixel(x + 10, y) != (30u8, 30u8, 30u8),
        scan_pixel(x, y) == (30u8, 30u8, 30u8) ==> scan_pixel(x, y + 10) != (30u8, 30u8, 30u8),
        scan_pixel(0, 0) == (30u8, 30u8, 30u8),
        (scan_pixel(x, y) == (30u8, 30u8, 30u8)) == (scan_pixel(x + 70, y) == (30u8, 30u8, 30u8)),
        scan_pixel(x, y) == (30u8, 30u8, 30u8) ==> forall|k: nat|
            1 <= k < 7 ==> #[trigger] scan_pixel(x + 10 * k, y) != (30u8, 30u8, 30u8),
{
    assert((x + 10) / 10 == x / 10 + 1);
    assert((y + 10) / 10 == y / 10 + 1);
    assert((x + 70) / 10 == x / 10 + 7);
    assert forall|k: nat| 1 <= k < 7 implies #[trigger] scan_pixel(x + 10 * k, y) != (30u8, 30u8, 30u8)
        || scan_pixel(x, y) != (30u8, 30u8, 30u8) by {
        assert((x + 10 * k) / 10 == x / 10 + k) by (nonlinear_arith);
    }
}

/// A pixel that is not a speck has the paper tone of its band: bands 25
/// pixels high alternate between the two tones, the first band being
/// (235, 235, 225).
pub proof fn law_scan_paper_bands(x: nat, y: nat)
    ensures
        scan_pixel(x, y) != (30u8, 30u8, 30u8) ==> scan_pixel(x, y) == if (y / 25) % 2 == 0 {
            (235u8, 235u8, 225u8)
        } else {
            (245u8, 245u8, 240u8)
        },
        scan_pixel(x, y) != (30u8, 30u8, 30u8) && scan_pixel(x, y + 25) != (30u8, 30u8, 30u8)
            ==> scan_pixel(x, y) != scan_pixel(x, y + 25),
{
    assert((y + 25) / 25 == y / 25 + 1);
}

} // verus!
