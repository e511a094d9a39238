use pdf_shard::corpus::{
    generar_escaneado_sim, generar_formas, generar_formulario, generar_multicolumna, generar_texto_simple,
    scan_pixels, texto, SCAN_HEIGHT, SCAN_WIDTH,
};
use pdf_shard::error::{classify_open_error, to_open_error, OpenErrorKind, OpenFailure, RenderError};
use pdf_shard::model::{record_recent, DocumentInfo, RecentEntry, MAX_RECENTS};
use pdf_shard::platform::{platform_dir_name, print_native, print_outcome, Arch, Os, Target};
use pdf_shard::selection::{join_segment_texts, selection_span};

#[test]
fn document_info_roundtrip_json() {
    let info = DocumentInfo::new(1, "C:/tmp/a.pdf".to_string(), 3);
    let mut map = serde_json::Map::new();
    map.insert("id".to_string(), serde_json::Value::from(info.id));
    map.insert("path".to_string(), serde_json::Value::from(info.path.clone()));
    map.insert("page_count".to_string(), serde_json::Value::from(info.page_count));
    let json = serde_json::to_string(&serde_json::Value::Object(map)).unwrap();
    let value: serde_json::Value = serde_json::from_str(&json).unwrap();
    let back = DocumentInfo::new(
        value["id"].as_u64().unwrap() as u32,
        value["path"].as_str().unwrap().to_string(),
        value["page_count"].as_u64().unwrap() as u16,
    );
    assert_eq!(back.id, 1);
    assert_eq!(back.page_count, 3);
    assert_eq!(back.path, "C:/tmp/a.pdf");
}

fn entry(p: &str, t: i64) -> RecentEntry {
    RecentEntry { path: p.to_string(), last_opened_unix_ms: t }
}

fn paths(l: &[RecentEntry]) -> Vec<&str> {
    l.iter().map(|e| e.path.as_str()).collect()
}

#[test]
fn recent_documents_move_to_the_front() {
    let l = vec![entry("a", 1), entry("b", 2), entry("c", 3)];
    let l = record_recent(&l, "b", 10);
    assert_eq!(paths(&l), vec!["b", "a", "c"]);
    assert_eq!(l[0].last_opened_unix_ms, 10);
    let l = record_recent(&l, "d", 11);
    assert_eq!(paths(&l), vec!["d", "b", "a", "c"]);
    // opening the same file again only refreshes its time
    let again = record_recent(&l, "d", 12);
    assert_eq!(paths(&again), vec!["d", "b", "a", "c"]);
    assert_eq!(again[0].last_opened_unix_ms, 12);
}

#[test]
fn recent_documents_are_capped() {
    let mut l = Vec::new();
    for i in 0..15 {
        l = record_recent(&l, &format!("f{i}"), i);
    }
    assert_eq!(l.len(), MAX_RECENTS);
    assert_eq!(l[0].path, "f14");
    assert_eq!(l[MAX_RECENTS - 1].path, "f5");
    let empty = record_recent(&Vec::new(), "x", 0);
    assert_eq!(paths(&empty), vec!["x"]);
}

#[test]
fn error_messages() {
    assert_eq!(RenderError::UnknownDocument(42).message(), "documento no abierto: 42");
    assert_eq!(RenderError::UnknownDocument(0).message(), "documento no abierto: 0");
    assert_eq!(RenderError::PasswordRequired.message(), "el documento requiere contraseña");
    assert_eq!(RenderError::WrongPassword.message(), "la contraseña ingresada es incorrecta");
    assert_eq!(RenderError::Image("x".to_string()).message(), "codificación de imagen: x");
    assert!(RenderError::LibNotFound.message().starts_with("no se encontró la biblioteca PDFium"));
}

#[test]
fn open_errors_for_the_interface() {
    let e = to_open_error(RenderError::PasswordRequired);
    assert!(matches!(e.kind, OpenErrorKind::PasswordRequired));
    let e = to_open_error(RenderError::WrongPassword);
    assert!(matches!(e.kind, OpenErrorKind::WrongPassword));
    let e = to_open_error(RenderError::UnknownDocument(3));
    assert!(matches!(e.kind, OpenErrorKind::Other));
    assert_eq!(e.message, "documento no abierto: 3");
    let c = classify_open_error(OpenFailure { password_error: false, detail: "FormatError".to_string() }, false);
    assert_eq!(c.message(), "pdfium: FormatError");
}

fn target(os: Os, arch: Arch) -> Target {
    Target { os, arch }
}

#[test]
fn pdfium_directories() {
    assert_eq!(platform_dir_name(&target(Os::Windows, Arch::X86_64)), "win-x64");
    assert_eq!(platform_dir_name(&target(Os::MacOs, Arch::Aarch64)), "mac-arm64");
    assert_eq!(platform_dir_name(&target(Os::MacOs, Arch::X86_64)), "mac-x64");
    assert_eq!(platform_dir_name(&target(Os::Linux, Arch::X86_64)), "linux-x64");
    assert_eq!(platform_dir_name(&target(Os::Android, Arch::Aarch64)), "android-arm64");
    assert_eq!(platform_dir_name(&target(Os::Linux, Arch::Aarch64)), "unknown");
    assert_eq!(platform_dir_name(&target(Os::Other, Arch::Other)), "unknown");
}

#[test]
fn print_commands() {
    let w = print_native(&Os::Windows, "C:\\it's.pdf").ok().unwrap();
    assert_eq!(w.program, "powershell");
    assert_eq!(
        w.args,
        vec!["-NoProfile", "-WindowStyle", "Hidden", "-Command", "Start-Process -FilePath 'C:\\it''s.pdf' -Verb Print"]
    );
    let m = print_native(&Os::MacOs, "/tmp/a \"b\".pdf").ok().unwrap();
    assert_eq!(m.program, "osascript");
    assert_eq!(m.args, vec!["-e", "tell application \"Finder\" to print (POSIX file \"/tmp/a \\\"b\\\".pdf\")"]);
    let l = print_native(&Os::Linux, "/tmp/a.pdf").ok().unwrap();
    assert_eq!(l.program, "lp");
    assert_eq!(l.args, vec!["/tmp/a.pdf"]);
    assert_eq!(
        print_native(&Os::Android, "/x.pdf").err().unwrap(),
        "la impresión en Android llega en M10 (Android Print Framework)"
    );
    assert_eq!(print_native(&Os::Other, "/x.pdf").err().unwrap(), "impresión no soportada en esta plataforma");
    assert!(print_outcome(&l, Ok(true)).is_ok());
    assert_eq!(
        print_outcome(&l, Ok(false)).err().unwrap(),
        "no se pudo enviar a la impresora predeterminada (¿hay CUPS/lp instalado?)"
    );
    assert_eq!(print_outcome(&w, Ok(false)).err().unwrap(), "no se pudo iniciar la impresión");
    assert_eq!(print_outcome(&w, Err("not found".to_string())).err().unwrap(), "not found");
}

#[test]
fn selections() {
    assert_eq!(selection_span(Some(7), Some(3)), Some((3, 5)));
    assert_eq!(selection_span(Some(3), Some(3)), Some((3, 1)));
    assert_eq!(selection_span(None, Some(3)), None);
    assert_eq!(selection_span(Some(1), None), None);
    let parts = vec!["Hola".to_string(), "mundo".to_string(), "".to_string()];
    assert_eq!(join_segment_texts(&parts), "Hola mundo ");
    assert_eq!(join_segment_texts(&Vec::new()), "");
}

#[test]
fn corpus_text_operators() {
    assert_eq!(texto(72, 720, "F2", 18, "PDF SHARD - Corpus 01"), "BT /F2 18 Tf 72 720 Td (PDF SHARD - Corpus 01) Tj ET\n");
    let simple = generar_texto_simple();
    let lines: Vec<&str> = simple.lines().collect();
    assert_eq!(lines.len(), 22);
    assert_eq!(lines[2], "BT /F1 11 Tf 72 660 Td (Linea de parrafo con texto determinista para el corpus de pruebas. Nro 0.) Tj ET");
    assert_eq!(lines[21], "BT /F1 11 Tf 72 318 Td (Linea de parrafo con texto determinista para el corpus de pruebas. Nro 19.) Tj ET");
    let multi = generar_multicolumna();
    let lines: Vec<&str> = multi.lines().collect();
    assert_eq!(lines.len(), 51);
    assert_eq!(lines[1], "BT /F1 9 Tf 72 680 Td (Col 1 linea 0 texto de columna angosta.) Tj ET");
    assert_eq!(lines[50], "BT /F1 9 Tf 312 344 Td (Col 2 linea 24 texto de columna angosta.) Tj ET");
    let xs: Vec<String> = (0..4).map(|i| format!("{}", 72.0f32 + (i as f32) * 109.3)).collect();
    let formas = generar_formas(&xs);
    assert!(formas.contains("0.5 0.5 0.5 RG 0.8 w 72 360 m 400 360 l S\n"));
    assert!(formas.contains("0.5 0.5 0.5 RG 0.8 w 181.3 480 m 181.3 360 l S\n"));
    assert!(formas.ends_with("BT /F1 10 Tf 190 455 Td (Celda B1) Tj ET\n"));
    assert_eq!(
        generar_formulario(),
        "BT /F2 16 Tf 72 720 Td (Corpus 04 - Formulario AcroForm) Tj ET\nBT /F1 12 Tf 72 660 Td (Nombre:) Tj ET\n0.6 0.6 0.6 RG 1 w 140 650 250 22 re S\n"
    );
}

#[test]
fn simulated_scan_pixels() {
    let (content, data) = generar_escaneado_sim();
    assert!(content.ends_with("q 450 0 0 300 81 380 cm /Im1 Do Q\n"));
    assert_eq!(data.len(), SCAN_WIDTH * SCAN_HEIGHT * 3);
    let px = |x: usize, y: usize| {
        let i = 3 * (y * SCAN_WIDTH + x);
        (data[i], data[i + 1], data[i + 2])
    };
    assert_eq!(px(0, 0), (30, 30, 30));
    assert_eq!(px(10, 0), (235, 235, 225));
    assert_eq!(px(10, 30), (245, 245, 240));
    assert_eq!(px(70, 0), (30, 30, 30));
    assert_eq!(px(69, 9), (235, 235, 225));
    assert_eq!(scan_pixels(2, 1), vec![30, 30, 30, 30, 30, 30]);
}
