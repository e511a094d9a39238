//! Errors of the renderer and how the user interface reports a failed open.

use crate::text::{dec_chars, push_decimal};
use vstd::prelude::*;

verus! {

/// What can go wrong while rendering or querying documents.
pub enum RenderError {
    /// The PDFium library was not found.
    LibNotFound,
    /// The document is encrypted and no password was given.
    PasswordRequired,
    /// The password given does not open the document.
    WrongPassword,
    /// No open document has this key.
    UnknownDocument(u32),
    /// PDFium reported a failure (its description).
    Pdfium(String),
    /// Encoding a rendered page as an image failed (the encoder's message).
    Image(String),
}

/// The value of a `RenderError`: the same cases, with texts as sequences of
/// characters.
pub enum ErrorView {
    LibNotFound,
    PasswordRequired,
    WrongPassword,
    UnknownDocument(u32),
    Pdfium(Seq<char>),
    Image(Seq<char>),
}

impl View for RenderError {
    type V = ErrorView;

    open spec fn view(&self) -> ErrorView {
        match self {
            RenderError::LibNotFound => ErrorView::LibNotFound,
            RenderError::PasswordRequired => ErrorView::PasswordRequired,
            RenderError::WrongPassword => ErrorView::WrongPassword,
            RenderError::UnknownDocument(k) => ErrorView::UnknownDocument(*k),
            RenderError::Pdfium(s) => ErrorView::Pdfium(s@),
            RenderError::Image(s) => ErrorView::Image(s@),
        }
    }
}

/// The message shown for an error.
pub open spec fn message_spec(e: ErrorView) -> Seq<char> {
    match e {
        ErrorView::LibNotFound => "no se encontró la biblioteca PDFium (defina PDF_SHARD_PDFIUM_DIR o ejecute scripts/fetch-pdfium)"@,
        ErrorView::PasswordRequired => "el documento requiere contraseña"@,
        ErrorView::WrongPassword => "la contraseña ingresada es incorrecta"@,
        ErrorView::UnknownDocument(k) => "documento no abierto: "@ + dec_chars(k as nat),
        ErrorView::Pdfium(s) => "pdfium: "@ + s,
        ErrorView::Image(s) => "codificación de imagen: "@ + s,
    }
}

impl RenderError {
    /// The message shown for this error.
    pub fn message(&self) -> (m: String)
        ensures
            m@ == message_spec(self@),
    {
        match self {
            RenderError::LibNotFound => String::from_str(
                "no se encontró la biblioteca PDFium (defina PDF_SHARD_PDFIUM_DIR o ejecute scripts/fetch-pdfium)",
            ),
            RenderError::PasswordRequired => String::from_str("el documento requiere contraseña"),
            RenderError::WrongPassword => String::from_str("la contraseña ingresada es incorrecta"),
            RenderError::UnknownDocument(k) => {
                let mut m = String::from_str("documento no abierto: ");
                push_decimal(&mut m, *k as u64);
                m
            },
            RenderError::Pdfium(s) => {
                let mut m = String::from_str("pdfium: ");
                m.append(s.as_str());
                m
            },
            RenderError::Image(s) => {
                let mut m = String::from_str("codificación de imagen: ");
                m.append(s.as_str());
                m
            },
        }
    }

    /// A copy of this error.
    pub fn duplicate(&self) -> (e: RenderError)
        ensures
            e@ == self@,
    {
        match self {
            RenderError::LibNotFound => RenderError::LibNotFound,
            RenderError::PasswordRequired => RenderError::PasswordRequired,
            RenderError::WrongPassword => RenderError::WrongPassword,
            RenderError::UnknownDocument(k) => RenderError::UnknownDocument(*k),
            RenderError::Pdfium(s) => RenderError::Pdfium(s.clone()),
            RenderError::Image(s) => RenderError::Image(s.clone()),
        }
    }
}

/// What the library needs to know of a failure to load a document: whether
/// PDFium reported a password error, and PDFium's description of the failure.
pub struct OpenFailure {
    pub password_error: bool,
    pub detail: String,
}

/// The error reported for a failed open: a password error becomes
/// `WrongPassword` when a password was given and `PasswordRequired` when none
/// was; any other failure is reported with PDFium's description.
pub open spec fn classify_open_error_spec(f: OpenFailure, password_supplied: bool) -> ErrorView {
    if f.password_error {
        if password_supplied {
            ErrorView::WrongPassword
        } else {
            ErrorView::PasswordRequired
        }
    } else {
        ErrorView::Pdfium(f.detail@)
    }
}

/// Classifies a failure to load a document (see `classify_open_error_spec`).
pub fn classify_open_error(f: OpenFailure, password_supplied: bool) -> (e: RenderError)
    ensures
        e@ == classify_open_error_spec(f, password_supplied),
{
    if f.password_error {
        if password_supplied {
            RenderError::WrongPassword
        } else {
            RenderError::PasswordRequired
        }
    } else {
        RenderError::Pdfium(f.detail)
    }
}

/// The kind of a failed open, as the user interface distinguishes it.
pub enum OpenErrorKind {
    PasswordRequired,
    WrongPassword,
    Other,
}

/// A failed open as reported to the user interface.
pub struct OpenError {
    pub kind: OpenErrorKind,
    pub message: String,
}

pub open spec fn open_error_kind_spec(e: ErrorView) -> OpenErrorKind {
    match e {
        ErrorView::PasswordRequired => OpenErrorKind::PasswordRequired,
        ErrorView::WrongPassword => OpenErrorKind::WrongPassword,
        _ => OpenErrorKind::Other,
    }
}

/// The report of a failed open: the password errors keep their kind, every
/// other error is `Other`; the message is the error's message.
pub fn to_open_error(e: RenderError) -> (r: OpenError)
    ensures
        r.kind == open_error_kind_spec(e@),
        r.message@ == message_spec(e@),
{
    let kind = match &e {
        RenderError::PasswordRequired => OpenErrorKind::PasswordRequired,
        RenderError::WrongPassword => OpenErrorKind::WrongPassword,
        _ => OpenErrorKind::Other,
    };
    OpenError { kind, message: e.message() }
}

} // verus!
