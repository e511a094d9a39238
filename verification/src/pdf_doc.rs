//! PDF documents under construction, as lopdf holds them.
//!
//! A document is seen as a map from object ids to values (`pdf_objects`),
//! the highest object number handed out so far (`pdf_max_id`), the object
//! that the trailer names as the catalog (`pdf_root`) and the version in
//! its header (`pdf_version`). The values written into a document are
//! `PdfValue`s; their mathematical form is `PdfValueView`.

use lopdf::Object;
use vstd::prelude::*;

verus! {

#[verifier::external_type_specification]
#[verifier::external_body]
pub struct ExDocument(lopdf::Document);

#[verifier::external_type_specification]
#[verifier::external_body]
pub struct ExObject(lopdf::Object);

#[verifier::external_type_specification]
#[verifier::external_body]
pub struct ExDictionary(lopdf::Dictionary);

/// A PDF value as this library writes it: an integer, a real with a whole
/// value, a boolean, a name, a
/// literal string, a reference to an indirect object (object number and
/// generation), an array, a dictionary (its entries in order), or a stream
/// (its dictionary and its bytes).
pub enum PdfValue {
    Integer(i64),
    Real(i16),
    Boolean(bool),
    Name(String),
    Text(String),
    Reference(u32, u16),
    Array(Vec<PdfValue>),
    Dictionary(Vec<(String, PdfValue)>),
    Stream(Vec<(String, PdfValue)>, Vec<u8>),
}

/// The mathematical form of a PDF value. `Other` stands for every value
/// that `PdfValue` cannot express (other reals, null, hexadecimal strings).
pub enum PdfValueView {
    Integer(i64),
    Real(i16),
    Boolean(bool),
    Name(Seq<char>),
    Text(Seq<char>),
    Reference(u32, u16),
    Array(Seq<PdfValueView>),
    Dictionary(Seq<(Seq<char>, PdfValueView)>),
    Stream(Seq<(Seq<char>, PdfValueView)>, Seq<u8>),
    Other,
}

pub open spec fn value_view(v: PdfValue) -> PdfValueView
    decreases v,
{
    match v {
        PdfValue::Integer(i) => PdfValueView::Integer(i),
        PdfValue::Real(r) => PdfValueView::Real(r),
        PdfValue::Boolean(b) => PdfValueView::Boolean(b),
        PdfValue::Name(n) => PdfValueView::Name(n@),
        PdfValue::Text(t) => PdfValueView::Text(t@),
        PdfValue::Reference(n, g) => PdfValueView::Reference(n, g),
        PdfValue::Array(a) => PdfValueView::Array(values_view(a@)),
        PdfValue::Dictionary(e) => PdfValueView::Dictionary(entries_view(e@)),
        PdfValue::Stream(e, c) => PdfValueView::Stream(entries_view(e@), c@),
    }
}

pub open spec fn values_view(s: Seq<PdfValue>) -> Seq<PdfValueView>
    decreases s,
{
    if s.len() == 0 {
        Seq::empty()
    } else {
        values_view(s.drop_last()).push(value_view(s.last()))
    }
}

pub open spec fn entries_view(s: Seq<(String, PdfValue)>) -> Seq<(Seq<char>, PdfValueView)>
    decreases s,
{
    if s.len() == 0 {
        Seq::empty()
    } else {
        entries_view(s.drop_last()).push((s.last().0@, value_view(s.last().1)))
    }
}

impl View for PdfValue {
    type V = PdfValueView;

    open spec fn view(&self) -> PdfValueView {
        value_view(*self)
    }
}

/// The entries of a dictionary after `key` is set to `v`: an entry with
/// that key gets the new value in its place, else the entry is appended.
pub open spec fn dict_set(
    e: Seq<(Seq<char>, PdfValueView)>,
    key: Seq<char>,
    v: PdfValueView,
) -> Seq<(Seq<char>, PdfValueView)> {
    if exists|i: int| 0 <= i < e.len() && e[i].0 == key {
        let i = choose|i: int| 0 <= i < e.len() && e[i].0 == key;
        e.update(i, (key, v))
    } else {
        e.push((key, v))
    }
}

/// The entries of a dictionary made by setting the given entries one after
/// the other into an empty one: a later entry with a key already present
/// replaces the value in its place.
pub open spec fn dict_from(e: Seq<(Seq<char>, PdfValueView)>) -> Seq<(Seq<char>, PdfValueView)>
    decreases e.len(),
{
    if e.len() == 0 {
        Seq::empty()
    } else {
        dict_set(dict_from(e.drop_last()), e.last().0, e.last().1)
    }
}

/// A value as a document stores it: every dictionary is made by setting
/// its entries in order, and a stream's dictionary then gets a `Length`
/// entry that holds the number of its bytes.
pub open spec fn stored(v: PdfValueView) -> PdfValueView
    decreases v,
{
    match v {
        PdfValueView::Array(a) => PdfValueView::Array(stored_values(a)),
        PdfValueView::Dictionary(e) => PdfValueView::Dictionary(dict_from(stored_entries(e))),
        PdfValueView::Stream(e, c) => PdfValueView::Stream(
            dict_set(dict_from(stored_entries(e)), "Length"@, PdfValueView::Integer(c.len() as i64)),
            c,
        ),
        _ => v,
    }
}

pub open spec fn stored_values(s: Seq<PdfValueView>) -> Seq<PdfValueView>
    decreases s,
{
    if s.len() == 0 {
        Seq::empty()
    } else {
        stored_values(s.drop_last()).push(stored(s.last()))
    }
}

pub open spec fn stored_entries(s: Seq<(Seq<char>, PdfValueView)>) -> Seq<(Seq<char>, PdfValueView)>
    decreases s,
{
    if s.len() == 0 {
        Seq::empty()
    } else {
        stored_entries(s.drop_last()).push((s.last().0, stored(s.last().1)))
    }
}

/// A name value.
pub fn name_value(s: &str) -> (v: PdfValue)
    ensures
        v@ == PdfValueView::Name(s@),
{
    PdfValue::Name(String::from_str(s))
}

/// A literal string value.
pub fn text_value(s: &str) -> (v: PdfValue)
    ensures
        v@ == PdfValueView::Text(s@),
{
    PdfValue::Text(String::from_str(s))
}

/// A reference to the indirect object `id`.
pub fn reference_value(id: (u32, u16)) -> (v: PdfValue)
    ensures
        v@ == PdfValueView::Reference(id.0, id.1),
{
    PdfValue::Reference(id.0, id.1)
}

/// Appends an entry to the entries of a dictionary being built.
pub fn push_entry(e: &mut Vec<(String, PdfValue)>, key: &str, v: PdfValue)
    ensures
        entries_view(final(e)@) == entries_view(old(e)@).push((key@, v@)),
{
    let ghost before = e@;
    e.push((String::from_str(key), v));
    assert(e@.drop_last() =~= before);
}

/// Appends an element to the elements of an array being built.
pub fn push_value(a: &mut Vec<PdfValue>, v: PdfValue)
    ensures
        values_view(final(a)@) == values_view(old(a)@).push(v@),
{
    let ghost before = a@;
    a.push(v);
    assert(a@.drop_last() =~= before);
}

/// The indirect objects of a document, each by its id (object number,
/// generation), as values: an integer, a boolean or a reference as it is;
/// a real whose value is a whole number in the range of `i16` as that
/// number;
/// a name or a literal string whose bytes are UTF-8 as its characters; an
/// array by its elements; a dictionary by its entries in their order; a
/// stream by its dictionary and its bytes; anything else as `Other`.
pub uninterp spec fn pdf_objects(d: lopdf::Document) -> Map<(u32, u16), PdfValueView>;

/// The highest object number that the document has handed out.
pub uninterp spec fn pdf_max_id(d: lopdf::Document) -> u32;

/// The id that the trailer's `Root` entry refers to, if it holds a
/// reference.
pub uninterp spec fn pdf_root(d: lopdf::Document) -> Option<(u32, u16)>;

/// The PDF version written in the document's header.
pub uninterp spec fn pdf_version(d: lopdf::Document) -> Seq<char>;

/// The lopdf object for a value, variant by variant: a whole-valued real
/// widened exactly into lopdf's single-precision real, names and strings as
/// their UTF-8 bytes, a dictionary's entries set in order, a stream made by
/// `lopdf::Stream::new`. It has no contract; only the wrappers below call
/// it, and their contracts state what the document holds afterwards.
#[verifier::external_body]
fn to_object(v: &PdfValue) -> Object {
    match v {
        PdfValue::Integer(i) => Object::Integer(*i),
        PdfValue::Real(r) => Object::Real((*r).into()),
        PdfValue::Boolean(b) => Object::Boolean(*b),
        PdfValue::Name(n) => Object::Name(n.as_bytes().to_vec()),
        PdfValue::Text(t) => Object::string_literal(t.as_bytes()),
        PdfValue::Reference(n, g) => Object::Reference((*n, *g)),
        PdfValue::Array(a) => Object::Array(a.iter().map(to_object).collect()),
        PdfValue::Dictionary(e) => Object::Dictionary(to_dictionary(e)),
        PdfValue::Stream(e, c) => Object::Stream(lopdf::Stream::new(to_dictionary(e), c.clone())),
    }
}

/// The lopdf dictionary for a list of entries, collected through
/// `lopdf::Dictionary`'s `FromIterator`, which sets them in order.
#[verifier::external_body]
fn to_dictionary(e: &Vec<(String, PdfValue)>) -> lopdf::Dictionary {
    e.iter().map(|(k, v)| (k.as_bytes().to_vec(), to_object(v))).collect()
}

/// `lopdf::Document::with_version`: a document with no objects, no
/// object number handed out, an empty trailer and the given version.
#[verifier::external_body]
pub(crate) fn new_document(version: &str) -> (d: lopdf::Document)
    ensures
        pdf_objects(d).dom().len() == 0,
        pdf_objects(d).dom().finite(),
        pdf_max_id(d) == 0,
        pdf_root(d) is None,
        pdf_version(d) == version@,
{
    lopdf::Document::with_version(version)
}

/// `lopdf::Document::new_object_id`: hands out the next object number
/// (generation 0) and stores nothing. It panics once `max_id` has reached
/// `u32::MAX`, which `requires` rules out.
#[verifier::external_body]
pub(crate) fn new_object_id(doc: &mut lopdf::Document) -> (id: (u32, u16))
    requires
        pdf_max_id(*old(doc)) < u32::MAX,
    ensures
        id.0 == pdf_max_id(*old(doc)) + 1,
        id.1 == 0,
        pdf_max_id(*final(doc)) == id.0,
        pdf_objects(*final(doc)) == pdf_objects(*old(doc)),
        pdf_root(*final(doc)) == pdf_root(*old(doc)),
        pdf_version(*final(doc)) == pdf_version(*old(doc)),
{
    doc.new_object_id()
}

/// `lopdf::Document::add_object`: stores the value under the next object
/// number (generation 0) and returns that id. It panics once `max_id` has
/// reached `u32::MAX`, which `requires` rules out.
#[verifier::external_body]
pub(crate) fn add_object(doc: &mut lopdf::Document, v: &PdfValue) -> (id: (u32, u16))
    requires
        pdf_max_id(*old(doc)) < u32::MAX,
    ensures
        id.0 == pdf_max_id(*old(doc)) + 1,
        id.1 == 0,
        pdf_max_id(*final(doc)) == id.0,
        pdf_objects(*final(doc)) == pdf_objects(*old(doc)).insert(id, stored(v@)),
        pdf_root(*final(doc)) == pdf_root(*old(doc)),
        pdf_version(*final(doc)) == pdf_version(*old(doc)),
{
    doc.add_object(to_object(v))
}

/// `lopdf::Document::set_object`: stores the value under the given id,
/// in place of what was there.
#[verifier::external_body]
pub(crate) fn set_object(doc: &mut lopdf::Document, id: (u32, u16), v: &PdfValue)
    ensures
        pdf_objects(*final(doc)) == pdf_objects(*old(doc)).insert(id, stored(v@)),
        pdf_max_id(*final(doc)) == pdf_max_id(*old(doc)),
        pdf_root(*final(doc)) == pdf_root(*old(doc)),
        pdf_version(*final(doc)) == pdf_version(*old(doc)),
{
    doc.set_object(id, to_object(v))
}

/// The object that `id` leads to, as `lopdf::Document::get_object_mut`
/// finds it: the object under `id` or, where that is a reference, the
/// object that it refers to, followed in turn; nothing where an object on
/// the way is missing or more than 128 references would be followed.
/// `followed` counts the references followed so far.
pub open spec fn deref_target(objs: Map<(u32, u16), PdfValueView>, id: (u32, u16), followed: int) -> Option<
    (u32, u16),
>
    decreases 128 - followed,
{
    if !objs.contains_key(id) {
        None
    } else {
        match objs[id] {
            PdfValueView::Reference(n, g) => if followed >= 128 {
                None
            } else {
                deref_target(objs, (n, g), followed + 1)
            },
            _ => Some(id),
        }
    }
}

/// The objects after `key` is set to `v` in the dictionary that `id` leads
/// to (see `deref_target`); nothing where `id` leads to no dictionary.
pub open spec fn entry_set(
    objs: Map<(u32, u16), PdfValueView>,
    id: (u32, u16),
    key: Seq<char>,
    v: PdfValueView,
) -> Option<Map<(u32, u16), PdfValueView>> {
    match deref_target(objs, id, 0) {
        Some(t) => match objs[t] {
            PdfValueView::Dictionary(e) => Some(
                objs.insert(t, PdfValueView::Dictionary(dict_set(e, key, stored(v)))),
            ),
            _ => None,
        },
        None => None,
    }
}

/// `lopdf::Document::get_dictionary_mut` followed by `Dictionary::set`:
/// where `id` leads to a dictionary (following references as
/// `deref_target` says), sets `key` in it and returns `true`; otherwise
/// changes nothing and returns `false`.
#[verifier::external_body]
pub(crate) fn set_entry(doc: &mut lopdf::Document, id: (u32, u16), key: &str, v: &PdfValue) -> (ok: bool)
    ensures
        match entry_set(pdf_objects(*old(doc)), id, key@, v@) {
            Some(m) => ok && pdf_objects(*final(doc)) == m,
            None => !ok && pdf_objects(*final(doc)) == pdf_objects(*old(doc)),
        },
        pdf_max_id(*final(doc)) == pdf_max_id(*old(doc)),
        pdf_root(*final(doc)) == pdf_root(*old(doc)),
        pdf_version(*final(doc)) == pdf_version(*old(doc)),
{
    match doc.get_dictionary_mut(id) {
        Ok(d) => {
            d.set(key, to_object(v));
            true
        },
        Err(_) => false,
    }
}

/// `lopdf::Dictionary::set` on the trailer: its `Root` entry becomes a
/// reference to `id`.
#[verifier::external_body]
pub(crate) fn set_root(doc: &mut lopdf::Document, id: (u32, u16))
    ensures
        pdf_root(*final(doc)) == Some(id),
        pdf_objects(*final(doc)) == pdf_objects(*old(doc)),
        pdf_max_id(*final(doc)) == pdf_max_id(*old(doc)),
        pdf_version(*final(doc)) == pdf_version(*old(doc)),
{
    doc.trailer.set("Root", lopdf::Object::Reference(id))
}

/// `lopdf::Dictionary::get` on the trailer, then `Object::as_reference`:
/// the id that the `Root` entry refers to.
#[verifier::external_body]
pub(crate) fn root_of(doc: &lopdf::Document) -> (r: Option<(u32, u16)>)
    ensures
        r == pdf_root(*doc),
{
    doc.trailer.get(b"Root").and_then(|o| o.as_reference()).ok()
}

} // verus!
