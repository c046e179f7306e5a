//! The document layer: registering the QR image and fonts in a template's object graph and
//! applying page plans to its pages.
//!
//! A document is seen as a map from object ids to values (`Val`); a stamping reads every page
//! it changes first, then adds the new objects under fresh ids, then rewrites the pages.

use vstd::prelude::*;
use crate::content::{encode_ops, font_key_name, image_key_name, latin1_bytes, ops_text};
use crate::decimal::push_decimal;
use crate::fonts::{base_font_name, cached, FontKey, FontResolver};
use crate::geometry::{qr_on_page, texts_on_page, Config};
use crate::plan::{page_fonts, plan_images, plan_ops, plan_page, PagePlan};
use crate::text::{chars_of, push_str, string_of};

verus! {

#[verifier::external_type_specification]
#[verifier::external_body]
pub struct ExDocument(lopdf::Document);

#[verifier::external_type_specification]
#[verifier::external_body]
pub struct ExDictionary(lopdf::Dictionary);

/// An object id: object number and generation.
pub type Id = (u32, u16);

/// What an object of a document is, as far as stamping reads and writes it.
pub enum Val {
    Name(Seq<char>),
    Int(int),
    Ref(Id),
    Dict(Map<Seq<char>, Val>),
    Stream(Map<Seq<char>, Val>, Seq<u8>),
    Other,
}

/// The entries of a dictionary whose keys are text.
pub uninterp spec fn dict_view(d: lopdf::Dictionary) -> Map<Seq<char>, Val>;

/// The objects of a document by id.
pub uninterp spec fn doc_objects(d: lopdf::Document) -> Map<Id, Val>;

/// The largest object number a document has handed out.
pub uninterp spec fn doc_max_id(d: lopdf::Document) -> u32;

/// The pages of a document: numbers with object ids, in page order.
pub uninterp spec fn doc_pages(d: lopdf::Document) -> Seq<(u32, Id)>;

/// The content of a page: its content streams decoded and joined, each followed by a newline.
pub uninterp spec fn doc_page_content(d: lopdf::Document, id: Id) -> Seq<u8>;

/// What `qrcode::QrCode::new` encodes a text as: its modules row by row, dark ones true.
pub uninterp spec fn qr_modules_of(s: Seq<char>) -> Seq<bool>;

/// Whether `qrcode::QrCode::new` can encode a text.
pub uninterp spec fn qr_fits(s: Seq<char>) -> bool;

/// A dictionary view without entries.
pub open spec fn no_entries() -> Map<Seq<char>, Val> {
    Map::empty()
}

/// The number of modules per side of a QR code of version `v`.
pub open spec fn qr_side(v: int) -> int {
    4 * v + 17
}

/// Relies on `lopdf::Dictionary::new`: a dictionary without entries.
#[verifier::external_body]
fn new_dict() -> (r: lopdf::Dictionary)
    ensures
        dict_view(r) == no_entries(),
{
    lopdf::Dictionary::new()
}

/// Relies on `lopdf::Dictionary::set`: the key now holds a name.
#[verifier::external_body]
fn dict_set_name(d: &mut lopdf::Dictionary, key: &str, name: &str)
    ensures
        dict_view(*final(d)) == dict_view(*old(d)).insert(key@, Val::Name(name@)),
{
    d.set(key.as_bytes().to_vec(), lopdf::Object::Name(name.as_bytes().to_vec()))
}

/// Relies on `lopdf::Dictionary::set`: the key now holds an integer.
#[verifier::external_body]
fn dict_set_int(d: &mut lopdf::Dictionary, key: &str, v: i64)
    ensures
        dict_view(*final(d)) == dict_view(*old(d)).insert(key@, Val::Int(v as int)),
{
    d.set(key.as_bytes().to_vec(), lopdf::Object::Integer(v))
}

/// Relies on `lopdf::Dictionary::set`: the key now holds a reference.
#[verifier::external_body]
fn dict_set_ref(d: &mut lopdf::Dictionary, key: &str, id: (u32, u16))
    ensures
        dict_view(*final(d)) == dict_view(*old(d)).insert(key@, Val::Ref(id)),
{
    d.set(key.as_bytes().to_vec(), lopdf::Object::Reference(id))
}

/// Relies on `lopdf::Dictionary::set`: the key now holds a dictionary.
#[verifier::external_body]
fn dict_set_dict(d: &mut lopdf::Dictionary, key: &str, sub: lopdf::Dictionary)
    ensures
        dict_view(*final(d)) == dict_view(*old(d)).insert(key@, Val::Dict(dict_view(sub))),
{
    d.set(key.as_bytes().to_vec(), lopdf::Object::Dictionary(sub))
}

/// Relies on `lopdf::Dictionary::has`: whether the key is present.
#[verifier::external_body]
fn dict_has(d: &lopdf::Dictionary, key: &str) -> (r: bool)
    ensures
        r == dict_view(*d).contains_key(key@),
{
    d.has(key.as_bytes())
}

/// Relies on `lopdf::Dictionary::get` and `Object::as_dict`: a copy of the dictionary the
/// key holds, if it holds one.
#[verifier::external_body]
fn dict_get_dict(d: &lopdf::Dictionary, key: &str) -> (r: Option<lopdf::Dictionary>)
    ensures
        match r {
            Some(x) => dict_view(*d).contains_key(key@) && dict_view(*d)[key@] == Val::Dict(dict_view(x)),
            None => !(dict_view(*d).contains_key(key@) && dict_view(*d)[key@] is Dict),
        },
{
    d.get(key.as_bytes()).and_then(lopdf::Object::as_dict).ok().cloned()
}

/// Relies on `lopdf::Dictionary::get` and `Object::as_reference`: the id the key refers to,
/// if it holds a reference.
#[verifier::external_body]
fn dict_get_ref(d: &lopdf::Dictionary, key: &str) -> (r: Option<(u32, u16)>)
    ensures
        match r {
            Some(id) => dict_view(*d).contains_key(key@) && dict_view(*d)[key@] == Val::Ref(id),
            None => !(dict_view(*d).contains_key(key@) && dict_view(*d)[key@] is Ref),
        },
{
    d.get(key.as_bytes()).and_then(lopdf::Object::as_reference).ok()
}

/// Relies on `lopdf::Document::get_pages`: page numbers from 1 with their object ids, in
/// page order.
#[verifier::external_body]
fn page_list(doc: &lopdf::Document) -> (r: Vec<(u32, (u32, u16))>)
    ensures
        r@ == doc_pages(*doc),
        forall|i: int| 0 <= i < r@.len() ==> #[trigger] r@[i].0 == i + 1,
{
    doc.get_pages().into_iter().collect()
}

/// Relies on the `objects` map of `lopdf::Document`: a copy of the object stored under an
/// id if it is a dictionary.
#[verifier::external_body]
fn object_dict(doc: &lopdf::Document, id: (u32, u16)) -> (r: Option<lopdf::Dictionary>)
    ensures
        match r {
            Some(x) => doc_objects(*doc).contains_key(id) && doc_objects(*doc)[id] == Val::Dict(dict_view(x)),
            None => !(doc_objects(*doc).contains_key(id) && doc_objects(*doc)[id] is Dict),
        },
{
    match doc.objects.get(&id) {
        Some(lopdf::Object::Dictionary(d)) => Some(d.clone()),
        _ => None,
    }
}

/// Relies on `lopdf::Document::has_object`: whether an object is stored under an id.
#[verifier::external_body]
fn has_object(doc: &lopdf::Document, id: (u32, u16)) -> (r: bool)
    ensures
        r == doc_objects(*doc).contains_key(id),
{
    doc.has_object(id)
}

/// Relies on the `max_id` field of `lopdf::Document`: the largest object number handed out.
#[verifier::external_body]
fn max_object_id(doc: &lopdf::Document) -> (r: u32)
    ensures
        r == doc_max_id(*doc),
{
    doc.max_id
}

/// Relies on `lopdf::Document::add_object`: stores a dictionary under the next object number.
#[verifier::external_body]
fn add_dict_object(doc: &mut lopdf::Document, d: lopdf::Dictionary) -> (r: (u32, u16))
    requires
        doc_max_id(*old(doc)) < u32::MAX,
    ensures
        r == ((doc_max_id(*old(doc)) + 1) as u32, 0u16),
        doc_max_id(*final(doc)) == doc_max_id(*old(doc)) + 1,
        doc_objects(*final(doc)) == doc_objects(*old(doc)).insert(r, Val::Dict(dict_view(d))),
{
    doc.add_object(lopdf::Object::Dictionary(d))
}

/// Relies on `lopdf::Document::add_object` and `lopdf::Stream::new`, which sets `Length`:
/// stores a stream under the next object number.
#[verifier::external_body]
fn add_stream_object(doc: &mut lopdf::Document, d: lopdf::Dictionary, content: Vec<u8>) -> (r: (u32, u16))
    requires
        doc_max_id(*old(doc)) < u32::MAX,
    ensures
        r == ((doc_max_id(*old(doc)) + 1) as u32, 0u16),
        doc_max_id(*final(doc)) == doc_max_id(*old(doc)) + 1,
        doc_objects(*final(doc)) == doc_objects(*old(doc)).insert(
            r,
            Val::Stream(dict_view(d).insert("Length"@, Val::Int(content@.len() as i64 as int)), content@),
        ),
{
    doc.add_object(lopdf::Object::Stream(lopdf::Stream::new(d, content)))
}

/// Relies on `lopdf::Document::set_object`: stores a dictionary under an id.
#[verifier::external_body]
fn set_dict_object(doc: &mut lopdf::Document, id: (u32, u16), d: lopdf::Dictionary)
    ensures
        doc_max_id(*final(doc)) == doc_max_id(*old(doc)),
        doc_objects(*final(doc)) == doc_objects(*old(doc)).insert(id, Val::Dict(dict_view(d))),
{
    doc.set_object(id, lopdf::Object::Dictionary(d))
}

/// Relies on `lopdf::Document::get_page_content`: the page's content streams, decoded and
/// joined.
#[verifier::external_body]
fn page_content(doc: &lopdf::Document, id: (u32, u16)) -> (r: Vec<u8>)
    ensures
        r@ == doc_page_content(*doc, id),
{
    doc.get_page_content(id)
}

/// Relies on `qrcode::QrCode::new`: the modules of the code for a text (dark ones true, row
/// by row) and the number per side, which is 17 + 4v for a version v from 1 to 40; none
/// where the text does not fit in a code.
#[verifier::external_body]
fn qr_matrix(link: &str) -> (r: Option<(Vec<bool>, usize)>)
    ensures
        r is Some <==> qr_fits(link@),
        r matches Some((m, w)) ==> m@ == qr_modules_of(link@) && m@.len() == w * w && exists|v: int|
            1 <= v <= 40 && w == #[trigger] qr_side(v),
{
    let code = qrcode::QrCode::new(link.as_bytes()).ok()?;
    let m: Vec<bool> = code.to_colors().into_iter().map(|c| c == qrcode::Color::Dark).collect();
    Some((m, code.width()))
}

/// A grey-scale image with one byte per module: black for dark modules, white for light.
pub open spec fn raster_of(m: Seq<bool>) -> Seq<u8> {
    m.map_values(|b: bool| if b { 0u8 } else { 255u8 })
}

/// The QR code of a link as a square image.
pub struct QrRaster {
    pub width: usize,
    pub pixels: Vec<u8>,
}

/// The square image of the modules, one byte per module.
pub fn raster_from_modules(modules: &Vec<bool>, width: usize) -> (r: QrRaster)
    requires
        modules@.len() == width * width,
    ensures
        r.width == width,
        r.pixels@ == raster_of(modules@),
{
    let mut pixels: Vec<u8> = Vec::new();
    let mut i: usize = 0;
    while i < modules.len()
        invariant
            i <= modules.len(),
            pixels@ == raster_of(modules@.subrange(0, i as int)),
        decreases modules.len() - i,
    {
        pixels.push(if modules[i] { 0u8 } else { 255u8 });
        i += 1;
        assert(pixels@ =~= raster_of(modules@.subrange(0, i as int)));
    }
    assert(modules@.subrange(0, modules.len() as int) =~= modules@);
    QrRaster { width, pixels }
}

/// The QR image of a link; none exactly where the link does not fit in a QR code.
pub fn generate_qr(link: &str) -> (r: Option<QrRaster>)
    ensures
        r is Some <==> qr_fits(link@),
        r matches Some(q) ==> q.pixels@ == raster_of(qr_modules_of(link@)) && q.pixels@.len()
            == q.width * q.width && exists|v: int| 1 <= v <= 40 && q.width == #[trigger] qr_side(v),
{
    match qr_matrix(link) {
        Some((m, w)) => Some(raster_from_modules(&m, w)),
        None => None,
    }
}

/// Why a record's document could not be stamped.
#[derive(Clone, Copy, Debug, PartialEq, Eq, Structural)]
pub enum StampError {
    /// The page with this number, which has something to stamp, is not stored as a dictionary.
    PageUnreadable(u32),
    /// A resource table of the page with this number is neither a dictionary nor a reference
    /// to a stored dictionary.
    ResourcesUnreadable(u32),
    /// The page with this number is stored under the same id as an earlier page.
    RepeatedPage(u32),
    /// The document has too few unused object numbers for the new objects.
    NoRoom,
}

/// The dictionary under `key` of `m`, reading a reference in `objs`: an empty one when the
/// key is absent; none when it holds neither a dictionary nor a reference to a stored one.
pub open spec fn base_dict(objs: Map<Id, Val>, m: Map<Seq<char>, Val>, key: Seq<char>) -> Option<Map<Seq<char>, Val>> {
    if !m.contains_key(key) {
        Some(Map::empty())
    } else {
        match m[key] {
            Val::Dict(x) => Some(x),
            Val::Ref(r) => if objs.contains_key(r) {
                match objs[r] {
                    Val::Dict(x) => Some(x),
                    _ => None,
                }
            } else {
                None
            },
            _ => None,
        }
    }
}

/// The dictionary stored under a page's id.
pub open spec fn page_dict_of(objs: Map<Id, Val>, pid: Id) -> Option<Map<Seq<char>, Val>> {
    if objs.contains_key(pid) {
        match objs[pid] {
            Val::Dict(x) => Some(x),
            _ => None,
        }
    } else {
        None
    }
}

/// A page's resource table.
pub open spec fn resources_of(objs: Map<Id, Val>, pid: Id) -> Option<Map<Seq<char>, Val>> {
    match page_dict_of(objs, pid) {
        Some(p) => base_dict(objs, p, "Resources"@),
        None => None,
    }
}

/// A page can be stamped: it is a dictionary whose resource table, and the image and font
/// tables in it where they are needed, can be read.
pub open spec fn page_ready(objs: Map<Id, Val>, pid: Id, images: bool, fonts: bool) -> bool {
    match resources_of(objs, pid) {
        Some(res) => (images ==> base_dict(objs, res, "XObject"@) is Some) && (fonts ==> base_dict(
            objs,
            res,
            "Font"@,
        ) is Some),
        None => false,
    }
}

/// `xo` with keys `Im1..Im<n>` referring to the image.
pub open spec fn with_images(xo: Map<Seq<char>, Val>, n: nat, img: Id) -> Map<Seq<char>, Val>
    decreases n,
{
    if n == 0 {
        xo
    } else {
        with_images(xo, (n - 1) as nat, img).insert(image_key_name(n), Val::Ref(img))
    }
}

/// The object a font key was registered as.
pub open spec fn font_id(fonts: Seq<(FontKey, Id)>, k: FontKey) -> Id
    decreases fonts.len(),
{
    if fonts.len() == 0 {
        (0, 0)
    } else if fonts[0].0 == k {
        fonts[0].1
    } else {
        font_id(fonts.drop_first(), k)
    }
}

/// `fm` with the font keys referring to their objects.
pub open spec fn with_fonts(fm: Map<Seq<char>, Val>, keys: Seq<FontKey>, fonts: Seq<(FontKey, Id)>) -> Map<Seq<char>, Val>
    decreases keys.len(),
{
    if keys.len() == 0 {
        fm
    } else {
        with_fonts(fm, keys.drop_last(), fonts).insert(
            font_key_name(keys.last()),
            Val::Ref(font_id(fonts, keys.last())),
        )
    }
}

/// A resource table `res` after stamping, given its image table `xo` and font table `fm`.
pub open spec fn resources_after(
    res: Map<Seq<char>, Val>,
    xo: Map<Seq<char>, Val>,
    fm: Map<Seq<char>, Val>,
    images: nat,
    keys: Seq<FontKey>,
    img: Id,
    fonts: Seq<(FontKey, Id)>,
) -> Map<Seq<char>, Val> {
    let r1 = if images > 0 {
        res.insert("XObject"@, Val::Dict(with_images(xo, images, img)))
    } else {
        res
    };
    if keys.len() > 0 {
        r1.insert("Font"@, Val::Dict(with_fonts(fm, keys, fonts)))
    } else {
        r1
    }
}

/// A page's resource table after stamping.
pub open spec fn stamped_resources(
    objs: Map<Id, Val>,
    res: Map<Seq<char>, Val>,
    images: nat,
    keys: Seq<FontKey>,
    img: Id,
    fonts: Seq<(FontKey, Id)>,
) -> Map<Seq<char>, Val> {
    resources_after(res, base_dict(objs, res, "XObject"@)->0, base_dict(objs, res, "Font"@)->0, images, keys, img, fonts)
}

/// A page's dictionary after stamping: its resource table inline and its content in the new
/// stream `cid`.
pub open spec fn stamped_page(
    objs: Map<Id, Val>,
    pid: Id,
    images: nat,
    keys: Seq<FontKey>,
    img: Id,
    fonts: Seq<(FontKey, Id)>,
    cid: Id,
) -> Map<Seq<char>, Val> {
    page_dict_of(objs, pid)->0.insert(
        "Resources"@,
        Val::Dict(stamped_resources(objs, resources_of(objs, pid)->0, images, keys, img, fonts)),
    ).insert("Contents"@, Val::Ref(cid))
}

/// A content stream holding the old content, a newline and the added instructions.
pub open spec fn content_val(old: Seq<u8>, added: Seq<u8>) -> Val {
    let c = old + seq![10u8] + added;
    Val::Stream(Map::empty().insert("Length"@, Val::Int(c.len() as i64 as int)), c)
}

/// The image object of a QR raster.
pub open spec fn image_val(width: usize, pixels: Seq<u8>) -> Val {
    Val::Stream(
        Map::empty().insert("Type"@, Val::Name("XObject"@)).insert("Subtype"@, Val::Name("Image"@)).insert(
            "Width"@,
            Val::Int(width as int),
        ).insert("Height"@, Val::Int(width as int)).insert("ColorSpace"@, Val::Name("DeviceGray"@)).insert(
            "BitsPerComponent"@,
            Val::Int(8),
        ).insert("Length"@, Val::Int(pixels.len() as i64 as int)),
        pixels,
    )
}

/// The object of a standard font.
pub open spec fn standard_font_val(f: crate::fonts::StandardFont) -> Val {
    Val::Dict(
        Map::empty().insert("Type"@, Val::Name("Font"@)).insert("Subtype"@, Val::Name("Type1"@)).insert(
            "BaseFont"@,
            Val::Name(base_font_name(f)),
        ),
    )
}

/// The id of the image, or a placeholder when there is none.
pub open spec fn image_or_none(o: Option<Id>) -> Id {
    match o {
        Some(i) => i,
        None => (0, 0),
    }
}

/// A page gets changes when its plan registers an image or draws something.
pub open spec fn page_changes(g: Config, page: u32, has_image: bool, resolved: Seq<Option<FontKey>>) -> bool {
    plan_images(g, page, has_image) > 0 || plan_ops(g, page, has_image, resolved).len() > 0
}

/// The pages, in order, that a stamping changes.
pub open spec fn stamped_pages(g: Config, pages: Seq<u32>, has_image: bool, resolved: Seq<Option<FontKey>>) -> Seq<u32>
    decreases pages.len(),
{
    if pages.len() == 0 {
        Seq::empty()
    } else if page_changes(g, pages.last(), has_image, resolved) {
        stamped_pages(g, pages.drop_last(), has_image, resolved).push(pages.last())
    } else {
        stamped_pages(g, pages.drop_last(), has_image, resolved)
    }
}

/// The id of object number `n`, generation 0.
pub open spec fn oid(n: int) -> Id {
    (n as u32, 0u16)
}

/// Enough unused object numbers follow the document's largest one for a stamping that adds
/// at most one image, three objects per text placement and one content stream per page.
pub open spec fn room(d: lopdf::Document, texts: nat, pages: nat) -> bool {
    let max = doc_max_id(d) as int;
    let need = 1 + 3 * texts + pages;
    &&& max + need <= u32::MAX
    &&& forall|n: int| max < n <= max + need ==> !#[trigger] doc_objects(d).contains_key(oid(n))
}

/// `b` keeps every object of `a` whose id is not a new number in `(lo, hi]`, and has no
/// other new objects.
pub open spec fn extends(a: Map<Id, Val>, b: Map<Id, Val>, lo: int, hi: int) -> bool {
    &&& forall|id: Id| #[trigger] a.contains_key(id) && !(id.1 == 0 && lo < id.0 <= hi) ==> b.contains_key(id)
        && b[id] == a[id]
    &&& forall|id: Id| #[trigger] b.contains_key(id) && !a.contains_key(id) ==> id.1 == 0 && lo < id.0 <= hi
}

/// Every page is stored under its own id.
pub open spec fn distinct_pages(pages: Seq<(u32, Id)>) -> bool {
    forall|i: int, j: int| 0 <= i < j < pages.len() ==> pages[i].1 != pages[j].1
}

/// A cached resolution is one of the resolutions in the cache.
proof fn lemma_cached_member(e: Seq<(Seq<char>, crate::geometry::FontStyle, Option<FontKey>)>, f: Seq<char>, s: crate::geometry::FontStyle)
    ensures
        cached(e, f, s) matches Some(k) ==> exists|j: int| 0 <= j < e.len() && #[trigger] e[j].2 == k,
    decreases e.len(),
{
    if e.len() > 0 && !(e[0].0 == f && e[0].1 == s) {
        lemma_cached_member(e.drop_first(), f, s);
        if cached(e, f, s) is Some {
            let j = choose|j: int| 0 <= j < e.drop_first().len() && #[trigger] e.drop_first()[j].2 == cached(e, f, s)->0;
            assert(e[j + 1].2 == cached(e, f, s)->0);
        }
    }
}

/// The dictionary under `key` of `m`, following a reference to a stored dictionary.
fn resolve_base(doc: &lopdf::Document, m: &lopdf::Dictionary, key: &str) -> (r: Option<lopdf::Dictionary>)
    ensures
        match r {
            Some(x) => base_dict(doc_objects(*doc), dict_view(*m), key@) == Some(dict_view(x)),
            None => base_dict(doc_objects(*doc), dict_view(*m), key@) is None,
        },
{
    if !dict_has(m, key) {
        return Some(new_dict());
    }
    match dict_get_dict(m, key) {
        Some(x) => Some(x),
        None => match dict_get_ref(m, key) {
            Some(id) => object_dict(doc, id),
            None => None,
        },
    }
}

fn find_font(fonts: &Vec<(FontKey, (u32, u16))>, k: FontKey) -> (r: Option<(u32, u16)>)
    ensures
        match r {
            Some(id) => font_id(fonts@, k) == id && exists|j: int| 0 <= j < fonts@.len() && #[trigger] fonts@[j].0 == k,
            None => font_id(fonts@, k) == (0u32, 0u16) && forall|j: int| 0 <= j < fonts@.len() ==> #[trigger] fonts@[j].0 != k,
        },
{
    let mut i: usize = 0;
    assert(fonts@.subrange(0, fonts@.len() as int) =~= fonts@);
    while i < fonts.len()
        invariant
            i <= fonts.len(),
            font_id(fonts@, k) == font_id(fonts@.subrange(i as int, fonts@.len() as int), k),
            forall|j: int| 0 <= j < i ==> #[trigger] fonts@[j].0 != k,
        decreases fonts.len() - i,
    {
        let ghost rest = fonts@.subrange(i as int, fonts@.len() as int);
        assert(rest[0] == fonts@[i as int]);
        if fonts[i].0 == k {
            return Some(fonts[i].1);
        }
        assert(rest.drop_first() =~= fonts@.subrange(i + 1, fonts@.len() as int));
        i += 1;
    }
    None
}

/// What a page needs for its stamping, read before anything is written.
struct Work {
    number: u32,
    id: (u32, u16),
    plan: PagePlan,
    page: lopdf::Dictionary,
    res: lopdf::Dictionary,
    xo: lopdf::Dictionary,
    fm: lopdf::Dictionary,
    content: Vec<u8>,
}

/// The page and its tables as stored in `objs`, and its content in `d`.
spec fn work_read(w: Work, objs: Map<Id, Val>, d: lopdf::Document) -> bool {
    &&& page_dict_of(objs, w.id) == Some(dict_view(w.page))
    &&& resources_of(objs, w.id) == Some(dict_view(w.res))
    &&& w.plan.images > 0 ==> base_dict(objs, dict_view(w.res), "XObject"@) == Some(dict_view(w.xo))
    &&& w.plan.fonts@.len() > 0 ==> base_dict(objs, dict_view(w.res), "Font"@) == Some(dict_view(w.fm))
    &&& w.content@ == doc_page_content(d, w.id)
}

/// The plan of the page, as the geometry gives it.
spec fn work_plan(w: Work, g: Config, has_image: bool, resolved: Seq<Option<FontKey>>) -> bool {
    &&& w.plan.images == plan_images(g, w.number, has_image)
    &&& w.plan.fonts@ == page_fonts(resolved, texts_on_page(g.vertreter@, w.number))
    &&& w.plan.ops@ == plan_ops(g, w.number, has_image, resolved)
    &&& (w.plan.images > 0 || w.plan.ops@.len() > 0)
}

/// Reads what a page needs for its stamping.
fn read_page(doc: &lopdf::Document, number: u32, id: (u32, u16), plan: PagePlan) -> (r: Result<Work, StampError>)
    ensures
        match r {
            Ok(w) => w.number == number && w.id == id && w.plan == plan && work_read(w, doc_objects(*doc), *doc),
            Err(e) => !page_ready(doc_objects(*doc), id, plan.images > 0, plan.fonts@.len() > 0),
        },
{
    let page = match object_dict(doc, id) {
        Some(p) => p,
        None => {
            return Err(StampError::PageUnreadable(number));
        },
    };
    let res = match resolve_base(doc, &page, "Resources") {
        Some(r) => r,
        None => {
            return Err(StampError::ResourcesUnreadable(number));
        },
    };
    let xo = if plan.images > 0 {
        match resolve_base(doc, &res, "XObject") {
            Some(x) => x,
            None => {
                return Err(StampError::ResourcesUnreadable(number));
            },
        }
    } else {
        new_dict()
    };
    let fm = if plan.fonts.len() > 0 {
        match resolve_base(doc, &res, "Font") {
            Some(x) => x,
            None => {
                return Err(StampError::ResourcesUnreadable(number));
            },
        }
    } else {
        new_dict()
    };
    let content = page_content(doc, id);
    Ok(Work { number, id, plan, page, res, xo, fm, content })
}

/// The registered image object, as the raster gives it.
fn register_image(doc: &mut lopdf::Document, q: &QrRaster) -> (r: (u32, u16))
    requires
        q.width <= i64::MAX,
        doc_max_id(*old(doc)) < u32::MAX,
    ensures
        r == ((doc_max_id(*old(doc)) + 1) as u32, 0u16),
        doc_max_id(*final(doc)) == doc_max_id(*old(doc)) + 1,
        doc_objects(*final(doc)) == doc_objects(*old(doc)).insert(r, image_val(q.width, q.pixels@)),
{
    let mut d = new_dict();
    dict_set_name(&mut d, "Type", "XObject");
    dict_set_name(&mut d, "Subtype", "Image");
    dict_set_int(&mut d, "Width", q.width as i64);
    dict_set_int(&mut d, "Height", q.width as i64);
    dict_set_name(&mut d, "ColorSpace", "DeviceGray");
    dict_set_int(&mut d, "BitsPerComponent", 8);
    let r = add_stream_object(doc, d, q.pixels.clone());
    assert(doc_objects(*doc) =~= doc_objects(*old(doc)).insert(r, image_val(q.width, q.pixels@)));
    r
}

/// Registers one font resource: a standard font as a Type1 font, a font file as an
/// embedded TrueType font (file stream, descriptor and font dictionary).
fn register_font(doc: &mut lopdf::Document, k: FontKey, family: &str, files: &Vec<Option<Vec<u8>>>) -> (r: (u32, u16))
    requires
        doc_max_id(*old(doc)) + 3 <= u32::MAX,
    ensures
        doc_max_id(*old(doc)) < doc_max_id(*final(doc)) <= doc_max_id(*old(doc)) + 3,
        r == (doc_max_id(*final(doc)), 0u16),
        extends(doc_objects(*old(doc)), doc_objects(*final(doc)), doc_max_id(*old(doc)) as int, doc_max_id(*final(doc)) as int),
        doc_objects(*final(doc)).contains_key(r),
        k matches FontKey::Standard { font, .. } ==> doc_objects(*final(doc))[r] == standard_font_val(font),
{
    let mut d = new_dict();
    dict_set_name(&mut d, "Type", "Font");
    match k {
        FontKey::Standard { font, .. } => {
            dict_set_name(&mut d, "Subtype", "Type1");
            dict_set_name(&mut d, "BaseFont", font.name().as_str());
            let r = add_dict_object(doc, d);
            assert(dict_view(d) =~= Map::<Seq<char>, Val>::empty().insert("Type"@, Val::Name("Font"@)).insert(
                "Subtype"@,
                Val::Name("Type1"@),
            ).insert("BaseFont"@, Val::Name(base_font_name(font))));
            r
        },
        FontKey::Embedded { source, .. } => {
            let data: Vec<u8> = if source < files.len() {
                match &files[source] {
                    Some(b) => b.clone(),
                    None => Vec::new(),
                }
            } else {
                Vec::new()
            };
            let mut plain: Vec<char> = Vec::new();
            let fam = chars_of(family);
            let mut i: usize = 0;
            while i < fam.len()
                invariant
                    i <= fam.len(),
                decreases fam.len() - i,
            {
                if fam[i] != ' ' {
                    plain.push(fam[i]);
                }
                i += 1;
            }
            let name = string_of(&plain);
            let file_id = add_stream_object(doc, new_dict(), data);
            let mut desc = new_dict();
            dict_set_name(&mut desc, "Type", "FontDescriptor");
            dict_set_name(&mut desc, "FontName", name.as_str());
            dict_set_int(&mut desc, "Flags", 32);
            dict_set_ref(&mut desc, "FontFile2", file_id);
            let desc_id = add_dict_object(doc, desc);
            dict_set_name(&mut d, "Subtype", "TrueType");
            dict_set_name(&mut d, "BaseFont", name.as_str());
            dict_set_ref(&mut d, "FontDescriptor", desc_id);
            add_dict_object(doc, d)
        },
    }
}

/// Stamps one page: its image and font tables get their keys, its resource table is set
/// inline, and its content becomes a new stream with the old content, a newline and the
/// plan's instructions.
fn apply_work(doc: &mut lopdf::Document, w: Work, img: (u32, u16), fonts: &Vec<(FontKey, (u32, u16))>, text: &Vec<char>) -> (cid: (u32, u16))
    requires
        doc_max_id(*old(doc)) < u32::MAX,
    ensures
        cid == ((doc_max_id(*old(doc)) + 1) as u32, 0u16),
        doc_max_id(*final(doc)) == doc_max_id(*old(doc)) + 1,
        doc_objects(*final(doc)) == doc_objects(*old(doc)).insert(
            cid,
            content_val(w.content@, latin1_bytes(ops_text(w.plan.ops@, text@))),
        ).insert(
            w.id,
            Val::Dict(dict_view(w.page).insert(
                "Resources"@,
                Val::Dict(resources_after(dict_view(w.res), dict_view(w.xo), dict_view(w.fm), w.plan.images as nat, w.plan.fonts@, img, fonts@)),
            ).insert("Contents"@, Val::Ref(cid))),
        ),
{
    let Work { number, id, plan, page, res, xo, fm, content } = w;
    let mut xo = xo;
    let mut k: usize = 0;
    while k < plan.images
        invariant
            k <= plan.images,
            dict_view(xo) == with_images(dict_view(w.xo), k as nat, img),
        decreases plan.images - k,
    {
        k += 1;
        let mut key: Vec<char> = Vec::new();
        push_str(&mut key, "Im");
        push_decimal(&mut key, k as u64);
        assert(key@ =~= image_key_name(k as nat));
        dict_set_ref(&mut xo, string_of(&key).as_str(), img);
    }
    let mut fm = fm;
    let mut i: usize = 0;
    assert(plan.fonts@.subrange(0, 0) =~= Seq::<FontKey>::empty());
    while i < plan.fonts.len()
        invariant
            i <= plan.fonts.len(),
            plan == w.plan,
            dict_view(fm) == with_fonts(dict_view(w.fm), plan.fonts@.subrange(0, i as int), fonts@),
        decreases plan.fonts.len() - i,
    {
        let fk = plan.fonts[i];
        let fid = match find_font(fonts, fk) {
            Some(x) => x,
            None => (0, 0),
        };
        let mut key: Vec<char> = Vec::new();
        crate::content::push_font_key(&mut key, fk);
        assert(key@ =~= font_key_name(fk));
        dict_set_ref(&mut fm, string_of(&key).as_str(), fid);
        assert(plan.fonts@.subrange(0, i + 1).drop_last() =~= plan.fonts@.subrange(0, i as int));
        i += 1;
    }
    assert(plan.fonts@.subrange(0, plan.fonts@.len() as int) =~= plan.fonts@);
    let mut res = res;
    if plan.images > 0 {
        dict_set_dict(&mut res, "XObject", xo);
    }
    if plan.fonts.len() > 0 {
        dict_set_dict(&mut res, "Font", fm);
    }
    let mut full = content;
    full.push(10u8);
    let added = encode_ops(&plan.ops, text);
    full.extend_from_slice(&added);
    assert(full@ =~= w.content@ + seq![10u8] + latin1_bytes(ops_text(w.plan.ops@, text@)));
    let cid = add_stream_object(doc, new_dict(), full);
    let mut page = page;
    dict_set_dict(&mut page, "Resources", res);
    dict_set_ref(&mut page, "Contents", cid);
    set_dict_object(doc, id, page);
    cid
}

/// What a stamping did: the document's pages (numbers and ids), the pages it changed with
/// their ids and new content streams, the image object, and the font objects by key.
pub struct StampReport {
    pub pages: Vec<u32>,
    pub page_ids: Vec<(u32, u16)>,
    pub stamped: Vec<u32>,
    pub stamped_ids: Vec<(u32, u16)>,
    pub content_ids: Vec<(u32, u16)>,
    pub has_image: bool,
    pub image: Option<(u32, u16)>,
    pub resolved: Vec<Option<FontKey>>,
    pub fonts: Vec<(FontKey, (u32, u16))>,
}

/// A page has a placement on it.
pub open spec fn page_has_items(g: Config, page: u32) -> bool {
    qr_on_page(g.qr_codes@, page).len() > 0 || texts_on_page(g.vertreter@, page).len() > 0
}

/// Every page with a placement on it can be stamped.
pub open spec fn pages_ready(g: Config, objs: Map<Id, Val>, pages: Seq<(u32, Id)>) -> bool {
    forall|i: int| 0 <= i < pages.len() && #[trigger] page_has_items(g, pages[i].0) ==> page_ready(
        objs,
        pages[i].1,
        qr_on_page(g.qr_codes@, pages[i].0).len() > 0,
        texts_on_page(g.vertreter@, pages[i].0).len() > 0,
    )
}

/// The numbers of the pages.
pub open spec fn page_numbers(pages: Seq<(u32, Id)>) -> Seq<u32> {
    pages.map_values(|p: (u32, Id)| p.0)
}

/// Stamps one record onto a template document. The QR image (if given and of a usable
/// width) and the fonts are added once; then each page whose plan changes something gets
/// its image and font keys, its resource table inline, and a new content stream with its
/// old content, a newline and the plan's instructions. Every other object stays as it was.
/// The stamping succeeds whenever the pages are stored under distinct ids, every page with
/// a placement can be stamped, and unused object numbers are left for the new objects.
/// `font_files` holds, for each text placement, the bytes of the font file found for it;
/// `fallback` allows the standard fonts where none was found.
#[verifier::loop_isolation(false)]
#[verifier::rlimit(100)]
#[verifier::spinoff_prover]
pub fn stamp_document(
    doc: &mut lopdf::Document,
    g: &Config,
    id: &str,
    qr: Option<&QrRaster>,
    font_files: &Vec<Option<Vec<u8>>>,
    fallback: bool,
) -> (r: Result<StampReport, StampError>)
    requires
        font_files@.len() == g.vertreter@.len(),
        g.vertreter@.len() < u32::MAX - 1,
    ensures
        (distinct_pages(doc_pages(*old(doc))) && pages_ready(*g, doc_objects(*old(doc)), doc_pages(*old(doc)))
            && room(*old(doc), g.vertreter@.len(), doc_pages(*old(doc)).len())) ==> r is Ok,
        r matches Ok(rep) ==> {
            let objs0 = doc_objects(*old(doc));
            let objs = doc_objects(*final(doc));
            &&& rep.pages@ == page_numbers(doc_pages(*old(doc)))
            &&& rep.page_ids@.len() == rep.pages@.len()
            &&& forall|i: int| 0 <= i < rep.pages@.len() ==> #[trigger] rep.pages@[i] == i + 1
                && doc_pages(*old(doc))[i].1 == rep.page_ids@[i]
            &&& rep.has_image == (qr matches Some(q) && q.width <= i64::MAX)
            &&& rep.resolved@.len() == g.vertreter@.len()
            &&& fallback ==> forall|i: int| 0 <= i < rep.resolved@.len() ==> #[trigger] rep.resolved@[i] is Some
            &&& (!fallback && forall|i: int| 0 <= i < font_files@.len() ==> #[trigger] font_files@[i] is None)
                ==> forall|i: int| 0 <= i < rep.resolved@.len() ==> #[trigger] rep.resolved@[i] is None
            &&& rep.stamped@ == stamped_pages(*g, rep.pages@, rep.has_image, rep.resolved@)
            &&& rep.stamped_ids@.len() == rep.stamped@.len() && rep.content_ids@.len() == rep.stamped@.len()
            &&& forall|j: int| 0 <= j < rep.stamped@.len() ==> {
                let n = #[trigger] rep.stamped@[j];
                let pid = rep.stamped_ids@[j];
                &&& 1 <= n <= rep.pages@.len() && pid == rep.page_ids@[n - 1]
                &&& objs[pid] == Val::Dict(stamped_page(
                    objs0,
                    pid,
                    plan_images(*g, n, rep.has_image),
                    page_fonts(rep.resolved@, texts_on_page(g.vertreter@, n)),
                    image_or_none(rep.image),
                    rep.fonts@,
                    rep.content_ids@[j],
                ))
                &&& objs[rep.content_ids@[j]] == content_val(
                    doc_page_content(*old(doc), pid),
                    latin1_bytes(ops_text(plan_ops(*g, n, rep.has_image, rep.resolved@), id@)),
                )
            }
            &&& forall|x: Id| #[trigger] objs0.contains_key(x) && !rep.stamped_ids@.contains(x) ==> objs.contains_key(x)
                && objs[x] == objs0[x]
            &&& forall|x: Id| #[trigger] objs.contains_key(x) && !objs0.contains_key(x) ==> x.1 == 0 && x.0 > doc_max_id(*old(doc))
            &&& rep.has_image ==> (qr matches Some(q) && rep.image matches Some(img) && objs.contains_key(img)
                && objs[img] == image_val(q.width, q.pixels@))
            &&& !rep.has_image ==> rep.image is None
            &&& forall|i: int| 0 <= i < rep.fonts@.len() ==> ((#[trigger] rep.fonts@[i]).0 matches FontKey::Standard { font, .. }
                ==> objs[rep.fonts@[i].1] == standard_font_val(font))
            &&& forall|i: int, j: int| 0 <= i < j < rep.fonts@.len() ==> rep.fonts@[i].0 != rep.fonts@[j].0
        },
{
    let ghost d0 = *doc;
    let ghost objs0 = doc_objects(*doc);
    // Fonts of the text placements.
    let mut resolver = FontResolver::new();
    let mut resolved: Vec<Option<FontKey>> = Vec::new();
    let mut i: usize = 0;
    while i < g.vertreter.len()
        invariant
            i <= g.vertreter.len(),
            g.vertreter@.len() < u32::MAX - 1,
            font_files@.len() == g.vertreter@.len(),
            resolved@.len() == i,
            resolver.wf(),
            resolver.entries@.len() <= i,
            fallback ==> forall|j: int| 0 <= j < i ==> #[trigger] resolved@[j] is Some,
            fallback ==> forall|j: int| 0 <= j < resolver.cache().len() ==> #[trigger] resolver.cache()[j].2 is Some,
            (!fallback && forall|j: int| 0 <= j < font_files@.len() ==> #[trigger] font_files@[j] is None) ==> {
                &&& forall|j: int| 0 <= j < i ==> #[trigger] resolved@[j] is None
                &&& forall|j: int| 0 <= j < resolver.cache().len() ==> #[trigger] resolver.cache()[j].2 is None
            },
        decreases g.vertreter.len() - i,
    {
        let t = &g.vertreter[i];
        let found = match &font_files[i] {
            Some(_) => true,
            None => false,
        };
        let ghost old_cache = resolver.cache();
        proof {
            lemma_cached_member(old_cache, t.font_name@, t.font_style);
        }
        let k = resolver.resolve(t.font_name.as_str(), t.font_style, found, i, fallback);
        proof {
            if cached(old_cache, t.font_name@, t.font_style) is Some {
                let j = choose|j: int| 0 <= j < old_cache.len() && #[trigger] old_cache[j].2 == k;
                assert(old_cache[j].2 == k);
            } else {
                assert(resolver.cache()[old_cache.len() as int].2 == k);
                assert forall|j: int| 0 <= j < resolver.cache().len() - 1 implies #[trigger] resolver.cache()[j] == old_cache[j] by {}
            }
        }
        resolved.push(k);
        i += 1;
    }
    let has_image = match qr {
        Some(q) => (q.width as u64) <= 0x7fff_ffff_ffff_ffffu64,
        None => false,
    };
    // Pages, each stored under its own id.
    let list = page_list(doc);
    let mut a: usize = 0;
    while a < list.len()
        invariant
            a <= list.len(),
            list@ == doc_pages(d0),
            forall|x: int, y: int| 0 <= x < y < list@.len() && x < a ==> list@[x].1 != list@[y].1,
        decreases list.len() - a,
    {
        let mut b: usize = a + 1;
        while b < list.len()
            invariant
                a < b <= list.len(),
                forall|y: int| a < y < b ==> list@[a as int].1 != list@[y].1,
            decreases list.len() - b,
        {
            if list[a].1.0 == list[b].1.0 && list[a].1.1 == list[b].1.1 {
                return Err(StampError::RepeatedPage(list[b].0));
            }
            b += 1;
        }
        a += 1;
    }
    // Read every page to change before writing anything.
    let text = chars_of(id);
    let mut pages: Vec<u32> = Vec::new();
    let mut page_ids: Vec<(u32, u16)> = Vec::new();
    let mut works: Vec<Work> = Vec::new();
    let ghost mut numbers: Seq<u32> = Seq::empty();
    let mut p: usize = 0;
    while p < list.len()
        invariant
            p <= list.len(),
            *doc == d0,
            doc_objects(d0) == objs0,
            list@ == doc_pages(d0),
            distinct_pages(list@),
            resolved@.len() == g.vertreter@.len(),
            forall|i: int| 0 <= i < list@.len() ==> #[trigger] list@[i].0 == i + 1,
            pages@.len() == p && page_ids@.len() == p,
            forall|i: int| 0 <= i < p ==> #[trigger] pages@[i] == list@[i].0 && page_ids@[i] == list@[i].1,
            pages@ == page_numbers(list@).subrange(0, p as int),
            works@.map_values(|w: Work| w.number) == stamped_pages(*g, pages@, has_image, resolved@),
            forall|j: int| 0 <= j < works@.len() ==> {
                let w = #[trigger] works@[j];
                &&& 1 <= w.number <= p && w.id == list@[w.number - 1].1
                &&& work_read(w, objs0, d0)
                &&& work_plan(w, *g, has_image, resolved@)
            },
            forall|x: int, y: int| 0 <= x < y < works@.len() ==> works@[x].number < works@[y].number,
            works@.len() <= p,
        decreases list.len() - p,
    {
        let (number, pid) = list[p];
        let ghost before = works@;
        let ghost old_pages = pages@;
        pages.push(number);
        page_ids.push(pid);
        assert(page_numbers(list@).subrange(0, p + 1) =~= page_numbers(list@).subrange(0, p as int).push(number));
        let plan = plan_page(g, number, has_image, &resolved);
        if plan.images > 0 || plan.ops.len() > 0 {
            proof {
                lemma_plan_needs_items(*g, number, has_image, resolved@);
            }
            let ghost plan_v = plan;
            match read_page(doc, number, pid, plan) {
                Ok(w) => {
                    works.push(w);
                    assert(works@.map_values(|w: Work| w.number) =~= before.map_values(|w: Work| w.number).push(number));
                },
                Err(e) => {
                    proof {
                        lemma_ready_weakens(
                        objs0,
                        pid,
                        qr_on_page(g.qr_codes@, number).len() > 0,
                        texts_on_page(g.vertreter@, number).len() > 0,
                        plan_v.images > 0,
                        plan_v.fonts@.len() > 0,
                    );
                        assert(!pages_ready(*g, objs0, doc_pages(d0))) by {
                            assert(list@[p as int].0 == number);
                            if pages_ready(*g, objs0, doc_pages(d0)) {
                                assert(page_has_items(*g, list@[p as int].0));
                            }
                        }
                    }
                    return Err(e);
                },
            }
        } else {
            assert(works@.map_values(|w: Work| w.number) =~= before.map_values(|w: Work| w.number));
        }
        assert(pages@.drop_last() =~= old_pages);
        assert(pages@.last() == number);
        p += 1;
    }
    assert(page_numbers(list@).subrange(0, list@.len() as int) =~= page_numbers(list@));
    // Unused object numbers for the new objects.
    let max0 = max_object_id(doc);
    let need: u64 = 1 + 3 * (g.vertreter.len() as u64) + (list.len() as u64);
    if (max0 as u64) + need > 0xffff_ffffu64 {
        return Err(StampError::NoRoom);
    }
    let mut n: u64 = 1;
    while n <= need
        invariant
            1 <= n <= need + 1,
            (max0 as u64) + need <= 0xffff_ffffu64,
            *doc == d0,
            max0 == doc_max_id(d0),
            forall|m: int| max0 < m < max0 + n ==> !#[trigger] objs0.contains_key(oid(m)),
        decreases need + 1 - n,
    {
        let candidate = ((max0 as u64 + n) as u32, 0u16);
        if has_object(doc, candidate) {
            proof {
                assert(candidate == oid(max0 + n));
                assert(!room(d0, g.vertreter@.len(), doc_pages(d0).len()));
            }
            return Err(StampError::NoRoom);
        }
        n += 1;
    }
    assert(room(d0, g.vertreter@.len(), doc_pages(d0).len()));
    // The image, once.
    let image = if has_image {
        match qr {
            Some(q) => Some(register_image(doc, q)),
            None => None,
        }
    } else {
        None
    };
    assert(extends(objs0, doc_objects(*doc), max0 as int, doc_max_id(*doc) as int));
    // The fonts, once each.
    let mut fonts: Vec<(FontKey, (u32, u16))> = Vec::new();
    let mut j: usize = 0;
    while j < resolver.entries.len()
        invariant
            j <= resolver.entries.len(),
            resolver.entries@.len() <= g.vertreter@.len(),
            max0 == doc_max_id(d0),
            (max0 as u64) + need <= 0xffff_ffffu64,
            need == 1 + 3 * g.vertreter@.len() + list@.len(),
            doc_max_id(*doc) <= max0 + 1 + 3 * j,
            doc_max_id(*doc) >= max0,
            forall|m: int| max0 < m <= max0 + need ==> !#[trigger] objs0.contains_key(oid(m)),
            extends(objs0, doc_objects(*doc), max0 as int, doc_max_id(*doc) as int),
            has_image ==> (qr matches Some(q) && image matches Some(img) && doc_objects(*doc).contains_key(img)
                && doc_objects(*doc)[img] == image_val(q.width, q.pixels@) && img.1 == 0 && max0 < img.0 <= doc_max_id(*doc)),
            !has_image ==> image is None,
            forall|i: int| 0 <= i < fonts@.len() ==> {
                let f = #[trigger] fonts@[i];
                &&& doc_objects(*doc).contains_key(f.1) && f.1.1 == 0 && max0 < f.1.0 <= doc_max_id(*doc)
                &&& (f.0 matches FontKey::Standard { font, .. } ==> doc_objects(*doc)[f.1] == standard_font_val(font))
            },
            forall|x: int, y: int| 0 <= x < y < fonts@.len() ==> fonts@[x].0 != fonts@[y].0,
        decreases resolver.entries.len() - j,
    {
        match resolver.entries[j].2 {
            Some(k) => {
                if find_font(&fonts, k).is_none() {
                    let ghost objs_before = doc_objects(*doc);
                    let ghost max_before = doc_max_id(*doc);
                    let fid = register_font(doc, k, resolver.entries[j].0.as_str(), font_files);
                    proof {
                        assert forall|x: Id| #[trigger] objs_before.contains_key(x) implies doc_objects(*doc).contains_key(x)
                            && doc_objects(*doc)[x] == objs_before[x] by {
                            if x.1 == 0 && max_before < x.0 <= doc_max_id(*doc) {
                                if !objs0.contains_key(x) {
                                    assert(x.0 <= max_before);
                                } else {
                                    assert(x == oid(x.0 as int));
                                }
                            }
                        }
                        assert forall|x: Id| #[trigger] objs0.contains_key(x) && !(x.1 == 0 && max0 < x.0 <= doc_max_id(*doc))
                            implies doc_objects(*doc).contains_key(x) && doc_objects(*doc)[x] == objs0[x] by {
                            assert(objs_before.contains_key(x));
                        }
                    }
                    fonts.push((k, fid));
                }
            },
            None => {},
        }
        j += 1;
    }
    // The pages.
    let ghost objs1 = doc_objects(*doc);
    let mut stamped: Vec<u32> = Vec::new();
    let mut stamped_ids: Vec<(u32, u16)> = Vec::new();
    let mut content_ids: Vec<(u32, u16)> = Vec::new();
    let ghost all_works = works@;
    let img = match image {
        Some(x) => x,
        None => (0, 0),
    };
    proof {
        assert forall|i: int| 0 <= i < fonts@.len() implies !objs0.contains_key(#[trigger] fonts@[i].1) by {
            assert(fonts@[i].1 == oid(fonts@[i].1.0 as int));
        }
        if has_image {
            let im = image->0;
            assert(im == oid(im.0 as int));
        }
        assert forall|x: Id| #[trigger] objs0.contains_key(x) implies objs1.contains_key(x) && objs1[x] == objs0[x] by {
            if x.1 == 0 && max0 < x.0 <= doc_max_id(*doc) {
                assert(x == oid(x.0 as int));
            }
        }
    }
    let mut q: usize = 0;
    let n_works = works.len();
    assert(all_works.subrange(0, all_works.len() as int) =~= all_works);
    while q < n_works
        invariant
            n_works == all_works.len(),
            q <= all_works.len(),
            works@ == all_works.subrange(q as int, all_works.len() as int),
            all_works.len() <= list@.len(),
            doc_max_id(*doc) <= max0 + 1 + 3 * g.vertreter@.len() + q,
            doc_max_id(*doc) >= max0,
            forall|x: Id| #[trigger] objs0.contains_key(x) && !stamped_ids@.contains(x) ==> doc_objects(*doc).contains_key(x)
                && doc_objects(*doc)[x] == objs0[x],
            forall|x: Id| #[trigger] doc_objects(*doc).contains_key(x) && !objs0.contains_key(x) ==> x.1 == 0
                && max0 < x.0 <= doc_max_id(*doc),
            has_image ==> (qr matches Some(q) && image matches Some(im) && doc_objects(*doc).contains_key(im)
                && doc_objects(*doc)[im] == image_val(q.width, q.pixels@) && im.1 == 0 && max0 < im.0
                && im.0 <= doc_max_id(*doc) && !objs0.contains_key(im)),
            forall|i: int| 0 <= i < fonts@.len() ==> {
                let f = #[trigger] fonts@[i];
                &&& doc_objects(*doc).contains_key(f.1) && f.1.1 == 0 && max0 < f.1.0 && f.1.0 <= doc_max_id(*doc)
                &&& !objs0.contains_key(f.1)
                &&& (f.0 matches FontKey::Standard { font, .. } ==> doc_objects(*doc)[f.1] == standard_font_val(font))
            },
            stamped@ == all_works.subrange(0, q as int).map_values(|w: Work| w.number),
            stamped_ids@ == all_works.subrange(0, q as int).map_values(|w: Work| w.id),
            content_ids@.len() == q,
            forall|j: int| 0 <= j < q ==> {
                let w = #[trigger] all_works[j];
                let cid = content_ids@[j];
                &&& cid.1 == 0 && max0 < cid.0 && cid.0 <= doc_max_id(*doc) && doc_objects(*doc).contains_key(cid)
                &&& !objs0.contains_key(cid)
                &&& doc_objects(*doc)[w.id] == Val::Dict(stamped_page(
                    objs0,
                    w.id,
                    plan_images(*g, w.number, has_image),
                    page_fonts(resolved@, texts_on_page(g.vertreter@, w.number)),
                    image_or_none(image),
                    fonts@,
                    cid,
                ))
                &&& doc_objects(*doc)[cid] == content_val(
                    doc_page_content(d0, w.id),
                    latin1_bytes(ops_text(plan_ops(*g, w.number, has_image, resolved@), id@)),
                )
            },
        decreases all_works.len() - q,
    {
        let ghost objs_before = doc_objects(*doc);
        let ghost max_before = doc_max_id(*doc);
        let w = works.remove(0);
        assert(w == all_works[q as int]);
        assert(works@ =~= all_works.subrange(q + 1, all_works.len() as int));
        let ghost wv = w;
        let w_number = w.number;
        let w_id = w.id;
        proof {
            assert(objs0.contains_key(w.id));
            assert forall|x: int| 0 <= x < all_works.len() && x != q implies #[trigger] all_works[x].id != w.id by {
                if x < q {
                    assert(all_works[x].number < all_works[q as int].number);
                } else {
                    assert(all_works[q as int].number < all_works[x].number);
                }
            }
            assert(!objs0.contains_key(oid(max_before + 1)));
            assert(!objs_before.contains_key(oid(max_before + 1)));
        }
        let cid = apply_work(doc, w, img, &fonts, &text);
        let ghost prev_ids = stamped_ids@;
        stamped.push(w_number);
        stamped_ids.push(w_id);
        content_ids.push(cid);
        proof {
            assert(all_works.subrange(0, q + 1) =~= all_works.subrange(0, q as int).push(wv));
            assert(cid == oid(max_before + 1));
            assert(text@ == id@);
            assert(stamped_ids@.contains(wv.id)) by {
                assert(stamped_ids@[q as int] == wv.id);
            }
            assert forall|x: Id| #[trigger] objs0.contains_key(x) && !stamped_ids@.contains(x) implies doc_objects(*doc).contains_key(x)
                && doc_objects(*doc)[x] == objs0[x] by {
                assert(x != wv.id);
                assert(x != cid);
                if prev_ids.contains(x) {
                    let k = choose|k: int| 0 <= k < prev_ids.len() && prev_ids[k] == x;
                    assert(stamped_ids@[k] == x);
                }
            }
            assert(wv.plan.images as nat == plan_images(*g, wv.number, has_image));
            assert(image_or_none(image) == img);
            assert(resources_after(
                dict_view(wv.res),
                dict_view(wv.xo),
                dict_view(wv.fm),
                wv.plan.images as nat,
                wv.plan.fonts@,
                img,
                fonts@,
            ) == stamped_resources(objs0, resources_of(objs0, wv.id)->0, wv.plan.images as nat, wv.plan.fonts@, img, fonts@));
            assert forall|j: int| 0 <= j < q implies #[trigger] all_works[j].id != wv.id && content_ids@[j] != cid by {}
        }
        q += 1;
    }
    let report = StampReport {
        pages,
        page_ids,
        stamped,
        stamped_ids,
        content_ids,
        has_image,
        image,
        resolved,
        fonts,
    };
    proof {
        assert(all_works.subrange(0, all_works.len() as int) =~= all_works);
        assert forall|j: int| 0 <= j < report.stamped@.len() implies report.stamped_ids@[j] == report.page_ids@[
            #[trigger] report.stamped@[j] - 1] by {
            let w = all_works[j];
            assert(report.stamped@[j] == w.number);
            assert(report.stamped_ids@[j] == w.id);
            assert(1 <= w.number <= list@.len());
            assert(report.pages@[w.number - 1] == list@[w.number - 1].0);
            assert(report.page_ids@[w.number - 1] == list@[w.number - 1].1);
        }
    }
    Ok(report)
}

/// A page whose plan changes something has a placement on it, with a QR placement where
/// it registers an image and a text placement where it uses a font.
proof fn lemma_plan_needs_items(g: Config, n: u32, has_image: bool, resolved: Seq<Option<FontKey>>)
    ensures
        plan_images(g, n, has_image) > 0 ==> qr_on_page(g.qr_codes@, n).len() > 0,
        page_fonts(resolved, texts_on_page(g.vertreter@, n)).len() > 0 ==> texts_on_page(g.vertreter@, n).len() > 0,
        (plan_images(g, n, has_image) > 0 || plan_ops(g, n, has_image, resolved).len() > 0) ==> page_has_items(g, n),
{
    if qr_on_page(g.qr_codes@, n).len() == 0 && texts_on_page(g.vertreter@, n).len() == 0 {
        assert(plan_ops(g, n, has_image, resolved) =~= Seq::<crate::content::Op>::empty());
    }
}

proof fn lemma_ready_weakens(objs: Map<Id, Val>, pid: Id, a: bool, b: bool, a2: bool, b2: bool)
    ensures
        page_ready(objs, pid, a, b) && (a2 ==> a) && (b2 ==> b) ==> page_ready(objs, pid, a2, b2),
{
}

/// A page that no placement applies to is not among the pages a stamping changes; so, as
/// `stamp_document` states of every page it does not change, it stays exactly as it was.
pub proof fn lemma_unselected_page_not_stamped(
    g: Config,
    pages: Seq<u32>,
    has_image: bool,
    resolved: Seq<Option<FontKey>>,
    p: u32,
)
    requires
        !page_has_items(g, p),
    ensures
        !stamped_pages(g, pages, has_image, resolved).contains(p),
    decreases pages.len(),
{
    lemma_plan_needs_items(g, p, has_image, resolved);
    if pages.len() > 0 {
        lemma_unselected_page_not_stamped(g, pages.drop_last(), has_image, resolved, p);
        let prev = stamped_pages(g, pages.drop_last(), has_image, resolved);
        if page_changes(g, pages.last(), has_image, resolved) {
            assert(pages.last() != p);
            assert forall|i: int| 0 <= i < prev.push(pages.last()).len() implies prev.push(pages.last())[i] != p by {
                if i < prev.len() {
                    assert(prev.push(pages.last())[i] == prev[i]);
                }
            }
        }
    }
}

} // verus!
