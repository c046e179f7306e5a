//! What to stamp and where: QR-code and text placements with their page selectors.
//!
//! Lengths are fixed-point numbers in thousandths of the geometry's unit, so that 18.5 mm
//! is written 18500.

use vstd::prelude::*;
use crate::text::str_eq;

verus! {

/// The unit the placements of a geometry are written in.
#[derive(Clone, Copy, Debug, PartialEq, Eq, Structural)]
pub enum LengthUnit {
    Points,
    Millimetres,
}

/// Thousandths of a millimetre as thousandths of a point (72 points per 25.4 mm), rounded
/// to the nearest.
pub open spec fn mm_to_pt_spec(v: int) -> int {
    (v * 720 + 127) / 254
}

/// Converts a length in thousandths of a millimetre to thousandths of a point.
pub fn mm_to_pt(v: i32) -> (r: i64)
    ensures
        r == mm_to_pt_spec(v as int),
{
    let w = (v as i128) * 720 + 127;
    let q = if w >= 0 {
        w / 254
    } else {
        -((-w + 253) / 254)
    };
    assert(q == (v * 720 + 127) / 254) by (nonlinear_arith)
        requires
            w == v * 720 + 127,
            w >= 0 ==> q == w / 254,
            w < 0 ==> q == -((-w + 253) / 254),
    ;
    assert(-0x1_0000_0000_0000 <= q <= 0x1_0000_0000_0000) by (nonlinear_arith)
        requires
            q == (v * 720 + 127) / 254,
            -0x8000_0000 <= v <= 0x7fff_ffff,
    ;
    q as i64
}

/// A length of the geometry in thousandths of a point.
pub open spec fn in_points(unit: LengthUnit, v: int) -> int {
    match unit {
        LengthUnit::Points => v,
        LengthUnit::Millimetres => mm_to_pt_spec(v),
    }
}

pub fn to_points(unit: LengthUnit, v: i32) -> (r: i64)
    ensures
        r == in_points(unit, v as int),
{
    match unit {
        LengthUnit::Points => v as i64,
        LengthUnit::Millimetres => mm_to_pt(v),
    }
}

/// The pages a placement applies to: every page, or a non-empty list of 1-based page numbers.
pub struct PageSelector {
    all_pages: bool,
    pages: Vec<u32>,
}

impl PageSelector {
    /// Whether the selector applies to `page`.
    pub closed spec fn covers(&self, page: u32) -> bool {
        self.all_pages || self.pages@.contains(page)
    }

    pub closed spec fn is_all(&self) -> bool {
        self.all_pages
    }

    pub closed spec fn listed(&self) -> Seq<u32> {
        self.pages@
    }

    /// The selector of every page; it lists no page numbers.
    pub fn all() -> (r: PageSelector)
        ensures
            r.is_all(),
            r.listed().len() == 0,
            forall|p: u32| r.covers(p),
    {
        PageSelector { all_pages: true, pages: Vec::new() }
    }

    /// The selector of the listed pages; there is none for an empty list.
    pub fn explicit(pages: Vec<u32>) -> (r: Option<PageSelector>)
        ensures
            pages@.len() == 0 <==> r is None,
            r matches Some(s) ==> !s.is_all() && s.listed() == pages@ && forall|p: u32|
                s.covers(p) <==> pages@.contains(p),
    {
        if pages.len() == 0 {
            None
        } else {
            Some(PageSelector { all_pages: false, pages })
        }
    }

    /// The selector of one page.
    pub fn single(page: u32) -> (r: PageSelector)
        ensures
            !r.is_all(),
            r.listed() == seq![page],
            forall|p: u32| r.covers(p) <==> p == page,
    {
        let r = PageSelector { all_pages: false, pages: vec![page] };
        assert forall|p: u32| r.covers(p) <==> p == page by {
            if p == page {
                assert(r.pages@[0] == p);
            }
        }
        r
    }

    /// Whether the selector applies to `page`.
    pub fn applies_to(&self, page: u32) -> (r: bool)
        ensures
            r == self.covers(page),
    {
        if self.all_pages {
            return true;
        }
        let mut i: usize = 0;
        while i < self.pages.len()
            invariant
                i <= self.pages.len(),
                forall|j: int| 0 <= j < i ==> self.pages@[j] != page,
            decreases self.pages.len() - i,
        {
            if self.pages[i] == page {
                return true;
            }
            i += 1;
        }
        false
    }
}

/// The typeface style a text placement asks for.
#[derive(Clone, Copy, Debug, PartialEq, Eq, Structural)]
pub enum FontStyle {
    Normal,
    Bold,
    Italic,
    BoldItalic,
    Light,
    Medium,
    Heavy,
    Black,
    Thin,
}

pub open spec fn style_named(s: Seq<char>) -> FontStyle {
    if s == "Bold"@ {
        FontStyle::Bold
    } else if s == "Italic"@ {
        FontStyle::Italic
    } else if s == "BoldItalic"@ || s == "Bold Italic"@ {
        FontStyle::BoldItalic
    } else if s == "Light"@ {
        FontStyle::Light
    } else if s == "Medium"@ {
        FontStyle::Medium
    } else if s == "Heavy"@ {
        FontStyle::Heavy
    } else if s == "Black"@ {
        FontStyle::Black
    } else if s == "Thin"@ {
        FontStyle::Thin
    } else {
        FontStyle::Normal
    }
}

/// The style a name stands for; unknown names stand for the normal style.
pub fn parse_font_style(s: &str) -> (r: FontStyle)
    ensures
        r == style_named(s@),
{
    if str_eq(s, "Bold") {
        FontStyle::Bold
    } else if str_eq(s, "Italic") {
        FontStyle::Italic
    } else if str_eq(s, "BoldItalic") || str_eq(s, "Bold Italic") {
        FontStyle::BoldItalic
    } else if str_eq(s, "Light") {
        FontStyle::Light
    } else if str_eq(s, "Medium") {
        FontStyle::Medium
    } else if str_eq(s, "Heavy") {
        FontStyle::Heavy
    } else if str_eq(s, "Black") {
        FontStyle::Black
    } else if str_eq(s, "Thin") {
        FontStyle::Thin
    } else {
        FontStyle::Normal
    }
}

/// A QR code: lower-left corner and side length.
pub struct QrCodeConfig {
    pub x: i32,
    pub y: i32,
    pub size: i32,
    pub pages: PageSelector,
}

/// The identifier text: baseline origin, font size, typeface and style.
pub struct VertreterConfig {
    pub x: i32,
    pub y: i32,
    pub size: i32,
    pub pages: PageSelector,
    pub font_name: String,
    pub font_style: FontStyle,
}

/// Everything stamped on a document, in one unit.
pub struct Config {
    pub qr_codes: Vec<QrCodeConfig>,
    pub vertreter: Vec<VertreterConfig>,
    pub unit: LengthUnit,
}

/// The positions, in order, of the QR placements that apply to `page`.
pub open spec fn qr_on_page(qr: Seq<QrCodeConfig>, page: u32) -> Seq<int>
    decreases qr.len(),
{
    if qr.len() == 0 {
        Seq::empty()
    } else if qr.last().pages.covers(page) {
        qr_on_page(qr.drop_last(), page).push(qr.len() - 1)
    } else {
        qr_on_page(qr.drop_last(), page)
    }
}

/// The positions, in order, of the text placements that apply to `page`.
pub open spec fn texts_on_page(t: Seq<VertreterConfig>, page: u32) -> Seq<int>
    decreases t.len(),
{
    if t.len() == 0 {
        Seq::empty()
    } else if t.last().pages.covers(page) {
        texts_on_page(t.drop_last(), page).push(t.len() - 1)
    } else {
        texts_on_page(t.drop_last(), page)
    }
}

pub proof fn lemma_qr_on_page(qr: Seq<QrCodeConfig>, page: u32)
    ensures
        forall|k: int| 0 <= k < qr_on_page(qr, page).len() ==> 0 <= #[trigger] qr_on_page(qr, page)[k]
            < qr.len() && qr[qr_on_page(qr, page)[k]].pages.covers(page),
        qr_on_page(qr, page).len() == 0 <==> forall|i: int| 0 <= i < qr.len() ==> !#[trigger] qr[i].pages.covers(page),
        (forall|i: int| 0 <= i < qr.len() ==> #[trigger] qr[i].pages.covers(page)) ==> qr_on_page(qr, page).len() == qr.len(),
    decreases qr.len(),
{
    if qr.len() > 0 {
        lemma_qr_on_page(qr.drop_last(), page);
        assert forall|i: int| 0 <= i < qr.len() - 1 implies #[trigger] qr[i] == qr.drop_last()[i] by {}
        if (forall|i: int| 0 <= i < qr.len() ==> #[trigger] qr[i].pages.covers(page)) {
            assert(forall|i: int| 0 <= i < qr.drop_last().len() ==> #[trigger] qr.drop_last()[i].pages.covers(page));
            assert(qr[qr.len() - 1].pages.covers(page));
        }
        if qr_on_page(qr, page).len() == 0 {
            assert forall|i: int| 0 <= i < qr.len() implies !#[trigger] qr[i].pages.covers(page) by {
                if i < qr.len() - 1 {
                    assert(qr.drop_last()[i] == qr[i]);
                }
            }
        }
    }
}

pub proof fn lemma_texts_on_page(t: Seq<VertreterConfig>, page: u32)
    ensures
        forall|k: int| 0 <= k < texts_on_page(t, page).len() ==> 0 <= #[trigger] texts_on_page(t, page)[k]
            < t.len() && t[texts_on_page(t, page)[k]].pages.covers(page),
        texts_on_page(t, page).len() == 0 <==> forall|i: int| 0 <= i < t.len() ==> !#[trigger] t[i].pages.covers(page),
        (forall|i: int| 0 <= i < t.len() ==> #[trigger] t[i].pages.covers(page)) ==> texts_on_page(t, page).len() == t.len(),
    decreases t.len(),
{
    if t.len() > 0 {
        lemma_texts_on_page(t.drop_last(), page);
        assert forall|i: int| 0 <= i < t.len() - 1 implies #[trigger] t[i] == t.drop_last()[i] by {}
        if (forall|i: int| 0 <= i < t.len() ==> #[trigger] t[i].pages.covers(page)) {
            assert(forall|i: int| 0 <= i < t.drop_last().len() ==> #[trigger] t.drop_last()[i].pages.covers(page));
            assert(t[t.len() - 1].pages.covers(page));
        }
        if texts_on_page(t, page).len() == 0 {
            assert forall|i: int| 0 <= i < t.len() implies !#[trigger] t[i].pages.covers(page) by {
                if i < t.len() - 1 {
                    assert(t.drop_last()[i] == t[i]);
                }
            }
        }
    }
}

/// The QR placements that apply to `page`, by position.
pub fn qr_for_page(g: &Config, page: u32) -> (r: Vec<usize>)
    ensures
        r@.map_values(|i: usize| i as int) == qr_on_page(g.qr_codes@, page),
{
    let mut r: Vec<usize> = Vec::new();
    let mut i: usize = 0;
    assert(g.qr_codes@.subrange(0, 0) =~= Seq::<QrCodeConfig>::empty());
    while i < g.qr_codes.len()
        invariant
            i <= g.qr_codes.len(),
            r@.map_values(|i: usize| i as int) == qr_on_page(g.qr_codes@.subrange(0, i as int), page),
        decreases g.qr_codes.len() - i,
    {
        assert(g.qr_codes@.subrange(0, i + 1).drop_last() =~= g.qr_codes@.subrange(0, i as int));
        let ghost before = r@;
        if g.qr_codes[i].pages.applies_to(page) {
            r.push(i);
            assert(r@.map_values(|i: usize| i as int) =~= before.map_values(|i: usize| i as int).push(i as int));
        }
        i += 1;
    }
    assert(g.qr_codes@.subrange(0, g.qr_codes.len() as int) =~= g.qr_codes@);
    r
}

/// The text placements that apply to `page`, by position.
pub fn texts_for_page(g: &Config, page: u32) -> (r: Vec<usize>)
    ensures
        r@.map_values(|i: usize| i as int) == texts_on_page(g.vertreter@, page),
{
    let mut r: Vec<usize> = Vec::new();
    let mut i: usize = 0;
    assert(g.vertreter@.subrange(0, 0) =~= Seq::<VertreterConfig>::empty());
    while i < g.vertreter.len()
        invariant
            i <= g.vertreter.len(),
            r@.map_values(|i: usize| i as int) == texts_on_page(g.vertreter@.subrange(0, i as int), page),
        decreases g.vertreter.len() - i,
    {
        assert(g.vertreter@.subrange(0, i + 1).drop_last() =~= g.vertreter@.subrange(0, i as int));
        let ghost before = r@;
        if g.vertreter[i].pages.applies_to(page) {
            r.push(i);
            assert(r@.map_values(|i: usize| i as int) =~= before.map_values(|i: usize| i as int).push(i as int));
        }
        i += 1;
    }
    assert(g.vertreter@.subrange(0, g.vertreter.len() as int) =~= g.vertreter@);
    r
}

} // verus!
