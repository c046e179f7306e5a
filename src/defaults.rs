//! The geometries a group starts with before anything was edited. Lengths are in thousandths
//! of a point.

use vstd::prelude::*;
use crate::geometry::{FontStyle, Config, LengthUnit, PageSelector, QrCodeConfig, VertreterConfig};
use crate::text::{lower_of, lowercase, str_eq};

verus! {

/// A placement's numbers: x, y and size.
pub open spec fn qr_numbers(q: QrCodeConfig) -> (i32, i32, i32) {
    (q.x, q.y, q.size)
}

pub open spec fn text_numbers(t: VertreterConfig) -> (i32, i32, i32) {
    (t.x, t.y, t.size)
}

/// The default geometry of a group's layout: one QR code and two identifier texts, all in
/// Arial Normal, in points.
pub open spec fn layout(
    g: Config,
    qr: (i32, i32, i32),
    t1: (i32, i32, i32),
    t2: (i32, i32, i32),
) -> bool {
    &&& g.unit == LengthUnit::Points
    &&& g.qr_codes@.len() == 1
    &&& qr_numbers(g.qr_codes@[0]) == qr
    &&& g.vertreter@.len() == 2
    &&& text_numbers(g.vertreter@[0]) == t1
    &&& text_numbers(g.vertreter@[1]) == t2
    &&& forall|i: int| 0 <= i < 2 ==> #[trigger] g.vertreter@[i].font_name@ == "Arial"@ && g.vertreter@[i].font_style
        == FontStyle::Normal
}

fn make(qr: (i32, i32, i32), qr_pages: PageSelector, t1: (i32, i32, i32), t1_pages: PageSelector, t2: (i32, i32, i32)) -> (g: Config)
    ensures
        layout(g, qr, t1, t2),
        g.qr_codes@[0].pages == qr_pages,
        g.vertreter@[0].pages == t1_pages,
        forall|p: u32| g.vertreter@[1].pages.covers(p) <==> p == 1,
{
    let q = QrCodeConfig { x: qr.0, y: qr.1, size: qr.2, pages: qr_pages };
    let a = VertreterConfig {
        x: t1.0,
        y: t1.1,
        size: t1.2,
        pages: t1_pages,
        font_name: "Arial".to_owned(),
        font_style: FontStyle::Normal,
    };
    let b = VertreterConfig {
        x: t2.0,
        y: t2.1,
        size: t2.2,
        pages: PageSelector::single(1),
        font_name: "Arial".to_owned(),
        font_style: FontStyle::Normal,
    };
    Config { qr_codes: vec![q], vertreter: vec![a, b], unit: LengthUnit::Points }
}

/// The selector of pages 1 and 2.
fn first_two_pages() -> (r: PageSelector)
    ensures
        forall|p: u32| r.covers(p) <==> (p == 1 || p == 2),
{
    let mut v: Vec<u32> = Vec::new();
    v.push(1);
    v.push(2);
    let ghost pages = v@;
    assert(pages =~= seq![1u32, 2u32]);
    match PageSelector::explicit(v) {
        Some(r) => {
            assert forall|p: u32| r.covers(p) <==> (p == 1 || p == 2) by {
                if p == 1 {
                    assert(pages[0] == p);
                }
                if p == 2 {
                    assert(pages[1] == p);
                }
            }
            r
        },
        None => {
            assert(false);
            PageSelector::all()
        },
    }
}

/// The geometry used when a group has none of its own.
pub fn default_geometry() -> (g: Config)
    ensures
        layout(g, (50000, 50000, 18000), (77000, 80000, 12000), (100000, 650000, 10000)),
        forall|p: u32| g.qr_codes@[0].pages.covers(p) <==> p == 1,
        forall|p: u32| g.vertreter@[0].pages.covers(p) <==> p == 1,
        forall|p: u32| g.vertreter@[1].pages.covers(p) <==> p == 1,
{
    make((50000, 50000, 18000), PageSelector::single(1), (77000, 80000, 12000), PageSelector::single(1), (100000, 650000, 10000))
}

/// The layout a group starts with: pharmacies ("apo", "apotheken") and end customers
/// ("endkunde", "endnutzer") have their own, for fairs and otherwise; other groups get the
/// general default.
pub open spec fn group_layout(g: Config, group: Seq<char>, is_messe: bool) -> bool {
    let l = lower_of(group);
    if l == "apo"@ || l == "apotheken"@ {
        if is_messe {
            layout(g, (80000, 70000, 22000), (120000, 100000, 14000), (150000, 700000, 12000))
        } else {
            layout(g, (75000, 60000, 20000), (100000, 90000, 14000), (130000, 680000, 12000))
        }
    } else if l == "endkunde"@ || l == "endnutzer"@ {
        if is_messe {
            layout(g, (60000, 80000, 24000), (90000, 120000, 12000), (120000, 720000, 10000))
        } else {
            layout(g, (50000, 50000, 18000), (77000, 80000, 12000), (100000, 650000, 10000))
        }
    } else {
        layout(g, (50000, 50000, 18000), (77000, 80000, 12000), (100000, 650000, 10000))
    }
}

/// The geometry a group starts with. The pharmacy fair layout puts the QR code and the
/// first text on pages 1 and 2; every other placement is on page 1.
pub fn get_group_default_config(group: &str, is_messe: bool) -> (g: Config)
    ensures
        group_layout(g, group@, is_messe),
        forall|p: u32| g.qr_codes@[0].pages.covers(p) <==> (p == 1 || (p == 2 && is_messe && (lower_of(group@) == "apo"@ || lower_of(group@) == "apotheken"@))),
        forall|p: u32| g.vertreter@[0].pages.covers(p) <==> (p == 1 || (p == 2 && is_messe && (lower_of(group@) == "apo"@ || lower_of(group@) == "apotheken"@))),
        forall|p: u32| g.vertreter@[1].pages.covers(p) <==> p == 1,
{
    let low = lowercase(group);
    let l = low.as_str();
    if str_eq(l, "apo") || str_eq(l, "apotheken") {
        if is_messe {
            let g = make((80000, 70000, 22000), first_two_pages(), (120000, 100000, 14000), first_two_pages(), (150000, 700000, 12000));
            g
        } else {
            make((75000, 60000, 20000), PageSelector::single(1), (100000, 90000, 14000), PageSelector::single(1), (130000, 680000, 12000))
        }
    } else if str_eq(l, "endkunde") || str_eq(l, "endnutzer") {
        if is_messe {
            make((60000, 80000, 24000), PageSelector::single(1), (90000, 120000, 12000), PageSelector::single(1), (120000, 720000, 10000))
        } else {
            default_geometry()
        }
    } else {
        default_geometry()
    }
}

} // verus!
