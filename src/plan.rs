//! What one page receives: the resources it must register and the instructions appended to
//! its content.

use vstd::prelude::*;
use crate::content::Op;
use crate::fonts::FontKey;
use crate::geometry::{
    in_points, lemma_qr_on_page, lemma_texts_on_page, qr_for_page, qr_on_page, texts_for_page,
    texts_on_page, to_points, Config, LengthUnit, QrCodeConfig, VertreterConfig,
};

verus! {

/// The changes to one page: image keys `Im1..Im<images>`, the font keys used on it, and the
/// instructions to append.
pub struct PagePlan {
    pub images: usize,
    pub fonts: Vec<FontKey>,
    pub ops: Vec<Op>,
}

/// The four instructions that draw the shared image for one QR placement as the `index`-th
/// image of the page.
pub open spec fn qr_draw(q: QrCodeConfig, unit: LengthUnit, index: nat) -> Seq<Op> {
    let s = in_points(unit, q.size as int) as i64;
    seq![
        Op::SaveState,
        Op::Transform {
            a: s,
            d: s,
            e: in_points(unit, q.x as int) as i64,
            f: in_points(unit, q.y as int) as i64,
        },
        Op::DrawImage { index: index as usize },
        Op::RestoreState,
    ]
}

/// The five instructions that write the identifier for one text placement with font `k`.
pub open spec fn text_draw(t: VertreterConfig, unit: LengthUnit, k: FontKey) -> Seq<Op> {
    seq![
        Op::BeginText,
        Op::SetFont { key: k, size: in_points(unit, t.size as int) as i64 },
        Op::MoveText { x: in_points(unit, t.x as int) as i64, y: in_points(unit, t.y as int) as i64 },
        Op::ShowText,
        Op::EndText,
    ]
}

pub open spec fn qr_ops(qr: Seq<QrCodeConfig>, unit: LengthUnit, idxs: Seq<int>) -> Seq<Op>
    decreases idxs.len(),
{
    if idxs.len() == 0 {
        Seq::empty()
    } else {
        qr_ops(qr, unit, idxs.drop_last()) + qr_draw(qr[idxs.last()], unit, idxs.len())
    }
}

/// Placements whose font did not resolve draw nothing.
pub open spec fn text_ops(
    texts: Seq<VertreterConfig>,
    unit: LengthUnit,
    resolved: Seq<Option<FontKey>>,
    idxs: Seq<int>,
) -> Seq<Op>
    decreases idxs.len(),
{
    if idxs.len() == 0 {
        Seq::empty()
    } else {
        text_ops(texts, unit, resolved, idxs.drop_last()) + match resolved[idxs.last()] {
            Some(k) => text_draw(texts[idxs.last()], unit, k),
            None => Seq::empty(),
        }
    }
}

/// The distinct fonts used by the placements, in order of first use.
pub open spec fn page_fonts(resolved: Seq<Option<FontKey>>, idxs: Seq<int>) -> Seq<FontKey>
    decreases idxs.len(),
{
    if idxs.len() == 0 {
        Seq::empty()
    } else {
        let p = page_fonts(resolved, idxs.drop_last());
        match resolved[idxs.last()] {
            Some(k) => if p.contains(k) {
                p
            } else {
                p.push(k)
            },
            None => p,
        }
    }
}

/// The instructions a page receives.
pub open spec fn plan_ops(
    g: Config,
    page: u32,
    has_image: bool,
    resolved: Seq<Option<FontKey>>,
) -> Seq<Op> {
    (if has_image {
        qr_ops(g.qr_codes@, g.unit, qr_on_page(g.qr_codes@, page))
    } else {
        Seq::empty()
    }) + text_ops(g.vertreter@, g.unit, resolved, texts_on_page(g.vertreter@, page))
}

pub open spec fn plan_images(g: Config, page: u32, has_image: bool) -> nat {
    if has_image {
        qr_on_page(g.qr_codes@, page).len()
    } else {
        0
    }
}

pub open spec fn int_views(v: Seq<usize>) -> Seq<int> {
    v.map_values(|i: usize| i as int)
}

/// Plans one page: `has_image` tells whether the QR image was registered for the document,
/// `resolved` holds the font of each text placement (none where it did not resolve).
pub fn plan_page(g: &Config, page: u32, has_image: bool, resolved: &Vec<Option<FontKey>>) -> (r: PagePlan)
    requires
        resolved@.len() == g.vertreter@.len(),
    ensures
        r.images == plan_images(*g, page, has_image),
        r.fonts@ == page_fonts(resolved@, texts_on_page(g.vertreter@, page)),
        r.ops@ == plan_ops(*g, page, has_image, resolved@),
{
    let qs = qr_for_page(g, page);
    let ts = texts_for_page(g, page);
    proof {
        lemma_qr_on_page(g.qr_codes@, page);
        lemma_texts_on_page(g.vertreter@, page);
    }
    assert forall|j: int| 0 <= j < qs@.len() implies 0 <= #[trigger] qs@[j] < g.qr_codes@.len() by {
        assert(int_views(qs@)[j] == qs@[j] as int);
    }
    assert forall|j: int| 0 <= j < ts@.len() implies 0 <= #[trigger] ts@[j] < g.vertreter@.len() by {
        assert(int_views(ts@)[j] == ts@[j] as int);
    }
    let mut ops: Vec<Op> = Vec::new();
    let mut images: usize = 0;
    if has_image {
        let mut k: usize = 0;
        assert(int_views(qs@).subrange(0, 0) =~= Seq::<int>::empty());
        while k < qs.len()
            invariant
                k <= qs.len(),
                int_views(qs@) == qr_on_page(g.qr_codes@, page),
                forall|j: int| 0 <= j < qs@.len() ==> 0 <= #[trigger] qs@[j] < g.qr_codes@.len(),
                ops@ == qr_ops(g.qr_codes@, g.unit, int_views(qs@).subrange(0, k as int)),
            decreases qs.len() - k,
        {
            assert(int_views(qs@)[k as int] == qs@[k as int] as int);
            let q = &g.qr_codes[qs[k]];
            let s = to_points(g.unit, q.size);
            let x = to_points(g.unit, q.x);
            let y = to_points(g.unit, q.y);
            ops.push(Op::SaveState);
            ops.push(Op::Transform { a: s, d: s, e: x, f: y });
            ops.push(Op::DrawImage { index: k + 1 });
            ops.push(Op::RestoreState);
            let ghost sub = int_views(qs@).subrange(0, k + 1);
            assert(sub.drop_last() =~= int_views(qs@).subrange(0, k as int));
            k += 1;
        }
        assert(int_views(qs@).subrange(0, qs.len() as int) =~= int_views(qs@));
        images = qs.len();
    }
    let ghost qr_part = ops@;
    let mut fonts: Vec<FontKey> = Vec::new();
    let mut k: usize = 0;
    assert(int_views(ts@).subrange(0, 0) =~= Seq::<int>::empty());
    assert(ops@ =~= qr_part + text_ops(g.vertreter@, g.unit, resolved@, Seq::<int>::empty()));
    while k < ts.len()
        invariant
            k <= ts.len(),
            resolved@.len() == g.vertreter@.len(),
            int_views(ts@) == texts_on_page(g.vertreter@, page),
            forall|j: int| 0 <= j < ts@.len() ==> 0 <= #[trigger] ts@[j] < g.vertreter@.len(),
            ops@ == qr_part + text_ops(g.vertreter@, g.unit, resolved@, int_views(ts@).subrange(0, k as int)),
            fonts@ == page_fonts(resolved@, int_views(ts@).subrange(0, k as int)),
        decreases ts.len() - k,
    {
        assert(int_views(ts@)[k as int] == ts@[k as int] as int);
        let ghost sub = int_views(ts@).subrange(0, k + 1);
        assert(sub.drop_last() =~= int_views(ts@).subrange(0, k as int));
        let ghost before = ops@;
        let t = &g.vertreter[ts[k]];
        match resolved[ts[k]] {
            Some(key) => {
                let size = to_points(g.unit, t.size);
                let x = to_points(g.unit, t.x);
                let y = to_points(g.unit, t.y);
                ops.push(Op::BeginText);
                ops.push(Op::SetFont { key, size });
                ops.push(Op::MoveText { x, y });
                ops.push(Op::ShowText);
                ops.push(Op::EndText);
                assert(ops@ =~= before + text_draw(g.vertreter@[ts@[k as int] as int], g.unit, key));
                let mut seen = false;
                let mut j: usize = 0;
                while j < fonts.len()
                    invariant
                        j <= fonts.len(),
                        seen <==> exists|m: int| 0 <= m < j && fonts@[m] == key,
                    decreases fonts.len() - j,
                {
                    if fonts[j] == key {
                        seen = true;
                    }
                    j += 1;
                }
                if !seen {
                    fonts.push(key);
                } else {
                    assert(fonts@.contains(key));
                }
            },
            None => {
                assert(ops@ =~= before + Seq::<Op>::empty());
            },
        }
        k += 1;
    }
    assert(int_views(ts@).subrange(0, ts.len() as int) =~= int_views(ts@));
    if !has_image {
        assert(qr_part =~= Seq::<Op>::empty());
    }
    PagePlan { images, fonts, ops }
}

/// A placement on every page applies to each page of a document; a page that no placement
/// applies to gets an empty plan, so it is left as it was.
pub proof fn lemma_page_filtering(
    g: Config,
    page: u32,
    has_image: bool,
    resolved: Seq<Option<FontKey>>,
)
    requires
        resolved.len() == g.vertreter@.len(),
    ensures
        (forall|i: int| 0 <= i < g.qr_codes@.len() ==> #[trigger] g.qr_codes@[i].pages.covers(page))
            ==> qr_on_page(g.qr_codes@, page).len() == g.qr_codes@.len(),
        (forall|i: int| 0 <= i < g.vertreter@.len() ==> #[trigger] g.vertreter@[i].pages.covers(page))
            ==> texts_on_page(g.vertreter@, page).len() == g.vertreter@.len(),
        ((forall|i: int| 0 <= i < g.qr_codes@.len() ==> !#[trigger] g.qr_codes@[i].pages.covers(page))
            && (forall|i: int| 0 <= i < g.vertreter@.len() ==> !#[trigger] g.vertreter@[i].pages.covers(page)))
            ==> plan_images(g, page, has_image) == 0
                && page_fonts(resolved, texts_on_page(g.vertreter@, page)).len() == 0
                && plan_ops(g, page, has_image, resolved).len() == 0,
{
    lemma_qr_on_page(g.qr_codes@, page);
    lemma_texts_on_page(g.vertreter@, page);
    if (forall|i: int| 0 <= i < g.qr_codes@.len() ==> !#[trigger] g.qr_codes@[i].pages.covers(page))
        && (forall|i: int| 0 <= i < g.vertreter@.len() ==> !#[trigger] g.vertreter@[i].pages.covers(page)) {
        assert(qr_on_page(g.qr_codes@, page) =~= Seq::<int>::empty());
        assert(texts_on_page(g.vertreter@, page) =~= Seq::<int>::empty());
        assert(plan_ops(g, page, has_image, resolved) =~= Seq::<Op>::empty());
    }
}

} // verus!
