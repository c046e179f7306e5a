//! Typeface resolution: an embedded font file where one was found, else one of the 14
//! standard fonts that every reader has, chosen by family and style.

use vstd::prelude::*;
use crate::geometry::FontStyle;
use crate::lang::texts;
use crate::text::{
    chars_contains_str, chars_of, lower_of, lowercase, push_str, remove_char,
    remove_char_chars, seq_contains, str_contains, str_eq, string_of,
};

verus! {

/// The three families of the standard fonts.
#[derive(Clone, Copy, Debug, PartialEq, Eq, Structural)]
pub enum Family {
    Times,
    Helvetica,
    Courier,
}

/// The 14 standard fonts.
#[derive(Clone, Copy, Debug, PartialEq, Eq, Structural)]
pub enum StandardFont {
    TimesRoman,
    TimesBold,
    TimesItalic,
    TimesBoldItalic,
    Helvetica,
    HelveticaBold,
    HelveticaOblique,
    HelveticaBoldOblique,
    Courier,
    CourierBold,
    CourierOblique,
    CourierBoldOblique,
    Symbol,
    ZapfDingbats,
}

pub open spec fn is_helvetica_name(n: Seq<char>) -> bool {
    ||| n == "Arial"@ || n == "Helvetica"@ || n == "Arial Unicode MS"@
    ||| n == "Calibri"@ || n == "Verdana"@
}

pub open spec fn is_vendor_name(n: Seq<char>) -> bool {
    seq_contains(n, "Adobe"@) || seq_contains(n, "Myriad"@) || seq_contains(n, "Minion"@)
        || seq_contains(n, "Source"@)
}

pub open spec fn is_other_windows_name(n: Seq<char>) -> bool {
    ||| n == "Trebuchet MS"@ || n == "Comic Sans MS"@ || n == "Impact"@
    ||| n == "Lucida Console"@ || n == "Tahoma"@ || n == "Candara"@
}

pub open spec fn has_style_word(n: Seq<char>) -> bool {
    seq_contains(n, "Bold"@) || seq_contains(n, "Italic"@) || seq_contains(n, "Light"@)
        || seq_contains(n, "Medium"@)
}

/// The standard family a requested typeface falls back to; unknown names fall back to
/// Helvetica.
pub open spec fn family_of(n: Seq<char>) -> Family {
    if n == "Times New Roman"@ || n == "Times"@ || n == "TimesNewRoman"@ {
        Family::Times
    } else if is_helvetica_name(n) {
        Family::Helvetica
    } else if n == "Courier New"@ || n == "Courier"@ || n == "CourierNew"@ {
        Family::Courier
    } else if n == "Georgia"@ {
        Family::Times
    } else if is_vendor_name(n) || is_other_windows_name(n) {
        Family::Helvetica
    } else if has_style_word(n) {
        if seq_contains(n, "Times"@) {
            Family::Times
        } else if seq_contains(n, "Arial"@) {
            Family::Helvetica
        } else if seq_contains(n, "Courier"@) {
            Family::Courier
        } else {
            Family::Helvetica
        }
    } else {
        Family::Helvetica
    }
}

pub fn fallback_family(name: &str) -> (f: Family)
    ensures
        f == family_of(name@),
{
    if str_eq(name, "Times New Roman") || str_eq(name, "Times") || str_eq(name, "TimesNewRoman") {
        Family::Times
    } else if str_eq(name, "Arial") || str_eq(name, "Helvetica") || str_eq(name, "Arial Unicode MS")
        || str_eq(name, "Calibri") || str_eq(name, "Verdana") {
        Family::Helvetica
    } else if str_eq(name, "Courier New") || str_eq(name, "Courier") || str_eq(name, "CourierNew") {
        Family::Courier
    } else if str_eq(name, "Georgia") {
        Family::Times
    } else if str_contains(name, "Adobe") || str_contains(name, "Myriad") || str_contains(
        name,
        "Minion",
    ) || str_contains(name, "Source") || str_eq(name, "Trebuchet MS") || str_eq(
        name,
        "Comic Sans MS",
    ) || str_eq(name, "Impact") || str_eq(name, "Lucida Console") || str_eq(name, "Tahoma")
        || str_eq(name, "Candara") {
        Family::Helvetica
    } else if str_contains(name, "Bold") || str_contains(name, "Italic") || str_contains(
        name,
        "Light",
    ) || str_contains(name, "Medium") {
        if str_contains(name, "Times") {
            Family::Times
        } else if str_contains(name, "Arial") {
            Family::Helvetica
        } else if str_contains(name, "Courier") {
            Family::Courier
        } else {
            Family::Helvetica
        }
    } else {
        Family::Helvetica
    }
}

pub open spec fn is_boldish(s: FontStyle) -> bool {
    s == FontStyle::Bold || s == FontStyle::Medium || s == FontStyle::Heavy || s == FontStyle::Black
}

/// The standard font of a family for a style: styles with no face of their own take the
/// nearest of regular and bold.
pub open spec fn fallback_font(f: Family, s: FontStyle) -> StandardFont {
    match f {
        Family::Times => if s == FontStyle::BoldItalic {
            StandardFont::TimesBoldItalic
        } else if s == FontStyle::Italic {
            StandardFont::TimesItalic
        } else if is_boldish(s) {
            StandardFont::TimesBold
        } else {
            StandardFont::TimesRoman
        },
        Family::Helvetica => if s == FontStyle::BoldItalic {
            StandardFont::HelveticaBoldOblique
        } else if s == FontStyle::Italic {
            StandardFont::HelveticaOblique
        } else if is_boldish(s) {
            StandardFont::HelveticaBold
        } else {
            StandardFont::Helvetica
        },
        Family::Courier => if s == FontStyle::BoldItalic {
            StandardFont::CourierBoldOblique
        } else if s == FontStyle::Italic {
            StandardFont::CourierOblique
        } else if is_boldish(s) {
            StandardFont::CourierBold
        } else {
            StandardFont::Courier
        },
    }
}

pub fn standard_font_for(f: Family, s: FontStyle) -> (r: StandardFont)
    ensures
        r == fallback_font(f, s),
{
    let boldish = s == FontStyle::Bold || s == FontStyle::Medium || s == FontStyle::Heavy || s
        == FontStyle::Black;
    match f {
        Family::Times => if s == FontStyle::BoldItalic {
            StandardFont::TimesBoldItalic
        } else if s == FontStyle::Italic {
            StandardFont::TimesItalic
        } else if boldish {
            StandardFont::TimesBold
        } else {
            StandardFont::TimesRoman
        },
        Family::Helvetica => if s == FontStyle::BoldItalic {
            StandardFont::HelveticaBoldOblique
        } else if s == FontStyle::Italic {
            StandardFont::HelveticaOblique
        } else if boldish {
            StandardFont::HelveticaBold
        } else {
            StandardFont::Helvetica
        },
        Family::Courier => if s == FontStyle::BoldItalic {
            StandardFont::CourierBoldOblique
        } else if s == FontStyle::Italic {
            StandardFont::CourierOblique
        } else if boldish {
            StandardFont::CourierBold
        } else {
            StandardFont::Courier
        },
    }
}

/// The PostScript name of a standard font.
pub open spec fn base_font_name(f: StandardFont) -> Seq<char> {
    match f {
        StandardFont::TimesRoman => "Times-Roman"@,
        StandardFont::TimesBold => "Times-Bold"@,
        StandardFont::TimesItalic => "Times-Italic"@,
        StandardFont::TimesBoldItalic => "Times-BoldItalic"@,
        StandardFont::Helvetica => "Helvetica"@,
        StandardFont::HelveticaBold => "Helvetica-Bold"@,
        StandardFont::HelveticaOblique => "Helvetica-Oblique"@,
        StandardFont::HelveticaBoldOblique => "Helvetica-BoldOblique"@,
        StandardFont::Courier => "Courier"@,
        StandardFont::CourierBold => "Courier-Bold"@,
        StandardFont::CourierOblique => "Courier-Oblique"@,
        StandardFont::CourierBoldOblique => "Courier-BoldOblique"@,
        StandardFont::Symbol => "Symbol"@,
        StandardFont::ZapfDingbats => "ZapfDingbats"@,
    }
}

impl StandardFont {
    /// The PostScript name of the font, e.g. "Helvetica-Bold".
    pub fn name(&self) -> (r: String)
        ensures
            r@ == base_font_name(*self),
    {
        match self {
            StandardFont::TimesRoman => "Times-Roman".to_owned(),
            StandardFont::TimesBold => "Times-Bold".to_owned(),
            StandardFont::TimesItalic => "Times-Italic".to_owned(),
            StandardFont::TimesBoldItalic => "Times-BoldItalic".to_owned(),
            StandardFont::Helvetica => "Helvetica".to_owned(),
            StandardFont::HelveticaBold => "Helvetica-Bold".to_owned(),
            StandardFont::HelveticaOblique => "Helvetica-Oblique".to_owned(),
            StandardFont::HelveticaBoldOblique => "Helvetica-BoldOblique".to_owned(),
            StandardFont::Courier => "Courier".to_owned(),
            StandardFont::CourierBold => "Courier-Bold".to_owned(),
            StandardFont::CourierOblique => "Courier-Oblique".to_owned(),
            StandardFont::CourierBoldOblique => "Courier-BoldOblique".to_owned(),
            StandardFont::Symbol => "Symbol".to_owned(),
            StandardFont::ZapfDingbats => "ZapfDingbats".to_owned(),
        }
    }
}

/// A font resource of a document: a standard font registered as `F<number>`, or the file
/// found for the text placement at `source`, embedded as `TTF<number>`.
#[derive(Clone, Copy, Debug, PartialEq, Eq, Structural)]
pub enum FontKey {
    Standard { font: StandardFont, number: u32 },
    Embedded { source: usize, number: u32 },
}

/// The first cached resolution of `(family, style)`.
pub open spec fn cached(
    entries: Seq<(Seq<char>, FontStyle, Option<FontKey>)>,
    family: Seq<char>,
    style: FontStyle,
) -> Option<Option<FontKey>>
    decreases entries.len(),
{
    if entries.len() == 0 {
        None
    } else if entries[0].0 == family && entries[0].1 == style {
        Some(entries[0].2)
    } else {
        cached(entries.drop_first(), family, style)
    }
}

/// The position of `f` in `s`.
pub open spec fn font_index(s: Seq<StandardFont>, f: StandardFont) -> Option<int>
    decreases s.len(),
{
    if s.len() == 0 {
        None
    } else if s[0] == f {
        Some(0)
    } else {
        match font_index(s.drop_first(), f) {
            Some(k) => Some(k + 1),
            None => None,
        }
    }
}

/// The memoised typeface resolutions of one document.
pub struct FontResolver {
    pub entries: Vec<(String, FontStyle, Option<FontKey>)>,
    pub standards: Vec<StandardFont>,
    pub embedded: u32,
}

pub open spec fn entry_views(v: Seq<(String, FontStyle, Option<FontKey>)>) -> Seq<(Seq<char>, FontStyle, Option<FontKey>)> {
    v.map_values(|e: (String, FontStyle, Option<FontKey>)| (e.0@, e.1, e.2))
}

impl FontResolver {
    pub open spec fn cache(&self) -> Seq<(Seq<char>, FontStyle, Option<FontKey>)> {
        entry_views(self.entries@)
    }

    /// The counters stay below the number of resolutions made.
    pub open spec fn wf(&self) -> bool {
        self.standards@.len() <= self.entries@.len() && self.embedded <= self.entries@.len()
    }

    /// What a first resolution of `(family, style)` gives.
    pub open spec fn fresh(
        &self,
        family: Seq<char>,
        style: FontStyle,
        found: bool,
        source: usize,
        fallback: bool,
    ) -> Option<FontKey> {
        if found {
            Some(FontKey::Embedded { source, number: (self.embedded + 1) as u32 })
        } else if fallback {
            let f = fallback_font(family_of(family), style);
            Some(
                FontKey::Standard {
                    font: f,
                    number: match font_index(self.standards@, f) {
                        Some(i) => (i + 1) as u32,
                        None => (self.standards@.len() + 1) as u32,
                    },
                },
            )
        } else {
            None
        }
    }

    /// An empty resolver, for one document.
    pub fn new() -> (r: FontResolver)
        ensures
            r.cache().len() == 0,
            r.standards@.len() == 0,
            r.embedded == 0,
            r.wf(),
    {
        let r = FontResolver { entries: Vec::new(), standards: Vec::new(), embedded: 0 };
        assert(r.cache() =~= Seq::empty());
        r
    }

    fn find_cached(&self, family: &str, style: FontStyle) -> (r: Option<Option<FontKey>>)
        ensures
            r == cached(self.cache(), family@, style),
    {
        let mut i: usize = 0;
        assert(self.cache().subrange(0, self.cache().len() as int) =~= self.cache());
        while i < self.entries.len()
            invariant
                i <= self.entries.len(),
                cached(self.cache(), family@, style) == cached(
                    self.cache().subrange(i as int, self.entries.len() as int),
                    family@,
                    style,
                ),
            decreases self.entries.len() - i,
        {
            let ghost rest = self.cache().subrange(i as int, self.entries.len() as int);
            assert(rest[0] == (self.entries@[i as int].0@, self.entries@[i as int].1, self.entries@[i as int].2));
            if str_eq(self.entries[i].0.as_str(), family) && self.entries[i].1 == style {
                return Some(self.entries[i].2);
            }
            assert(rest.drop_first() =~= self.cache().subrange(i + 1, self.entries.len() as int));
            i += 1;
        }
        None
    }

    fn standard_number(&mut self, f: StandardFont) -> (n: u32)
        requires
            old(self).standards@.len() < u32::MAX,
        ensures
            n == match font_index(old(self).standards@, f) {
                Some(i) => (i + 1) as u32,
                None => (old(self).standards@.len() + 1) as u32,
            },
            final(self).standards@ == match font_index(old(self).standards@, f) {
                Some(i) => old(self).standards@,
                None => old(self).standards@.push(f),
            },
            final(self).entries == old(self).entries,
            final(self).embedded == old(self).embedded,
    {
        let mut i: usize = 0;
        assert(self.standards@.subrange(0, self.standards@.len() as int) =~= self.standards@);
        while i < self.standards.len()
            invariant
                i <= self.standards.len(),
                self.standards@.len() < u32::MAX,
                font_index(self.standards@, f) == match font_index(
                    self.standards@.subrange(i as int, self.standards.len() as int),
                    f,
                ) {
                    Some(k) => Some(k + i),
                    None => None,
                },
            decreases self.standards.len() - i,
        {
            let ghost rest = self.standards@.subrange(i as int, self.standards.len() as int);
            if self.standards[i] == f {
                return (i + 1) as u32;
            }
            assert(rest.drop_first() =~= self.standards@.subrange(i + 1, self.standards.len() as int));
            i += 1;
        }
        self.standards.push(f);
        self.standards.len() as u32
    }

    /// Resolves a typeface for a text placement. A pair resolved before gives the same key
    /// again. Otherwise a font file that was found (`found`) is embedded under a new
    /// `TTF<n>` key; else, with `fallback`, the standard font of the family and style is
    /// used, under the `F<n>` key it already has or a new one; else there is none.
    pub fn resolve(&mut self, family: &str, style: FontStyle, found: bool, source: usize, fallback: bool) -> (r: Option<FontKey>)
        requires
            old(self).wf(),
            old(self).entries@.len() < u32::MAX - 1,
        ensures
            final(self).wf(),
            final(self).entries@.len() <= old(self).entries@.len() + 1,
            match cached(old(self).cache(), family@, style) {
                Some(k) => r == k && final(self).cache() == old(self).cache(),
                None => r == old(self).fresh(family@, style, found, source, fallback)
                    && final(self).cache() == old(self).cache().push((family@, style, r)),
            },
    {
        match self.find_cached(family, style) {
            Some(k) => {
                return k;
            },
            None => {},
        }
        let ghost before = *self;
        let r = if found {
            self.embedded = self.embedded + 1;
            Some(FontKey::Embedded { source, number: self.embedded })
        } else if fallback {
            let f = standard_font_for(fallback_family(family), style);
            let n = self.standard_number(f);
            Some(FontKey::Standard { font: f, number: n })
        } else {
            None
        };
        let ghost mid = self.entries@;
        self.entries.push((family.to_owned(), style, r));
        assert(self.cache() =~= entry_views(mid).push((family@, style, r)));
        r
    }
}

/// The file names a typeface may be stored under, tried in this order.
pub open spec fn candidate_names(name: Seq<char>, style: Seq<char>) -> Seq<Seq<char>> {
    let base = lower_of(remove_char(name, ' '));
    let sl = lower_of(style);
    let plain = remove_char(name, ' ');
    let bd_i = if seq_contains(sl, "bold"@) {
        "bd"@
    } else if seq_contains(sl, "italic"@) {
        "i"@
    } else {
        Seq::empty()
    };
    let b_i = if seq_contains(sl, "bold"@) {
        "b"@
    } else if seq_contains(sl, "italic"@) {
        "i"@
    } else {
        Seq::empty()
    };
    seq![
        base + ".ttf"@,
        base + ".otf"@,
        base + "_"@ + sl + ".ttf"@,
        base + "_"@ + sl + ".otf"@,
        base + "-"@ + sl + ".ttf"@,
        base + "-"@ + sl + ".otf"@,
        base + "b.ttf"@,
        base + "i.ttf"@,
        base + "z.ttf"@,
        base + "bd.ttf"@,
        base + "it.ttf"@,
        plain + ".ttf"@,
        plain + ".otf"@,
        name + " "@ + style + ".ttf"@,
        name + " "@ + style + ".otf"@,
        "arial"@ + bd_i + ".ttf"@,
        "calibri"@ + b_i + ".ttf"@,
        "times"@ + bd_i + ".ttf"@,
    ]
}

fn joined(parts: &Vec<&str>) -> (r: String)
    ensures
        r@ == parts@.fold_left(Seq::<char>::empty(), |acc: Seq<char>, p: &str| acc + p@),
{
    let mut out: Vec<char> = Vec::new();
    let mut i: usize = 0;
    while i < parts.len()
        invariant
            i <= parts.len(),
            out@ == parts@.subrange(0, i as int).fold_left(
                Seq::<char>::empty(),
                |acc: Seq<char>, p: &str| acc + p@,
            ),
        decreases parts.len() - i,
    {
        assert(parts@.subrange(0, i + 1).drop_last() =~= parts@.subrange(0, i as int));
        push_str(&mut out, parts[i]);
        i += 1;
    }
    assert(parts@.subrange(0, parts.len() as int) =~= parts@);
    string_of(&out)
}

/// The file names to try for a typeface of the given name and style.
pub fn font_file_candidates(name: &str, style: &str) -> (r: Vec<String>)
    ensures
        texts(r@) == candidate_names(name@, style@),
{
    let plain = string_of(&remove_char_chars(&chars_of(name), ' '));
    let base = lowercase(plain.as_str());
    let sl = lowercase(style);
    let slc = chars_of(sl.as_str());
    let bd_i = if chars_contains_str(&slc, "bold") {
        "bd"
    } else if chars_contains_str(&slc, "italic") {
        "i"
    } else {
        ""
    };
    let b_i = if chars_contains_str(&slc, "bold") {
        "b"
    } else if chars_contains_str(&slc, "italic") {
        "i"
    } else {
        ""
    };
    let b = base.as_str();
    let s = sl.as_str();
    let p = plain.as_str();
    let r = vec![
        joined(&vec![b, ".ttf"]),
        joined(&vec![b, ".otf"]),
        joined(&vec![b, "_", s, ".ttf"]),
        joined(&vec![b, "_", s, ".otf"]),
        joined(&vec![b, "-", s, ".ttf"]),
        joined(&vec![b, "-", s, ".otf"]),
        joined(&vec![b, "b.ttf"]),
        joined(&vec![b, "i.ttf"]),
        joined(&vec![b, "z.ttf"]),
        joined(&vec![b, "bd.ttf"]),
        joined(&vec![b, "it.ttf"]),
        joined(&vec![p, ".ttf"]),
        joined(&vec![p, ".otf"]),
        joined(&vec![name, " ", style, ".ttf"]),
        joined(&vec![name, " ", style, ".otf"]),
        joined(&vec!["arial", bd_i, ".ttf"]),
        joined(&vec!["calibri", b_i, ".ttf"]),
        joined(&vec!["times", bd_i, ".ttf"]),
    ];
    proof {
        reveal_strlit("");
        reveal_with_fuel(Seq::fold_left, 5);
    }
    assert(texts(r@) =~= candidate_names(name@, style@));
    r
}

} // verus!
