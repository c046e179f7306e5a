//! Names of files: default inputs, per-run state files, template candidates, and what a
//! template's name says about its group, language and trade-show variant.

use vstd::prelude::*;
use crate::decimal::{decimal, push_decimal};
use crate::lang::texts;
use crate::text::{
    chars_match_at, char_uppercase, chars_contains_str, chars_eq_ignore_ascii_case, chars_eq_str, chars_of,
    chars_starts_with_str, copy_range, eq_ignore_ascii_case, file_name_of, file_stem_chars,
    file_stem_of, file_name_chars, lower_of, lowercase, push_str, remove_char, remove_char_chars,
    seq_contains, seq_starts_with, split_chars, split_on, str_eq, string_of, trim, trim_chars,
    upper_of_char, views,
};

verus! {

pub open spec fn default_csv_path(group: Seq<char>) -> Seq<char> {
    if group == "Apo"@ {
        "Data/Vertreternummern-Apo.CSV"@
    } else {
        "Data/Vertreternummern.csv"@
    }
}

/// The record list a group reads by default.
pub fn get_default_csv_path(group: &str) -> (r: String)
    ensures
        r@ == default_csv_path(group@),
{
    if str_eq(group, "Apo") {
        "Data/Vertreternummern-Apo.CSV".to_owned()
    } else {
        "Data/Vertreternummern.csv".to_owned()
    }
}

/// The template used when nothing else is chosen.
pub fn get_default_template_path() -> (r: String)
    ensures
        r@ == "VORLAGE/Bestellschein-Endkunde-de_de.pdf"@,
{
    "VORLAGE/Bestellschein-Endkunde-de_de.pdf".to_owned()
}

/// The default selection: the end-customer record list with the default template, with QR codes.
pub fn get_default_selections() -> (r: Vec<(String, String, bool)>)
    ensures
        r@.len() == 1,
        r@[0].0@ == default_csv_path("Endkunde"@),
        r@[0].1@ == "VORLAGE/Bestellschein-Endkunde-de_de.pdf"@,
        r@[0].2,
{
    vec![(get_default_csv_path("Endkunde"), get_default_template_path(), true)]
}

/// The name of a per-run state file: `<kind>_<group>_<language>_[_messe].txt`, lowercased.
pub open spec fn state_file_name(
    kind: Seq<char>,
    group: Seq<char>,
    language: Seq<char>,
    is_messe: bool,
) -> Seq<char> {
    kind + "_"@ + lower_of(group) + "_"@ + lower_of(language) + "_"@ + (if is_messe {
        "_messe"@
    } else {
        Seq::empty()
    }) + ".txt"@
}

fn state_file(kind: &str, group: &str, language: &str, is_messe: bool) -> (r: String)
    ensures
        r@ == state_file_name(kind@, group@, language@, is_messe),
{
    let mut out: Vec<char> = Vec::new();
    push_str(&mut out, kind);
    push_str(&mut out, "_");
    push_str(&mut out, lowercase(group).as_str());
    push_str(&mut out, "_");
    push_str(&mut out, lowercase(language).as_str());
    push_str(&mut out, "_");
    if is_messe {
        push_str(&mut out, "_messe");
    }
    push_str(&mut out, ".txt");
    assert(out@ =~= state_file_name(kind@, group@, language@, is_messe));
    string_of(&out)
}

/// The progress file of a group, language and variant.
pub fn get_progress_filename(group: &str, language: &str, is_messe: bool) -> (r: String)
    ensures
        r@ == state_file_name("progress"@, group@, language@, is_messe),
{
    state_file("progress", group, language, is_messe)
}

/// The stop-marker file of a group, language and variant.
pub fn get_stop_status_filename(group: &str, language: &str, is_messe: bool) -> (r: String)
    ensures
        r@ == state_file_name("stop_status"@, group@, language@, is_messe),
{
    state_file("stop_status", group, language, is_messe)
}

/// The resume-information file of a group, language and variant.
pub fn get_resume_filename(group: &str, language: &str, is_messe: bool) -> (r: String)
    ensures
        r@ == state_file_name("resume"@, group@, language@, is_messe),
{
    state_file("resume", group, language, is_messe)
}

/// `s` with its first character in uppercase.
pub open spec fn capitalized(s: Seq<char>) -> Seq<char> {
    if s.len() == 0 {
        s
    } else {
        upper_of_char(s[0]) + s.subrange(1, s.len() as int)
    }
}

fn capitalize_chars(s: &[char]) -> (r: Vec<char>)
    ensures
        r@ == capitalized(s@),
{
    if s.len() == 0 {
        return Vec::new();
    }
    let mut r = char_uppercase(s[0]);
    let rest = copy_range(s, 1, s.len());
    r.extend_from_slice(&rest);
    r
}

/// The string with its first character in uppercase.
pub fn capitalize_first(s: &str) -> (r: String)
    ensures
        r@ == capitalized(s@),
{
    let cs = chars_of(s);
    string_of(&capitalize_chars(&cs))
}

/// A duration of `secs` seconds as "1h 2m 3s", "2m 3s" or "3s".
pub open spec fn duration_text(secs: nat) -> Seq<char> {
    let h = secs / 3600;
    let m = (secs % 3600) / 60;
    let s = secs % 60;
    if h > 0 {
        decimal(h) + "h "@ + decimal(m) + "m "@ + decimal(s) + "s"@
    } else if m > 0 {
        decimal(m) + "m "@ + decimal(s) + "s"@
    } else {
        decimal(s) + "s"@
    }
}

/// Writes a duration given in whole seconds.
pub fn format_duration(total_seconds: u64) -> (r: String)
    ensures
        r@ == duration_text(total_seconds as nat),
{
    let h = total_seconds / 3600;
    let m = (total_seconds % 3600) / 60;
    let s = total_seconds % 60;
    let mut out: Vec<char> = Vec::new();
    if h > 0 {
        push_decimal(&mut out, h);
        push_str(&mut out, "h ");
        push_decimal(&mut out, m);
        push_str(&mut out, "m ");
    } else if m > 0 {
        push_decimal(&mut out, m);
        push_str(&mut out, "m ");
    }
    push_decimal(&mut out, s);
    push_str(&mut out, "s");
    assert(out@ =~= duration_text(total_seconds as nat));
    string_of(&out)
}

/// The language code of one token of a name ("de", "Deutsch", "en_us", ...), if it names one.
pub open spec fn token_code(tok: Seq<char>) -> Option<Seq<char>> {
    let t = lower_of(tok);
    if seq_starts_with(t, "de"@) || seq_contains(t, "deutsch"@) || seq_contains(t, "german"@) {
        Some("de_de"@)
    } else if seq_starts_with(t, "en"@) || seq_contains(t, "engl"@) || seq_contains(
        t,
        "english"@,
    ) {
        Some("en_us"@)
    } else {
        None
    }
}

/// The code one `-`-separated part of a template name gives: the part itself, or the piece
/// before its first `_`; the part "messe" gives none.
pub open spec fn part_code(part: Seq<char>) -> Option<Seq<char>> {
    let p = trim(part);
    if eq_ignore_ascii_case(p, "messe"@) {
        None
    } else if token_code(p) is Some {
        token_code(p)
    } else if seq_contains(p, "_"@) {
        token_code(split_on(p, '_')[0])
    } else {
        None
    }
}

/// The code of the last part, counted from the end, that gives one.
pub open spec fn parts_code(parts: Seq<Seq<char>>) -> Option<Seq<char>>
    decreases parts.len(),
{
    if parts.len() == 0 {
        None
    } else if part_code(parts.last()) is Some {
        part_code(parts.last())
    } else {
        parts_code(parts.drop_last())
    }
}

/// The code a data file's name gives.
pub open spec fn csv_code(path: Seq<char>) -> Option<Seq<char>> {
    let name = file_name_of(path);
    let f = lower_of(if name.len() == 0 { path } else { name });
    if seq_contains(f, "_en"@) || seq_contains(f, "english"@) || seq_contains(f, "-en"@) {
        Some("en_us"@)
    } else if seq_contains(f, "_de"@) || seq_contains(f, "deutsch"@) || seq_contains(f, "-de"@) {
        Some("de_de"@)
    } else {
        None
    }
}

/// The canonical language code: from the template's name, else the data file's name, else
/// the interface language, else "de_de".
pub open spec fn detected_code(
    ui: Seq<char>,
    template: Option<Seq<char>>,
    csv: Option<Seq<char>>,
) -> Seq<char> {
    let from_template = match template {
        Some(t) => parts_code(split_on(file_stem_of(t), '-')),
        None => None,
    };
    let from_csv = match csv {
        Some(c) => csv_code(c),
        None => None,
    };
    if from_template is Some {
        from_template->0
    } else if from_csv is Some {
        from_csv->0
    } else if token_code(ui) is Some {
        token_code(ui)->0
    } else {
        "de_de"@
    }
}

fn token_code_of(tok: &[char]) -> (r: Option<String>)
    ensures
        match r {
            Some(c) => token_code(tok@) == Some(c@),
            None => token_code(tok@) is None,
        },
{
    let low = lowercase(string_of(tok).as_str());
    let t = chars_of(low.as_str());
    if chars_starts_with_str(&t, "de") || chars_contains_str(&t, "deutsch") || chars_contains_str(
        &t,
        "german",
    ) {
        Some("de_de".to_owned())
    } else if chars_starts_with_str(&t, "en") || chars_contains_str(&t, "engl")
        || chars_contains_str(&t, "english") {
        Some("en_us".to_owned())
    } else {
        None
    }
}

fn part_code_of(part: &[char]) -> (r: Option<String>)
    ensures
        match r {
            Some(c) => part_code(part@) == Some(c@),
            None => part_code(part@) is None,
        },
{
    let p = trim_chars(part);
    let messe = chars_of("messe");
    if chars_eq_ignore_ascii_case(&p, &messe) {
        return None;
    }
    match token_code_of(&p) {
        Some(c) => Some(c),
        None => {
            if chars_contains_str(&p, "_") {
                let tokens = split_chars(&p, '_');
                assert(views(tokens@)[0] == tokens@[0]@);
                token_code_of(&tokens[0])
            } else {
                None
            }
        },
    }
}

fn parts_code_of(parts: &Vec<Vec<char>>) -> (r: Option<String>)
    ensures
        match r {
            Some(c) => parts_code(views(parts@)) == Some(c@),
            None => parts_code(views(parts@)) is None,
        },
{
    let mut i: usize = parts.len();
    assert(views(parts@).subrange(0, i as int) =~= views(parts@));
    while i > 0
        invariant
            i <= parts.len(),
            parts_code(views(parts@)) == parts_code(views(parts@).subrange(0, i as int)),
        decreases i,
    {
        let ghost pre = views(parts@).subrange(0, i as int);
        assert(pre.last() == parts@[i - 1]@);
        match part_code_of(&parts[i - 1]) {
            Some(c) => {
                return Some(c);
            },
            None => {},
        }
        assert(pre.drop_last() =~= views(parts@).subrange(0, i - 1));
        i -= 1;
    }
    None
}

fn csv_code_of(path: &str) -> (r: Option<String>)
    ensures
        match r {
            Some(c) => csv_code(path@) == Some(c@),
            None => csv_code(path@) is None,
        },
{
    let p = chars_of(path);
    let name = file_name_chars(&p);
    let base = if name.len() == 0 {
        p
    } else {
        name
    };
    let f = chars_of(lowercase(string_of(&base).as_str()).as_str());
    if chars_contains_str(&f, "_en") || chars_contains_str(&f, "english") || chars_contains_str(
        &f,
        "-en",
    ) {
        Some("en_us".to_owned())
    } else if chars_contains_str(&f, "_de") || chars_contains_str(&f, "deutsch")
        || chars_contains_str(&f, "-de") {
        Some("de_de".to_owned())
    } else {
        None
    }
}

pub open spec fn opt_view(o: Option<&str>) -> Option<Seq<char>> {
    match o {
        Some(s) => Some(s@),
        None => None,
    }
}

/// Finds the canonical language code ("de_de" or "en_us") of a run.
pub fn detect_language_code(ui_language: &str, template_path: Option<&str>, csv_path: Option<&str>) -> (r: String)
    ensures
        r@ == detected_code(ui_language@, opt_view(template_path), opt_view(csv_path)),
{
    match template_path {
        Some(tp) => {
            let stem = file_stem_chars(&chars_of(tp));
            let parts = split_chars(&stem, '-');
            match parts_code_of(&parts) {
                Some(c) => {
                    return c;
                },
                None => {},
            }
        },
        None => {},
    }
    match csv_path {
        Some(cp) => match csv_code_of(cp) {
            Some(c) => {
                return c;
            },
            None => {},
        },
        None => {},
    }
    match token_code_of(&chars_of(ui_language)) {
        Some(c) => c,
        None => "de_de".to_owned(),
    }
}

/// The group named by the first part that names one.
pub open spec fn parts_group(parts: Seq<Seq<char>>) -> Seq<char>
    decreases parts.len(),
{
    if parts.len() == 0 {
        "Endkunde"@
    } else {
        let l = lower_of(parts[0]);
        if seq_contains(l, "apo"@) {
            "Apo"@
        } else if seq_contains(l, "endkunde"@) {
            "Endkunde"@
        } else if seq_contains(l, "fachkreise"@) {
            "Fachkreise"@
        } else {
            parts_group(parts.drop_first())
        }
    }
}

/// The interface language named by the last part.
pub open spec fn last_part_language(parts: Seq<Seq<char>>) -> Seq<char> {
    let l = lower_of(parts.last());
    if parts.len() > 0 && seq_starts_with(l, "en"@) && !seq_starts_with(l, "de"@) {
        "Englisch"@
    } else {
        "Deutsch"@
    }
}

/// What a template's name says: group, interface language and trade-show variant.
pub open spec fn inferred_from_template(t: Seq<char>) -> (Seq<char>, Seq<char>, bool) {
    let stem = file_stem_of(t);
    let parts = split_on(stem, '-');
    (parts_group(parts), last_part_language(parts), seq_contains(lower_of(stem), "messe"@))
}

fn group_of_parts(parts: &Vec<Vec<char>>) -> (r: String)
    ensures
        r@ == parts_group(views(parts@)),
{
    let mut i: usize = 0;
    assert(views(parts@).subrange(0, parts.len() as int) =~= views(parts@));
    while i < parts.len()
        invariant
            i <= parts.len(),
            parts_group(views(parts@)) == parts_group(views(parts@).subrange(i as int, parts.len() as int)),
        decreases parts.len() - i,
    {
        let ghost rest = views(parts@).subrange(i as int, parts.len() as int);
        assert(rest[0] == parts@[i as int]@);
        let l = chars_of(lowercase(string_of(&parts[i]).as_str()).as_str());
        if chars_contains_str(&l, "apo") {
            return "Apo".to_owned();
        }
        if chars_contains_str(&l, "endkunde") {
            return "Endkunde".to_owned();
        }
        if chars_contains_str(&l, "fachkreise") {
            return "Fachkreise".to_owned();
        }
        assert(rest.drop_first() =~= views(parts@).subrange(i + 1, parts.len() as int));
        i += 1;
    }
    "Endkunde".to_owned()
}

/// Reads group, language and trade-show variant from a template's file name, e.g.
/// "Bestellschein-Messe-Apo-en_us.pdf".
pub fn infer_group_lang_from_template(template: &str) -> (r: (String, String, bool))
    ensures
        (r.0@, r.1@, r.2) == inferred_from_template(template@),
{
    let stem = file_stem_chars(&chars_of(template));
    let parts = split_chars(&stem, '-');
    let group = group_of_parts(&parts);
    let last = &parts[parts.len() - 1];
    assert(views(parts@).last() == last@);
    let ll = chars_of(lowercase(string_of(last).as_str()).as_str());
    let lang = if chars_starts_with_str(&ll, "en") && !chars_starts_with_str(&ll, "de") {
        "Englisch".to_owned()
    } else {
        "Deutsch".to_owned()
    };
    let messe = chars_contains_str(&chars_of(lowercase(string_of(&stem).as_str()).as_str()), "messe");
    (group, lang, messe)
}

/// A name with its spaces removed, lowercased.
pub open spec fn name_key(s: Seq<char>) -> Seq<char> {
    lower_of(remove_char(s, ' '))
}

/// The language codes template names use for a language.
pub open spec fn file_codes(lang: Seq<char>) -> Seq<Seq<char>> {
    let l = name_key(lang);
    if l == "deutsch"@ || l == "german"@ || l == "de"@ || l == "de_de"@ {
        seq!["de_de"@, "de"@]
    } else if l == "englisch"@ || l == "english"@ || l == "en"@ || l == "en_us"@ {
        seq!["en_us"@, "en"@]
    } else {
        seq![l]
    }
}

/// The trade-show template of a group in a language.
pub open spec fn messe_name(prefix: Seq<char>, cg: Seq<char>, code: Seq<char>) -> Seq<char> {
    prefix + "Bestellschein-Messe-"@ + cg + "-"@ + code + ".pdf"@
}

/// The template of a group in a language.
pub open spec fn lang_name(prefix: Seq<char>, cg: Seq<char>, code: Seq<char>) -> Seq<char> {
    prefix + "Bestellschein-"@ + cg + "-"@ + code + ".pdf"@
}

/// For each code, its trade-show template and then either the same name again or, with
/// `generic`, the group's trade-show template without a language.
pub open spec fn messe_names(prefix: Seq<char>, cg: Seq<char>, codes: Seq<Seq<char>>, generic: bool) -> Seq<Seq<char>>
    decreases codes.len(),
{
    if codes.len() == 0 {
        Seq::empty()
    } else {
        messe_names(prefix, cg, codes.drop_last(), generic) + seq![
            messe_name(prefix, cg, codes.last()),
            if generic {
                prefix + "Bestellschein-Messe-"@ + cg + ".pdf"@
            } else {
                messe_name(prefix, cg, codes.last())
            },
        ]
    }
}

/// For each code, the country template: the code's language part and the country.
pub open spec fn country_names(prefix: Seq<char>, cg: Seq<char>, codes: Seq<Seq<char>>, country: Seq<char>) -> Seq<Seq<char>>
    decreases codes.len(),
{
    if codes.len() == 0 {
        Seq::empty()
    } else {
        country_names(prefix, cg, codes.drop_last(), country) + seq![
            prefix + "Bestellschein-"@ + cg + "-"@ + split_on(codes.last(), '_')[0] + "_"@ + country
                + ".pdf"@,
        ]
    }
}

pub open spec fn lang_names(prefix: Seq<char>, cg: Seq<char>, codes: Seq<Seq<char>>) -> Seq<Seq<char>>
    decreases codes.len(),
{
    if codes.len() == 0 {
        Seq::empty()
    } else {
        lang_names(prefix, cg, codes.drop_last()) + seq![lang_name(prefix, cg, codes.last())]
    }
}

/// The group's templates without a language.
pub open spec fn generic_names(prefix: Seq<char>, cg: Seq<char>) -> Seq<Seq<char>> {
    seq![prefix + "Bestellschein-"@ + cg + ".pdf"@, prefix + "Bestellscheine-"@ + cg + ".pdf"@]
}

/// What is tried before the language templates.
pub enum Variant {
    Plain,
    Messe { generic: bool },
    Country { code: String },
}

/// The same, as values of the specification.
pub enum VariantView {
    Plain,
    Messe(bool),
    Country(Seq<char>),
}

impl View for Variant {
    type V = VariantView;

    open spec fn view(&self) -> VariantView {
        match self {
            Variant::Plain => VariantView::Plain,
            Variant::Messe { generic } => VariantView::Messe(*generic),
            Variant::Country { code } => VariantView::Country(code@),
        }
    }
}

pub open spec fn variant_names(prefix: Seq<char>, cg: Seq<char>, codes: Seq<Seq<char>>, v: VariantView) -> Seq<Seq<char>> {
    match v {
        VariantView::Plain => Seq::empty(),
        VariantView::Messe(generic) => messe_names(prefix, cg, codes, generic),
        VariantView::Country(code) => country_names(prefix, cg, codes, code),
    }
}

/// The candidate templates, in the order they are tried.
pub open spec fn candidates(prefix: Seq<char>, group: Seq<char>, lang: Seq<char>, v: VariantView) -> Seq<Seq<char>> {
    let cg = capitalized(name_key(group));
    let codes = file_codes(lang);
    variant_names(prefix, cg, codes, v) + lang_names(prefix, cg, codes) + generic_names(prefix, cg)
}

fn name_key_of(s: &str) -> (r: String)
    ensures
        r@ == name_key(s@),
{
    let plain = string_of(&remove_char_chars(&chars_of(s), ' '));
    lowercase(plain.as_str())
}

fn codes_of(lang: &str) -> (r: Vec<String>)
    ensures
        texts(r@) == file_codes(lang@),
{
    let l = name_key_of(lang);
    let r = if str_eq(l.as_str(), "deutsch") || str_eq(l.as_str(), "german") || str_eq(l.as_str(), "de")
        || str_eq(l.as_str(), "de_de") {
        vec!["de_de".to_owned(), "de".to_owned()]
    } else if str_eq(l.as_str(), "englisch") || str_eq(l.as_str(), "english") || str_eq(l.as_str(), "en")
        || str_eq(l.as_str(), "en_us") {
        vec!["en_us".to_owned(), "en".to_owned()]
    } else {
        vec![l]
    };
    assert(texts(r@) =~= file_codes(lang@));
    r
}

fn messe_text(prefix: &str, cg: &str, code: &str) -> (r: String)
    ensures
        r@ == messe_name(prefix@, cg@, code@),
{
    let mut o: Vec<char> = Vec::new();
    push_str(&mut o, prefix);
    push_str(&mut o, "Bestellschein-Messe-");
    push_str(&mut o, cg);
    push_str(&mut o, "-");
    push_str(&mut o, code);
    push_str(&mut o, ".pdf");
    assert(o@ =~= messe_name(prefix@, cg@, code@));
    string_of(&o)
}

fn lang_text(prefix: &str, cg: &str, code: &str) -> (r: String)
    ensures
        r@ == lang_name(prefix@, cg@, code@),
{
    let mut o: Vec<char> = Vec::new();
    push_str(&mut o, prefix);
    push_str(&mut o, "Bestellschein-");
    push_str(&mut o, cg);
    push_str(&mut o, "-");
    push_str(&mut o, code);
    push_str(&mut o, ".pdf");
    assert(o@ =~= lang_name(prefix@, cg@, code@));
    string_of(&o)
}

fn three_text(a: &str, b: &str, c: &str, d: &str) -> (r: String)
    ensures
        r@ == a@ + b@ + c@ + d@,
{
    let mut o: Vec<char> = Vec::new();
    push_str(&mut o, a);
    push_str(&mut o, b);
    push_str(&mut o, c);
    push_str(&mut o, d);
    assert(o@ =~= a@ + b@ + c@ + d@);
    string_of(&o)
}

fn country_text(prefix: &str, cg: &str, piece: &str, country: &str) -> (r: String)
    ensures
        r@ == prefix@ + "Bestellschein-"@ + cg@ + "-"@ + piece@ + "_"@ + country@ + ".pdf"@,
{
    let mut o: Vec<char> = Vec::new();
    push_str(&mut o, prefix);
    push_str(&mut o, "Bestellschein-");
    push_str(&mut o, cg);
    push_str(&mut o, "-");
    push_str(&mut o, piece);
    push_str(&mut o, "_");
    push_str(&mut o, country);
    push_str(&mut o, ".pdf");
    assert(o@ =~= prefix@ + "Bestellschein-"@ + cg@ + "-"@ + piece@ + "_"@ + country@ + ".pdf"@);
    string_of(&o)
}

fn first_piece(code: &str) -> (r: String)
    ensures
        r@ == split_on(code@, '_')[0],
{
    let pieces = split_chars(&chars_of(code), '_');
    assert(views(pieces@)[0] == pieces@[0]@);
    string_of(&pieces[0])
}

/// The candidate templates under `prefix`, in the order they are tried.
pub fn template_candidates(prefix: &str, group: &str, lang: &str, v: &Variant) -> (r: Vec<String>)
    ensures
        texts(r@) == candidates(prefix@, group@, lang@, v@),
{
    let cg_s = string_of(&capitalize_chars(&chars_of(name_key_of(group).as_str())));
    let cg = cg_s.as_str();
    let codes = codes_of(lang);
    let mut out: Vec<String> = Vec::new();
    let mut i: usize = 0;
    assert(texts(codes@).subrange(0, 0) =~= Seq::<Seq<char>>::empty());
    assert(texts(out@) =~= variant_names(prefix@, cg@, texts(codes@).subrange(0, 0), v@));
    while i < codes.len()
        invariant
            i <= codes.len(),
            texts(out@) == variant_names(prefix@, cg@, texts(codes@).subrange(0, i as int), v@),
        decreases codes.len() - i,
    {
        let ghost before = texts(out@);
        let ghost sub = texts(codes@).subrange(0, i + 1);
        assert(sub.drop_last() =~= texts(codes@).subrange(0, i as int));
        assert(sub.last() == codes@[i as int]@);
        let code = codes[i].as_str();
        match v {
            Variant::Plain => {},
            Variant::Messe { generic } => {
                let m = messe_text(prefix, cg, code);
                let second = if *generic {
                    three_text(prefix, "Bestellschein-Messe-", cg, ".pdf")
                } else {
                    messe_text(prefix, cg, code)
                };
                out.push(m);
                out.push(second);
                assert(texts(out@) =~= before + seq![m@, second@]);
            },
            Variant::Country { code: c } => {
                let piece = first_piece(code);
                let n = country_text(prefix, cg, piece.as_str(), c.as_str());
                out.push(n);
                assert(texts(out@) =~= before + seq![n@]);
            },
        }
        i += 1;
    }
    assert(texts(codes@).subrange(0, codes.len() as int) =~= texts(codes@));
    let ghost head = texts(out@);
    let mut k: usize = 0;
    assert(head =~= head + lang_names(prefix@, cg@, texts(codes@).subrange(0, 0)));
    while k < codes.len()
        invariant
            k <= codes.len(),
            texts(out@) == head + lang_names(prefix@, cg@, texts(codes@).subrange(0, k as int)),
        decreases codes.len() - k,
    {
        let ghost before = texts(out@);
        let ghost sub = texts(codes@).subrange(0, k + 1);
        assert(sub.drop_last() =~= texts(codes@).subrange(0, k as int));
        assert(sub.last() == codes@[k as int]@);
        let n = lang_text(prefix, cg, codes[k].as_str());
        out.push(n);
        assert(texts(out@) =~= before + seq![n@]);
        k += 1;
    }
    let ghost mid = texts(out@);
    let a = three_text(prefix, "Bestellschein-", cg, ".pdf");
    let b = three_text(prefix, "Bestellscheine-", cg, ".pdf");
    out.push(a);
    out.push(b);
    assert(texts(out@) =~= mid + seq![a@, b@]);
    assert(texts(codes@).subrange(0, codes.len() as int) =~= texts(codes@));
    assert(texts(out@) =~= candidates(prefix@, group@, lang@, v@));
    out
}

/// The templates the interface offers for a group, language and trade-show variant.
pub fn list_template_candidates(group: &str, lang: &str, is_messe: bool) -> (r: Vec<String>)
    ensures
        texts(r@) == candidates(
            "VORLAGE/"@,
            group@,
            lang@,
            if is_messe {
                VariantView::Messe(false)
            } else {
                VariantView::Plain
            },
        ),
{
    let v = if is_messe {
        Variant::Messe { generic: false }
    } else {
        Variant::Plain
    };
    template_candidates("VORLAGE/", group, lang, &v)
}

/// The first of `cands` that `existing` holds.
pub open spec fn first_existing(cands: Seq<Seq<char>>, existing: Seq<Seq<char>>) -> Option<Seq<char>>
    decreases cands.len(),
{
    if cands.len() == 0 {
        None
    } else if existing.contains(cands[0]) {
        Some(cands[0])
    } else {
        first_existing(cands.drop_first(), existing)
    }
}

fn holds(existing: &Vec<String>, c: &String) -> (r: bool)
    ensures
        r == texts(existing@).contains(c@),
{
    let mut i: usize = 0;
    while i < existing.len()
        invariant
            i <= existing.len(),
            forall|j: int| 0 <= j < i ==> texts(existing@)[j] != c@,
        decreases existing.len() - i,
    {
        if str_eq(existing[i].as_str(), c.as_str()) {
            assert(texts(existing@)[i as int] == c@);
            return true;
        }
        i += 1;
    }
    false
}

fn pick_first(cands: &Vec<String>, existing: &Vec<String>) -> (r: Option<String>)
    ensures
        match r {
            Some(c) => first_existing(texts(cands@), texts(existing@)) == Some(c@),
            None => first_existing(texts(cands@), texts(existing@)) is None,
        },
{
    let mut i: usize = 0;
    assert(texts(cands@).subrange(0, cands.len() as int) =~= texts(cands@));
    while i < cands.len()
        invariant
            i <= cands.len(),
            first_existing(texts(cands@), texts(existing@)) == first_existing(
                texts(cands@).subrange(i as int, cands.len() as int),
                texts(existing@),
            ),
        decreases cands.len() - i,
    {
        let ghost rest = texts(cands@).subrange(i as int, cands.len() as int);
        assert(rest[0] == cands@[i as int]@);
        if holds(existing, &cands[i]) {
            return Some(cands[i].clone());
        }
        assert(rest.drop_first() =~= texts(cands@).subrange(i + 1, cands.len() as int));
        i += 1;
    }
    None
}

/// What a country hint selects: the trade-show templates for "messe", else the templates
/// of that country.
pub open spec fn country_variant(country: Option<Seq<char>>, generic: bool) -> VariantView {
    match country {
        None => VariantView::Plain,
        Some(c) => if lower_of(c) == "messe"@ {
            VariantView::Messe(generic)
        } else {
            VariantView::Country(name_key(c))
        },
    }
}

fn variant_for(country: Option<&str>, generic: bool) -> (r: Variant)
    ensures
        r@ == country_variant(opt_view(country), generic),
{
    match country {
        None => Variant::Plain,
        Some(c) => if str_eq(lowercase(c).as_str(), "messe") {
            Variant::Messe { generic }
        } else {
            Variant::Country { code: name_key_of(c) }
        },
    }
}

/// The first template of a group, language and optional country ("messe" for the trade-show
/// variant) that the `existing` files hold, trying them in order.
pub fn find_best_template(group: &str, lang: &str, country: Option<&str>, existing: &Vec<String>) -> (r: Option<String>)
    ensures
        match r {
            Some(t) => first_existing(candidates("VORLAGE/"@, group@, lang@, country_variant(opt_view(country), false)), texts(existing@)) == Some(t@),
            None => first_existing(candidates("VORLAGE/"@, group@, lang@, country_variant(opt_view(country), false)), texts(existing@)) is None,
        },
{
    let v = variant_for(country, false);
    let cands = template_candidates("VORLAGE/", group, lang, &v);
    pick_first(&cands, existing)
}

/// The first template under `template_dir` of a group, language and optional country
/// ("messe" for the trade-show variant, whose second choice is the group's trade-show
/// template without a language) that the `existing` files hold.
pub fn find_best_template_in_dir(
    group: &str,
    lang: &str,
    country: Option<&str>,
    template_dir: &str,
    existing: &Vec<String>,
) -> (r: Option<String>)
    ensures
        match r {
            Some(t) => first_existing(candidates(template_dir@ + "/"@, group@, lang@, country_variant(opt_view(country), true)), texts(existing@)) == Some(t@),
            None => first_existing(candidates(template_dir@ + "/"@, group@, lang@, country_variant(opt_view(country), true)), texts(existing@)) is None,
        },
{
    let v = variant_for(country, true);
    let mut p: Vec<char> = chars_of(template_dir);
    push_str(&mut p, "/");
    let prefix = string_of(&p);
    let cands = template_candidates(prefix.as_str(), group, lang, &v);
    pick_first(&cands, existing)
}

/// `s` with every occurrence of `pat`, found from the left without overlaps, replaced by
/// `rep`, as `str::replace` does.
pub open spec fn replace_all(s: Seq<char>, pat: Seq<char>, rep: Seq<char>) -> Seq<char>
    decreases s.len(),
{
    if pat.len() == 0 || s.len() < pat.len() {
        s
    } else if s.subrange(0, pat.len() as int) == pat {
        rep + replace_all(s.subrange(pat.len() as int, s.len() as int), pat, rep)
    } else {
        seq![s[0]] + replace_all(s.subrange(1, s.len() as int), pat, rep)
    }
}

fn replace_chars(s: &Vec<char>, pat: &str, rep: &str) -> (r: Vec<char>)
    ensures
        r@ == replace_all(s@, pat@, rep@),
{
    let p = chars_of(pat);
    if p.len() == 0 {
        return s.clone();
    }
    let mut out: Vec<char> = Vec::new();
    let mut i: usize = 0;
    assert(s@.subrange(0, s.len() as int) =~= s@);
    while i < s.len()
        invariant
            i <= s.len(),
            p@ == pat@,
            p.len() > 0,
            out@ + replace_all(s@.subrange(i as int, s.len() as int), pat@, rep@) == replace_all(s@, pat@, rep@),
        decreases s.len() - i,
    {
        let ghost rest = s@.subrange(i as int, s.len() as int);
        if chars_match_at(s, &p, i) {
            assert(rest.subrange(0, p@.len() as int) =~= s@.subrange(i as int, i + p@.len()));
            assert(rest.subrange(p@.len() as int, rest.len() as int) =~= s@.subrange(i + p@.len(), s.len() as int));
            let ghost before = out@;
            push_str(&mut out, rep);
            i += p.len();
            assert(before + replace_all(rest, pat@, rep@) =~= out@ + replace_all(s@.subrange(i as int, s.len() as int), pat@, rep@));
        } else {
            proof {
                if rest.len() >= p@.len() {
                    assert(rest.subrange(0, p@.len() as int) =~= s@.subrange(i as int, i + p@.len()));
                }
            }
            assert(rest.subrange(1, rest.len() as int) =~= s@.subrange(i + 1, s.len() as int));
            let ghost before = out@;
            out.push(s[i]);
            i += 1;
            proof {
                if rest.len() < p@.len() {
                    assert(replace_all(rest, pat@, rep@) == rest);
                    assert(rest.subrange(1, rest.len() as int).len() < p@.len());
                    assert(replace_all(rest.subrange(1, rest.len() as int), pat@, rep@) == rest.subrange(1, rest.len() as int));
                    assert(rest =~= seq![rest[0]] + rest.subrange(1, rest.len() as int));
                }
            }
            assert(before + replace_all(rest, pat@, rep@) =~= out@ + replace_all(s@.subrange(i as int, s.len() as int), pat@, rep@));
        }
    }
    assert(s@.subrange(s.len() as int, s.len() as int) =~= Seq::<char>::empty());
    assert(out@ + Seq::<char>::empty() =~= out@);
    out
}

/// A path that does not depend on a base directory: one starting with a separator or with
/// a drive letter and a colon.
pub open spec fn is_absolute_path(p: Seq<char>) -> bool {
    (p.len() > 0 && (p[0] == '/' || p[0] == '\\')) || (p.len() > 1 && p[1] == ':')
}

fn absolute(p: &Vec<char>) -> (r: bool)
    ensures
        r == is_absolute_path(p@),
{
    (p.len() > 0 && (p[0] == '/' || p[0] == '\\')) || (p.len() > 1 && p[1] == ':')
}

/// `rest` under `base`.
pub open spec fn joined_path(base: Seq<char>, rest: Seq<char>) -> Seq<char> {
    if is_absolute_path(rest) {
        rest
    } else {
        base + "/"@ + rest
    }
}

fn join_path(base: &str, rest: &Vec<char>) -> (r: String)
    ensures
        r@ == joined_path(base@, rest@),
{
    if absolute(rest) {
        return string_of(rest);
    }
    let mut o = chars_of(base);
    push_str(&mut o, "/");
    o.extend_from_slice(rest);
    string_of(&o)
}

/// A template path as found in the templates directory: absolute paths stay as they are;
/// otherwise development folder prefixes are dropped and the rest is looked up there.
pub open spec fn resolved_template(template_path: Seq<char>, templates_dir: Seq<char>) -> Seq<char> {
    if is_absolute_path(template_path) {
        template_path
    } else {
        let c = replace_all(
            replace_all(
                replace_all(replace_all(template_path, "VORLAGE/"@, Seq::empty()), "Vorlagen/"@, Seq::empty()),
                "DATA/"@,
                Seq::empty(),
            ),
            "Data/"@,
            Seq::empty(),
        );
        joined_path(templates_dir, c)
    }
}

/// Resolves a template path against the templates directory.
pub fn resolve_template_path_with_debug(template_path: &str, templates_dir: &str) -> (r: String)
    ensures
        r@ == resolved_template(template_path@, templates_dir@),
{
    let t = chars_of(template_path);
    if absolute(&t) {
        return template_path.to_owned();
    }
    let a = replace_chars(&t, "VORLAGE/", "");
    let b = replace_chars(&a, "Vorlagen/", "");
    let c = replace_chars(&b, "DATA/", "");
    let d = replace_chars(&c, "Data/", "");
    proof {
        reveal_strlit("");
    }
    assert(Seq::<char>::empty() == ""@);
    join_path(templates_dir, &d)
}

/// The output folder of a group, language and trade-show variant: a folder given by the
/// user (under `base_dir` unless absolute), else `<output_base>/[Messe_]<group>/<EN|DE>`.
pub open spec fn output_dir(
    use_custom: bool,
    custom_path: Seq<char>,
    group: Seq<char>,
    language: Seq<char>,
    is_messe: bool,
    base_dir: Seq<char>,
    output_base: Seq<char>,
) -> Seq<char> {
    if use_custom && custom_path.len() > 0 {
        joined_path(base_dir, custom_path)
    } else {
        let l = lower_of(language);
        let lang_folder = if seq_starts_with(l, "en"@) || seq_contains(l, "engl"@) || l == "english"@ {
            "EN"@
        } else {
            "DE"@
        };
        output_base + "/"@ + (if is_messe { "Messe_"@ + group } else { group }) + "/"@ + lang_folder
    }
}

/// Where a run writes its documents.
pub fn get_configured_output_dir_with_debug(
    use_custom: bool,
    custom_path: &str,
    group: &str,
    language: &str,
    is_messe: bool,
    base_dir: &str,
    output_base: &str,
) -> (r: String)
    ensures
        r@ == output_dir(use_custom, custom_path@, group@, language@, is_messe, base_dir@, output_base@),
{
    let cp = chars_of(custom_path);
    if use_custom && cp.len() > 0 {
        return join_path(base_dir, &cp);
    }
    let l = chars_of(lowercase(language).as_str());
    let lang_folder = if chars_starts_with_str(&l, "en") || chars_contains_str(&l, "engl") || chars_eq_str(
        &l,
        "english",
    ) {
        "EN"
    } else {
        "DE"
    };
    let mut o = chars_of(output_base);
    push_str(&mut o, "/");
    if is_messe {
        push_str(&mut o, "Messe_");
    }
    push_str(&mut o, group);
    push_str(&mut o, "/");
    push_str(&mut o, lang_folder);
    assert(o@ =~= output_dir(use_custom, custom_path@, group@, language@, is_messe, base_dir@, output_base@));
    string_of(&o)
}

} // verus!
