//! Language codes: how a requested language, a template name or a data-file name maps to
//! the codes used in file names, and how well a file name matches a language.

use vstd::prelude::*;
use crate::text::{
    chars_contains_str, chars_match_at, chars_of, contains_chars, copy_range, is_ascii_alpha, lower_of,
    lowercase, occurs_at, push_str, seq_contains, str_eq, string_of, upper_of, uppercase,
};

verus! {

/// The characters of each string, in order.
pub open spec fn texts(v: Seq<String>) -> Seq<Seq<char>> {
    v.map_values(|s: String| s@)
}

/// The codes to look for, most preferred first, for a lowercased language request.
pub open spec fn preferred_codes(r: Seq<char>) -> Seq<Seq<char>> {
    if seq_contains(r, "en"@) || seq_contains(r, "engl"@) || seq_contains(r, "english"@) {
        seq!["en_us"@, "en"@]
    } else if seq_contains(r, "fr"@) || seq_contains(r, "franz"@) || seq_contains(r, "french"@) {
        seq!["fr_fr"@, "fr"@]
    } else if seq_contains(r, "de"@) || seq_contains(r, "deut"@) || seq_contains(r, "german"@)
        || seq_contains(r, "deutsch"@) {
        seq!["de_de"@, "de"@]
    } else if seq_contains(r, "_"@) {
        seq![r]
    } else {
        seq!["de_de"@, "de"@]
    }
}

/// The preferred language codes for a request such as "Englisch" or "en_us".
pub fn get_preferred_language_codes(request: &str) -> (r: Vec<String>)
    ensures
        texts(r@) == preferred_codes(lower_of(request@)),
{
    let low = lowercase(request);
    let l = chars_of(low.as_str());
    let r = if chars_contains_str(&l, "en") || chars_contains_str(&l, "engl") || chars_contains_str(
        &l,
        "english",
    ) {
        vec!["en_us".to_owned(), "en".to_owned()]
    } else if chars_contains_str(&l, "fr") || chars_contains_str(&l, "franz") || chars_contains_str(
        &l,
        "french",
    ) {
        vec!["fr_fr".to_owned(), "fr".to_owned()]
    } else if chars_contains_str(&l, "de") || chars_contains_str(&l, "deut") || chars_contains_str(
        &l,
        "german",
    ) || chars_contains_str(&l, "deutsch") {
        vec!["de_de".to_owned(), "de".to_owned()]
    } else if chars_contains_str(&l, "_") {
        vec![low]
    } else {
        vec!["de_de".to_owned(), "de".to_owned()]
    };
    assert(texts(r@) =~= preferred_codes(lower_of(request@)));
    r
}

/// The number of bytes of the UTF-8 encoding of `c`.
pub open spec fn utf8_width(c: char) -> nat {
    if (c as u32) < 0x80 {
        1
    } else if (c as u32) < 0x800 {
        2
    } else if (c as u32) < 0x10000 {
        3
    } else {
        4
    }
}

/// The number of bytes of the UTF-8 encoding of `s`.
pub open spec fn utf8_len(s: Seq<char>) -> nat
    decreases s.len(),
{
    if s.len() == 0 {
        0
    } else {
        utf8_len(s.drop_last()) + utf8_width(s.last())
    }
}

/// Whether the UTF-8 encoding of `s` is exactly two bytes long.
pub fn utf8_len_is_two(s: &[char]) -> (r: bool)
    ensures
        r == (utf8_len(s@) == 2),
{
    let mut total: usize = 0;
    let mut i: usize = 0;
    assert(s@.subrange(0, 0) =~= Seq::<char>::empty());
    while i < s.len()
        invariant
            i <= s.len(),
            total <= 3,
            utf8_len(s@.subrange(0, i as int)) <= 2 ==> total == utf8_len(s@.subrange(0, i as int)),
            utf8_len(s@.subrange(0, i as int)) > 2 ==> total == 3,
        decreases s.len() - i,
    {
        assert(s@.subrange(0, i + 1).drop_last() =~= s@.subrange(0, i as int));
        let c = s[i] as u32;
        let w: usize = if c < 0x80 {
            1
        } else if c < 0x800 {
            2
        } else if c < 0x10000 {
            3
        } else {
            4
        };
        total = if total + w > 3 {
            3
        } else {
            total + w
        };
        i += 1;
    }
    assert(s@.subrange(0, s.len() as int) =~= s@);
    total == 2
}

/// The file-name variants of a language, for a lowercased request.
pub open spec fn code_variants(r: Seq<char>) -> Seq<Seq<char>> {
    if seq_contains(r, "en"@) || seq_contains(r, "engl"@) || seq_contains(r, "english"@) {
        seq!["en_us"@, "en"@, "EN"@]
    } else if seq_contains(r, "fr"@) || seq_contains(r, "franz"@) || seq_contains(r, "french"@) {
        seq!["fr_fr"@, "fr"@, "FR"@]
    } else if seq_contains(r, "de"@) || seq_contains(r, "deut"@) || seq_contains(r, "german"@)
        || seq_contains(r, "deutsch"@) {
        seq!["de_de"@, "de"@, "DE"@]
    } else if utf8_len(r) == 2 {
        seq![r, upper_of(r)]
    } else if seq_contains(r, "_"@) {
        seq![r]
    } else {
        let two = if r.len() < 2 {
            r
        } else {
            r.subrange(0, 2)
        };
        seq![two + "_"@ + two, two, upper_of(two)]
    }
}

/// Variants of a language's code as they may appear in file names, e.g. "de_de", "de", "DE".
pub fn get_language_code_variants(lang: &str) -> (v: Vec<String>)
    ensures
        texts(v@) == code_variants(lower_of(lang@)),
{
    let low = lowercase(lang);
    let l = chars_of(low.as_str());
    if chars_contains_str(&l, "en") || chars_contains_str(&l, "engl") || chars_contains_str(
        &l,
        "english",
    ) {
        let v = vec!["en_us".to_owned(), "en".to_owned(), "EN".to_owned()];
        assert(texts(v@) =~= code_variants(lower_of(lang@)));
        return v;
    }
    if chars_contains_str(&l, "fr") || chars_contains_str(&l, "franz") || chars_contains_str(
        &l,
        "french",
    ) {
        let v = vec!["fr_fr".to_owned(), "fr".to_owned(), "FR".to_owned()];
        assert(texts(v@) =~= code_variants(lower_of(lang@)));
        return v;
    }
    if chars_contains_str(&l, "de") || chars_contains_str(&l, "deut") || chars_contains_str(
        &l,
        "german",
    ) || chars_contains_str(&l, "deutsch") {
        let v = vec!["de_de".to_owned(), "de".to_owned(), "DE".to_owned()];
        assert(texts(v@) =~= code_variants(lower_of(lang@)));
        return v;
    }
    if utf8_len_is_two(&l) {
        let up = uppercase(low.as_str());
        let v = vec![low, up];
        assert(texts(v@) =~= code_variants(lower_of(lang@)));
        return v;
    }
    if chars_contains_str(&l, "_") {
        let v = vec![low];
        assert(texts(v@) =~= code_variants(lower_of(lang@)));
        return v;
    }
    let n: usize = if l.len() < 2 {
        l.len()
    } else {
        2
    };
    let two = copy_range(&l, 0, n);
    let two_s = string_of(&two);
    let mut joined: Vec<char> = Vec::new();
    joined.extend_from_slice(&two);
    push_str(&mut joined, "_");
    joined.extend_from_slice(&two);
    let up = uppercase(two_s.as_str());
    let ghost two_spec = if l@.len() < 2 {
        l@
    } else {
        l@.subrange(0, 2)
    };
    assert(two@ =~= two_spec);
    assert(joined@ =~= two_spec + "_"@ + two_spec);
    let v = vec![string_of(&joined), two_s, up];
    assert(texts(v@) =~= code_variants(lower_of(lang@)));
    v
}

/// `t` occurs in `h` at `i`, with no ASCII letter just before or just after it.
pub open spec fn isolated_at(h: Seq<char>, t: Seq<char>, i: int) -> bool {
    &&& occurs_at(h, t, i)
    &&& (i == 0 || !is_ascii_alpha(h[i - 1]))
    &&& (i + t.len() >= h.len() || !is_ascii_alpha(h[i + t.len()]))
}

/// Whether `token` stands on its own somewhere in `haystack`, e.g. "en" in "form-en.pdf"
/// but not in "endkunde".
pub fn isolated_token_present(haystack: &str, token: &str) -> (r: bool)
    ensures
        r == (token@.len() > 0 && exists|i: int| isolated_at(haystack@, token@, i)),
{
    let h = chars_of(haystack);
    let t = chars_of(token);
    if t.len() == 0 || t.len() > h.len() {
        return false;
    }
    let last = h.len() - t.len();
    let mut i: usize = 0;
    loop
        invariant
            last == h.len() - t.len(),
            t.len() > 0,
            i <= last,
            h@ == haystack@,
            t@ == token@,
            forall|j: int| 0 <= j < i ==> !isolated_at(h@, t@, j),
        decreases last - i,
    {
        if chars_match_at(&h, &t, i) {
            let prev_ok = i == 0 || !(('A' <= h[i - 1] && h[i - 1] <= 'Z') || ('a' <= h[i - 1]
                && h[i - 1] <= 'z'));
            let after = i + t.len();
            let next_ok = after >= h.len() || !(('A' <= h[after] && h[after] <= 'Z') || ('a'
                <= h[after] && h[after] <= 'z'));
            if prev_ok && next_ok {
                assert(isolated_at(h@, t@, i as int));
                return true;
            }
        }
        if i == last {
            assert forall|j: int| #![auto] isolated_at(h@, t@, j) implies false by {
                assert(0 <= j < i + 1);
            }
            return false;
        }
        i += 1;
    }
}

/// The language codes a file name is scored against.
pub open spec fn known_codes() -> Seq<Seq<char>> {
    seq!["en_us"@, "en"@, "de_de"@, "de"@, "fr_fr"@, "fr"@]
}

/// The first position of `x` in `s`.
pub open spec fn index_of(s: Seq<Seq<char>>, x: Seq<char>) -> Option<int>
    decreases s.len(),
{
    if s.len() == 0 {
        None
    } else if s[0] == x {
        Some(0)
    } else {
        match index_of(s.drop_first(), x) {
            Some(k) => Some(k + 1),
            None => None,
        }
    }
}

/// `code` appears in `f` as a tag: after `-` or `_`, before `.`, or between two `-`.
pub open spec fn precise_tag(f: Seq<char>, code: Seq<char>) -> bool {
    ||| seq_contains(f, "-"@ + code)
    ||| seq_contains(f, "_"@ + code)
    ||| seq_contains(f, code + "."@)
    ||| seq_contains(f, "-"@ + code + "-"@)
}

/// What one known code adds to a file name's language score.
pub open spec fn code_score(f: Seq<char>, code: Seq<char>, preferred: Seq<Seq<char>>) -> int {
    match index_of(preferred, code) {
        Some(pos) => {
            let base = 30 - pos * 4;
            if precise_tag(f, code) {
                base
            } else if seq_contains(f, code) {
                base / 2
            } else {
                0
            }
        },
        None => if precise_tag(f, code) {
            -8
        } else if seq_contains(f, code) {
            -2
        } else {
            0
        },
    }
}

pub open spec fn codes_score(f: Seq<char>, codes: Seq<Seq<char>>, preferred: Seq<Seq<char>>) -> int
    decreases codes.len(),
{
    if codes.len() == 0 {
        0
    } else {
        codes_score(f, codes.drop_last(), preferred) + code_score(f, codes.last(), preferred)
    }
}

/// Whether the characters of two strings are equal.
fn string_eq(a: &String, b: &String) -> (r: bool)
    ensures
        r == (a@ == b@),
{
    str_eq(a.as_str(), b.as_str())
}

fn position_of(v: &Vec<String>, x: &String) -> (r: Option<usize>)
    ensures
        match r {
            Some(k) => index_of(texts(v@), x@) == Some(k as int) && k < v.len(),
            None => index_of(texts(v@), x@) is None,
        },
{
    let mut i: usize = 0;
    assert(texts(v@).subrange(0, v.len() as int) =~= texts(v@));
    while i < v.len()
        invariant
            i <= v.len(),
            index_of(texts(v@), x@) == match index_of(texts(v@).subrange(i as int, v.len() as int), x@) {
                Some(k) => Some(k + i),
                None => None,
            },
        decreases v.len() - i,
    {
        let ghost rest = texts(v@).subrange(i as int, v.len() as int);
        assert(rest[0] == v@[i as int]@);
        if string_eq(&v[i], x) {
            return Some(i);
        }
        assert(rest.drop_first() =~= texts(v@).subrange(i + 1, v.len() as int));
        i += 1;
    }
    None
}

fn tag_is_precise(f: &[char], code: &String) -> (r: bool)
    ensures
        r == precise_tag(f@, code@),
{
    let c = chars_of(code.as_str());
    let mut a: Vec<char> = Vec::new();
    push_str(&mut a, "-");
    a.extend_from_slice(&c);
    let mut b: Vec<char> = Vec::new();
    push_str(&mut b, "_");
    b.extend_from_slice(&c);
    let mut d: Vec<char> = c.clone();
    push_str(&mut d, ".");
    let mut e: Vec<char> = a.clone();
    push_str(&mut e, "-");
    assert(a@ =~= "-"@ + code@);
    assert(b@ =~= "_"@ + code@);
    assert(d@ =~= code@ + "."@);
    assert(e@ =~= "-"@ + code@ + "-"@);
    contains_chars(f, &a) || contains_chars(f, &b) || contains_chars(f, &d) || contains_chars(f, &e)
}

/// How well a lowercased file name matches a language: preferred codes count for it, the
/// earlier the more; tags of other languages count against it.
pub fn language_match_score(filename_lower: &str, lang: &str) -> (score: i32)
    ensures
        score == codes_score(filename_lower@, known_codes(), preferred_codes(lower_of(lang@))),
{
    let known = vec![
        "en_us".to_owned(),
        "en".to_owned(),
        "de_de".to_owned(),
        "de".to_owned(),
        "fr_fr".to_owned(),
        "fr".to_owned(),
    ];
    assert(texts(known@) =~= known_codes());
    let preferred = get_preferred_language_codes(lang);
    let f = chars_of(filename_lower);
    let mut score: i32 = 0;
    let mut i: usize = 0;
    assert(texts(known@).subrange(0, 0) =~= Seq::<Seq<char>>::empty());
    while i < known.len()
        invariant
            i <= known.len(),
            known.len() == 6,
            texts(known@) == known_codes(),
            f@ == filename_lower@,
            texts(preferred@) == preferred_codes(lower_of(lang@)),
            texts(preferred@).len() <= 2,
            -8 * i <= score <= 30 * i,
            score == codes_score(f@, texts(known@).subrange(0, i as int), texts(preferred@)),
        decreases known.len() - i,
    {
        let code = &known[i];
        assert(texts(known@).subrange(0, i + 1).drop_last() =~= texts(known@).subrange(0, i as int));
        assert(texts(known@).subrange(0, i + 1).last() == code@);
        let precise = tag_is_precise(&f, code);
        let loose = contains_chars(&f, &chars_of(code.as_str()));
        match position_of(&preferred, code) {
            Some(pos) => {
                let base: i32 = 30 - (pos as i32) * 4;
                if precise {
                    score = score + base;
                } else if loose {
                    score = score + base / 2;
                }
            },
            None => {
                if precise {
                    score = score - 8;
                } else if loose {
                    score = score - 2;
                }
            },
        }
        i += 1;
    }
    assert(texts(known@).subrange(0, 6) =~= texts(known@));
    score
}

} // verus!
