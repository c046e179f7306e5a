use bestellschein::content::{encode_ops, Op};
use bestellschein::fonts::{
    fallback_family, font_file_candidates, standard_font_for, Family, FontKey, FontResolver,
    StandardFont,
};
use bestellschein::geometry::{
    mm_to_pt, parse_font_style, qr_for_page, texts_for_page, to_points, FontStyle, Config,
    LengthUnit, PageSelector, QrCodeConfig, VertreterConfig,
};
use bestellschein::pdf::{generate_qr, stamp_document, QrRaster};
use bestellschein::plan::plan_page;
use lopdf::content::Content;
use lopdf::{Dictionary, Document, Object, Stream};

fn template(pages: usize) -> Document {
    let mut doc = Document::with_version("1.5");
    let pages_id = doc.new_object_id();
    let mut kids = Vec::new();
    for _ in 0..pages {
        let content_id = doc.add_object(Stream::new(Dictionary::new(), b"BT ET".to_vec()));
        let mut page = Dictionary::new();
        page.set("Type", "Page");
        page.set("Parent", pages_id);
        page.set("Contents", content_id);
        page.set(
            "MediaBox",
            vec![Object::Integer(0), Object::Integer(0), Object::Integer(595), Object::Integer(842)],
        );
        kids.push(Object::Reference(doc.add_object(page)));
    }
    let mut p = Dictionary::new();
    p.set("Type", "Pages");
    p.set("Count", pages as i64);
    p.set("Kids", kids);
    doc.objects.insert(pages_id, Object::Dictionary(p));
    let mut catalog = Dictionary::new();
    catalog.set("Type", "Catalog");
    catalog.set("Pages", pages_id);
    let catalog_id = doc.add_object(catalog);
    doc.trailer.set("Root", catalog_id);
    doc
}

fn qr(x: i32, y: i32, size: i32, pages: PageSelector) -> QrCodeConfig {
    QrCodeConfig { x, y, size, pages }
}

fn text(x: i32, y: i32, size: i32, pages: PageSelector, family: &str, style: FontStyle) -> VertreterConfig {
    VertreterConfig { x, y, size, pages, font_name: family.to_string(), font_style: style }
}

fn page_dict(doc: &Document, number: u32) -> Dictionary {
    let id = doc.get_pages()[&number];
    doc.get_dictionary(id).unwrap().clone()
}

fn operators(doc: &Document, number: u32) -> Vec<String> {
    let id = doc.get_pages()[&number];
    let content = Content::decode(&doc.get_page_content(id)).unwrap();
    content.operations.iter().map(|o| o.operator.clone()).collect()
}

#[test]
fn millimetres_to_points() {
    assert_eq!(mm_to_pt(10000), 28346);
    assert!((mm_to_pt(10000) as f64 / 1000.0 - 28.34646).abs() < 1e-3);
    assert_eq!(mm_to_pt(25400), 72000);
    assert_eq!(mm_to_pt(0), 0);
    assert_eq!(mm_to_pt(-25400), -72000);
    assert_eq!(to_points(LengthUnit::Points, 18500), 18500);
    assert_eq!(to_points(LengthUnit::Millimetres, 6300), 17858);
}

#[test]
fn page_selectors() {
    assert!(PageSelector::explicit(vec![]).is_none());
    let two = PageSelector::explicit(vec![2]).unwrap();
    assert!(two.applies_to(2));
    assert!(!two.applies_to(1));
    let all = PageSelector::all();
    assert!(all.applies_to(1) && all.applies_to(7));
    assert!(PageSelector::single(3).applies_to(3));
}

#[test]
fn styles_by_name() {
    assert!(parse_font_style("Bold") == FontStyle::Bold);
    assert!(parse_font_style("Bold Italic") == FontStyle::BoldItalic);
    assert!(parse_font_style("Thin") == FontStyle::Thin);
    assert!(parse_font_style("Fancy") == FontStyle::Normal);
}

#[test]
fn fallback_table() {
    assert!(fallback_family("Arial") == Family::Helvetica);
    assert!(fallback_family("Times New Roman") == Family::Times);
    assert!(fallback_family("Georgia") == Family::Times);
    assert!(fallback_family("Courier New") == Family::Courier);
    assert!(fallback_family("Courier Bold") == Family::Courier);
    assert!(fallback_family("Wingdings") == Family::Helvetica);
    assert!(standard_font_for(Family::Helvetica, FontStyle::Bold) == StandardFont::HelveticaBold);
    assert!(standard_font_for(Family::Times, FontStyle::BoldItalic) == StandardFont::TimesBoldItalic);
    assert!(standard_font_for(Family::Courier, FontStyle::Light) == StandardFont::Courier);
    assert!(standard_font_for(Family::Times, FontStyle::Heavy) == StandardFont::TimesBold);
    assert_eq!(StandardFont::HelveticaBoldOblique.name(), "Helvetica-BoldOblique");
    assert_eq!(StandardFont::TimesRoman.name(), "Times-Roman");
}

#[test]
fn arial_bold_falls_back_to_helvetica_bold() {
    let mut r = FontResolver::new();
    let k = r.resolve("Arial", FontStyle::Bold, false, 0, true);
    assert!(k == Some(FontKey::Standard { font: StandardFont::HelveticaBold, number: 1 }));
    let mut r2 = FontResolver::new();
    assert!(r2.resolve("Arial", FontStyle::Bold, false, 0, false).is_none());
}

#[test]
fn resolutions_are_memoised() {
    let mut r = FontResolver::new();
    let a = r.resolve("Arial", FontStyle::Normal, false, 0, true);
    let b = r.resolve("Helvetica", FontStyle::Normal, false, 1, true);
    let c = r.resolve("Arial", FontStyle::Normal, true, 2, true);
    let d = r.resolve("MyFont", FontStyle::Bold, true, 3, true);
    let e = r.resolve("Other", FontStyle::Bold, true, 4, true);
    assert!(a == Some(FontKey::Standard { font: StandardFont::Helvetica, number: 1 }));
    assert!(b == a);
    assert!(c == a);
    assert!(d == Some(FontKey::Embedded { source: 3, number: 1 }));
    assert!(e == Some(FontKey::Embedded { source: 4, number: 2 }));
    assert_eq!(r.entries.len(), 4);
}

#[test]
fn font_file_names() {
    let c = font_file_candidates("Times New Roman", "Bold");
    assert_eq!(c.len(), 18);
    assert_eq!(c[0], "timesnewroman.ttf");
    assert_eq!(c[2], "timesnewroman_bold.ttf");
    assert_eq!(c[11], "TimesNewRoman.ttf");
    assert_eq!(c[13], "Times New Roman Bold.ttf");
    assert_eq!(c[15], "arialbd.ttf");
    assert_eq!(c[16], "calibrib.ttf");
    assert_eq!(c[17], "timesbd.ttf");
    let i = font_file_candidates("Arial", "Italic");
    assert_eq!(i[15], "ariali.ttf");
}

#[test]
fn content_encoding() {
    let ops = vec![
        Op::SaveState,
        Op::Transform { a: 17858, d: 17858, e: 51023, f: -500 },
        Op::DrawImage { index: 1 },
        Op::RestoreState,
        Op::BeginText,
        Op::SetFont { key: FontKey::Standard { font: StandardFont::Helvetica, number: 1 }, size: 12000 },
        Op::MoveText { x: 27000, y: 28050 },
        Op::ShowText,
        Op::EndText,
    ];
    let text: Vec<char> = "0(7)\\".chars().collect();
    let bytes = encode_ops(&ops, &text);
    assert_eq!(
        String::from_utf8(bytes).unwrap(),
        "q\n17.858 0 0 17.858 51.023 -0.500 cm\n/Im1 Do\nQ\nBT\n/F1 12.000 Tf\n27.000 28.050 Td\n(0\\(7\\)\\\\) Tj\nET\n"
    );
}

#[test]
fn qr_raster_is_square_and_two_toned() {
    let q: QrRaster = generate_qr("https://x").unwrap();
    assert!(q.width >= 21);
    assert_eq!(q.pixels.len(), q.width * q.width);
    assert!(q.pixels.iter().all(|p| *p == 0 || *p == 255));
    assert_eq!(q.pixels[0], 0);
    let too_long = "x".repeat(8000);
    assert!(generate_qr(&too_long).is_none());
}

#[test]
fn plans_only_cover_their_pages() {
    let g = Config {
        qr_codes: vec![qr(1000, 1000, 5000, PageSelector::explicit(vec![2]).unwrap())],
        vertreter: vec![text(2000, 2000, 12000, PageSelector::all(), "Arial", FontStyle::Normal)],
        unit: LengthUnit::Points,
    };
    assert_eq!(qr_for_page(&g, 1), Vec::<usize>::new());
    assert_eq!(qr_for_page(&g, 2), vec![0]);
    assert_eq!(texts_for_page(&g, 5), vec![0]);
    let k = Some(FontKey::Standard { font: StandardFont::Helvetica, number: 1 });
    let p1 = plan_page(&g, 1, true, &vec![k]);
    assert_eq!(p1.images, 0);
    assert_eq!(p1.ops.len(), 5);
    let p2 = plan_page(&g, 2, true, &vec![None]);
    assert_eq!(p2.images, 1);
    assert_eq!(p2.ops.len(), 4);
    assert!(p2.fonts.is_empty());
}

#[test]
fn one_page_scenario() {
    let mut doc = template(1);
    let g = Config {
        qr_codes: vec![qr(18000, 18000, 6300, PageSelector::explicit(vec![1]).unwrap())],
        vertreter: vec![text(27000, 28000, 12000, PageSelector::explicit(vec![1]).unwrap(), "Arial", FontStyle::Normal)],
        unit: LengthUnit::Millimetres,
    };
    let image = generate_qr("https://x").unwrap();
    let report = stamp_document(&mut doc, &g, "0007", Some(&image), &vec![None], true).unwrap();
    assert_eq!(report.pages, vec![1]);
    assert_eq!(report.page_ids.len(), 1);
    assert!(report.image.is_some());
    assert_eq!(report.fonts.len(), 1);
    assert_eq!(report.stamped, vec![1]);
    assert!(report.has_image);
    assert!(report.resolved[0] == Some(FontKey::Standard { font: StandardFont::Helvetica, number: 1 }));
    let page = page_dict(&doc, 1);
    let res = page.get(b"Resources").unwrap().as_dict().unwrap();
    let xobjects = res.get(b"XObject").unwrap().as_dict().unwrap();
    assert_eq!(xobjects.len(), 1);
    let img_id = xobjects.get(b"Im1").unwrap().as_reference().unwrap();
    let img = doc.get_object(img_id).unwrap().as_stream().unwrap();
    assert_eq!(img.dict.get(b"Subtype").unwrap().as_name().unwrap(), b"Image");
    let fonts = res.get(b"Font").unwrap().as_dict().unwrap();
    assert_eq!(fonts.len(), 1);
    let font_id = fonts.get(b"F1").unwrap().as_reference().unwrap();
    let font = doc.get_dictionary(font_id).unwrap();
    assert_eq!(font.get(b"Subtype").unwrap().as_name().unwrap(), b"Type1");
    assert_eq!(font.get(b"BaseFont").unwrap().as_name().unwrap(), b"Helvetica");
    let ops = operators(&doc, 1);
    assert_eq!(ops.iter().filter(|o| *o == "Do").count(), 1);
    assert_eq!(ops.iter().filter(|o| *o == "Tj").count(), 1);
    let mut out = Vec::new();
    doc.save_to(&mut out).unwrap();
    assert!(Document::load_mem(&out).is_ok());
}

#[test]
fn explicit_page_two_leaves_page_one_alone() {
    let mut doc = template(2);
    let before = page_dict(&doc, 1);
    let before_content = doc.get_page_content(doc.get_pages()[&1]);
    let g = Config {
        qr_codes: vec![qr(10000, 10000, 20000, PageSelector::explicit(vec![2]).unwrap())],
        vertreter: vec![text(30000, 30000, 10000, PageSelector::explicit(vec![2]).unwrap(), "Times", FontStyle::Italic)],
        unit: LengthUnit::Points,
    };
    let image = generate_qr("https://y").unwrap();
    let report = stamp_document(&mut doc, &g, "12345", Some(&image), &vec![None], true).unwrap();
    assert_eq!(report.stamped, vec![2]);
    assert!(page_dict(&doc, 1) == before);
    assert_eq!(doc.get_page_content(doc.get_pages()[&1]), before_content);
    assert!(page_dict(&doc, 2).has(b"Resources"));
}

#[test]
fn all_pages_placement_reaches_every_page() {
    let mut doc = template(3);
    let g = Config {
        qr_codes: vec![qr(1000, 1000, 5000, PageSelector::all())],
        vertreter: vec![],
        unit: LengthUnit::Points,
    };
    let image = generate_qr("https://z").unwrap();
    let report = stamp_document(&mut doc, &g, "0001", Some(&image), &vec![], true).unwrap();
    assert_eq!(report.stamped, vec![1, 2, 3]);
    for n in 1..=3 {
        assert_eq!(operators(&doc, n).iter().filter(|o| *o == "Do").count(), 1);
    }
}

#[test]
fn unresolved_font_draws_no_text() {
    let mut doc = template(1);
    let g = Config {
        qr_codes: vec![],
        vertreter: vec![text(1000, 1000, 9000, PageSelector::all(), "Arial", FontStyle::Bold)],
        unit: LengthUnit::Points,
    };
    let before = page_dict(&doc, 1);
    let report = stamp_document(&mut doc, &g, "0002", None, &vec![None], false).unwrap();
    assert!(report.resolved[0].is_none());
    assert!(!report.has_image);
    assert_eq!(report.stamped, Vec::<u32>::new());
    assert_eq!(operators(&doc, 1).iter().filter(|o| *o == "Tj").count(), 0);
    assert!(page_dict(&doc, 1) == before);
}

#[test]
fn found_font_file_is_embedded() {
    let mut doc = template(1);
    let g = Config {
        qr_codes: vec![],
        vertreter: vec![text(1000, 1000, 9000, PageSelector::all(), "My Font", FontStyle::Normal)],
        unit: LengthUnit::Points,
    };
    stamp_document(&mut doc, &g, "0003", None, &vec![Some(vec![1, 2, 3])], true).unwrap();
    let page = page_dict(&doc, 1);
    let res = page.get(b"Resources").unwrap().as_dict().unwrap();
    let fonts = res.get(b"Font").unwrap().as_dict().unwrap();
    let font = doc.get_dictionary(fonts.get(b"TTF1").unwrap().as_reference().unwrap()).unwrap();
    assert_eq!(font.get(b"Subtype").unwrap().as_name().unwrap(), b"TrueType");
    assert_eq!(font.get(b"BaseFont").unwrap().as_name().unwrap(), b"MyFont");
}

#[test]
fn unreadable_page_is_an_error() {
    let mut doc = template(1);
    let id = doc.get_pages()[&1];
    let mut page = doc.get_dictionary(id).unwrap().clone();
    page.set("Resources", Object::Integer(3));
    doc.objects.insert(id, Object::Dictionary(page));
    let g = Config {
        qr_codes: vec![qr(1000, 1000, 5000, PageSelector::all())],
        vertreter: vec![],
        unit: LengthUnit::Points,
    };
    let image = generate_qr("https://z").unwrap();
    let r = stamp_document(&mut doc, &g, "0001", Some(&image), &vec![], true);
    assert!(matches!(r, Err(bestellschein::pdf::StampError::ResourcesUnreadable(1))));
}

#[test]
fn page_without_content_gets_a_new_stream() {
    let mut doc = template(1);
    let id = doc.get_pages()[&1];
    let mut page = doc.get_dictionary(id).unwrap().clone();
    page.remove(b"Contents");
    doc.objects.insert(id, Object::Dictionary(page));
    let g = Config {
        qr_codes: vec![qr(1000, 1000, 5000, PageSelector::all())],
        vertreter: vec![],
        unit: LengthUnit::Points,
    };
    let image = generate_qr("https://z").unwrap();
    let report = stamp_document(&mut doc, &g, "0001", Some(&image), &vec![], true).unwrap();
    assert_eq!(report.stamped, vec![1]);
    assert_eq!(operators(&doc, 1), vec!["q", "cm", "Do", "Q"]);
}

#[test]
fn old_content_stays_in_front() {
    let mut doc = template(1);
    let g = Config {
        qr_codes: vec![],
        vertreter: vec![text(1000, 2000, 9000, PageSelector::all(), "Arial", FontStyle::Normal)],
        unit: LengthUnit::Points,
    };
    let before = doc.get_page_content(doc.get_pages()[&1]);
    let report = stamp_document(&mut doc, &g, "0042", None, &vec![None], true).unwrap();
    let after = doc.get_page_content(doc.get_pages()[&1]);
    assert!(after.starts_with(&before));
    let text = String::from_utf8(after[before.len()..].to_vec()).unwrap();
    assert_eq!(text, "\nBT\n/F1 9.000 Tf\n1.000 2.000 Td\n(0042) Tj\nET\n\n");
    assert_eq!(report.content_ids.len(), 1);
}

#[test]
fn stamping_twice_reuses_the_keys() {
    let mut doc = template(1);
    let g = Config {
        qr_codes: vec![qr(1000, 1000, 5000, PageSelector::all()), qr(9000, 1000, 5000, PageSelector::all())],
        vertreter: vec![text(1000, 2000, 9000, PageSelector::all(), "Arial", FontStyle::Bold)],
        unit: LengthUnit::Points,
    };
    let image = generate_qr("https://z").unwrap();
    stamp_document(&mut doc, &g, "0001", Some(&image), &vec![None], true).unwrap();
    stamp_document(&mut doc, &g, "0001", Some(&image), &vec![None], true).unwrap();
    let page = page_dict(&doc, 1);
    let res = page.get(b"Resources").unwrap().as_dict().unwrap();
    let xo = res.get(b"XObject").unwrap().as_dict().unwrap();
    assert_eq!(xo.len(), 2);
    let fonts = res.get(b"Font").unwrap().as_dict().unwrap();
    assert_eq!(fonts.len(), 1);
    let f1 = doc.get_dictionary(fonts.get(b"F1").unwrap().as_reference().unwrap()).unwrap();
    assert_eq!(f1.get(b"BaseFont").unwrap().as_name().unwrap(), b"Helvetica-Bold");
}

#[test]
fn no_room_for_new_objects() {
    let mut doc = template(1);
    doc.max_id = u32::MAX - 1;
    let g = Config {
        qr_codes: vec![qr(1000, 1000, 5000, PageSelector::all())],
        vertreter: vec![],
        unit: LengthUnit::Points,
    };
    let image = generate_qr("https://z").unwrap();
    let r = stamp_document(&mut doc, &g, "0001", Some(&image), &vec![], true);
    assert!(matches!(r, Err(bestellschein::pdf::StampError::NoRoom)));
}

#[test]
fn a_page_listed_twice_is_refused() {
    let mut doc = template(1);
    let pages_id = doc.catalog().unwrap().get(b"Pages").unwrap().as_reference().unwrap();
    let mut pages = doc.get_dictionary(pages_id).unwrap().clone();
    let kid = pages.get(b"Kids").unwrap().as_array().unwrap()[0].clone();
    pages.set("Kids", vec![kid.clone(), kid]);
    pages.set("Count", 2i64);
    doc.objects.insert(pages_id, Object::Dictionary(pages));
    let g = Config { qr_codes: vec![], vertreter: vec![], unit: LengthUnit::Points };
    let r = stamp_document(&mut doc, &g, "0001", None, &vec![], true);
    assert!(matches!(r, Err(bestellschein::pdf::StampError::RepeatedPage(2))));
}

#[test]
fn shared_resources_are_copied_onto_the_stamped_page() {
    let mut doc = template(2);
    let mut shared = Dictionary::new();
    let mut fonts = Dictionary::new();
    fonts.set("Fx", Object::Integer(1));
    shared.set("Font", fonts);
    let shared_id = doc.add_object(shared);
    for n in [1u32, 2] {
        let id = doc.get_pages()[&n];
        let mut page = doc.get_dictionary(id).unwrap().clone();
        page.set("Resources", shared_id);
        doc.objects.insert(id, Object::Dictionary(page));
    }
    let g = Config {
        qr_codes: vec![],
        vertreter: vec![text(1000, 1000, 9000, PageSelector::single(2), "Courier", FontStyle::Bold)],
        unit: LengthUnit::Points,
    };
    stamp_document(&mut doc, &g, "0009", None, &vec![None], true).unwrap();
    let shared_after = doc.get_dictionary(shared_id).unwrap();
    assert_eq!(shared_after.get(b"Font").unwrap().as_dict().unwrap().len(), 1);
    let p2 = page_dict(&doc, 2);
    let fonts2 = p2.get(b"Resources").unwrap().as_dict().unwrap().get(b"Font").unwrap().as_dict().unwrap().clone();
    assert!(fonts2.has(b"Fx"));
    let f1 = doc.get_dictionary(fonts2.get(b"F1").unwrap().as_reference().unwrap()).unwrap();
    assert_eq!(f1.get(b"BaseFont").unwrap().as_name().unwrap(), b"Courier-Bold");
    assert!(page_dict(&doc, 1).get(b"Resources").unwrap().as_reference().is_ok());
}

#[test]
fn group_default_geometries() {
    let d = bestellschein::defaults::default_geometry();
    assert_eq!((d.qr_codes[0].x, d.qr_codes[0].y, d.qr_codes[0].size), (50000, 50000, 18000));
    assert_eq!((d.vertreter[1].x, d.vertreter[1].y, d.vertreter[1].size), (100000, 650000, 10000));
    assert_eq!(d.vertreter[0].font_name, "Arial");
    let apo = bestellschein::defaults::get_group_default_config("APOTHEKEN", true);
    assert_eq!((apo.qr_codes[0].x, apo.qr_codes[0].y, apo.qr_codes[0].size), (80000, 70000, 22000));
    assert!(apo.qr_codes[0].pages.applies_to(2));
    assert!(apo.vertreter[0].pages.applies_to(2));
    assert!(!apo.vertreter[1].pages.applies_to(2));
    let end = bestellschein::defaults::get_group_default_config("Endkunde", true);
    assert_eq!((end.vertreter[0].x, end.vertreter[0].y), (90000, 120000));
    let other = bestellschein::defaults::get_group_default_config("Fachkreise", false);
    assert_eq!(other.qr_codes[0].size, 18000);
    assert!(!other.qr_codes[0].pages.applies_to(2));
}
