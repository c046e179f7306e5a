use bestellschein::lang::{
    get_language_code_variants, get_preferred_language_codes, isolated_token_present,
    language_match_score,
};
use bestellschein::naming::{
    find_best_template, find_best_template_in_dir, get_configured_output_dir_with_debug,
    list_template_candidates, resolve_template_path_with_debug,
    capitalize_first, detect_language_code, format_duration, get_default_csv_path,
    get_default_selections, get_default_template_path, get_progress_filename,
    get_resume_filename, get_stop_status_filename, infer_group_lang_from_template,
};
use bestellschein::session::{
    get_current_config_path, get_current_selections, set_current_config_path,
    set_current_selections, Session,
};

#[test]
fn default_paths() {
    assert_eq!(get_default_csv_path("Apo"), "Data/Vertreternummern-Apo.CSV");
    assert_eq!(get_default_csv_path("Endkunde"), "Data/Vertreternummern.csv");
    assert_eq!(get_default_template_path(), "VORLAGE/Bestellschein-Endkunde-de_de.pdf");
    let s = get_default_selections();
    assert_eq!(s.len(), 1);
    assert_eq!(s[0].0, "Data/Vertreternummern.csv");
    assert_eq!(s[0].1, "VORLAGE/Bestellschein-Endkunde-de_de.pdf");
    assert!(s[0].2);
}

#[test]
fn state_file_names_are_lowercased() {
    assert_eq!(get_progress_filename("Apo", "Deutsch", true), "progress_apo_deutsch__messe.txt");
    assert_eq!(get_stop_status_filename("Endkunde", "Englisch", false), "stop_status_endkunde_englisch_.txt");
    assert_eq!(get_resume_filename("ÄPO", "EN", false), "resume_äpo_en_.txt");
}

#[test]
fn capitalize_first_uppercases_one_character() {
    assert_eq!(capitalize_first("endkunde"), "Endkunde");
    assert_eq!(capitalize_first(""), "");
    assert_eq!(capitalize_first("ßx"), "SSx");
    assert_eq!(capitalize_first("äpo"), "Äpo");
}

#[test]
fn durations() {
    assert_eq!(format_duration(3723), "1h 2m 3s");
    assert_eq!(format_duration(3600), "1h 0m 0s");
    assert_eq!(format_duration(125), "2m 5s");
    assert_eq!(format_duration(5), "5s");
    assert_eq!(format_duration(0), "0s");
}

#[test]
fn preferred_codes() {
    assert_eq!(get_preferred_language_codes("Englisch"), vec!["en_us", "en"]);
    assert_eq!(get_preferred_language_codes("Französisch"), vec!["fr_fr", "fr"]);
    assert_eq!(get_preferred_language_codes("Deutsch"), vec!["de_de", "de"]);
    assert_eq!(get_preferred_language_codes("IT_IT"), vec!["it_it"]);
    assert_eq!(get_preferred_language_codes("Italiano"), vec!["de_de", "de"]);
}

#[test]
fn code_variants() {
    assert_eq!(get_language_code_variants("Deutsch"), vec!["de_de", "de", "DE"]);
    assert_eq!(get_language_code_variants("EN"), vec!["en_us", "en", "EN"]);
    assert_eq!(get_language_code_variants("IT"), vec!["it", "IT"]);
    assert_eq!(get_language_code_variants("pt_br"), vec!["pt_br"]);
    assert_eq!(get_language_code_variants("Italiano"), vec!["it_it", "it", "IT"]);
    assert_eq!(get_language_code_variants("x"), vec!["x_x", "x", "X"]);
}

#[test]
fn isolated_tokens() {
    assert!(isolated_token_present("bestellschein-endkunde-en.pdf", "en"));
    assert!(!isolated_token_present("bestellschein-endkunde.pdf", "en"));
    assert!(isolated_token_present("en_us", "en"));
    assert!(!isolated_token_present("abc", ""));
    assert!(!isolated_token_present("e", "en"));
}

#[test]
fn language_scores() {
    assert_eq!(language_match_score("bestellschein-endkunde-en_us.pdf", "Englisch"), 54);
    assert_eq!(language_match_score("bestellschein-endkunde-de_de.pdf", "Englisch"), 10);
    assert_eq!(language_match_score("plain.pdf", "Deutsch"), 0);
}

#[test]
fn language_detection_order() {
    assert_eq!(detect_language_code("Deutsch", Some("VORLAGE/Bestellschein-Endkunde-en_us.pdf"), None), "en_us");
    assert_eq!(detect_language_code("Englisch", Some("VORLAGE/Bestellschein-Messe-de_de-messe.pdf"), None), "de_de");
    assert_eq!(detect_language_code("Deutsch", Some("x/Bestellschein.pdf"), Some("Data/names_en.csv")), "en_us");
    assert_eq!(detect_language_code("English", None, None), "en_us");
    assert_eq!(detect_language_code("Italiano", None, Some("data.csv")), "de_de");
}

#[test]
fn template_names_give_group_language_and_variant() {
    let (g, l, m) = infer_group_lang_from_template("VORLAGE/Bestellschein-Messe-Apo-en_us.pdf");
    assert_eq!((g.as_str(), l.as_str(), m), ("Apo", "Englisch", true));
    let (g, l, m) = infer_group_lang_from_template("Bestellschein-Fachkreise-de_de.pdf");
    assert_eq!((g.as_str(), l.as_str(), m), ("Fachkreise", "Deutsch", false));
    let (g, l, m) = infer_group_lang_from_template("other.pdf");
    assert_eq!((g.as_str(), l.as_str(), m), ("Endkunde", "Deutsch", false));
}

#[test]
fn session_holds_selections_and_config_path() {
    let mut s = Session::new();
    assert!(get_current_selections(&s).is_none());
    assert!(get_current_config_path(&s).is_none());
    set_current_selections(&mut s, vec![("a.csv".to_string(), "t.pdf".to_string(), false)]);
    set_current_config_path(&mut s, "Config/config_apo.toml");
    let got = get_current_selections(&s).unwrap();
    assert_eq!(got, vec![("a.csv".to_string(), "t.pdf".to_string(), false)]);
    assert_eq!(get_current_config_path(&s).unwrap(), "Config/config_apo.toml");
}

#[test]
fn template_candidates_in_order() {
    assert_eq!(
        list_template_candidates("End kunde", "Deutsch", false),
        vec![
            "VORLAGE/Bestellschein-Endkunde-de_de.pdf",
            "VORLAGE/Bestellschein-Endkunde-de.pdf",
            "VORLAGE/Bestellschein-Endkunde.pdf",
            "VORLAGE/Bestellscheine-Endkunde.pdf",
        ]
    );
    let m = list_template_candidates("Apo", "Englisch", true);
    assert_eq!(m.len(), 8);
    assert_eq!(m[0], "VORLAGE/Bestellschein-Messe-Apo-en_us.pdf");
    assert_eq!(m[1], "VORLAGE/Bestellschein-Messe-Apo-en_us.pdf");
    assert_eq!(m[2], "VORLAGE/Bestellschein-Messe-Apo-en.pdf");
    assert_eq!(m[4], "VORLAGE/Bestellschein-Apo-en_us.pdf");
    assert_eq!(list_template_candidates("apo", "fr", false)[0], "VORLAGE/Bestellschein-Apo-fr.pdf");
}

#[test]
fn best_template_is_the_first_existing_candidate() {
    let existing = vec![
        "VORLAGE/Bestellschein-Endkunde.pdf".to_string(),
        "VORLAGE/Bestellschein-Endkunde-de.pdf".to_string(),
        "VORLAGE/Bestellschein-Endkunde-de_at.pdf".to_string(),
        "VORLAGE/Bestellschein-Messe-Endkunde-de.pdf".to_string(),
    ];
    assert_eq!(find_best_template("Endkunde", "Deutsch", None, &existing).unwrap(), "VORLAGE/Bestellschein-Endkunde-de.pdf");
    assert_eq!(find_best_template("Endkunde", "Deutsch", Some("AT"), &existing).unwrap(), "VORLAGE/Bestellschein-Endkunde-de_at.pdf");
    assert_eq!(find_best_template("Endkunde", "Deutsch", Some("Messe"), &existing).unwrap(), "VORLAGE/Bestellschein-Messe-Endkunde-de.pdf");
    assert!(find_best_template("Apo", "Deutsch", None, &existing).is_none());
    let in_dir = vec!["T/Bestellschein-Messe-Apo.pdf".to_string()];
    assert_eq!(find_best_template_in_dir("Apo", "English", Some("messe"), "T", &in_dir).unwrap(), "T/Bestellschein-Messe-Apo.pdf");
    assert!(find_best_template_in_dir("Apo", "English", None, "T", &in_dir).is_none());
}

#[test]
fn template_paths_resolve_into_the_templates_folder() {
    assert_eq!(resolve_template_path_with_debug("VORLAGE/Bestellschein-Apo-de_de.pdf", "/opt/app/VORLAGE"), "/opt/app/VORLAGE/Bestellschein-Apo-de_de.pdf");
    assert_eq!(resolve_template_path_with_debug("/abs/x.pdf", "/opt"), "/abs/x.pdf");
    assert_eq!(resolve_template_path_with_debug("Data/VORLAGE/x.pdf", "T"), "T/x.pdf");
    assert_eq!(resolve_template_path_with_debug("C:\\t\\x.pdf", "T"), "C:\\t\\x.pdf");
}

#[test]
fn output_folders() {
    assert_eq!(get_configured_output_dir_with_debug(false, "", "Apo", "Englisch", true, "/exe", "/exe/OUTPUT"), "/exe/OUTPUT/Messe_Apo/EN");
    assert_eq!(get_configured_output_dir_with_debug(false, "", "Apo", "Deutsch", false, "/exe", "/exe/OUTPUT"), "/exe/OUTPUT/Apo/DE");
    assert_eq!(get_configured_output_dir_with_debug(true, "out", "Apo", "Deutsch", false, "/exe", "/exe/OUTPUT"), "/exe/out");
    assert_eq!(get_configured_output_dir_with_debug(true, "", "Apo", "en_us", false, "/exe", "/o"), "/o/Apo/EN");
    assert_eq!(get_configured_output_dir_with_debug(true, "/abs", "Apo", "Deutsch", false, "/exe", "/o"), "/abs");
}
