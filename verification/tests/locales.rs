use mempalace_core::locales::{
    available_locales, classify_char_script, detect_language_heuristic, detect_language_sample,
    get_merged_patterns, resolve, script_to_locale, EntityPatterns, LocaleData, LocaleRegistry,
};

fn patterns(candidate: &str, dialogue: &[&str], stopwords: &[&str]) -> EntityPatterns {
    EntityPatterns {
        candidate_pattern: candidate.to_string(),
        multi_word_pattern: String::new(),
        person_verb_patterns: Vec::new(),
        pronoun_patterns: Vec::new(),
        dialogue_patterns: dialogue.iter().map(|s| s.to_string()).collect(),
        direct_address_pattern: String::new(),
        project_verb_patterns: Vec::new(),
        stopwords: stopwords.iter().map(|s| s.to_string()).collect(),
        boundary_chars: String::new(),
    }
}

fn registry() -> LocaleRegistry {
    let labels = [
        ("en", "English"),
        ("fr", "Français"),
        ("de", "Deutsch"),
        ("es", "Español"),
        ("ja", "日本語"),
        ("zh-CN", "简体中文"),
        ("ko", "한국어"),
        ("ru", "Русский"),
        ("pt-BR", "Português (Brasil)"),
        ("it", "Italiano"),
        ("id", "Bahasa Indonesia"),
        ("zh-TW", "繁體中文"),
        ("be", "Беларуская"),
    ];
    let entries = labels
        .iter()
        .map(|(code, label)| {
            (
                code.to_string(),
                LocaleData {
                    lang: code.to_string(),
                    label: label.to_string(),
                    script: "latin".to_string(),
                    entity: patterns(&format!("cand-{code}"), &["^>\\s*{name}[:\\s]"], &[code]),
                },
            )
        })
        .collect();
    LocaleRegistry::new(entries)
}

#[test]
fn test_resolve_exact() {
    let reg = registry();
    let locale = resolve(&reg, "en");
    assert_eq!(locale.lang, "en");
    assert_eq!(locale.label, "English");
}

#[test]
fn test_resolve_case_insensitive() {
    let reg = registry();
    let locale = resolve(&reg, "EN");
    assert_eq!(locale.lang, "en");
    let reg = registry();
    let locale = resolve(&reg, "ZH-CN");
    assert_eq!(locale.lang, "zh-CN");
    let reg = registry();
    let locale = resolve(&reg, "zh-cn");
    assert_eq!(locale.lang, "zh-CN");
}

#[test]
fn test_resolve_fallback_to_english() {
    let reg = registry();
    let locale = resolve(&reg, "xx");
    assert_eq!(locale.lang, "en");
}

#[test]
fn test_resolve_partial_subtag() {
    // "zh" should match "zh-CN"
    let reg = registry();
    let locale = resolve(&reg, "zh");
    assert_eq!(locale.lang, "zh-CN");
}

#[test]
fn test_detect_english() {
    let lang = detect_language_heuristic("The quick brown fox jumps over the lazy dog");
    assert_eq!(lang, "en");
}

#[test]
fn test_detect_russian() {
    let lang =
        detect_language_heuristic("Привет, как дела? Это тест для определения языка текста.");
    assert_eq!(lang, "ru");
}

#[test]
fn test_detect_chinese() {
    let lang = detect_language_heuristic("这是一个中文文本测试，用于检测语言");
    assert_eq!(lang, "zh-CN");
}

#[test]
fn test_detect_japanese() {
    // Japanese text with hiragana + kanji
    let lang = detect_language_heuristic("これはテストです。日本語のテキストを検出します。");
    assert_eq!(lang, "ja");
}

#[test]
fn test_detect_korean() {
    let lang =
        detect_language_heuristic("이것은 한국어 텍스트입니다. 언어 감지 테스트를 합니다.");
    assert_eq!(lang, "ko");
}

#[test]
fn test_detect_french() {
    // French text with accented characters
    let lang = detect_language_heuristic(
        "Bonjour, comment allez-vous aujourd'hui? C'est une belle journée à Paris.",
    );
    assert_eq!(lang, "en"); // Latin script defaults to en for heuristic
}

#[test]
fn test_script_classification() {
    assert_eq!(classify_char_script('A'), Some("latin"));
    assert_eq!(classify_char_script('А'), Some("cyrillic")); // Cyrillic A
    assert_eq!(classify_char_script('あ'), Some("hiragana"));
    assert_eq!(classify_char_script('ア'), Some("katakana"));
    assert_eq!(classify_char_script('한'), Some("hangul"));
    assert_eq!(classify_char_script('中'), Some("cjk"));
    assert_eq!(classify_char_script(' '), None);
    assert_eq!(classify_char_script('1'), None);
}

#[test]
fn test_detect_language_sample() {
    // Use enough English text so the first 200 chars are clearly English.
    let long_text = "The quick brown fox jumps over the lazy dog. How vexingly quick daft zebras jump! The five boxing wizards jump quickly. Sphinx of black quartz, judge my vow. Pack my box with five dozen liquor jugs. привет мир";
    let detected = detect_language_sample(long_text, 200);
    // The English portion dominates the first 200 chars.
    assert_eq!(detected, "en");
}

#[test]
fn test_cjk_ja_vs_zh() {
    // Pure hiragana -> ja
    let lang = detect_language_heuristic("すもももももももものうち");
    assert_eq!(lang, "ja");

    // Pure kanji -> zh-CN
    let lang = detect_language_heuristic("中华人民共和国");
    assert_eq!(lang, "zh-CN");
}

#[test]
fn test_empty_text_defaults_to_english() {
    let lang = detect_language_heuristic("");
    assert_eq!(lang, "en");
}

#[test]
fn test_available_locales_count() {
    let locales = available_locales();
    assert_eq!(locales.len(), 13);
    assert!(locales.contains(&"en"));
    assert!(locales.contains(&"fr"));
    assert!(locales.contains(&"de"));
    assert!(locales.contains(&"es"));
    assert!(locales.contains(&"ja"));
    assert!(locales.contains(&"zh-CN"));
    assert!(locales.contains(&"ko"));
    assert!(locales.contains(&"ru"));
    assert!(locales.contains(&"pt-BR"));
    assert!(locales.contains(&"it"));
    assert!(locales.contains(&"id"));
    assert!(locales.contains(&"zh-TW"));
    assert!(locales.contains(&"be"));
}

#[test]
fn merged_patterns_dedup_and_union() {
    let reg = registry();
    let merged = get_merged_patterns(&reg, &["en", "fr", "de"]);
    assert!(merged.stopwords.contains(&"en".to_string()));
    assert!(merged.stopwords.contains(&"fr".to_string()));
    assert!(merged.stopwords.contains(&"de".to_string()));
    let count = merged
        .dialogue_patterns
        .iter()
        .filter(|p| *p == "^>\\s*{name}[:\\s]")
        .count();
    assert_eq!(count, 1);
    assert_eq!(merged.candidate_patterns, vec!["cand-en", "cand-fr", "cand-de"]);
}

#[test]
fn merged_patterns_keep_first_occurrence_order() {
    let reg = registry();
    let merged = get_merged_patterns(&reg, &["de", "en", "de"]);
    assert_eq!(merged.stopwords, vec!["de".to_string(), "en".to_string()]);
    assert_eq!(merged.candidate_patterns, vec!["cand-de", "cand-en"]);
}

#[test]
fn auto_patterns_follow_detected_language() {
    let reg = registry();
    let p = mempalace_core::locales::auto_patterns(&reg, "Привет мир, это тест на русском языке.");
    assert_eq!(p.candidate_patterns, vec!["cand-ru"]);
}

#[test]
fn detection_tie_goes_to_first_script() {
    assert_eq!(detect_language_heuristic("ab中文"), "en");
    assert_eq!(detect_language_heuristic("中文ab"), "zh-CN");
}

#[test]
fn script_to_locale_maps_labels() {
    assert_eq!(script_to_locale("hangul"), "ko");
    assert_eq!(script_to_locale("katakana"), "ja");
    assert_eq!(script_to_locale("cyrillic"), "ru");
    assert_eq!(script_to_locale("unknown"), "en");
}
