use ai_translate::config::Config;
use ai_translate::langs::{base, detect_source, lang_name, resolve_langs};

fn cfg(source: &str, target: &str) -> Config {
    let mut c = Config::default();
    c.source_lang = source.to_string();
    c.target_lang = target.to_string();
    c
}

#[test]
fn base_strips_region() {
    assert_eq!(base("zh-CN"), "zh");
    assert_eq!(base("en"), "en");
    assert_eq!(base("-x"), "");
    assert_eq!(base(""), "");
}

#[test]
fn detects_scripts() {
    assert_eq!(detect_source("hello world"), "en");
    assert_eq!(detect_source("你好世界"), "zh-CN");
    assert_eq!(detect_source("こんにちは"), "ja");
    assert_eq!(detect_source("안녕하세요"), "ko");
    assert_eq!(detect_source(""), "en");
    assert_eq!(detect_source("12345 !?"), "en");
}

#[test]
fn detection_weighs_han_against_latin() {
    // 1 Han char vs 3 Latin letters: 1 * 3 >= 3.
    assert_eq!(detect_source("中abc"), "zh-CN");
    // 1 Han char vs 4 Latin letters.
    assert_eq!(detect_source("中abcd"), "en");
    // Hangul wins only when at least as frequent as Han.
    assert_eq!(detect_source("中中한"), "zh-CN");
    assert_eq!(detect_source("中한"), "ko");
}

#[test]
fn names_of_languages() {
    assert_eq!(lang_name("zh-CN"), "Chinese (Simplified)");
    assert_eq!(lang_name("en"), "English");
    assert_eq!(lang_name("ja"), "Japanese");
    assert_eq!(lang_name("ko"), "Korean");
    assert_eq!(lang_name("fr-FR"), "French");
    assert_eq!(lang_name("de"), "German");
    assert_eq!(lang_name("es"), "Spanish");
    assert_eq!(lang_name("ru"), "Russian");
    assert_eq!(lang_name("auto"), "the source language");
    assert_eq!(lang_name("pt-BR"), "pt");
}

#[test]
fn auto_source_is_detected() {
    assert_eq!(resolve_langs(&cfg("auto", "zh-CN"), "hello"), ("en".to_string(), "zh-CN".to_string()));
    assert_eq!(resolve_langs(&cfg(" AuTo ", "ja"), "hello"), ("en".to_string(), "ja".to_string()));
    assert_eq!(resolve_langs(&cfg("", "ja"), "hello"), ("en".to_string(), "ja".to_string()));
}

#[test]
fn same_language_flips_target() {
    // Chinese text with a Chinese target flips to English.
    assert_eq!(resolve_langs(&cfg("auto", "zh-CN"), "你好"), ("zh-CN".to_string(), "en".to_string()));
    // English text with an English target flips to Simplified Chinese.
    assert_eq!(resolve_langs(&cfg("auto", "en-US"), "hello"), ("en".to_string(), "zh-CN".to_string()));
}

#[test]
fn blank_target_means_english() {
    assert_eq!(resolve_langs(&cfg("fr", "  "), "bonjour"), ("fr".to_string(), "en".to_string()));
}

#[test]
fn explicit_source_is_kept() {
    assert_eq!(resolve_langs(&cfg("de", "fr"), "你好"), ("de".to_string(), "fr".to_string()));
}
