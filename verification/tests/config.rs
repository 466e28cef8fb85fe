use ai_translate::config::Config;

#[test]
fn default_config() {
    let c = Config::default();
    assert_eq!(c.provider, "mymemory");
    assert_eq!(c.source_lang, "auto");
    assert_eq!(c.target_lang, "zh-CN");
    assert_eq!(c.ocr_langs, "eng");
    assert_eq!(c.ai_base_url, "https://api.deepseek.com/v1");
    assert_eq!(c.ai_model, "deepseek-chat");
    assert_eq!(c.ai_key, "");
    assert_eq!(c.libre_url, "https://translate.disroot.org");
    assert_eq!(c.libre_key, "");
    assert_eq!(c.proxy_url, "");
}

#[test]
fn swap_languages() {
    let mut c = Config::default();
    c.source_lang = "en".to_string();
    c.target_lang = "fr".to_string();
    c.swap_languages();
    assert_eq!((c.source_lang.as_str(), c.target_lang.as_str()), ("fr", "en"));
    c.swap_languages();
    assert_eq!((c.source_lang.as_str(), c.target_lang.as_str()), ("en", "fr"));
}

#[test]
fn swap_with_empty_target_gives_auto() {
    let mut c = Config::default();
    c.source_lang = "en".to_string();
    c.target_lang = String::new();
    c.swap_languages();
    assert_eq!(c.source_lang, "auto");
    assert_eq!(c.target_lang, "en");
}
