//! The user's settings that the translation logic reads.
use vstd::prelude::*;

use crate::text::owned;

verus! {

/// Persistent user configuration (`~/.config/ai-translate/config.toml`).
///
/// The font size, a floating-point display setting, is kept by the
/// application around this value.
pub struct Config {
    /// Active backend: "mymemory" (free, no key) | "ai" (your key) | "libre" | "google"
    pub provider: String,
    /// source language code, or "auto"
    pub source_lang: String,
    /// target language code (e.g. "zh-CN", "en")
    pub target_lang: String,
    /// tesseract language(s) for OCR, e.g. "eng" or "eng+chi_sim"
    pub ocr_langs: String,
    /// OpenAI-compatible AI backend; must include the version path,
    /// "/chat/completions" is appended.
    pub ai_base_url: String,
    pub ai_model: String,
    pub ai_key: String,
    /// LibreTranslate endpoint + optional key (used when provider = "libre").
    pub libre_url: String,
    pub libre_key: String,
    /// Proxy that every backend goes through; empty for a direct connection.
    pub proxy_url: String,
}

/// The settings of a first run.
pub open spec fn is_default_config(c: Config) -> bool {
    &&& c.provider@ == "mymemory"@
    &&& c.source_lang@ == "auto"@
    &&& c.target_lang@ == "zh-CN"@
    &&& c.ocr_langs@ == "eng"@
    &&& c.ai_base_url@ == "https://api.deepseek.com/v1"@
    &&& c.ai_model@ == "deepseek-chat"@
    &&& c.ai_key@ == Seq::<char>::empty()
    &&& c.libre_url@ == "https://translate.disroot.org"@
    &&& c.libre_key@ == Seq::<char>::empty()
    &&& c.proxy_url@ == Seq::<char>::empty()
}

impl Default for Config {
    fn default() -> (c: Self)
        ensures
            is_default_config(c),
    {
        Config {
            provider: owned("mymemory"),
            source_lang: owned("auto"),
            target_lang: owned("zh-CN"),
            ocr_langs: owned("eng"),
            ai_base_url: owned("https://api.deepseek.com/v1"),
            ai_model: owned("deepseek-chat"),
            ai_key: String::new(),
            libre_url: owned("https://translate.disroot.org"),
            libre_key: String::new(),
            proxy_url: String::new(),
        }
    }
}

/// The languages after the "⇄" button: swapped, an empty source becoming "auto".
pub open spec fn swapped_langs(source: Seq<char>, target: Seq<char>) -> (Seq<char>, Seq<char>) {
    (
        if target.len() == 0 {
            "auto"@
        } else {
            target
        },
        source,
    )
}

impl Config {
    /// The "⇄" button: swap source and target; an empty source becomes "auto".
    pub fn swap_languages(&mut self)
        ensures
            (final(self).source_lang@, final(self).target_lang@) == swapped_langs(
                old(self).source_lang@,
                old(self).target_lang@,
            ),
            final(self).provider == old(self).provider,
            final(self).ocr_langs == old(self).ocr_langs,
            final(self).ai_base_url == old(self).ai_base_url,
            final(self).ai_model == old(self).ai_model,
            final(self).ai_key == old(self).ai_key,
            final(self).libre_url == old(self).libre_url,
            final(self).libre_key == old(self).libre_key,
            final(self).proxy_url == old(self).proxy_url,
    {
        std::mem::swap(&mut self.source_lang, &mut self.target_lang);
        if self.source_lang.as_str().is_empty() {
            self.source_lang = owned("auto");
        }
    }
}

/// Swapping twice gives back both languages when neither was empty.
pub proof fn law_swap_twice(source: Seq<char>, target: Seq<char>)
    requires
        source.len() > 0,
        target.len() > 0,
    ensures
        swapped_langs(swapped_langs(source, target).0, swapped_langs(source, target).1) == (
            source,
            target,
        ),
{
}

} // verus!
