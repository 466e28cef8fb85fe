//! Language codes: base language, script-based detection, display names, and
//! the choice of source and target for one request.
use vstd::prelude::*;

use crate::config::Config;
use crate::text::{
    ascii_lower, chars_of, is_ascii_letter, owned, same_chars, string_of, trim,
    trim_bounds,
};

verus! {

broadcast use vstd::string::group_string_axioms;

// ---------- base language ----------

/// Length of the part of `s` before its first '-'.
pub open spec fn base_len(s: Seq<char>) -> nat
    decreases s.len(),
{
    if s.len() == 0 {
        0
    } else if s[0] == '-' {
        0
    } else {
        1 + base_len(s.drop_first())
    }
}

/// The base language of a code: everything before the first '-' ("zh-CN" -> "zh").
pub open spec fn base_of(s: Seq<char>) -> Seq<char> {
    s.take(base_len(s) as int)
}

pub proof fn lemma_base_len(s: Seq<char>)
    ensures
        base_len(s) <= s.len(),
        forall|k: int| 0 <= k < base_len(s) ==> s[k] != '-',
        base_len(s) < s.len() ==> s[base_len(s) as int] == '-',
    decreases s.len(),
{
    if s.len() > 0 && s[0] != '-' {
        lemma_base_len(s.drop_first());
        assert forall|k: int| 0 <= k < base_len(s) implies s[k] != '-' by {
            if k > 0 {
                assert(s[k] == s.drop_first()[k - 1]);
            }
        }
    }
}

/// The base language of a code is the part of it before its first '-': a
/// prefix of the code without any '-', which is the whole code or is followed
/// in it by a '-'.
pub proof fn law_base_before_dash(s: Seq<char>)
    ensures
        base_of(s).len() <= s.len(),
        base_of(s) == s.take(base_of(s).len() as int),
        forall|k: int| 0 <= k < base_of(s).len() ==> #[trigger] base_of(s)[k] != '-',
        base_of(s).len() < s.len() ==> s[base_of(s).len() as int] == '-',
{
    lemma_base_len(s);
}

/// Index of the first '-' in `v`, or its length.
fn base_end(v: &Vec<char>) -> (e: usize)
    ensures
        e == base_len(v@),
{
    let mut i: usize = 0;
    while i < v.len() && v[i] != '-'
        invariant
            0 <= i <= v.len(),
            forall|k: int| 0 <= k < i ==> v@[k] != '-',
        decreases v.len() - i,
    {
        i = i + 1;
    }
    proof {
        lemma_base_len(v@);
        let b = base_len(v@);
        if b < i {
            assert(v@[b as int] != '-');
        }
        if i < b {
            assert(v@[i as int] != '-');
        }
    }
    i
}

/// The base language of `code`.
pub fn base(code: &str) -> (r: String)
    ensures
        r@ == base_of(code@),
{
    let v = chars_of(code);
    let e = base_end(&v);
    proof {
        lemma_base_len(v@);
    }
    string_of(&v, 0, e)
}

fn base_chars(v: &Vec<char>) -> (r: Vec<char>)
    ensures
        r@ == base_of(v@),
{
    let e = base_end(v);
    proof {
        lemma_base_len(v@);
    }
    let mut r: Vec<char> = Vec::new();
    let mut i: usize = 0;
    while i < e
        invariant
            e == base_len(v@),
            e <= v.len(),
            0 <= i <= e,
            r@ == v@.take(i as int),
        decreases e - i,
    {
        r.push(v[i]);
        assert(v@.take(i + 1) =~= v@.take(i as int).push(v@[i as int]));
        i = i + 1;
    }
    r
}

/// Base languages of the codes this library produces itself.
pub proof fn lemma_known_bases()
    ensures
        base_of("en"@) == "en"@,
        base_of("zh-CN"@) == "zh"@,
{
    reveal_strlit("en");
    reveal_strlit("zh-CN");
    reveal_strlit("zh");
    reveal_with_fuel(base_len, 4);
    assert("zh-CN"@.drop_first().drop_first()[0] == '-');
    assert(base_len("zh-CN"@.drop_first().drop_first()) == 0);
    assert(base_len("zh-CN"@) == 2);
    assert("zh-CN"@.take(2) =~= "zh"@);
    assert("en"@.drop_first().drop_first().len() == 0);
    assert(base_len("en"@) == 2);
    assert("en"@.take(2) =~= "en"@);
}

// ---------- script detection ----------

/// The writing systems that detection tells apart.
pub enum Script {
    Han,
    Kana,
    Hangul,
    Latin,
    Other,
}

/// The script of one character.
pub open spec fn script_of(c: char) -> Script {
    let u = c as u32;
    if 0x4E00 <= u <= 0x9FFF {
        Script::Han
    } else if 0x3040 <= u <= 0x30FF {
        Script::Kana
    } else if 0xAC00 <= u <= 0xD7AF {
        Script::Hangul
    } else if is_ascii_letter(c) {
        Script::Latin
    } else {
        Script::Other
    }
}

/// How many characters of `s` are written in script `k`.
pub open spec fn count_script(s: Seq<char>, k: Script) -> nat
    decreases s.len(),
{
    if s.len() == 0 {
        0
    } else {
        count_script(s.drop_last(), k) + if script_of(s.last()) == k {
            1nat
        } else {
            0nat
        }
    }
}

/// The language code that cheap script-based detection gives `s`.
pub open spec fn detected(s: Seq<char>) -> Seq<char> {
    let han = count_script(s, Script::Han);
    let kana = count_script(s, Script::Kana);
    let hangul = count_script(s, Script::Hangul);
    let latin = count_script(s, Script::Latin);
    if hangul > 0 && hangul >= han {
        "ko"@
    } else if kana > 0 {
        "ja"@
    } else if han > 0 && han * 3 >= latin {
        "zh-CN"@
    } else {
        "en"@
    }
}

pub proof fn lemma_count_le(s: Seq<char>, k: Script)
    ensures
        count_script(s, k) <= s.len(),
    decreases s.len(),
{
    if s.len() > 0 {
        lemma_count_le(s.drop_last(), k);
    }
}

/// Cheap script-based language detection for the common CJK/Latin cases.
pub fn detect_source(text: &str) -> (r: &'static str)
    ensures
        r@ == detected(text@),
{
    let v = chars_of(text);
    let mut han: usize = 0;
    let mut kana: usize = 0;
    let mut hangul: usize = 0;
    let mut latin: usize = 0;
    let mut i: usize = 0;
    while i < v.len()
        invariant
            0 <= i <= v.len(),
            han == count_script(v@.take(i as int), Script::Han),
            kana == count_script(v@.take(i as int), Script::Kana),
            hangul == count_script(v@.take(i as int), Script::Hangul),
            latin == count_script(v@.take(i as int), Script::Latin),
        decreases v.len() - i,
    {
        let c = v[i];
        let u = c as u32;
        proof {
            assert(v@.take(i + 1).drop_last() =~= v@.take(i as int));
            assert(v@.take(i + 1).last() == c);
            lemma_count_le(v@.take(i as int), Script::Han);
            lemma_count_le(v@.take(i as int), Script::Kana);
            lemma_count_le(v@.take(i as int), Script::Hangul);
            lemma_count_le(v@.take(i as int), Script::Latin);
        }
        if 0x4E00 <= u && u <= 0x9FFF {
            han = han + 1;
        } else if 0x3040 <= u && u <= 0x30FF {
            kana = kana + 1;
        } else if 0xAC00 <= u && u <= 0xD7AF {
            hangul = hangul + 1;
        } else if ('a' <= c && c <= 'z') || ('A' <= c && c <= 'Z') {
            latin = latin + 1;
        }
        i = i + 1;
    }
    assert(v@.take(v@.len() as int) =~= v@);
    if hangul > 0 && hangul >= han {
        "ko"
    } else if kana > 0 {
        "ja"
    } else if han > 0 && (han as u128) * 3 >= latin as u128 {
        "zh-CN"
    } else {
        "en"
    }
}

/// Detection always answers one of four codes, and text without any CJK or
/// Hangul characters is taken for English.
pub proof fn law_detected_codes(s: Seq<char>)
    ensures
        detected(s) == "ko"@ || detected(s) == "ja"@ || detected(s) == "zh-CN"@ || detected(s)
            == "en"@,
        count_script(s, Script::Han) == 0 && count_script(s, Script::Kana) == 0 && count_script(
            s,
            Script::Hangul,
        ) == 0 ==> detected(s) == "en"@,
{
}

/// Some character of `s` is written in script `k` exactly when `s` counts one.
pub proof fn lemma_count_script_some(s: Seq<char>, k: Script)
    ensures
        count_script(s, k) > 0 <==> exists|i: int| 0 <= i < s.len() && script_of(#[trigger] s[i]) == k,
    decreases s.len(),
{
    if s.len() > 0 {
        let t = s.drop_last();
        lemma_count_script_some(t, k);
        if count_script(t, k) > 0 {
            let i = choose|i: int| 0 <= i < t.len() && script_of(#[trigger] t[i]) == k;
            assert(s[i] == t[i]);
        }
        if exists|i: int| 0 <= i < s.len() && script_of(#[trigger] s[i]) == k {
            let i = choose|i: int| 0 <= i < s.len() && script_of(#[trigger] s[i]) == k;
            if i < s.len() - 1 {
                assert(t[i] == s[i]);
            }
        }
    }
}

/// Kana (U+3040 to U+30FF) make a text Japanese, however many Han characters
/// stand beside them, unless Hangul (U+AC00 to U+D7AF) outnumbers or matches
/// the Han characters; in particular whenever there is no Hangul at all.
pub proof fn law_kana_means_japanese(s: Seq<char>)
    requires
        exists|i: int| 0 <= i < s.len() && 0x3040 <= #[trigger] (s[i] as u32) <= 0x30FF,
    ensures
        (forall|i: int| 0 <= i < s.len() ==> !(0xAC00 <= #[trigger] (s[i] as u32) <= 0xD7AF))
            ==> detected(s) == "ja"@,
        count_script(s, Script::Hangul) < count_script(s, Script::Han) ==> detected(s) == "ja"@,
        count_script(s, Script::Hangul) == 0 ==> detected(s) == "ja"@,
{
    let i = choose|i: int| 0 <= i < s.len() && 0x3040 <= #[trigger] (s[i] as u32) <= 0x30FF;
    assert(script_of(s[i]) == Script::Kana);
    lemma_count_script_some(s, Script::Kana);
    lemma_count_script_some(s, Script::Hangul);
    if forall|i: int| 0 <= i < s.len() ==> !(0xAC00 <= #[trigger] (s[i] as u32) <= 0xD7AF) {
        if count_script(s, Script::Hangul) > 0 {
            let j = choose|j: int| 0 <= j < s.len() && script_of(#[trigger] s[j]) == Script::Hangul;
            assert(!(0xAC00 <= (s[j] as u32) <= 0xD7AF));
        }
    }
}

/// Hangul (U+AC00 to U+D7AF) makes a text Korean when it matches or outnumbers
/// the Han characters (U+4E00 to U+9FFF), whatever else the text holds.
pub proof fn law_hangul_means_korean(s: Seq<char>)
    requires
        exists|i: int| 0 <= i < s.len() && 0xAC00 <= #[trigger] (s[i] as u32) <= 0xD7AF,
    ensures
        count_script(s, Script::Hangul) >= count_script(s, Script::Han) ==> detected(s) == "ko"@,
        (forall|i: int| 0 <= i < s.len() ==> !(0x4E00 <= #[trigger] (s[i] as u32) <= 0x9FFF))
            ==> detected(s) == "ko"@,
{
    let i = choose|i: int| 0 <= i < s.len() && 0xAC00 <= #[trigger] (s[i] as u32) <= 0xD7AF;
    assert(script_of(s[i]) == Script::Hangul);
    lemma_count_script_some(s, Script::Hangul);
    lemma_count_script_some(s, Script::Han);
    if forall|i: int| 0 <= i < s.len() ==> !(0x4E00 <= #[trigger] (s[i] as u32) <= 0x9FFF) {
        if count_script(s, Script::Han) > 0 {
            let j = choose|j: int| 0 <= j < s.len() && script_of(#[trigger] s[j]) == Script::Han;
            assert(0x4E00 <= (s[j] as u32) <= 0x9FFF);
        }
    }
}

/// Han characters (U+4E00 to U+9FFF) without kana or Hangul make a text
/// Simplified Chinese when at least a third as many as its ASCII letters;
/// with no ASCII letter at all, always.
pub proof fn law_han_means_chinese(s: Seq<char>)
    requires
        exists|i: int| 0 <= i < s.len() && 0x4E00 <= #[trigger] (s[i] as u32) <= 0x9FFF,
        forall|i: int| 0 <= i < s.len() ==> !(0x3040 <= #[trigger] (s[i] as u32) <= 0x30FF),
        forall|i: int| 0 <= i < s.len() ==> !(0xAC00 <= #[trigger] (s[i] as u32) <= 0xD7AF),
    ensures
        count_script(s, Script::Han) * 3 >= count_script(s, Script::Latin) ==> detected(s)
            == "zh-CN"@,
        count_script(s, Script::Han) * 3 < count_script(s, Script::Latin) ==> detected(s) == "en"@,
        (forall|i: int| 0 <= i < s.len() ==> !(('a' <= #[trigger] s[i] <= 'z') || ('A' <= s[i] <= 'Z')))
            ==> detected(s) == "zh-CN"@,
{
    let i = choose|i: int| 0 <= i < s.len() && 0x4E00 <= #[trigger] (s[i] as u32) <= 0x9FFF;
    assert(script_of(s[i]) == Script::Han);
    lemma_count_script_some(s, Script::Han);
    lemma_count_script_some(s, Script::Kana);
    lemma_count_script_some(s, Script::Hangul);
    lemma_count_script_some(s, Script::Latin);
    if count_script(s, Script::Kana) > 0 {
        let j = choose|j: int| 0 <= j < s.len() && script_of(#[trigger] s[j]) == Script::Kana;
        assert(0x3040 <= (s[j] as u32) <= 0x30FF);
    }
    if count_script(s, Script::Hangul) > 0 {
        let j = choose|j: int| 0 <= j < s.len() && script_of(#[trigger] s[j]) == Script::Hangul;
        assert(0xAC00 <= (s[j] as u32) <= 0xD7AF);
    }
    if forall|i: int| 0 <= i < s.len() ==> !(('a' <= #[trigger] s[i] <= 'z') || ('A' <= s[i] <= 'Z')) {
        if count_script(s, Script::Latin) > 0 {
            let j = choose|j: int| 0 <= j < s.len() && script_of(#[trigger] s[j]) == Script::Latin;
            assert(is_ascii_letter(s[j]));
        }
    }
}

/// Text with no Han character, kana or Hangul is taken for English.
pub proof fn law_no_cjk_means_english(s: Seq<char>)
    requires
        forall|i: int| 0 <= i < s.len() ==> !(0x4E00 <= #[trigger] (s[i] as u32) <= 0x9FFF),
        forall|i: int| 0 <= i < s.len() ==> !(0x3040 <= #[trigger] (s[i] as u32) <= 0x30FF),
        forall|i: int| 0 <= i < s.len() ==> !(0xAC00 <= #[trigger] (s[i] as u32) <= 0xD7AF),
    ensures
        detected(s) == "en"@,
{
    lemma_count_script_some(s, Script::Han);
    lemma_count_script_some(s, Script::Kana);
    lemma_count_script_some(s, Script::Hangul);
    if count_script(s, Script::Han) > 0 {
        let j = choose|j: int| 0 <= j < s.len() && script_of(#[trigger] s[j]) == Script::Han;
        assert(0x4E00 <= (s[j] as u32) <= 0x9FFF);
    }
    if count_script(s, Script::Kana) > 0 {
        let j = choose|j: int| 0 <= j < s.len() && script_of(#[trigger] s[j]) == Script::Kana;
        assert(0x3040 <= (s[j] as u32) <= 0x30FF);
    }
    if count_script(s, Script::Hangul) > 0 {
        let j = choose|j: int| 0 <= j < s.len() && script_of(#[trigger] s[j]) == Script::Hangul;
        assert(0xAC00 <= (s[j] as u32) <= 0xD7AF);
    }
}

proof fn lemma_count_script_filter(s: Seq<char>, k: Script, p: spec_fn(char) -> bool)
    requires
        forall|c: char| #[trigger] p(c) == (script_of(c) == k),
    ensures
        count_script(s, k) == s.filter(p).len(),
    decreases s.len(),
{
    reveal(Seq::filter);
    if s.len() > 0 {
        lemma_count_script_filter(s.drop_last(), k, p);
    }
}

/// Detection counts the Han characters (U+4E00 to U+9FFF), the kana (U+3040
/// to U+30FF), the Hangul syllables (U+AC00 to U+D7AF) and the ASCII letters
/// of the text. Hangul that matches or outnumbers the Han characters makes it
/// Korean; else any kana makes it Japanese; else Han characters make it
/// Simplified Chinese when they number at least a third of the ASCII letters;
/// anything else is English.
pub proof fn law_detection_by_counts(s: Seq<char>)
    ensures
        ({
            let han = s.filter(|c: char| 0x4E00 <= (c as u32) <= 0x9FFF).len();
            let kana = s.filter(|c: char| 0x3040 <= (c as u32) <= 0x30FF).len();
            let hangul = s.filter(|c: char| 0xAC00 <= (c as u32) <= 0xD7AF).len();
            let latin = s.filter(|c: char| ('a' <= c <= 'z') || ('A' <= c <= 'Z')).len();
            &&& hangul > 0 && hangul >= han ==> detected(s) == "ko"@
            &&& !(hangul > 0 && hangul >= han) && kana > 0 ==> detected(s) == "ja"@
            &&& !(hangul > 0 && hangul >= han) && kana == 0 && han > 0 && han * 3 >= latin
                ==> detected(s) == "zh-CN"@
            &&& !(hangul > 0 && hangul >= han) && kana == 0 && !(han > 0 && han * 3 >= latin)
                ==> detected(s) == "en"@
        }),
{
    lemma_count_script_filter(s, Script::Han, |c: char| 0x4E00 <= (c as u32) <= 0x9FFF);
    lemma_count_script_filter(s, Script::Kana, |c: char| 0x3040 <= (c as u32) <= 0x30FF);
    lemma_count_script_filter(s, Script::Hangul, |c: char| 0xAC00 <= (c as u32) <= 0xD7AF);
    lemma_count_script_filter(s, Script::Latin, |c: char| ('a' <= c <= 'z') || ('A' <= c <= 'Z'));
}

// ---------- display names ----------

/// The name of a language as written in a prompt.
pub open spec fn lang_name_of(code: Seq<char>) -> Seq<char> {
    let b = base_of(code);
    if b == "zh"@ {
        "Chinese (Simplified)"@
    } else if b == "en"@ {
        "English"@
    } else if b == "ja"@ {
        "Japanese"@
    } else if b == "ko"@ {
        "Korean"@
    } else if b == "fr"@ {
        "French"@
    } else if b == "de"@ {
        "German"@
    } else if b == "es"@ {
        "Spanish"@
    } else if b == "ru"@ {
        "Russian"@
    } else if b == "auto"@ {
        "the source language"@
    } else {
        b
    }
}

fn is_lit(v: &Vec<char>, lit: &str) -> (r: bool)
    ensures
        r == (v@ == lit@),
{
    same_chars(v, &chars_of(lit))
}

/// The name of the language `code` (by its base language).
pub fn lang_name(code: &str) -> (r: String)
    ensures
        r@ == lang_name_of(code@),
{
    let v = chars_of(code);
    let b = base_chars(&v);
    if is_lit(&b, "zh") {
        owned("Chinese (Simplified)")
    } else if is_lit(&b, "en") {
        owned("English")
    } else if is_lit(&b, "ja") {
        owned("Japanese")
    } else if is_lit(&b, "ko") {
        owned("Korean")
    } else if is_lit(&b, "fr") {
        owned("French")
    } else if is_lit(&b, "de") {
        owned("German")
    } else if is_lit(&b, "es") {
        owned("Spanish")
    } else if is_lit(&b, "ru") {
        owned("Russian")
    } else if is_lit(&b, "auto") {
        owned("the source language")
    } else {
        string_of(&b, 0, b.len())
    }
}

// ---------- source and target of a request ----------

/// Whether `t` is "auto", ignoring ASCII case.
pub open spec fn is_auto(t: Seq<char>) -> bool {
    &&& t.len() == 4
    &&& ascii_lower(t[0]) == 'a'
    &&& ascii_lower(t[1]) == 'u'
    &&& ascii_lower(t[2]) == 't'
    &&& ascii_lower(t[3]) == 'o'
}

fn same_letter(c: char, l: char) -> (r: bool)
    requires
        'a' <= l <= 'z',
    ensures
        r == (ascii_lower(c) == l),
{
    c == l || ('A' <= c && c <= 'Z' && (c as u32) + 32 == (l as u32))
}

/// The source language to use: the configured one, or the detected one when
/// it is blank or "auto".
pub open spec fn source_for(source: Seq<char>, text: Seq<char>) -> Seq<char> {
    let t = trim(source);
    if t.len() == 0 || is_auto(t) {
        detected(text)
    } else {
        source
    }
}

/// (source, target) for a request: "auto" is resolved by detection, a blank
/// target means English, and when source and target share a base language the
/// target flips (English -> Simplified Chinese, anything else -> English).
pub open spec fn resolved_langs(source: Seq<char>, target: Seq<char>, text: Seq<char>) -> (
    Seq<char>,
    Seq<char>,
) {
    let tgt = if trim(target).len() == 0 {
        "en"@
    } else {
        target
    };
    let src = source_for(source, text);
    if base_of(src) == base_of(tgt) {
        (
            src,
            if base_of(src) == "en"@ {
                "zh-CN"@
            } else {
                "en"@
            },
        )
    } else {
        (src, tgt)
    }
}

/// Resolve (source, target) for a request.
pub fn resolve_langs(cfg: &Config, text: &str) -> (r: (String, String))
    ensures
        (r.0@, r.1@) == resolved_langs(cfg.source_lang@, cfg.target_lang@, text@),
{
    let tv = chars_of(cfg.target_lang.as_str());
    let (tb, te) = trim_bounds(&tv, 0, tv.len());
    assert(tv@.subrange(0, tv@.len() as int) =~= tv@);
    let tgt = if tb == te {
        owned("en")
    } else {
        cfg.target_lang.clone()
    };
    let sv = chars_of(cfg.source_lang.as_str());
    let (sb, se) = trim_bounds(&sv, 0, sv.len());
    assert(sv@.subrange(0, sv@.len() as int) =~= sv@);
    let auto = se - sb == 4 && same_letter(sv[sb], 'a') && same_letter(sv[sb + 1], 'u')
        && same_letter(sv[sb + 2], 't') && same_letter(sv[sb + 3], 'o');
    let src = if sb == se || auto {
        owned(detect_source(text))
    } else {
        cfg.source_lang.clone()
    };
    let src_base = base_chars(&chars_of(src.as_str()));
    let tgt_base = base_chars(&chars_of(tgt.as_str()));
    if same_chars(&src_base, &tgt_base) {
        if is_lit(&src_base, "en") {
            (src, owned("zh-CN"))
        } else {
            (src, owned("en"))
        }
    } else {
        (src, tgt)
    }
}

/// The source and target of a request never share a base language (so a
/// selection is always translated into something else).
pub proof fn law_resolved_langs_differ(source: Seq<char>, target: Seq<char>, text: Seq<char>)
    ensures
        base_of(resolved_langs(source, target, text).0) != base_of(
            resolved_langs(source, target, text).1,
        ),
{
    lemma_known_bases();
    reveal_strlit("en");
    reveal_strlit("zh");
}

/// With "auto" (in any case, surrounded by any whitespace) or a blank source,
/// the source is the detected language.
pub proof fn law_auto_detects(source: Seq<char>, text: Seq<char>)
    requires
        trim(source).len() == 0 || is_auto(trim(source)),
    ensures
        source_for(source, text) == detected(text),
{
}

/// A blank target means English.
pub proof fn law_blank_target(source: Seq<char>, target: Seq<char>, text: Seq<char>)
    requires
        trim(target).len() == 0,
        base_of(source_for(source, text)) != "en"@,
    ensures
        resolved_langs(source, target, text).1 == "en"@,
{
    lemma_known_bases();
}

/// When the source and a non-blank target share a base language, the target
/// flips: to English, unless that base language is English itself, and then
/// to Simplified Chinese. The source stays as it was resolved.
pub proof fn law_same_base_flips(source: Seq<char>, target: Seq<char>, text: Seq<char>)
    requires
        trim(target).len() > 0,
        base_of(source_for(source, text)) == base_of(target),
    ensures
        resolved_langs(source, target, text).0 == source_for(source, text),
        base_of(target) != "en"@ ==> resolved_langs(source, target, text).1 == "en"@,
        base_of(target) == "en"@ ==> resolved_langs(source, target, text).1 == "zh-CN"@,
{
}

/// A non-blank target whose base language differs from the source's is kept
/// as written.
pub proof fn law_other_base_kept(source: Seq<char>, target: Seq<char>, text: Seq<char>)
    requires
        trim(target).len() > 0,
        base_of(source_for(source, text)) != base_of(target),
    ensures
        resolved_langs(source, target, text) == (source_for(source, text), target),
{
}

/// A source that is neither blank nor "auto" (in any ASCII case, around any
/// whitespace) is used as written, and the text plays no part in the result.
pub proof fn law_explicit_source_kept(source: Seq<char>, target: Seq<char>, text: Seq<char>, other: Seq<char>)
    requires
        trim(source).len() > 0,
        !is_auto(trim(source)),
    ensures
        resolved_langs(source, target, text).0 == source,
        resolved_langs(source, target, text) == resolved_langs(source, target, other),
{
}

/// A blank target stands for English, so English text with a blank target is
/// translated into Simplified Chinese.
pub proof fn law_blank_target_english_source(source: Seq<char>, target: Seq<char>, text: Seq<char>)
    requires
        trim(target).len() == 0,
        base_of(source_for(source, text)) == "en"@,
    ensures
        resolved_langs(source, target, text).1 == "zh-CN"@,
{
    lemma_known_bases();
}

} // verus!
