use ai_translate::chunk::{chunk_text, hard_split, split_units};

#[test]
fn units_end_after_delimiters() {
    let units = split_units("Hello. How are you?\nFine");
    assert_eq!(units, vec!["Hello.", " How are you?", "\n", "Fine"]);
}

#[test]
fn units_keep_cjk_delimiters() {
    let units = split_units("你好。再见！");
    assert_eq!(units, vec!["你好。", "再见！"]);
}

#[test]
fn units_of_empty_text() {
    assert!(split_units("").is_empty());
}

#[test]
fn units_without_delimiter() {
    assert_eq!(split_units("no end"), vec!["no end"]);
}

#[test]
fn hard_split_respects_bytes() {
    // "é" is 2 bytes in UTF-8.
    let pieces = hard_split("ééé", 4);
    assert_eq!(pieces, vec!["éé", "é"]);
}

#[test]
fn hard_split_lone_wide_char() {
    let pieces = hard_split("中a", 2);
    assert_eq!(pieces, vec!["中", "a"]);
}

#[test]
fn chunks_pack_units() {
    let chunks = chunk_text("Aa. Bb. Cc.", 8);
    assert_eq!(chunks, vec!["Aa. Bb.", " Cc."]);
    assert_eq!(chunks.concat(), "Aa. Bb. Cc.");
}

#[test]
fn chunks_hard_split_long_unit() {
    let chunks = chunk_text("ab. abcdefgh", 4);
    assert_eq!(chunks, vec!["ab.", " abc", "defg", "h"]);
}

#[test]
fn chunks_cover_and_bound() {
    let text = "Sentence one is here. Another sentence follows! And a third? Yes.\nNew line; end";
    for max in [5usize, 12, 20, 480] {
        let chunks = chunk_text(text, max);
        assert_eq!(chunks.concat(), text);
        for c in &chunks {
            assert!(!c.is_empty());
            assert!(c.len() <= max || c.chars().count() == 1);
        }
    }
}

#[test]
fn short_text_is_one_chunk() {
    assert_eq!(chunk_text("short", 480), vec!["short"]);
}
