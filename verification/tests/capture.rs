use ai_translate::capture::{check_capture, ocr_text, read_primary, CaptureError};
use ai_translate::panel::PanelState;

#[test]
fn first_nonblank_selection_wins() {
    let outs = vec![None, Some("  \n".to_string()), Some(" hi \n".to_string()), Some("x".to_string())];
    assert_eq!(read_primary(&outs).ok().unwrap(), " hi \n");
}

#[test]
fn no_selection() {
    let e = read_primary(&vec![None, Some(String::new())]).err().unwrap();
    assert!(matches!(e, CaptureError::NoSelection));
    assert_eq!(e.message(), "no text selected (PRIMARY selection and clipboard are empty)");
    assert!(read_primary(&vec![]).is_err());
}

#[test]
fn capture_outcomes() {
    let e = check_capture(false, true).err().unwrap();
    assert_eq!(e.message(), "region capture was cancelled");
    let e = check_capture(true, false).err().unwrap();
    assert_eq!(e.message(), "no region was captured");
    assert!(check_capture(true, true).is_ok());
}

#[test]
fn ocr_outcomes() {
    assert_eq!(ocr_text(true, "\n  Hello\nworld \n\u{c}", "").ok().unwrap(), "Hello\nworld");
    let e = ocr_text(true, " \n", "").err().unwrap();
    assert_eq!(
        e.message(),
        "OCR found no text in the captured region (try a clearer area or add a language pack)"
    );
    let e = ocr_text(false, "x", "bad lang").err().unwrap();
    assert_eq!(e.message(), "tesseract failed: bad lang");
}

#[test]
fn panel_flow() {
    let mut p = PanelState::new("  ".to_string(), true);
    assert!(!p.starts_at_once(true));
    assert!(p.start().is_none());
    assert!(!p.busy);
    p.input = "hello".to_string();
    assert!(p.starts_at_once(true));
    assert!(!p.starts_at_once(false));
    assert_eq!(p.start().as_deref(), Some("hello"));
    assert!(p.busy);
    assert_eq!(p.status, "Translating…");
    assert!(p.finish(Ok("你好".to_string())));
    assert_eq!(p.status, "Copied to clipboard");
    assert_eq!(p.result, "你好");
    assert!(!p.busy);
    assert_eq!(p.copyable().map(|s| s.as_str()), Some("你好"));
    p.start();
    assert!(p.copyable().is_none());
    assert!(!p.finish(Err("boom".to_string())));
    assert_eq!(p.status, "Error: boom");
}

#[test]
fn panel_without_auto_copy() {
    let mut p = PanelState::new("x".to_string(), false);
    p.start();
    assert!(!p.finish(Ok("y".to_string())));
    assert_eq!(p.status, "");
    p.start();
    assert!(!PanelState::new(String::new(), true).finish(Ok(String::new())));
    p.abandon();
    assert!(!p.busy);
}
