use ai_translate::shortcuts::{
    action_for, action_id, cand, extract_quoted, is_kde_desktop, kde_shortcuts, key_accepted,
    portal_shortcuts, Action, ShortcutMonitor, ALT, COMPONENT, CTRL, META, SHIFT,
};

#[test]
fn key_codes() {
    assert_eq!(cand(META, 'E', "Meta+E"), ("Meta+E", 0x1000_0045));
    assert_eq!(cand(CTRL | ALT, 'S', "Ctrl+Alt+S"), ("Ctrl+Alt+S", 0x0C00_0053));
    let (_, code) = cand(META | SHIFT, 'O', "Meta+Shift+O");
    assert_eq!(code & 0x01FF_FFFF, 'O' as i32);
    assert_eq!(code & !0x01FF_FFFF, META | SHIFT);
}

#[test]
fn kde_table() {
    let t = kde_shortcuts();
    let ids: Vec<&str> = t.iter().map(|s| s.id).collect();
    assert_eq!(ids, vec!["translate_selection", "translate_ocr", "translate_popup"]);
    let labels: Vec<&str> = t[2].candidates.iter().map(|c| c.0).collect();
    assert_eq!(labels, vec!["Meta+T", "Ctrl+Alt+G", "Meta+Shift+T", "Ctrl+Alt+T"]);
    assert_eq!(t[0].candidates[2].1, META | ('S' as i32));
    let id = action_id(&t[1]);
    assert_eq!(
        id,
        vec![
            "io.github.lue.AiTranslate",
            "translate_ocr",
            "AI Translate",
            "Capture a screen region, OCR and translate"
        ]
    );
}

#[test]
fn accepted_keys() {
    assert!(key_accepted(&vec![42, 7], 42));
    assert!(!key_accepted(&vec![7], 42));
    assert!(!key_accepted(&vec![], 42));
    assert!(key_accepted(&vec![], 0));
}

#[test]
fn portal_table() {
    let p = portal_shortcuts();
    assert_eq!(p.len(), 3);
    assert_eq!(p[1].id, "translate_ocr");
    assert_eq!(p[1].preferred_trigger, "CTRL+ALT+O");
}

#[test]
fn actions() {
    assert!(matches!(action_for("translate_selection"), Action::Selection));
    assert!(matches!(action_for("translate_ocr"), Action::Ocr));
    assert!(matches!(action_for("translate_popup"), Action::Popup));
    assert!(matches!(action_for("whatever"), Action::Popup));
    assert_eq!(Action::Selection.arg(), "selection");
    assert_eq!(Action::Ocr.arg(), "ocr");
    assert_eq!(Action::Popup.arg(), "popup");
}

#[test]
fn desktops() {
    assert!(is_kde_desktop("KDE"));
    assert!(is_kde_desktop("kde"));
    assert!(is_kde_desktop("ubuntu:KDE"));
    assert!(!is_kde_desktop("GNOME"));
    assert!(!is_kde_desktop(""));
}

#[test]
fn quoted_text() {
    assert_eq!(extract_quoted(r#"  STRING "abc" ;"#).as_deref(), Some("abc"));
    assert_eq!(extract_quoted(r#"a "" b"#).as_deref(), Some(""));
    assert_eq!(extract_quoted(r#"only "one"#), None);
    assert_eq!(extract_quoted("none"), None);
    assert_eq!(extract_quoted(r#""x" "y""#).as_deref(), Some("x"));
}

#[test]
fn monitor_reports_presses() {
    let mut m = ShortcutMonitor::new();
    assert!(m.feed(r#"STRING "ignored";"#).is_none());
    assert!(m.feed("‣ Type=signal  Member=globalShortcutPressed").is_none());
    assert!(m.feed("  MESSAGE \"ssx\" {").is_none());
    assert!(m.feed(&format!("    STRING \"{}\";", COMPONENT)).is_none());
    match m.feed("    STRING \"translate_ocr\";") {
        Some((id, a)) => {
            assert_eq!(id, "translate_ocr");
            assert!(matches!(a, Action::Ocr));
        }
        None => panic!("expected a press"),
    }
    // Further strings after the press are ignored.
    assert!(m.feed("    STRING \"translate_selection\";").is_none());
}

#[test]
fn monitor_ignores_other_components() {
    let mut m = ShortcutMonitor::new();
    assert!(m.feed("Member=globalShortcutPressed").is_none());
    assert!(m.feed("STRING \"org.kde.kwin\";").is_none());
    assert!(m.feed("STRING \"Window Close\";").is_none());
    assert!(m.feed("STRING \"translate_ocr\";").is_none());
    // A new press starts over.
    assert!(m.feed("Member=globalShortcutPressed").is_none());
    assert!(m.feed(&format!("STRING \"{}\";", COMPONENT)).is_none());
    assert!(matches!(m.feed("STRING \"translate_selection\";"), Some((_, Action::Selection))));
}
