//! Global shortcuts: the actions they start, the keys offered to KDE's
//! KGlobalAccel, the shortcuts bound through the desktop portal, and the
//! reader of `busctl monitor` output that turns key presses into actions.
use vstd::prelude::*;

use crate::text::{
    chars_of, contains, contains_text, find_char, first_index, owned, str_eq, string_of,
};

verus! {

broadcast use vstd::string::group_string_axioms;

/// The component name under which the shortcuts are registered.
pub const COMPONENT: &'static str = "io.github.lue.AiTranslate";

/// The component's name as shown in System Settings.
pub const COMPONENT_FRIENDLY: &'static str = "AI Translate";

/// Qt keyboard modifier flags.
pub const SHIFT: i32 = 0x0200_0000;

pub const CTRL: i32 = 0x0400_0000;

pub const ALT: i32 = 0x0800_0000;

pub const META: i32 = 0x1000_0000;

/// What a shortcut starts: a sub-command of the program.
#[derive(Clone, Copy)]
pub enum Action {
    Selection,
    Ocr,
    Popup,
}

/// The action of a shortcut id; unknown ids open the popup.
pub open spec fn action_of(id: Seq<char>) -> Action {
    if id == "translate_selection"@ {
        Action::Selection
    } else if id == "translate_ocr"@ {
        Action::Ocr
    } else {
        Action::Popup
    }
}

/// The action that the shortcut `id` starts.
pub fn action_for(id: &str) -> (r: Action)
    ensures
        r == action_of(id@),
{
    if str_eq(id, "translate_selection") {
        Action::Selection
    } else if str_eq(id, "translate_ocr") {
        Action::Ocr
    } else {
        Action::Popup
    }
}

impl Action {
    /// The sub-command that performs the action.
    pub fn arg(&self) -> (r: &'static str)
        ensures
            r@ == match *self {
                Action::Selection => "selection"@,
                Action::Ocr => "ocr"@,
                Action::Popup => "popup"@,
            },
    {
        match self {
            Action::Selection => "selection",
            Action::Ocr => "ocr",
            Action::Popup => "popup",
        }
    }
}

// ---------- KDE key candidates ----------

/// A candidate key: its label and its Qt key code (modifiers | character).
pub fn cand(mods: i32, c: char, label: &'static str) -> (r: (&'static str, i32))
    ensures
        r.0 == label,
        r.1 == mods | (c as i32),
{
    (label, mods | (c as i32))
}

/// A key code keeps both its modifiers and its character apart: the low 25
/// bits are the character, the rest are the modifiers.
pub proof fn law_key_code_parts(mods: i32, c: char)
    requires
        mods & 0x01FF_FFFF == 0,
    ensures
        (mods | (c as i32)) & 0x01FF_FFFF == c as i32,
        (mods | (c as i32)) & !0x01FF_FFFFi32 == mods,
{
    let x = c as i32;
    assert(0 <= x <= 0x10FFFF);
    assert((mods | x) & 0x01FF_FFFF == x && (mods | x) & !0x01FF_FFFFi32 == mods) by (bit_vector)
        requires
            mods & 0x01FF_FFFF == 0,
            0 <= x <= 0x10FFFF,
    ;
}

/// A shortcut to register with KGlobalAccel, with the keys to try in order.
pub struct KdeShortcut {
    pub id: &'static str,
    pub friendly: &'static str,
    pub candidates: Vec<(&'static str, i32)>,
}

/// The id, label and codes of the candidates of the shortcuts, as registered.
pub open spec fn kde_table() -> Seq<(Seq<char>, Seq<(Seq<char>, i32)>)> {
    seq![
        ("translate_selection"@, seq![
            ("Meta+E"@, META | ('E' as i32)),
            ("Ctrl+Alt+E"@, (CTRL | ALT) | ('E' as i32)),
            ("Meta+S"@, META | ('S' as i32)),
            ("Ctrl+Alt+S"@, (CTRL | ALT) | ('S' as i32)),
        ]),
        ("translate_ocr"@, seq![
            ("Meta+R"@, META | ('R' as i32)),
            ("Ctrl+Alt+R"@, (CTRL | ALT) | ('R' as i32)),
            ("Meta+Shift+O"@, (META | SHIFT) | ('O' as i32)),
            ("Ctrl+Alt+O"@, (CTRL | ALT) | ('O' as i32)),
        ]),
        ("translate_popup"@, seq![
            ("Meta+T"@, META | ('T' as i32)),
            ("Ctrl+Alt+G"@, (CTRL | ALT) | ('G' as i32)),
            ("Meta+Shift+T"@, (META | SHIFT) | ('T' as i32)),
            ("Ctrl+Alt+T"@, (CTRL | ALT) | ('T' as i32)),
        ]),
    ]
}

pub open spec fn candidates_view(c: Seq<(&'static str, i32)>) -> Seq<(Seq<char>, i32)> {
    c.map_values(|p: (&'static str, i32)| (p.0@, p.1))
}

/// The shortcuts registered on KDE.
pub fn kde_shortcuts() -> (r: Vec<KdeShortcut>)
    ensures
        r@.len() == 3,
        forall|i: int|
            0 <= i < 3 ==> (#[trigger] r@[i]).id@ == kde_table()[i].0 && candidates_view(
                r@[i].candidates@,
            ) == kde_table()[i].1,
        r@[0].friendly@ == "Translate the selected text"@,
        r@[1].friendly@ == "Capture a screen region, OCR and translate"@,
        r@[2].friendly@ == "Open the translate popup"@,
{
    let mut sel: Vec<(&'static str, i32)> = Vec::new();
    sel.push(cand(META, 'E', "Meta+E"));
    sel.push(cand(CTRL | ALT, 'E', "Ctrl+Alt+E"));
    sel.push(cand(META, 'S', "Meta+S"));
    sel.push(cand(CTRL | ALT, 'S', "Ctrl+Alt+S"));
    let mut ocr: Vec<(&'static str, i32)> = Vec::new();
    ocr.push(cand(META, 'R', "Meta+R"));
    ocr.push(cand(CTRL | ALT, 'R', "Ctrl+Alt+R"));
    ocr.push(cand(META | SHIFT, 'O', "Meta+Shift+O"));
    ocr.push(cand(CTRL | ALT, 'O', "Ctrl+Alt+O"));
    let mut popup: Vec<(&'static str, i32)> = Vec::new();
    popup.push(cand(META, 'T', "Meta+T"));
    popup.push(cand(CTRL | ALT, 'G', "Ctrl+Alt+G"));
    popup.push(cand(META | SHIFT, 'T', "Meta+Shift+T"));
    popup.push(cand(CTRL | ALT, 'T', "Ctrl+Alt+T"));
    proof {
        assert(candidates_view(sel@) =~= kde_table()[0].1);
        assert(candidates_view(ocr@) =~= kde_table()[1].1);
        assert(candidates_view(popup@) =~= kde_table()[2].1);
    }
    let mut r: Vec<KdeShortcut> = Vec::new();
    r.push(
        KdeShortcut {
            id: "translate_selection",
            friendly: "Translate the selected text",
            candidates: sel,
        },
    );
    r.push(
        KdeShortcut {
            id: "translate_ocr",
            friendly: "Capture a screen region, OCR and translate",
            candidates: ocr,
        },
    );
    r.push(
        KdeShortcut {
            id: "translate_popup",
            friendly: "Open the translate popup",
            candidates: popup,
        },
    );
    r
}

/// The action id that KGlobalAccel takes: component, shortcut id, and their display names.
pub fn action_id(s: &KdeShortcut) -> (r: Vec<String>)
    ensures
        r@.len() == 4,
        r@[0]@ == COMPONENT@,
        r@[1]@ == s.id@,
        r@[2]@ == COMPONENT_FRIENDLY@,
        r@[3]@ == s.friendly@,
{
    let mut r: Vec<String> = Vec::new();
    r.push(owned(COMPONENT));
    r.push(owned(s.id));
    r.push(owned(COMPONENT_FRIENDLY));
    r.push(owned(s.friendly));
    r
}

/// `setShortcut` flags: IsDefault | SetPresent | NoAutoloading. SetPresent is
/// what activates the key grab.
pub const SET_SHORTCUT_FLAGS: u32 = 7;

/// Whether KGlobalAccel gave the requested key: the first key it reports
/// assigned (0 when none) is `code`.
pub fn key_accepted(assigned: &Vec<i32>, code: i32) -> (r: bool)
    ensures
        r == ((if assigned@.len() > 0 {
            assigned@[0]
        } else {
            0
        }) == code),
{
    let first = if assigned.len() > 0 {
        assigned[0]
    } else {
        0
    };
    first == code
}

// ---------- the portal ----------

/// A shortcut bound through the XDG GlobalShortcuts portal.
pub struct PortalShortcut {
    pub id: &'static str,
    pub description: &'static str,
    pub preferred_trigger: &'static str,
}

/// The shortcuts bound through the portal.
pub fn portal_shortcuts() -> (r: Vec<PortalShortcut>)
    ensures
        r@.len() == 3,
        r@[0].id@ == "translate_selection"@,
        r@[0].description@ == "Translate the selected text"@,
        r@[0].preferred_trigger@ == "CTRL+ALT+S"@,
        r@[1].id@ == "translate_ocr"@,
        r@[1].description@ == "Capture a screen region, OCR and translate"@,
        r@[1].preferred_trigger@ == "CTRL+ALT+O"@,
        r@[2].id@ == "translate_popup"@,
        r@[2].description@ == "Open the translate popup"@,
        r@[2].preferred_trigger@ == "CTRL+ALT+T"@,
{
    let mut r: Vec<PortalShortcut> = Vec::new();
    r.push(
        PortalShortcut {
            id: "translate_selection",
            description: "Translate the selected text",
            preferred_trigger: "CTRL+ALT+S",
        },
    );
    r.push(
        PortalShortcut {
            id: "translate_ocr",
            description: "Capture a screen region, OCR and translate",
            preferred_trigger: "CTRL+ALT+O",
        },
    );
    r.push(
        PortalShortcut {
            id: "translate_popup",
            description: "Open the translate popup",
            preferred_trigger: "CTRL+ALT+T",
        },
    );
    r
}

// ---------- which desktop ----------

/// What `str::to_uppercase` gives for `s`.
pub uninterp spec fn uppercase_of(s: Seq<char>) -> Seq<char>;

/// Calls `str::to_uppercase`. The contract names the result, a function of
/// the text alone, without restating Unicode's case mappings.
#[verifier::external_body]
fn to_uppercase(s: &str) -> (r: String)
    ensures
        r@ == uppercase_of(s@),
{
    s.to_uppercase()
}

/// Whether the session's `XDG_CURRENT_DESKTOP` names KDE.
pub fn is_kde_desktop(desktop: &str) -> (r: bool)
    ensures
        r == contains_text(uppercase_of(desktop@), "KDE"@),
{
    let up = to_uppercase(desktop);
    contains(up.as_str(), "KDE")
}

// ---------- reading `busctl monitor` ----------

/// The text between the first two '"' of `line`.
pub open spec fn quoted_of(line: Seq<char>) -> Option<Seq<char>> {
    match first_index(line, '"') {
        Some(start) => {
            let rest = line.skip(start + 1);
            match first_index(rest, '"') {
                Some(end) => Some(rest.take(end)),
                None => None,
            }
        },
        None => None,
    }
}

/// The text between the first two '"' of `line`, if it has two.
pub fn extract_quoted(line: &str) -> (r: Option<String>)
    ensures
        match r {
            Some(s) => quoted_of(line@) == Some(s@),
            None => quoted_of(line@) is None,
        },
{
    let v = chars_of(line);
    proof {
        assert(v@.skip(0) =~= v@);
    }
    let start = match find_char(&v, 0, '"') {
        Some(i) => i,
        None => {
            return None;
        },
    };
    let ghost rest = line@.skip(start + 1);
    let end = match find_char(&v, start + 1, '"') {
        Some(j) => j,
        None => {
            assert(first_index(rest, '"') is None);
            return None;
        },
    };
    let r = string_of(&v, start + 1, end);
    proof {
        assert(first_index(line@, '"') == Some(start as int));
        assert(first_index(rest, '"') == Some(end - (start + 1)));
        assert(rest.take(end - (start + 1)) =~= r@);
    }
    Some(r)
}

/// The reader's state: whether a press signal is being read, and the string
/// arguments seen since it began.
pub struct ShortcutMonitor {
    capturing: bool,
    strings: Vec<String>,
}

/// One line of monitor output: the next state and the press it completes, if any.
pub open spec fn monitor_step(capturing: bool, strings: Seq<Seq<char>>, line: Seq<char>) -> (
    bool,
    Seq<Seq<char>>,
    Option<(Seq<char>, Action)>,
) {
    if contains_text(line, "globalShortcutPressed"@) {
        (true, Seq::empty(), None)
    } else if !capturing {
        (capturing, strings, None)
    } else {
        let s2 = if contains_text(line, "STRING"@) {
            match quoted_of(line) {
                Some(q) => strings.push(q),
                None => strings,
            }
        } else {
            strings
        };
        if s2.len() >= 2 {
            if s2[0] != COMPONENT@ {
                (false, s2, None)
            } else {
                (false, s2, Some((s2[1], action_of(s2[1]))))
            }
        } else {
            (true, s2, None)
        }
    }
}

impl ShortcutMonitor {
    /// The state (capturing, strings seen).
    pub closed spec fn state(&self) -> (bool, Seq<Seq<char>>) {
        (self.capturing, self.strings@.map_values(|s: String| s@))
    }

    /// A reader that has seen nothing yet.
    pub fn new() -> (m: Self)
        ensures
            m.state() == (false, Seq::<Seq<char>>::empty()),
    {
        let m = ShortcutMonitor { capturing: false, strings: Vec::new() };
        assert(m.state().1 =~= Seq::<Seq<char>>::empty());
        m
    }

    /// Read one line. A `globalShortcutPressed` signal starts a press; its first
    /// two string arguments are the component and the shortcut id. A press of
    /// this component's shortcut gives the id and its action.
    pub fn feed(&mut self, line: &str) -> (r: Option<(String, Action)>)
        ensures
            ({
                let (c, s, out) = monitor_step(old(self).state().0, old(self).state().1, line@);
                &&& final(self).state() == (c, s)
                &&& match r {
                    Some((id, a)) => out == Some((id@, a)),
                    None => out is None,
                }
            }),
    {
        let ghost old_strings = self.strings@.map_values(|s: String| s@);
        if contains(line, "globalShortcutPressed") {
            self.capturing = true;
            self.strings = Vec::new();
            assert(self.strings@.map_values(|s: String| s@) =~= Seq::<Seq<char>>::empty());
            return None;
        }
        if !self.capturing {
            return None;
        }
        if contains(line, "STRING") {
            match extract_quoted(line) {
                Some(q) => {
                    self.strings.push(q);
                    assert(self.strings@.map_values(|s: String| s@) =~= old_strings.push(q@));
                },
                None => {},
            }
        }
        if self.strings.len() >= 2 {
            self.capturing = false;
            assert(self.strings@[0]@ == self.strings@.map_values(|s: String| s@)[0]);
            assert(self.strings@[1]@ == self.strings@.map_values(|s: String| s@)[1]);
            if !str_eq(self.strings[0].as_str(), COMPONENT) {
                return None;
            }
            let id = self.strings[1].clone();
            let action = action_for(id.as_str());
            return Some((id, action));
        }
        None
    }
}

/// A press is reported only for this component's shortcuts, and only once the
/// press signal and both its string arguments have been read.
pub proof fn law_press_needs_component(capturing: bool, strings: Seq<Seq<char>>, line: Seq<char>)
    ensures
        ({
            let (c, s, out) = monitor_step(capturing, strings, line);
            out matches Some((id, a)) ==> capturing && !c && s.len() >= 2 && s[0] == COMPONENT@
                && id == s[1] && a == action_of(id)
        }),
{
}

} // verus!
