//! The state of the translator window: source text, result, status line, and
//! whether a translation is under way.
use vstd::prelude::*;

use crate::text::{blank_range, chars_of, is_blank, owned, push_str};

verus! {

broadcast use vstd::string::group_string_axioms;

/// What the window shows and whether a translation is under way.
pub struct PanelState {
    pub input: String,
    pub result: String,
    pub status: String,
    /// Copy each finished translation to the clipboard.
    pub auto_copy: bool,
    pub busy: bool,
}

impl PanelState {
    /// A window opened on `initial`.
    pub fn new(initial: String, auto_copy: bool) -> (p: Self)
        ensures
            p.input == initial,
            p.result@.len() == 0,
            p.status@.len() == 0,
            p.auto_copy == auto_copy,
            !p.busy,
    {
        PanelState { input: initial, result: String::new(), status: String::new(), auto_copy, busy: false }
    }

    /// Whether a window opened with `auto` translates its text right away.
    pub fn starts_at_once(&self, auto: bool) -> (r: bool)
        ensures
            r == (auto && !is_blank(self.input@)),
    {
        if !auto {
            return false;
        }
        let v = chars_of(self.input.as_str());
        assert(v@.subrange(0, v@.len() as int) =~= v@);
        !blank_range(&v, 0, v.len())
    }

    /// Start translating the input: the text to translate, or `None` (and no
    /// change) when the input is blank.
    pub fn start(&mut self) -> (r: Option<String>)
        ensures
            is_blank(old(self).input@) ==> r is None && *final(self) == *old(self),
            !is_blank(old(self).input@) ==> {
                &&& r matches Some(t) && t@ == old(self).input@
                &&& final(self).status@ == "Translating\u{2026}"@
                &&& final(self).result@.len() == 0
                &&& final(self).busy
                &&& final(self).input == old(self).input
                &&& final(self).auto_copy == old(self).auto_copy
            },
    {
        let v = chars_of(self.input.as_str());
        assert(v@.subrange(0, v@.len() as int) =~= v@);
        if blank_range(&v, 0, v.len()) {
            return None;
        }
        let text = self.input.clone();
        self.status = owned("Translating\u{2026}");
        self.result = String::new();
        self.busy = true;
        Some(text)
    }

    /// A translation ended with `outcome`. Returns whether to copy the result
    /// to the clipboard (then the status says so).
    pub fn finish(&mut self, outcome: Result<String, String>) -> (copy: bool)
        ensures
            !final(self).busy,
            final(self).input == old(self).input,
            final(self).auto_copy == old(self).auto_copy,
            match outcome {
                Ok(text) => {
                    &&& final(self).result == text
                    &&& copy == (old(self).auto_copy && text@.len() > 0)
                    &&& copy ==> final(self).status@ == "Copied to clipboard"@
                    &&& !copy ==> final(self).status@.len() == 0
                },
                Err(e) => {
                    &&& !copy
                    &&& final(self).status@ == "Error: "@ + e@
                    &&& final(self).result == old(self).result
                },
            },
    {
        self.busy = false;
        match outcome {
            Ok(text) => {
                let copy = self.auto_copy && !text.as_str().is_empty();
                if copy {
                    self.status = owned("Copied to clipboard");
                } else {
                    self.status = String::new();
                }
                self.result = text;
                copy
            },
            Err(e) => {
                let mut status = owned("Error: ");
                push_str(&mut status, e.as_str());
                self.status = status;
                false
            },
        }
    }

    /// The translation worker went away without an answer.
    pub fn abandon(&mut self)
        ensures
            !final(self).busy,
            final(self).input == old(self).input,
            final(self).result == old(self).result,
            final(self).status == old(self).status,
            final(self).auto_copy == old(self).auto_copy,
    {
        self.busy = false;
    }

    /// What "Copy result" copies: the result, unless it is empty.
    pub fn copyable(&self) -> (r: Option<&String>)
        ensures
            match r {
                Some(s) => *s == self.result && self.result@.len() > 0,
                None => self.result@.len() == 0,
            },
    {
        if self.result.as_str().is_empty() {
            None
        } else {
            Some(&self.result)
        }
    }
}

} // verus!
