//! How a transcript reaches the focused application: typed, or pasted
//! through the clipboard with the paste shortcut, after an optional pause.

use vstd::prelude::*;

verus! {

/// Why injecting text failed.
pub enum InjectError {
    Init(String),
    TypeText(String),
}

/// How the text is delivered.
#[derive(Debug, Clone, Copy, PartialEq, Eq, Structural)]
pub enum InjectMethod {
    /// Typed as keystrokes.
    Typing,
    /// Put on the clipboard and pasted with the paste shortcut.
    Clipboard,
}

/// What injecting a transcript takes.
#[derive(Debug, Clone, Copy, PartialEq, Eq, Structural)]
pub enum InjectPlan {
    /// Nothing to deliver.
    Skip,
    /// Wait `pause_ms` milliseconds (none when 0), then deliver by `method`.
    Send { pause_ms: u32, method: InjectMethod },
}

/// Empty text is not delivered; other text is, after the configured delay,
/// pasted in paste mode and typed otherwise.
pub fn plan_injection(text: &str, paste_mode: bool, delay_ms: u32) -> (p: InjectPlan)
    ensures
        text@.len() == 0 ==> p == InjectPlan::Skip,
        text@.len() > 0 ==> p == (InjectPlan::Send {
            pause_ms: delay_ms,
            method: (if paste_mode {
                InjectMethod::Clipboard
            } else {
                InjectMethod::Typing
            }),
        }),
{
    if text.is_empty() {
        return InjectPlan::Skip;
    }
    let method = if paste_mode {
        InjectMethod::Clipboard
    } else {
        InjectMethod::Typing
    };
    InjectPlan::Send { pause_ms: delay_ms, method }
}

/// A key of the paste shortcut.
#[derive(Debug, Clone, Copy, PartialEq, Eq, Structural)]
pub enum PasteKey {
    /// The Command key (macOS).
    Meta,
    /// The Control key (other systems).
    Control,
    /// The letter `v`.
    V,
}

/// What is done with a key.
#[derive(Debug, Clone, Copy, PartialEq, Eq, Structural)]
pub enum KeyMotion {
    Press,
    Click,
    Release,
}

/// The modifier of the paste shortcut: Command on macOS, Control elsewhere.
pub open spec fn paste_modifier(macos: bool) -> PasteKey {
    if macos {
        PasteKey::Meta
    } else {
        PasteKey::Control
    }
}

/// The paste shortcut as key events: hold the modifier, click `v`, let the
/// modifier go.
pub open spec fn spec_paste_keystrokes(macos: bool) -> Seq<(PasteKey, KeyMotion)> {
    seq![
        (paste_modifier(macos), KeyMotion::Press),
        (PasteKey::V, KeyMotion::Click),
        (paste_modifier(macos), KeyMotion::Release),
    ]
}

/// The key events that paste the clipboard, in order.
pub fn paste_keystrokes(macos: bool) -> (v: Vec<(PasteKey, KeyMotion)>)
    ensures
        v@ == spec_paste_keystrokes(macos),
{
    let modifier = if macos {
        PasteKey::Meta
    } else {
        PasteKey::Control
    };
    let mut v: Vec<(PasteKey, KeyMotion)> = Vec::new();
    v.push((modifier, KeyMotion::Press));
    v.push((PasteKey::V, KeyMotion::Click));
    v.push((modifier, KeyMotion::Release));
    assert(v@ =~= spec_paste_keystrokes(macos));
    v
}

} // verus!
