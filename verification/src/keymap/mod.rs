//! Keyboard shortcuts: which action a key press with its modifiers asks for.
use vstd::prelude::*;

verus! {

/// What a keyboard shortcut asks the application to do.
#[derive(Clone, Copy, Debug, PartialEq, Eq, Structural)]
pub enum ShortcutAction {
    NewNote,
    NewFolder,
    OpenFolder,
    Save,
    SaveAs,
    CloseNote,
    Undo,
    Redo,
    SelectAll,
    QuickOpen,
    SearchInFile,
    SearchInVault,
    GoToLine,
    Back,
    Forward,
    Bold,
    Italic,
    Link,
    CodeBlock,
    Checkbox,
    Comment,
    ViewEditor,
    ViewPreview,
    ViewSplit,
    ToggleExplorer,
    ToggleFocusMode,
    NextTab,
    PrevTab,
}

/// The keys that take part in shortcuts.
#[derive(Clone, Copy, Debug, PartialEq, Eq, Structural)]
pub enum ShortcutKey {
    A,
    B,
    C,
    E,
    F,
    G,
    I,
    K,
    L,
    N,
    O,
    P,
    R,
    S,
    W,
    Z,
    Slash,
    Num1,
    Num2,
    Num3,
    ArrowLeft,
    ArrowRight,
    F11,
    Tab,
}

/// The shortcuts in the order they are tried: the key, whether Ctrl (Cmd),
/// Shift and Alt must be held, and the action.
pub open spec fn bindings() -> Seq<(ShortcutKey, bool, bool, bool, ShortcutAction)> {
    seq![
        (ShortcutKey::N, true, true, false, ShortcutAction::NewFolder),
        (ShortcutKey::N, true, false, false, ShortcutAction::NewNote),
        (ShortcutKey::O, true, false, false, ShortcutAction::OpenFolder),
        (ShortcutKey::S, true, true, false, ShortcutAction::SaveAs),
        (ShortcutKey::S, true, false, false, ShortcutAction::Save),
        (ShortcutKey::W, true, false, false, ShortcutAction::CloseNote),
        (ShortcutKey::R, true, false, false, ShortcutAction::Redo),
        (ShortcutKey::Z, true, true, false, ShortcutAction::Redo),
        (ShortcutKey::Z, true, false, false, ShortcutAction::Undo),
        (ShortcutKey::A, true, false, false, ShortcutAction::SelectAll),
        (ShortcutKey::P, true, false, false, ShortcutAction::QuickOpen),
        (ShortcutKey::F, true, true, false, ShortcutAction::SearchInVault),
        (ShortcutKey::F, true, false, false, ShortcutAction::SearchInFile),
        (ShortcutKey::G, true, false, false, ShortcutAction::GoToLine),
        (ShortcutKey::ArrowLeft, false, false, true, ShortcutAction::Back),
        (ShortcutKey::ArrowRight, false, false, true, ShortcutAction::Forward),
        (ShortcutKey::B, true, false, false, ShortcutAction::Bold),
        (ShortcutKey::I, true, false, false, ShortcutAction::Italic),
        (ShortcutKey::K, true, false, false, ShortcutAction::Link),
        (ShortcutKey::C, true, true, false, ShortcutAction::CodeBlock),
        (ShortcutKey::L, true, false, false, ShortcutAction::Checkbox),
        (ShortcutKey::Slash, true, false, false, ShortcutAction::Comment),
        (ShortcutKey::Num1, true, false, false, ShortcutAction::ViewEditor),
        (ShortcutKey::Num2, true, false, false, ShortcutAction::ViewPreview),
        (ShortcutKey::Num3, true, false, false, ShortcutAction::ViewSplit),
        (ShortcutKey::E, true, false, false, ShortcutAction::ToggleExplorer),
        (ShortcutKey::F11, false, false, false, ShortcutAction::ToggleFocusMode),
    ]
}

/// The first binding from `i` on whose modifiers are exactly those held and
/// whose key was pressed: its action and key.
pub open spec fn binding_from(
    ctrl: bool,
    shift: bool,
    alt: bool,
    pressed: Seq<ShortcutKey>,
    i: nat,
) -> Option<(ShortcutAction, ShortcutKey)>
    decreases bindings().len() - i,
{
    if i >= bindings().len() {
        None
    } else {
        let (key, c, s, a, action) = bindings()[i as int];
        if ctrl == c && shift == s && alt == a && pressed.contains(key) {
            Some((action, key))
        } else {
            binding_from(ctrl, shift, alt, pressed, i + 1)
        }
    }
}

/// The action the pressed keys ask for and the key it takes: Ctrl+Tab moves
/// between tabs (backwards with Shift) whatever else is held; otherwise the
/// first matching binding.
pub open spec fn shortcut(ctrl: bool, shift: bool, alt: bool, pressed: Seq<ShortcutKey>) -> Option<(ShortcutAction, ShortcutKey)> {
    if ctrl && pressed.contains(ShortcutKey::Tab) {
        Some(
            (
                if shift {
                    ShortcutAction::PrevTab
                } else {
                    ShortcutAction::NextTab
                },
                ShortcutKey::Tab,
            ),
        )
    } else {
        binding_from(ctrl, shift, alt, pressed, 0)
    }
}

fn binding_table() -> (r: Vec<(ShortcutKey, bool, bool, bool, ShortcutAction)>)
    ensures
        r@ == bindings(),
{
    let r = vec![
        (ShortcutKey::N, true, true, false, ShortcutAction::NewFolder),
        (ShortcutKey::N, true, false, false, ShortcutAction::NewNote),
        (ShortcutKey::O, true, false, false, ShortcutAction::OpenFolder),
        (ShortcutKey::S, true, true, false, ShortcutAction::SaveAs),
        (ShortcutKey::S, true, false, false, ShortcutAction::Save),
        (ShortcutKey::W, true, false, false, ShortcutAction::CloseNote),
        (ShortcutKey::R, true, false, false, ShortcutAction::Redo),
        (ShortcutKey::Z, true, true, false, ShortcutAction::Redo),
        (ShortcutKey::Z, true, false, false, ShortcutAction::Undo),
        (ShortcutKey::A, true, false, false, ShortcutAction::SelectAll),
        (ShortcutKey::P, true, false, false, ShortcutAction::QuickOpen),
        (ShortcutKey::F, true, true, false, ShortcutAction::SearchInVault),
        (ShortcutKey::F, true, false, false, ShortcutAction::SearchInFile),
        (ShortcutKey::G, true, false, false, ShortcutAction::GoToLine),
        (ShortcutKey::ArrowLeft, false, false, true, ShortcutAction::Back),
        (ShortcutKey::ArrowRight, false, false, true, ShortcutAction::Forward),
        (ShortcutKey::B, true, false, false, ShortcutAction::Bold),
        (ShortcutKey::I, true, false, false, ShortcutAction::Italic),
        (ShortcutKey::K, true, false, false, ShortcutAction::Link),
        (ShortcutKey::C, true, true, false, ShortcutAction::CodeBlock),
        (ShortcutKey::L, true, false, false, ShortcutAction::Checkbox),
        (ShortcutKey::Slash, true, false, false, ShortcutAction::Comment),
        (ShortcutKey::Num1, true, false, false, ShortcutAction::ViewEditor),
        (ShortcutKey::Num2, true, false, false, ShortcutAction::ViewPreview),
        (ShortcutKey::Num3, true, false, false, ShortcutAction::ViewSplit),
        (ShortcutKey::E, true, false, false, ShortcutAction::ToggleExplorer),
        (ShortcutKey::F11, false, false, false, ShortcutAction::ToggleFocusMode),
    ];
    proof {
        assert(r@ =~= bindings());
    }
    r
}

/// Whether `key` is among the pressed keys.
fn is_pressed(pressed: &[ShortcutKey], key: ShortcutKey) -> (r: bool)
    ensures
        r == pressed@.contains(key),
{
    let mut i: usize = 0;
    while i < pressed.len()
        invariant
            i <= pressed@.len(),
            forall|k: int| 0 <= k < i ==> pressed@[k] != key,
        decreases pressed@.len() - i,
    {
        if pressed[i] == key {
            proof {
                assert(pressed@[i as int] == key);
            }
            return true;
        }
        i += 1;
    }
    false
}

/// The action asked for by the keys pressed in this frame with Ctrl (Cmd),
/// Shift and Alt held as given, and the key to take from the input (see
/// `shortcut`).
pub fn shortcut_for(ctrl: bool, shift: bool, alt: bool, pressed: &[ShortcutKey]) -> (r: Option<(ShortcutAction, ShortcutKey)>)
    ensures
        r == shortcut(ctrl, shift, alt, pressed@),
{
    if ctrl && is_pressed(pressed, ShortcutKey::Tab) {
        let action = if shift {
            ShortcutAction::PrevTab
        } else {
            ShortcutAction::NextTab
        };
        return Some((action, ShortcutKey::Tab));
    }
    let table = binding_table();
    let mut i: usize = 0;
    while i < table.len()
        invariant
            i <= table@.len(),
            table@ == bindings(),
            !(ctrl && pressed@.contains(ShortcutKey::Tab)),
            binding_from(ctrl, shift, alt, pressed@, i as nat) == binding_from(ctrl, shift, alt, pressed@, 0),
        decreases table@.len() - i,
    {
        let (key, c, s, a, action) = table[i];
        proof {
            assert(bindings()[i as int] == (key, c, s, a, action));
        }
        if ctrl == c && shift == s && alt == a && is_pressed(pressed, key) {
            return Some((action, key));
        }
        i += 1;
    }
    None
}

} // verus!
