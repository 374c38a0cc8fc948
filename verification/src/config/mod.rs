//! Settings that are saved between sessions: the accent colour, the cursor
//! style, the view mode of each tab, and the tabs left open.
use vstd::prelude::*;

verus! {

/// The accent colour of the interface.
#[derive(Clone, Copy, Debug, PartialEq, Eq, Structural)]
pub enum ThemeAccent {
    Blue,
    Purple,
    Orange,
    Red,
    Green,
    Pink,
    Teal,
    Yellow,
}

impl Default for ThemeAccent {
    fn default() -> (r: Self)
        ensures
            r == ThemeAccent::Blue,
    {
        ThemeAccent::Blue
    }
}

/// The red, green and blue parts of an accent.
pub open spec fn accent_rgb(a: ThemeAccent) -> (u8, u8, u8) {
    match a {
        ThemeAccent::Blue => (29, 78, 216),
        ThemeAccent::Purple => (109, 40, 200),
        ThemeAccent::Orange => (194, 65, 12),
        ThemeAccent::Red => (185, 28, 28),
        ThemeAccent::Green => (21, 128, 61),
        ThemeAccent::Pink => (190, 24, 93),
        ThemeAccent::Teal => (15, 118, 110),
        ThemeAccent::Yellow => (161, 98, 7),
    }
}

/// The name an accent is shown by.
pub open spec fn accent_name(a: ThemeAccent) -> Seq<char> {
    match a {
        ThemeAccent::Blue => seq!['B', 'l', 'u', 'e'],
        ThemeAccent::Purple => seq!['P', 'u', 'r', 'p', 'l', 'e'],
        ThemeAccent::Orange => seq!['O', 'r', 'a', 'n', 'g', 'e'],
        ThemeAccent::Red => seq!['R', 'e', 'd'],
        ThemeAccent::Green => seq!['G', 'r', 'e', 'e', 'n'],
        ThemeAccent::Pink => seq!['P', 'i', 'n', 'k'],
        ThemeAccent::Teal => seq!['T', 'e', 'a', 'l'],
        ThemeAccent::Yellow => seq!['Y', 'e', 'l', 'l', 'o', 'w'],
    }
}

/// Every accent, in the order the settings list them.
pub open spec fn all_accents() -> Seq<ThemeAccent> {
    seq![
        ThemeAccent::Blue,
        ThemeAccent::Purple,
        ThemeAccent::Orange,
        ThemeAccent::Red,
        ThemeAccent::Green,
        ThemeAccent::Pink,
        ThemeAccent::Teal,
        ThemeAccent::Yellow,
    ]
}

impl ThemeAccent {
    /// The accent's colour as red, green and blue.
    pub fn color(&self) -> (r: (u8, u8, u8))
        ensures
            r == accent_rgb(*self),
    {
        match self {
            ThemeAccent::Blue => (29, 78, 216),
            ThemeAccent::Purple => (109, 40, 200),
            ThemeAccent::Orange => (194, 65, 12),
            ThemeAccent::Red => (185, 28, 28),
            ThemeAccent::Green => (21, 128, 61),
            ThemeAccent::Pink => (190, 24, 93),
            ThemeAccent::Teal => (15, 118, 110),
            ThemeAccent::Yellow => (161, 98, 7),
        }
    }

    pub fn name(&self) -> (r: &'static str)
        ensures
            r@ == accent_name(*self),
    {
        match self {
            ThemeAccent::Blue => {
                proof {
                    reveal_strlit("Blue");
                }
                "Blue"
            },
            ThemeAccent::Purple => {
                proof {
                    reveal_strlit("Purple");
                }
                "Purple"
            },
            ThemeAccent::Orange => {
                proof {
                    reveal_strlit("Orange");
                }
                "Orange"
            },
            ThemeAccent::Red => {
                proof {
                    reveal_strlit("Red");
                }
                "Red"
            },
            ThemeAccent::Green => {
                proof {
                    reveal_strlit("Green");
                }
                "Green"
            },
            ThemeAccent::Pink => {
                proof {
                    reveal_strlit("Pink");
                }
                "Pink"
            },
            ThemeAccent::Teal => {
                proof {
                    reveal_strlit("Teal");
                }
                "Teal"
            },
            ThemeAccent::Yellow => {
                proof {
                    reveal_strlit("Yellow");
                }
                "Yellow"
            },
        }
    }

    /// Every accent (see `all_accents`).
    pub fn all() -> (r: Vec<ThemeAccent>)
        ensures
            r@ == all_accents(),
    {
        let r = vec![
            ThemeAccent::Blue,
            ThemeAccent::Purple,
            ThemeAccent::Orange,
            ThemeAccent::Red,
            ThemeAccent::Green,
            ThemeAccent::Pink,
            ThemeAccent::Teal,
            ThemeAccent::Yellow,
        ];
        proof {
            assert(r@ =~= all_accents());
        }
        r
    }
}

/// Each accent is listed once, and its name tells it apart from the others.
pub proof fn law_accents_listed_once(a: ThemeAccent, b: ThemeAccent)
    ensures
        all_accents().contains(a),
        accent_name(a) == accent_name(b) ==> a == b,
        forall|i: int, j: int| 0 <= i < j < all_accents().len() ==> all_accents()[i] != all_accents()[j],
{
    let all = all_accents();
    assert(all[0] == ThemeAccent::Blue);
    assert(all[1] == ThemeAccent::Purple);
    assert(all[2] == ThemeAccent::Orange);
    assert(all[3] == ThemeAccent::Red);
    assert(all[4] == ThemeAccent::Green);
    assert(all[5] == ThemeAccent::Pink);
    assert(all[6] == ThemeAccent::Teal);
    assert(all[7] == ThemeAccent::Yellow);
    if accent_name(a) == accent_name(b) {
        assert(accent_name(a).len() == accent_name(b).len());
        assert(accent_name(a)[0] == accent_name(b)[0]);
        assert(accent_name(a)[1] == accent_name(b)[1]);
    }
}

/// The shape of the text cursor.
#[derive(Clone, Copy, Debug, PartialEq, Eq, Structural)]
pub enum CursorStyle {
    IBeam,
    Block,
    Underline,
}

impl Default for CursorStyle {
    fn default() -> (r: Self)
        ensures
            r == CursorStyle::IBeam,
    {
        CursorStyle::IBeam
    }
}

/// What a tab shows: the editor, the preview, or both side by side.
#[derive(Clone, Copy, Debug, PartialEq, Eq, Structural)]
pub enum ViewMode {
    Editor,
    Preview,
    Split,
}

impl Default for ViewMode {
    fn default() -> (r: Self)
        ensures
            r == ViewMode::Split,
    {
        ViewMode::Split
    }
}

/// A tab as the session remembers it.
#[derive(Clone, Debug)]
pub struct TabState {
    pub path: String,
    pub view_mode: ViewMode,
}

/// The tabs left open and the active one, saved between sessions.
#[derive(Clone, Debug)]
pub struct FileState {
    pub last_open_tabs: Vec<TabState>,
    pub last_active_tab: Option<usize>,
}

impl Default for FileState {
    fn default() -> (r: Self)
        ensures
            r.last_open_tabs@ == Seq::<TabState>::empty(),
            r.last_active_tab is None,
    {
        FileState { last_open_tabs: Vec::new(), last_active_tab: None }
    }
}

} // verus!
