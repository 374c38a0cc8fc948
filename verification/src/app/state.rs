//! Decisions of the application state that do not depend on the window: which
//! tab is active after one is closed, after moving to the next or previous tab
//! and after two tabs swap places, what the session remembers of the tabs, and
//! when a document or the session is saved.
use vstd::prelude::*;
use crate::config::{FileState, TabState, ViewMode};
use crate::explorer::{parts, starts_with_parts};

verus! {

/// The active tab after a tab was closed.
#[derive(Clone, Copy, Debug, PartialEq, Eq, Structural)]
pub enum FocusAfterClose {
    /// No tab is left: nothing is active and no file is shown.
    NoTabs,
    /// The active tab was closed: the tab now at this index becomes active.
    SwitchTo(usize),
    /// Another tab was closed: the active index becomes this.
    Keep(Option<usize>),
}

/// The active tab after closing tab `idx` of a strip with `active` active, when
/// `remaining` tabs are left: the closed active tab hands over to the tab that
/// took its place, or to the new last one; an active tab after it moves down one.
pub open spec fn focus_after_close_spec(active: Option<usize>, idx: usize, remaining: nat) -> FocusAfterClose {
    if remaining == 0 {
        FocusAfterClose::NoTabs
    } else {
        match active {
            Some(a) => if a == idx {
                FocusAfterClose::SwitchTo(
                    if idx >= remaining {
                        (remaining - 1) as usize
                    } else {
                        idx
                    },
                )
            } else if a > idx {
                FocusAfterClose::Keep(Some((a - 1) as usize))
            } else {
                FocusAfterClose::Keep(active)
            },
            None => FocusAfterClose::Keep(None),
        }
    }
}

/// Computes `focus_after_close_spec`.
pub fn focus_after_close(active: Option<usize>, idx: usize, remaining: usize) -> (r: FocusAfterClose)
    ensures
        r == focus_after_close_spec(active, idx, remaining as nat),
{
    if remaining == 0 {
        return FocusAfterClose::NoTabs;
    }
    match active {
        Some(a) => if a == idx {
            FocusAfterClose::SwitchTo(
                if idx >= remaining {
                    remaining - 1
                } else {
                    idx
                },
            )
        } else if a > idx {
            FocusAfterClose::Keep(Some(a - 1))
        } else {
            FocusAfterClose::Keep(active)
        },
        None => FocusAfterClose::Keep(None),
    }
}

/// Closing a tab keeps the active index within the remaining tabs, and an active
/// tab that stays open stays active.
pub proof fn law_close_keeps_focus_in_range(active: Option<usize>, idx: usize, remaining: nat)
    requires
        idx <= remaining,
        active matches Some(a) ==> a <= remaining,
    ensures
        match focus_after_close_spec(active, idx, remaining) {
            FocusAfterClose::NoTabs => remaining == 0,
            FocusAfterClose::SwitchTo(i) => i < remaining && active == Some(idx),
            FocusAfterClose::Keep(Some(i)) => i < remaining && (active matches Some(a) && a != idx && (if a
                > idx {
                i == a - 1
            } else {
                i == a
            })),
            FocusAfterClose::Keep(None) => active is None,
        },
{
}

/// The tab next to `i` among `count` tabs, going round at either end.
pub open spec fn cycled(i: nat, count: nat, forward: bool) -> nat {
    if forward {
        (i + 1) % count
    } else if i == 0 {
        (count - 1) as nat
    } else {
        (i - 1) as nat
    }
}

/// The tab to switch to for Next Tab (`forward`) or Previous Tab: none without
/// tabs or without an active tab.
pub fn cycled_tab(active: Option<usize>, count: usize, forward: bool) -> (r: Option<usize>)
    ensures
        r == (match active {
            Some(i) => if count > 0 {
                Some(cycled(i as nat, count as nat, forward) as usize)
            } else {
                None
            },
            None => None,
        }),
{
    match active {
        Some(i) => {
            if count == 0 {
                return None;
            }
            if forward {
                let k = i % count;
                proof {
                    let (kn, inn, cn) = (k as nat, i as nat, count as nat);
                    assert((kn + 1) % cn == (inn + 1) % cn) by (nonlinear_arith)
                        requires
                            kn == inn % cn,
                            cn > 0,
                    ;
                }
                Some((k + 1) % count)
            } else if i == 0 {
                Some(count - 1)
            } else {
                Some(i - 1)
            }
        },
        None => None,
    }
}

/// Next Tab and Previous Tab stay among the tabs and undo each other.
pub proof fn law_cycling_tabs_round_trips(i: nat, count: nat)
    requires
        i < count,
    ensures
        cycled(i, count, true) < count,
        cycled(i, count, false) < count,
        cycled(cycled(i, count, true), count, false) == i,
        cycled(cycled(i, count, false), count, true) == i,
{
    if i + 1 < count {
        assert((i + 1) % count == i + 1) by (nonlinear_arith)
            requires
                i + 1 < count,
        ;
    } else {
        assert((i + 1) % count == 0) by (nonlinear_arith)
            requires
                i + 1 == count,
        ;
    }
    if i > 0 {
        assert(i % count == i) by (nonlinear_arith)
            requires
                i < count,
        ;
    } else {
        assert(count % count == 0) by (nonlinear_arith)
            requires
                count > 0,
        ;
    }
}

/// Where index `i` goes when the tabs at `a` and `b` swap places.
pub open spec fn swapped_index(i: usize, a: usize, b: usize) -> usize {
    if i == a {
        b
    } else if i == b {
        a
    } else {
        i
    }
}

/// The active tab after the tabs at `a` and `b` swap places by dragging: the
/// active document stays active at its new place.
pub fn active_after_swap(active: Option<usize>, a: usize, b: usize) -> (r: Option<usize>)
    ensures
        r == (match active {
            Some(i) => Some(swapped_index(i, a, b)),
            None => None,
        }),
{
    match active {
        Some(i) => Some(if i == a {
            b
        } else if i == b {
            a
        } else {
            i
        }),
        None => None,
    }
}

/// The session remembers the open tabs: when reopening is on, each tab's path and
/// view mode in order and the active index; otherwise nothing.
pub open spec fn remembers(r: FileState, paths: Seq<String>, modes: Seq<ViewMode>, active: Option<usize>, reopen: bool) -> bool {
    if reopen {
        &&& r.last_open_tabs@.len() == paths.len()
        &&& forall|i: int|
            0 <= i < paths.len() ==> (#[trigger] r.last_open_tabs@[i]).path@ == paths[i]@
                && r.last_open_tabs@[i].view_mode == modes[i]
        &&& r.last_active_tab == active
    } else {
        &&& r.last_open_tabs@.len() == 0
        &&& r.last_active_tab is None
    }
}

/// What the session saves of the tabs with these paths and view modes and this
/// active index (see `remembers`).
pub fn session_state(paths: &Vec<String>, modes: &Vec<ViewMode>, active: Option<usize>, reopen: bool) -> (r: FileState)
    requires
        paths.len() == modes.len(),
    ensures
        remembers(r, paths@, modes@, active, reopen),
{
    let mut tabs: Vec<TabState> = Vec::new();
    if !reopen {
        return FileState { last_open_tabs: tabs, last_active_tab: None };
    }
    let mut i: usize = 0;
    while i < paths.len()
        invariant
            paths.len() == modes.len(),
            i <= paths.len(),
            tabs@.len() == i,
            forall|j: int| 0 <= j < i ==> (#[trigger] tabs@[j]).path@ == paths@[j]@ && tabs@[j].view_mode
                == modes@[j],
        decreases paths.len() - i,
    {
        tabs.push(TabState { path: paths[i].clone(), view_mode: modes[i] });
        i += 1;
    }
    FileState { last_open_tabs: tabs, last_active_tab: active }
}

/// The tab a restored session switches to once its tabs are reopened: the saved
/// active index, when that many tabs could be opened again; otherwise none, and
/// the tab opened last stays active.
pub fn restored_active(saved: Option<usize>, opened: usize) -> (r: Option<usize>)
    ensures
        r == (match saved {
            Some(i) => if i < opened {
                Some(i)
            } else {
                None
            },
            None => None,
        }),
{
    match saved {
        Some(i) => if i < opened {
            Some(i)
        } else {
            None
        },
        None => None,
    }
}

/// How the autosave timer of the active document changes.
#[derive(Clone, Copy, Debug, PartialEq, Eq, Structural)]
pub enum EditTimer {
    /// Left as it is.
    Keep,
    /// Started now.
    Start,
    /// Stopped.
    Clear,
}

/// What one autosave check does.
#[derive(Clone, Copy, Debug, PartialEq, Eq, Structural)]
pub struct AutosavePlan {
    /// Write the session and the settings, and mark the session clean.
    pub save_session: bool,
    /// Save the active document.
    pub save_file: bool,
    /// Ask for another check soon.
    pub repaint: bool,
    pub timer: EditTimer,
    /// The document version the next check compares with.
    pub last_editor_version: usize,
}

/// One autosave check: `session_ready` is whether the session changed over a
/// second ago (`None` when no change is pending); `active` is the active tab's
/// version and whether it has unsaved changes and a file; `edit_ready` is whether
/// the document's timer ran for over a second (`None` when it is not running).
///
/// A pending session change is saved once it is a second old. With autosave on,
/// a dirty document with a file is saved a second after its last change; a new
/// version restarts the timer. Otherwise the timer stops and the version is noted.
pub open spec fn autosave_plan_spec(
    session_dirty: bool,
    session_ready: Option<bool>,
    autosave: bool,
    active: Option<(bool, usize)>,
    last_editor_version: usize,
    edit_ready: Option<bool>,
) -> AutosavePlan {
    let save_session = session_dirty && session_ready == Some(true);
    let session_wait = session_dirty && session_ready == Some(false);
    match active {
        Some((dirty_with_path, version)) => if autosave && dirty_with_path {
            if last_editor_version != version || edit_ready is None {
                AutosavePlan {
                    save_session,
                    save_file: false,
                    repaint: true,
                    timer: EditTimer::Start,
                    last_editor_version: version,
                }
            } else if edit_ready == Some(true) {
                AutosavePlan {
                    save_session,
                    save_file: true,
                    repaint: session_wait,
                    timer: EditTimer::Clear,
                    last_editor_version: version,
                }
            } else {
                AutosavePlan {
                    save_session,
                    save_file: false,
                    repaint: true,
                    timer: EditTimer::Keep,
                    last_editor_version: version,
                }
            }
        } else {
            AutosavePlan {
                save_session,
                save_file: false,
                repaint: session_wait,
                timer: EditTimer::Clear,
                last_editor_version: version,
            }
        },
        None => AutosavePlan {
            save_session,
            save_file: false,
            repaint: session_wait,
            timer: EditTimer::Clear,
            last_editor_version: 0,
        },
    }
}

/// Computes `autosave_plan_spec`.
pub fn autosave_plan(
    session_dirty: bool,
    session_ready: Option<bool>,
    autosave: bool,
    active: Option<(bool, usize)>,
    last_editor_version: usize,
    edit_ready: Option<bool>,
) -> (r: AutosavePlan)
    ensures
        r == autosave_plan_spec(session_dirty, session_ready, autosave, active, last_editor_version, edit_ready),
{
    let save_session = session_dirty && match session_ready {
        Some(ready) => ready,
        None => false,
    };
    let session_wait = session_dirty && match session_ready {
        Some(ready) => !ready,
        None => false,
    };
    match active {
        Some((dirty_with_path, version)) => if autosave && dirty_with_path {
            let timer_running = match edit_ready {
                Some(_) => true,
                None => false,
            };
            let ready = match edit_ready {
                Some(x) => x,
                None => false,
            };
            if last_editor_version != version || !timer_running {
                AutosavePlan {
                    save_session,
                    save_file: false,
                    repaint: true,
                    timer: EditTimer::Start,
                    last_editor_version: version,
                }
            } else if ready {
                AutosavePlan {
                    save_session,
                    save_file: true,
                    repaint: session_wait,
                    timer: EditTimer::Clear,
                    last_editor_version: version,
                }
            } else {
                AutosavePlan {
                    save_session,
                    save_file: false,
                    repaint: true,
                    timer: EditTimer::Keep,
                    last_editor_version: version,
                }
            }
        } else {
            AutosavePlan {
                save_session,
                save_file: false,
                repaint: session_wait,
                timer: EditTimer::Clear,
                last_editor_version: version,
            }
        },
        None => AutosavePlan {
            save_session,
            save_file: false,
            repaint: session_wait,
            timer: EditTimer::Clear,
            last_editor_version: 0,
        },
    }
}

/// A document is saved only when autosave is on and it has unsaved changes and a
/// file, and only once its version has stayed the same until its timer ran out.
pub proof fn law_autosave_saves_only_settled_changes(
    session_dirty: bool,
    session_ready: Option<bool>,
    autosave: bool,
    active: Option<(bool, usize)>,
    last_editor_version: usize,
    edit_ready: Option<bool>,
)
    ensures
        autosave_plan_spec(session_dirty, session_ready, autosave, active, last_editor_version, edit_ready).save_file
            ==> autosave && edit_ready == Some(true) && (active matches Some((d, v)) && d && v
            == last_editor_version),
        autosave_plan_spec(session_dirty, session_ready, autosave, active, last_editor_version, edit_ready).save_session
            <==> session_dirty && session_ready == Some(true),
{
}

/// The first tab from `i` on whose path has the components `p`.
pub open spec fn first_tab_with(paths: Seq<Seq<Seq<char>>>, p: Seq<Seq<char>>, i: nat) -> Option<nat>
    decreases paths.len() - i,
{
    if i >= paths.len() {
        None
    } else if paths[i as int] == p {
        Some(i)
    } else {
        first_tab_with(paths, p, i + 1)
    }
}

/// The tab paths as component texts.
pub open spec fn tab_parts(paths: Seq<Vec<String>>) -> Seq<Seq<Seq<char>>> {
    paths.map_values(|v: Vec<String>| parts(v@))
}

/// The tab that already shows the file `path` (paths compared component by
/// component), if one does: opening the file again switches to it.
pub fn find_tab(paths: &Vec<Vec<String>>, path: &Vec<String>) -> (r: Option<usize>)
    ensures
        match r {
            Some(i) => first_tab_with(tab_parts(paths@), parts(path@), 0) == Some(i as nat),
            None => first_tab_with(tab_parts(paths@), parts(path@), 0) is None,
        },
{
    let ghost ps = tab_parts(paths@);
    let mut i: usize = 0;
    while i < paths.len()
        invariant
            i <= paths@.len(),
            ps == tab_parts(paths@),
            first_tab_with(ps, parts(path@), i as nat) == first_tab_with(ps, parts(path@), 0),
        decreases paths@.len() - i,
    {
        let same = paths[i].len() == path.len() && starts_with_parts(&paths[i], path);
        proof {
            assert(ps[i as int] == parts(paths@[i as int]@));
            if paths[i as int]@.len() == path@.len() {
                assert(parts(paths@[i as int]@).take(parts(path@).len() as int) =~= parts(paths@[i as int]@));
            }
        }
        if same {
            return Some(i);
        }
        i += 1;
    }
    None
}

/// The tab paths after opening `p`: unchanged when a tab shows it, otherwise with
/// a new tab for it at the end.
pub open spec fn tabs_after_open(paths: Seq<Seq<Seq<char>>>, p: Seq<Seq<char>>) -> Seq<Seq<Seq<char>>> {
    match first_tab_with(paths, p, 0) {
        Some(_) => paths,
        None => paths.push(p),
    }
}

proof fn lemma_first_tab_with(paths: Seq<Seq<Seq<char>>>, p: Seq<Seq<char>>, i: nat)
    ensures
        first_tab_with(paths, p, i) matches Some(k) ==> i <= k < paths.len() && paths[k as int] == p,
        first_tab_with(paths, p, i) is None ==> forall|k: int| i <= k < paths.len() ==> paths[k] != p,
    decreases paths.len() - i,
{
    if i < paths.len() && paths[i as int] != p {
        lemma_first_tab_with(paths, p, i + 1);
    }
}

/// Opening a file never gives it a second tab: after opening, the file has a tab,
/// and tabs that showed different files still do.
pub proof fn law_open_file_reuses_its_tab(paths: Seq<Seq<Seq<char>>>, p: Seq<Seq<char>>)
    requires
        forall|a: int, b: int| 0 <= a < b < paths.len() ==> paths[a] != paths[b],
    ensures
        ({
            let after = tabs_after_open(paths, p);
            &&& after.contains(p)
            &&& forall|a: int, b: int| 0 <= a < b < after.len() ==> after[a] != after[b]
            &&& after.len() <= paths.len() + 1
        }),
{
    lemma_first_tab_with(paths, p, 0);
    let after = tabs_after_open(paths, p);
    match first_tab_with(paths, p, 0) {
        Some(k) => {
            assert(after[k as int] == p);
        },
        None => {
            assert(after[paths.len() as int] == p);
        },
    }
}

} // verus!
