//! Attaching widgets to the foreground window: which widgets follow it, where the card
//! column goes beside it, which widgets are shown, hidden or moved, and the decisions of
//! the loop that watches the foreground window.
use crate::strmap::StrMap;
use crate::text::{
    chars_of, contains_spec, lower_case, str_contains, string_of_range, string_views, to_lowercase,
};
use vstd::prelude::*;

verus! {

/// A process name passes a widget's whitelist when the list is empty or, letter case
/// aside, the name contains one of its patterns.
pub open spec fn matches_whitelist_spec(process: Seq<char>, whitelist: Seq<Seq<char>>) -> bool {
    whitelist.len() == 0 || exists|i: int|
        0 <= i < whitelist.len() && contains_spec(lower_case(process), lower_case(#[trigger] whitelist[i]))
}

/// Whether the process passes the whitelist.
pub fn matches_whitelist(process: &str, whitelist: &[String]) -> (r: bool)
    ensures
        r == matches_whitelist_spec(process@, string_views(whitelist@)),
{
    if whitelist.len() == 0 {
        return true;
    }
    let p = to_lowercase(process);
    let ghost wl = string_views(whitelist@);
    let mut i: usize = 0;
    while i < whitelist.len()
        invariant
            i <= whitelist@.len(),
            wl == string_views(whitelist@),
            p@ == lower_case(process@),
            forall|j: int| 0 <= j < i ==> !contains_spec(lower_case(process@), lower_case(#[trigger] wl[j])),
        decreases whitelist@.len() - i,
    {
        let w = to_lowercase(whitelist[i].as_str());
        assert(wl[i as int] == whitelist@[i as int]@);
        if str_contains(p.as_str(), w.as_str()) {
            return true;
        }
        i = i + 1;
    }
    false
}

/// The executable's file name in a full process image path: what follows the last `\`.
pub open spec fn basename_spec(path: Seq<char>) -> Seq<char>
    decreases path.len(),
{
    if path.len() == 0 {
        path
    } else if path.last() == '\\' {
        Seq::empty()
    } else {
        basename_spec(path.drop_last()).push(path.last())
    }
}

/// The file name of a full process image path.
pub fn process_basename(path: &str) -> (r: String)
    ensures
        r@ == basename_spec(path@),
{
    let v = chars_of(path);
    let mut k = v.len();
    assert(v@.subrange(0, v@.len() as int) =~= v@);
    assert(basename_spec(v@) + v@.subrange(k as int, v@.len() as int) =~= basename_spec(v@));
    while k > 0 && v[k - 1] != '\\'
        invariant
            k <= v@.len(),
            v@ == path@,
            basename_spec(v@) == basename_spec(v@.subrange(0, k as int)) + v@.subrange(k as int, v@.len() as int),
        decreases k,
    {
        let ghost pre = v@.subrange(0, k as int);
        assert(pre.drop_last() =~= v@.subrange(0, k - 1));
        assert(v@.subrange(k - 1, v@.len() as int) =~= seq![pre.last()] + v@.subrange(k as int, v@.len() as int));
        k = k - 1;
    }
    if k > 0 {
        assert(v@.subrange(0, k as int).last() == '\\');
    } else {
        assert(v@.subrange(0, 0) =~= Seq::<char>::empty());
    }
    let r = string_of_range(&v, k, v.len());
    assert(r@ =~= basename_spec(path@));
    r
}

/// A rectangle on the screen, in physical pixels.
#[derive(Debug, Clone, Copy)]
pub struct Rect {
    pub left: i32,
    pub top: i32,
    pub right: i32,
    pub bottom: i32,
}

/// Where the card column goes: right of the window when it fits in the work area, else
/// left of it when that fits, else against the work area's right edge; level with the
/// window's top, but not above the work area.
pub open spec fn card_position_spec(target: Rect, work: Rect, card_width: i32) -> (int, int) {
    (
        if target.right + card_width <= work.right {
            target.right as int
        } else if target.left - card_width >= work.left {
            target.left - card_width
        } else {
            work.right - card_width
        },
        if target.top >= work.top {
            target.top as int
        } else {
            work.top as int
        },
    )
}

/// The sums the placement computes fit in an `i32`.
pub open spec fn card_position_fits(target: Rect, work: Rect, card_width: i32) -> bool {
    &&& i32::MIN <= target.right + card_width <= i32::MAX
    &&& i32::MIN <= target.left - card_width <= i32::MAX
    &&& i32::MIN <= work.right - card_width <= i32::MAX
}

/// Places the card column beside the target window inside the monitor's work area.
pub fn card_position(target: Rect, work: Rect, card_width: i32) -> (r: (i32, i32))
    requires
        card_position_fits(target, work, card_width),
    ensures
        (r.0 as int, r.1 as int) == card_position_spec(target, work, card_width),
{
    let x = if target.right + card_width <= work.right {
        target.right
    } else if target.left - card_width >= work.left {
        target.left - card_width
    } else {
        work.right - card_width
    };
    let y = if target.top >= work.top {
        target.top
    } else {
        work.top
    };
    (x, y)
}

/// A visible window as listed to the user: the process that owns it and its title.
#[derive(Debug)]
pub struct WindowEntry {
    pub process: String,
    pub title: String,
}

impl Clone for WindowEntry {
    fn clone(&self) -> (r: Self)
        ensures
            r.process@ == self.process@,
            r.title@ == self.title@,
    {
        WindowEntry { process: self.process.clone(), title: self.title.clone() }
    }
}

/// The views of window entries: process and title.
pub open spec fn window_views(v: Seq<WindowEntry>) -> Seq<(Seq<char>, Seq<char>)> {
    v.map_values(|e: WindowEntry| (e.process@, e.title@))
}

/// The entries whose process has no entry before them, in order.
pub open spec fn first_per_process(es: Seq<(Seq<char>, Seq<char>)>) -> Seq<(Seq<char>, Seq<char>)>
    decreases es.len(),
{
    if es.len() == 0 {
        Seq::empty()
    } else {
        let rest = first_per_process(es.drop_last());
        if exists|i: int| 0 <= i < es.len() - 1 && (#[trigger] es[i]).0 == es.last().0 {
            rest
        } else {
            rest.push(es.last())
        }
    }
}

proof fn lemma_first_per_process_from(es: Seq<(Seq<char>, Seq<char>)>)
    ensures
        forall|j: int|
            0 <= j < first_per_process(es).len() ==> exists|i: int| 0 <= i < es.len() && (#[trigger] first_per_process(es)[j]).0 == es[i].0,
        forall|i: int|
            0 <= i < es.len() ==> exists|j: int| 0 <= j < first_per_process(es).len() && (#[trigger] es[i]).0 == first_per_process(es)[j].0,
    decreases es.len(),
{
    if es.len() > 0 {
        let p = es.drop_last();
        lemma_first_per_process_from(p);
        let rest = first_per_process(p);
        let f = first_per_process(es);
        assert forall|j: int| 0 <= j < f.len() implies exists|i: int| 0 <= i < es.len() && (#[trigger] f[j]).0 == es[i].0 by {
            if j < rest.len() {
                assert(f[j] == rest[j]);
                let i = choose|i: int| 0 <= i < p.len() && rest[j].0 == p[i].0;
                assert(es[i] == p[i]);
            } else {
                assert(f[j] == es.last());
            }
        }
        assert forall|i: int| 0 <= i < es.len() implies exists|j: int| 0 <= j < f.len() && (#[trigger] es[i]).0 == f[j].0 by {
            if i < es.len() - 1 {
                assert(es[i] == p[i]);
                let j = choose|j: int| 0 <= j < rest.len() && p[i].0 == rest[j].0;
                assert(f[j] == rest[j]);
            } else if exists|k: int| 0 <= k < es.len() - 1 && (#[trigger] es[k]).0 == es.last().0 {
                let k = choose|k: int| 0 <= k < es.len() - 1 && (#[trigger] es[k]).0 == es.last().0;
                assert(es[k] == p[k]);
                let j = choose|j: int| 0 <= j < rest.len() && p[k].0 == rest[j].0;
                assert(f[j] == rest[j]);
            } else {
                assert(f[f.len() - 1] == es.last());
            }
        }
    }
}

/// Keeps the first window of each process, in order.
#[verifier::spinoff_prover]
#[verifier::rlimit(30)]
pub fn dedupe_windows_by_process(entries: &Vec<WindowEntry>) -> (r: Vec<WindowEntry>)
    ensures
        window_views(r@) == first_per_process(window_views(entries@)),
{
    let ghost all = window_views(entries@);
    let mut out: Vec<WindowEntry> = Vec::new();
    let mut i: usize = 0;
    while i < entries.len()
        invariant
            all == window_views(entries@),
            i <= entries@.len(),
            window_views(out@) == first_per_process(all.take(i as int)),
        decreases entries@.len() - i,
    {
        let ghost pre = all.take(i as int);
        let ghost cur = all.take(i + 1);
        assert(cur.drop_last() =~= pre);
        assert(cur.last() == all[i as int]);
        assert(all[i as int] == (entries@[i as int].process@, entries@[i as int].title@));
        proof {
            lemma_first_per_process_from(pre);
        }
        let mut seen = false;
        let mut j: usize = 0;
        while j < out.len()
            invariant
                j <= out@.len(),
                i < entries@.len(),
                window_views(out@) == first_per_process(pre),
                seen == exists|k: int| 0 <= k < j && (#[trigger] out@[k]).process@ == entries@[i as int].process@,
            decreases out@.len() - j,
        {
            if crate::text::str_eq(out[j].process.as_str(), entries[i].process.as_str()) {
                seen = true;
            }
            j = j + 1;
        }
        proof {
            let f = first_per_process(pre);
            let x = entries@[i as int].process@;
            if seen {
                let k = choose|k: int| 0 <= k < out@.len() && (#[trigger] out@[k]).process@ == x;
                assert(window_views(out@)[k].0 == x);
                let m = choose|m: int| 0 <= m < pre.len() && f[k].0 == pre[m].0;
                assert(cur[m] == pre[m]);
            } else {
                if exists|m: int| 0 <= m < cur.len() - 1 && (#[trigger] cur[m]).0 == cur.last().0 {
                    let m = choose|m: int| 0 <= m < cur.len() - 1 && (#[trigger] cur[m]).0 == cur.last().0;
                    assert(pre[m] == cur[m]);
                    let k = choose|k: int| 0 <= k < f.len() && pre[m].0 == f[k].0;
                    assert(out@[k].process@ == window_views(out@)[k].0);
                    assert(false);
                }
            }
        }
        if !seen {
            let ghost prev = window_views(out@);
            out.push(entries[i].clone());
            assert(window_views(out@) =~= prev.push(all[i as int]));
        }
        i = i + 1;
    }
    assert(all.take(entries@.len() as int) =~= all);
    out
}

/// What the attach loop remembers of a widget between placements: whether it is shown,
/// and where it was put.
#[derive(Debug, Clone, Copy, PartialEq, Eq, Structural)]
pub struct WidgetCache {
    pub visible: bool,
    pub x: i32,
    pub y: i32,
}

/// The abstract attach settings.
pub struct AttachView {
    pub running: bool,
    pub card_width: i32,
    pub collapsed_height: Map<Seq<char>, i32>,
    pub attach_enabled: Map<Seq<char>, bool>,
    pub attach_whitelist: Map<Seq<char>, Seq<Seq<char>>>,
    pub attach_remember: Map<Seq<char>, bool>,
    pub current_url: Seq<char>,
    pub sequence_labels: Set<Seq<char>>,
}

/// The attach settings of the widgets: whether the loop runs, the card width, the
/// widgets collapsed to a header, which widgets follow the foreground window and for
/// which processes, which keep the place the user gave them, the browser address last
/// read, and the widgets of the sequence, which the loop leaves alone.
pub struct AttachState {
    running: bool,
    card_width: i32,
    collapsed_height: StrMap<i32>,
    attach_enabled: StrMap<bool>,
    attach_whitelist: StrMap<Vec<String>>,
    attach_remember: StrMap<bool>,
    current_url: String,
    sequence_labels: StrMap<()>,
}

impl View for AttachState {
    type V = AttachView;

    closed spec fn view(&self) -> AttachView {
        AttachView {
            running: self.running,
            card_width: self.card_width,
            collapsed_height: self.collapsed_height@,
            attach_enabled: self.attach_enabled@,
            attach_whitelist: Map::new(
                |k: Seq<char>| self.attach_whitelist@.dom().contains(k),
                |k: Seq<char>| string_views(self.attach_whitelist@[k]@),
            ),
            attach_remember: self.attach_remember@,
            current_url: self.current_url@,
            sequence_labels: self.sequence_labels@.dom(),
        }
    }
}

/// Stops the attach loop: it ends at its next turn.
pub fn stop_attach_loop(state: &mut AttachState)
    ensures
        final(state)@ == (AttachView { running: false, ..old(state)@ }),
{
    state.set_running(false);
}

impl AttachState {
    #[verifier::type_invariant]
    spec fn inv(&self) -> bool {
        &&& self.collapsed_height.wf()
        &&& self.attach_enabled.wf()
        &&& self.attach_whitelist.wf()
        &&& self.attach_remember.wf()
        &&& self.sequence_labels.wf()
    }

    /// No widget attached yet, the loop stopped, cards 360 pixels wide.
    pub fn new() -> (s: Self)
        ensures
            s@ == (AttachView {
                running: false,
                card_width: 360,
                collapsed_height: Map::empty(),
                attach_enabled: Map::empty(),
                attach_whitelist: Map::empty(),
                attach_remember: Map::empty(),
                current_url: Seq::empty(),
                sequence_labels: Set::empty(),
            }),
    {
        let s = AttachState {
            running: false,
            card_width: 360,
            collapsed_height: StrMap::new(),
            attach_enabled: StrMap::new(),
            attach_whitelist: StrMap::new(),
            attach_remember: StrMap::new(),
            current_url: String::new(),
            sequence_labels: StrMap::new(),
        };
        assert(s@.attach_whitelist =~= Map::<Seq<char>, Seq<Seq<char>>>::empty());
        assert(s@.sequence_labels =~= Set::<Seq<char>>::empty());
        s
    }

    /// Whether the loop runs.
    pub fn is_running(&self) -> (r: bool)
        ensures
            r == self@.running,
    {
        self.running
    }

    /// Starts or stops the loop.
    pub fn set_running(&mut self, running: bool)
        ensures
            final(self)@ == (AttachView { running, ..old(self)@ }),
    {
        proof {
            use_type_invariant(&*self);
        }
        self.running = running;
    }

    /// The card width, in logical pixels.
    pub fn card_width(&self) -> (r: i32)
        ensures
            r == self@.card_width,
    {
        self.card_width
    }

    /// Sets the card width the frontend reports.
    pub fn set_card_width(&mut self, width: u32)
        ensures
            final(self)@ == (AttachView { card_width: width as i32, ..old(self)@ }),
    {
        proof {
            use_type_invariant(&*self);
        }
        self.card_width = width as i32;
    }

    /// Marks a widget collapsed to a header of the given height, or expanded (`None`).
    pub fn set_collapsed(&mut self, label: String, height: Option<u32>)
        ensures
            final(self)@ == (AttachView {
                collapsed_height: match height {
                    Some(h) => old(self)@.collapsed_height.insert(label@, h as i32),
                    None => old(self)@.collapsed_height.remove(label@),
                },
                ..old(self)@
            }),
    {
        proof {
            use_type_invariant(&*self);
        }
        let mut m = StrMap::new();
        std::mem::swap(&mut m, &mut self.collapsed_height);
        match height {
            Some(h) => m.insert(label, h as i32),
            None => m.remove(label.as_str()),
        }
        self.collapsed_height = m;
    }

    /// Sets whether a widget follows the foreground window.
    pub fn set_attach_enabled(&mut self, label: String, enabled: bool)
        ensures
            final(self)@ == (AttachView { attach_enabled: old(self)@.attach_enabled.insert(label@, enabled), ..old(self)@ }),
    {
        proof {
            use_type_invariant(&*self);
        }
        let mut m = StrMap::new();
        std::mem::swap(&mut m, &mut self.attach_enabled);
        m.insert(label, enabled);
        self.attach_enabled = m;
    }

    /// Sets the process patterns a widget follows (none: every process).
    pub fn set_attach_whitelist(&mut self, label: String, patterns: Vec<String>)
        ensures
            final(self)@ == (AttachView {
                attach_whitelist: old(self)@.attach_whitelist.insert(label@, string_views(patterns@)),
                ..old(self)@
            }),
    {
        proof {
            use_type_invariant(&*self);
        }
        let ghost before = self@;
        let ghost k = label@;
        let ghost pv = string_views(patterns@);
        let mut m = StrMap::new();
        std::mem::swap(&mut m, &mut self.attach_whitelist);
        m.insert(label, patterns);
        self.attach_whitelist = m;
        assert(self@.attach_whitelist =~= before.attach_whitelist.insert(k, pv));
    }

    /// Sets whether a widget keeps the place the user gave it.
    pub fn set_attach_remember(&mut self, label: String, remember: bool)
        ensures
            final(self)@ == (AttachView { attach_remember: old(self)@.attach_remember.insert(label@, remember), ..old(self)@ }),
    {
        proof {
            use_type_invariant(&*self);
        }
        let mut m = StrMap::new();
        std::mem::swap(&mut m, &mut self.attach_remember);
        m.insert(label, remember);
        self.attach_remember = m;
    }

    /// Puts a widget in the sequence, which the loop leaves alone.
    pub fn add_sequence_label(&mut self, label: String)
        ensures
            final(self)@ == (AttachView { sequence_labels: old(self)@.sequence_labels.insert(label@), ..old(self)@ }),
    {
        proof {
            use_type_invariant(&*self);
        }
        let ghost before = self@;
        let ghost k = label@;
        let mut m = StrMap::new();
        std::mem::swap(&mut m, &mut self.sequence_labels);
        m.insert(label, ());
        self.sequence_labels = m;
        assert(self@.sequence_labels =~= before.sequence_labels.insert(k));
    }

    /// Empties the sequence: the loop leaves no widget alone for being in it.
    pub fn clear_sequence_labels(&mut self)
        ensures
            final(self)@ == (AttachView { sequence_labels: Set::empty(), ..old(self)@ }),
    {
        proof {
            use_type_invariant(&*self);
        }
        let ghost before = self@;
        self.sequence_labels = StrMap::new();
        assert(self@.sequence_labels =~= Set::<Seq<char>>::empty());
    }

    /// The browser address last read.
    pub fn current_url(&self) -> (r: String)
        ensures
            r@ == self@.current_url,
    {
        self.current_url.clone()
    }

    /// Records the browser address just read (empty when the foreground is no browser).
    pub fn set_current_url(&mut self, url: String)
        ensures
            final(self)@ == (AttachView { current_url: url@, ..old(self)@ }),
    {
        proof {
            use_type_invariant(&*self);
        }
        self.current_url = url;
    }

    /// The widgets registered for attaching, each once.
    pub fn widget_labels(&self) -> (r: Vec<String>)
        ensures
            string_views(r@).to_set() == self@.attach_enabled.dom(),
            string_views(r@).no_duplicates(),
    {
        proof {
            use_type_invariant(self);
        }
        let r = self.attach_enabled.keys();
        assert(string_views(r@) =~= r@.map_values(|s: String| s@));
        r
    }
}

/// A change the attach loop makes to a widget window.
#[derive(Debug)]
pub enum WidgetAction {
    Hide(String),
    Show(String),
    Move(String, i32, i32),
}

/// The abstract value of a widget change.
pub enum ActionView {
    Hide(Seq<char>),
    Show(Seq<char>),
    Move(Seq<char>, i32, i32),
}

/// The abstract value of a widget change.
pub open spec fn action_view(a: WidgetAction) -> ActionView {
    match a {
        WidgetAction::Hide(l) => ActionView::Hide(l@),
        WidgetAction::Show(l) => ActionView::Show(l@),
        WidgetAction::Move(l, x, y) => ActionView::Move(l@, x, y),
    }
}

/// The abstract values of widget changes.
pub open spec fn action_views(v: Seq<WidgetAction>) -> Seq<ActionView> {
    v.map_values(|a: WidgetAction| action_view(a))
}

/// The state of one placement pass: what is remembered of each widget, how far down the
/// column the next widget goes, whether any widget was moved, and the changes so far.
pub struct PlanView {
    pub cache: Map<Seq<char>, WidgetCache>,
    pub y_offset: int,
    pub moved: bool,
    pub actions: Seq<ActionView>,
}

/// What the placement pass is given besides the settings: the foreground process, the
/// widget windows that exist with their heights where known, the card column's place,
/// and whether widgets may be moved now.
pub struct PlaceInput {
    pub process: Seq<char>,
    pub windows: Map<Seq<char>, Option<u32>>,
    pub card_x: i32,
    pub card_y: i32,
    pub may_move: bool,
}

/// The widget is left alone: it is in the sequence, collapsed, or not attached.
pub open spec fn is_skipped(a: AttachView, l: Seq<char>) -> bool {
    a.sequence_labels.contains(l) || a.collapsed_height.dom().contains(l) || (a.attach_enabled.dom().contains(l)
        && !a.attach_enabled[l])
}

/// The whitelist of a widget (none: empty).
pub open spec fn whitelist_of(a: AttachView, l: Seq<char>) -> Seq<Seq<char>> {
    if a.attach_whitelist.dom().contains(l) {
        a.attach_whitelist[l]
    } else {
        Seq::empty()
    }
}

/// The widget is put in the column: not left alone, its whitelist passes, its window
/// exists, and it does not keep its own place.
pub open spec fn is_placed(a: AttachView, inp: PlaceInput, l: Seq<char>) -> bool {
    &&& !is_skipped(a, l)
    &&& matches_whitelist_spec(inp.process, whitelist_of(a, l))
    &&& inp.windows.dom().contains(l)
    &&& !(a.attach_remember.dom().contains(l) && a.attach_remember[l])
}

/// One widget's turn in the placement pass.
/// - Left alone: nothing changes.
/// - Its whitelist fails: if it was shown (or never seen) it is hidden (when its window
///   exists) and remembered as hidden.
/// - Otherwise, if its window exists: it is shown if it was not; a widget that keeps its
///   own place is remembered as shown; any other goes to the next place in the column,
///   moved there only if its place changed and moving is allowed now, and the column
///   grows by its height when that is known.
pub open spec fn place_step(a: AttachView, inp: PlaceInput, st: PlanView, l: Seq<char>) -> PlanView {
    if is_skipped(a, l) {
        st
    } else if !matches_whitelist_spec(inp.process, whitelist_of(a, l)) {
        let was_visible = if st.cache.dom().contains(l) {
            st.cache[l].visible
        } else {
            true
        };
        if was_visible {
            PlanView {
                cache: st.cache.insert(l, WidgetCache { visible: false, x: 0, y: 0 }),
                actions: if inp.windows.dom().contains(l) {
                    st.actions.push(ActionView::Hide(l))
                } else {
                    st.actions
                },
                ..st
            }
        } else {
            st
        }
    } else if inp.windows.dom().contains(l) {
        let was_visible = st.cache.dom().contains(l) && st.cache[l].visible;
        let shown = if was_visible {
            st.actions
        } else {
            st.actions.push(ActionView::Show(l))
        };
        if a.attach_remember.dom().contains(l) && a.attach_remember[l] {
            PlanView { cache: st.cache.insert(l, WidgetCache { visible: true, x: 0, y: 0 }), actions: shown, ..st }
        } else {
            let ny = (inp.card_y + st.y_offset) as i32;
            let changed = !st.cache.dom().contains(l) || st.cache[l].x != inp.card_x || st.cache[l].y != ny;
            let do_move = changed && inp.may_move;
            PlanView {
                cache: st.cache.insert(l, WidgetCache { visible: true, x: inp.card_x, y: ny }),
                y_offset: match inp.windows[l] {
                    Some(h) => st.y_offset + (h as i32),
                    None => st.y_offset,
                },
                moved: st.moved || do_move,
                actions: if do_move {
                    shown.push(ActionView::Move(l, inp.card_x, ny))
                } else {
                    shown
                },
            }
        }
    } else {
        st
    }
}

/// The placement pass over the widgets in order, from the remembered state.
pub open spec fn place_all(a: AttachView, inp: PlaceInput, cache: Map<Seq<char>, WidgetCache>, ls: Seq<Seq<char>>) -> PlanView
    decreases ls.len(),
{
    if ls.len() == 0 {
        PlanView { cache, y_offset: 0, moved: false, actions: Seq::empty() }
    } else {
        place_step(a, inp, place_all(a, inp, cache, ls.drop_last()), ls.last())
    }
}

/// The column positions of the pass fit in an `i32`.
pub open spec fn place_fits(a: AttachView, inp: PlaceInput, cache: Map<Seq<char>, WidgetCache>, ls: Seq<Seq<char>>) -> bool
    decreases ls.len(),
{
    if ls.len() == 0 {
        true
    } else {
        let st = place_all(a, inp, cache, ls.drop_last());
        &&& place_fits(a, inp, cache, ls.drop_last())
        &&& is_placed(a, inp, ls.last()) ==> {
            &&& i32::MIN <= inp.card_y + st.y_offset <= i32::MAX
            &&& inp.windows[ls.last()] matches Some(h) ==> i32::MIN <= st.y_offset + (h as i32) <= i32::MAX
        }
    }
}

/// The abstract value of the place input.
pub open spec fn place_input(process: Seq<char>, windows: Map<Seq<char>, Option<u32>>, card_x: i32, card_y: i32, may_move: bool) -> PlaceInput {
    PlaceInput { process, windows, card_x, card_y, may_move }
}

impl AttachState {
    /// The placement pass over the widgets `labels`, in order (see `place_step`): updates
    /// what is remembered of each widget and returns the changes to make to the windows
    /// and whether any widget was moved.
    pub fn plan_reposition(
        &self,
        labels: &Vec<String>,
        cache: &mut StrMap<WidgetCache>,
        process: &str,
        windows: &StrMap<Option<u32>>,
        card_x: i32,
        card_y: i32,
        may_move: bool,
    ) -> (r: (Vec<WidgetAction>, bool))
        requires
            old(cache).wf(),
            windows.wf(),
            place_fits(self@, place_input(process@, windows@, card_x, card_y, may_move), old(cache)@, string_views(labels@)),
        ensures
            final(cache).wf(),
            ({
                let p = place_all(self@, place_input(process@, windows@, card_x, card_y, may_move), old(cache)@, string_views(labels@));
                &&& final(cache)@ == p.cache
                &&& action_views(r.0@) == p.actions
                &&& r.1 == p.moved
            }),
    {
        proof {
            use_type_invariant(self);
        }
        let ghost a = self@;
        let ghost inp = place_input(process@, windows@, card_x, card_y, may_move);
        let ghost c0 = cache@;
        let ghost ls = string_views(labels@);
        let mut actions: Vec<WidgetAction> = Vec::new();
        let mut y_offset: i32 = 0;
        let mut moved = false;
        let mut i: usize = 0;
        while i < labels.len()
            invariant
                self.attach_enabled.wf(),
                self.collapsed_height.wf(),
                self.attach_whitelist.wf(),
                self.attach_remember.wf(),
                self.sequence_labels.wf(),
                windows.wf(),
                cache.wf(),
                a == self@,
                inp == place_input(process@, windows@, card_x, card_y, may_move),
                ls == string_views(labels@),
                i <= labels@.len(),
                place_fits(a, inp, c0, ls),
                ({
                    let p = place_all(a, inp, c0, ls.take(i as int));
                    &&& cache@ == p.cache
                    &&& y_offset as int == p.y_offset
                    &&& moved == p.moved
                    &&& action_views(actions@) == p.actions
                }),
            decreases labels@.len() - i,
        {
            let ghost pre = ls.take(i as int);
            let ghost cur = ls.take(i + 1);
            assert(cur.drop_last() =~= pre);
            assert(cur.last() == labels@[i as int]@);
            proof {
                lemma_place_fits_prefix(a, inp, c0, ls, i + 1);
            }
            let ghost st = place_all(a, inp, c0, pre);
            let label = &labels[i];
            let l = label.as_str();
            let skipped = self.sequence_labels.contains_key(l) || self.collapsed_height.contains_key(l) || match self.attach_enabled.get(l) {
                Some(e) => !*e,
                None => false,
            };
            if skipped {
                i = i + 1;
                continue;
            }
            let passes = match self.attach_whitelist.get(l) {
                Some(wl) => matches_whitelist(process, wl.as_slice()),
                None => {
                    proof {
                        assert(string_views(Seq::<String>::empty()) =~= Seq::<Seq<char>>::empty());
                    }
                    matches_whitelist(process, &[])
                },
            };
            assert(passes == matches_whitelist_spec(process@, whitelist_of(a, l@)));
            if !passes {
                let was_visible = match cache.get(l) {
                    Some(c) => c.visible,
                    None => true,
                };
                if was_visible {
                    if windows.contains_key(l) {
                        let ghost prev = action_views(actions@);
                        actions.push(WidgetAction::Hide(label.clone()));
                        assert(action_views(actions@) =~= prev.push(ActionView::Hide(l@)));
                    }
                    cache.insert(label.clone(), WidgetCache { visible: false, x: 0, y: 0 });
                }
                i = i + 1;
                continue;
            }
            match windows.get(l) {
                Some(h) => {
                    let was_visible = match cache.get(l) {
                        Some(c) => c.visible,
                        None => false,
                    };
                    if !was_visible {
                        let ghost prev = action_views(actions@);
                        actions.push(WidgetAction::Show(label.clone()));
                        assert(action_views(actions@) =~= prev.push(ActionView::Show(l@)));
                    }
                    let keeps = match self.attach_remember.get(l) {
                        Some(r) => *r,
                        None => false,
                    };
                    if keeps {
                        cache.insert(label.clone(), WidgetCache { visible: true, x: 0, y: 0 });
                    } else {
                        let new_x = card_x;
                        let new_y = card_y + y_offset;
                        let pos_changed = match cache.get(l) {
                            Some(c) => c.x != new_x || c.y != new_y,
                            None => true,
                        };
                        if pos_changed && may_move {
                            let ghost prev = action_views(actions@);
                            actions.push(WidgetAction::Move(label.clone(), new_x, new_y));
                            assert(action_views(actions@) =~= prev.push(ActionView::Move(l@, new_x, new_y)));
                            moved = true;
                        }
                        cache.insert(label.clone(), WidgetCache { visible: true, x: new_x, y: new_y });
                        match *h {
                            Some(height) => {
                                y_offset = y_offset + (height as i32);
                            },
                            None => {},
                        }
                    }
                },
                None => {},
            }
            i = i + 1;
        }
        assert(ls.take(labels@.len() as int) =~= ls);
        (actions, moved)
    }
}

proof fn lemma_place_fits_prefix(a: AttachView, inp: PlaceInput, c0: Map<Seq<char>, WidgetCache>, ls: Seq<Seq<char>>, k: int)
    requires
        0 <= k <= ls.len(),
        place_fits(a, inp, c0, ls),
    ensures
        place_fits(a, inp, c0, ls.take(k)),
    decreases ls.len() - k,
{
    if k < ls.len() {
        lemma_place_fits_prefix(a, inp, c0, ls, k + 1);
        assert(ls.take(k + 1).drop_last() =~= ls.take(k));
    } else {
        assert(ls.take(k) =~= ls);
    }
}

/// What the watching loop does about the browser address on a turn.
#[derive(Debug, Clone, Copy, PartialEq, Eq, Structural)]
pub enum UrlAction {
    /// Read the foreground browser's address.
    Read,
    /// The foreground is no browser: forget the address.
    Clear,
    /// Read it again later.
    Wait,
}

/// The least time between two moves of widgets by a throttled placement.
pub const MOVE_COOLDOWN_MS: u64 = 100;

/// The least time between two reads of the browser address.
pub const URL_READ_INTERVAL_MS: u64 = 500;

/// What the loop that watches the foreground window remembers between turns.
pub struct AttachLoop {
    pub last_fg: isize,
    pub last_move_ms: u64,
    pub last_url_read_ms: u64,
}

/// `now - then`, or zero when the clock went back.
pub open spec fn since(then: u64, now: u64) -> int {
    if now >= then {
        now - then
    } else {
        0
    }
}

impl AttachLoop {
    /// A loop that has seen no foreground window; moves are counted from `now_ms`.
    pub fn new(now_ms: u64) -> (s: Self)
        ensures
            s.last_fg == 0,
            s.last_move_ms == now_ms,
            s.last_url_read_ms == 0,
    {
        AttachLoop { last_fg: 0, last_move_ms: now_ms, last_url_read_ms: 0 }
    }

    /// One turn, with the foreground window, whether it is one of this app's windows, and
    /// whether a window moved since the last turn. When a window moved or the foreground
    /// changed, the foreground is remembered and, unless it is this app's, the widgets are
    /// placed: `Some(throttled)`, throttled when only a move (no foreground change) was
    /// seen. Otherwise `None`.
    pub fn on_tick(&mut self, fg: isize, fg_is_own: bool, dirty: bool) -> (r: Option<bool>)
        ensures
            (dirty || fg != old(self).last_fg) ==> final(self).last_fg == fg && r == (if fg_is_own {
                None
            } else {
                Some(dirty && fg == old(self).last_fg)
            }),
            !(dirty || fg != old(self).last_fg) ==> final(self).last_fg == old(self).last_fg && r is None,
            final(self).last_move_ms == old(self).last_move_ms,
            final(self).last_url_read_ms == old(self).last_url_read_ms,
    {
        let fg_changed = fg != self.last_fg;
        if dirty || fg_changed {
            self.last_fg = fg;
            if !fg_is_own {
                return Some(dirty && !fg_changed);
            }
        }
        None
    }

    /// Whether a placement may move widgets now: always when not throttled, else once
    /// `MOVE_COOLDOWN_MS` passed since widgets were last moved.
    pub fn may_move(&self, throttled: bool, now_ms: u64) -> (r: bool)
        ensures
            r == (!throttled || since(self.last_move_ms, now_ms) >= MOVE_COOLDOWN_MS),
    {
        if throttled {
            let elapsed: u64 = if now_ms >= self.last_move_ms { now_ms - self.last_move_ms } else { 0 };
            elapsed >= MOVE_COOLDOWN_MS
        } else {
            true
        }
    }

    /// Notes that widgets were moved at `now_ms`.
    pub fn note_moved(&mut self, now_ms: u64)
        ensures
            final(self).last_move_ms == now_ms,
            final(self).last_fg == old(self).last_fg,
            final(self).last_url_read_ms == old(self).last_url_read_ms,
    {
        self.last_move_ms = now_ms;
    }

    /// What to do about the browser address: with a browser in front, read it when
    /// `URL_READ_INTERVAL_MS` passed since the last read (which then counts from now);
    /// otherwise forget it.
    pub fn url_action(&mut self, is_browser: bool, now_ms: u64) -> (r: UrlAction)
        ensures
            (r, *final(self)) == url_step(*old(self), is_browser, now_ms),
    {
        if !is_browser {
            return UrlAction::Clear;
        }
        let elapsed: u64 = now_ms.saturating_sub(self.last_url_read_ms);
        if elapsed >= URL_READ_INTERVAL_MS {
            self.last_url_read_ms = now_ms;
            UrlAction::Read
        } else {
            UrlAction::Wait
        }
    }
}

/// Widgets of the sequence, collapsed widgets and widgets not attached are left alone by
/// a placement pass.
pub proof fn law_skipped_widgets_untouched(a: AttachView, inp: PlaceInput, st: PlanView, l: Seq<char>)
    requires
        is_skipped(a, l),
    ensures
        place_step(a, inp, st, l) == st,
{
}

/// A widget without a whitelist follows every process.
pub proof fn law_empty_whitelist_matches_all(process: Seq<char>)
    ensures
        matches_whitelist_spec(process, Seq::empty()),
{
}

/// The browser-address step of the attach loop at `now`: with a browser in front, read
/// when `URL_READ_INTERVAL_MS` passed since the last read (which then counts from now),
/// else wait; without one, forget the address.
pub open spec fn url_step(l: AttachLoop, is_browser: bool, now: u64) -> (UrlAction, AttachLoop) {
    if !is_browser {
        (UrlAction::Clear, l)
    } else if since(l.last_url_read_ms, now) >= URL_READ_INTERVAL_MS {
        (UrlAction::Read, AttachLoop { last_url_read_ms: now, ..l })
    } else {
        (UrlAction::Wait, l)
    }
}

/// After the browser address was read, it is not read again before the interval passed:
/// a later step within the interval waits and changes nothing.
pub proof fn law_url_read_throttled(l: AttachLoop, now: u64, later: u64)
    requires
        url_step(l, true, now).0 == UrlAction::Read,
        since(now, later) < URL_READ_INTERVAL_MS,
    ensures
        ({
            let after = url_step(l, true, now).1;
            url_step(after, true, later) == (UrlAction::Wait, after)
        }),
{
}

/// How far down the column the widgets placed among `ls` reach: the heights (where known)
/// of the placed widgets, added up.
pub open spec fn column_offset(a: AttachView, inp: PlaceInput, ls: Seq<Seq<char>>) -> int
    decreases ls.len(),
{
    if ls.len() == 0 {
        0
    } else {
        let y = column_offset(a, inp, ls.drop_last());
        if is_placed(a, inp, ls.last()) {
            match inp.windows[ls.last()] {
                Some(h) => y + (h as i32),
                None => y,
            }
        } else {
            y
        }
    }
}

proof fn lemma_place_offset(a: AttachView, inp: PlaceInput, c0: Map<Seq<char>, WidgetCache>, ls: Seq<Seq<char>>)
    ensures
        place_all(a, inp, c0, ls).y_offset == column_offset(a, inp, ls),
    decreases ls.len(),
{
    if ls.len() > 0 {
        lemma_place_offset(a, inp, c0, ls.drop_last());
    }
}

/// The column positions fit in an `i32` when each placed widget's place and the offset
/// after it do.
pub open spec fn column_fits(a: AttachView, inp: PlaceInput, ls: Seq<Seq<char>>) -> bool
    decreases ls.len(),
{
    if ls.len() == 0 {
        true
    } else {
        let y = column_offset(a, inp, ls.drop_last());
        &&& column_fits(a, inp, ls.drop_last())
        &&& is_placed(a, inp, ls.last()) ==> {
            &&& i32::MIN <= inp.card_y + y <= i32::MAX
            &&& inp.windows[ls.last()] matches Some(h) ==> i32::MIN <= y + (h as i32) <= i32::MAX
        }
    }
}

proof fn lemma_place_fits_column(a: AttachView, inp: PlaceInput, c0: Map<Seq<char>, WidgetCache>, ls: Seq<Seq<char>>)
    ensures
        place_fits(a, inp, c0, ls) == column_fits(a, inp, ls),
    decreases ls.len(),
{
    if ls.len() > 0 {
        lemma_place_fits_column(a, inp, c0, ls.drop_last());
        lemma_place_offset(a, inp, c0, ls.drop_last());
    }
}

impl AttachState {
    fn is_placed_exec(&self, l: &str, process: &str, windows: &StrMap<Option<u32>>) -> (r: bool)
        requires
            windows.wf(),
        ensures
            forall|inp: PlaceInput| inp.process == process@ && inp.windows == windows@ ==> r == #[trigger] is_placed(self@, inp, l@),
    {
        proof {
            use_type_invariant(self);
        }
        let skipped = self.sequence_labels.contains_key(l) || self.collapsed_height.contains_key(l) || match self.attach_enabled.get(l) {
            Some(e) => !*e,
            None => false,
        };
        if skipped {
            return false;
        }
        let passes = match self.attach_whitelist.get(l) {
            Some(wl) => matches_whitelist(process, wl.as_slice()),
            None => {
                proof {
                    assert(string_views(Seq::<String>::empty()) =~= Seq::<Seq<char>>::empty());
                }
                matches_whitelist(process, &[])
            },
        };
        assert(passes == matches_whitelist_spec(process@, whitelist_of(self@, l@)));
        if !passes || !windows.contains_key(l) {
            return false;
        }
        match self.attach_remember.get(l) {
            Some(r) => !*r,
            None => true,
        }
    }

    /// Whether a placement pass with these inputs keeps its column positions within an
    /// `i32` (what `plan_reposition` asks of its inputs).
    pub fn reposition_fits(&self, labels: &Vec<String>, process: &str, windows: &StrMap<Option<u32>>, card_y: i32) -> (r: bool)
        requires
            windows.wf(),
        ensures
            forall|card_x: i32, may_move: bool, c0: Map<Seq<char>, WidgetCache>|
                r == place_fits(self@, place_input(process@, windows@, card_x, card_y, may_move), c0, string_views(labels@)),
    {
        let ghost ls = string_views(labels@);
        let ghost inp0 = place_input(process@, windows@, 0, card_y, false);
        let mut y: i64 = 0;
        let mut i: usize = 0;
        while i < labels.len()
            invariant
                windows.wf(),
                ls == string_views(labels@),
                inp0 == place_input(process@, windows@, 0, card_y, false),
                i <= labels@.len(),
                y as int == column_offset(self@, inp0, ls.take(i as int)),
                i32::MIN <= y <= i32::MAX,
                column_fits(self@, inp0, ls.take(i as int)),
            decreases labels@.len() - i,
        {
            let ghost pre = ls.take(i as int);
            assert(ls.take(i + 1).drop_last() =~= pre);
            assert(ls.take(i + 1).last() == labels@[i as int]@);
            let l = labels[i].as_str();
            let placed = self.is_placed_exec(l, process, windows);
            assert(placed == is_placed(self@, inp0, l@));
            assert(column_fits(self@, inp0, ls.take(i + 1)) == (column_fits(self@, inp0, pre) && (placed ==> {
                &&& i32::MIN <= card_y + y <= i32::MAX
                &&& windows@[l@] matches Some(h) ==> i32::MIN <= y + (h as i32) <= i32::MAX
            })));
            assert(column_offset(self@, inp0, ls.take(i + 1)) == if placed {
                match windows@[l@] {
                    Some(h) => y + (h as i32),
                    None => y as int,
                }
            } else {
                y as int
            });
            if placed {
                let top = (card_y as i64) + y;
                if top < -2147483648i64 || top > 2147483647i64 {
                    proof {
                        assert(!column_fits(self@, inp0, ls.take(i + 1)));
                        lemma_column_fits_prefix(self@, inp0, ls, i + 1);
                        self.lemma_fits_any(inp0, process@, windows@, card_y, ls);
                    }
                    return false;
                }
                match windows.get(l) {
                    Some(h) => match *h {
                        Some(height) => {
                            let next = y + ((height as i32) as i64);
                            if next < -2147483648i64 || next > 2147483647i64 {
                                proof {
                                    assert(!column_fits(self@, inp0, ls.take(i + 1)));
                                    lemma_column_fits_prefix(self@, inp0, ls, i + 1);
                                    self.lemma_fits_any(inp0, process@, windows@, card_y, ls);
                                }
                                return false;
                            }
                            y = next;
                        },
                        None => {},
                    },
                    None => {},
                }
            }
            i = i + 1;
        }
        assert(ls.take(labels@.len() as int) =~= ls);
        proof {
            self.lemma_fits_any(inp0, process@, windows@, card_y, ls);
        }
        true
    }

    proof fn lemma_fits_any(&self, inp0: PlaceInput, process: Seq<char>, windows: Map<Seq<char>, Option<u32>>, card_y: i32, ls: Seq<Seq<char>>)
        requires
            inp0 == place_input(process, windows, 0, card_y, false),
        ensures
            forall|card_x: i32, may_move: bool, c0: Map<Seq<char>, WidgetCache>|
                place_fits(self@, place_input(process, windows, card_x, card_y, may_move), c0, ls) == column_fits(self@, inp0, ls),
    {
        assert forall|card_x: i32, may_move: bool, c0: Map<Seq<char>, WidgetCache>|
            place_fits(self@, place_input(process, windows, card_x, card_y, may_move), c0, ls) == column_fits(self@, inp0, ls) by {
            let inp = place_input(process, windows, card_x, card_y, may_move);
            lemma_place_fits_column(self@, inp, c0, ls);
            lemma_column_same(self@, inp, inp0, ls);
        }
    }
}

proof fn lemma_column_same(a: AttachView, i1: PlaceInput, i2: PlaceInput, ls: Seq<Seq<char>>)
    requires
        i1.process == i2.process,
        i1.windows == i2.windows,
        i1.card_y == i2.card_y,
    ensures
        column_offset(a, i1, ls) == column_offset(a, i2, ls),
        column_fits(a, i1, ls) == column_fits(a, i2, ls),
    decreases ls.len(),
{
    if ls.len() > 0 {
        lemma_column_same(a, i1, i2, ls.drop_last());
        assert(is_placed(a, i1, ls.last()) == is_placed(a, i2, ls.last()));
    }
}

proof fn lemma_column_fits_prefix(a: AttachView, inp: PlaceInput, ls: Seq<Seq<char>>, k: int)
    requires
        0 <= k <= ls.len(),
        !column_fits(a, inp, ls.take(k)),
    ensures
        !column_fits(a, inp, ls),
    decreases ls.len() - k,
{
    if k < ls.len() {
        assert(ls.take(k + 1).drop_last() =~= ls.take(k));
        lemma_column_fits_prefix(a, inp, ls, k + 1);
    } else {
        assert(ls.take(k) =~= ls);
    }
}

} // verus!
