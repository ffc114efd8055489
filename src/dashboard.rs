//! The dashboard session controller: which view is shown, how far each view
//! is scrolled, the history pages and sort direction, and which lazily
//! fetched snapshot the active view still needs.

use vstd::prelude::*;

verus! {

/// The number of views: Overview, History, Insights, Configuration and
/// Timeline, in this order.
pub const VIEW_COUNT: usize = 5;

/// The History view.
pub const HISTORY_VIEW: usize = 1;

/// The Configuration view.
pub const CONFIGURATION_VIEW: usize = 3;

/// The Timeline view.
pub const TIMELINE_VIEW: usize = 4;

/// History entries shown on one page.
pub const HISTORY_PAGE_SIZE: usize = 10;

/// Lines moved by one page of scrolling.
pub const SCROLL_PAGE: u16 = 10;

/// An input to the controller.
#[derive(Clone, Copy, Debug, PartialEq, Eq, Structural)]
pub enum Event {
    NextView,
    PrevView,
    ScrollUp,
    ScrollDown,
    PageUp,
    PageDown,
    Home,
    Quit,
    NextHistoryPage,
    PrevHistoryPage,
    ToggleHistorySort,
    /// Drop the cached snapshot of the active view, so that it is fetched
    /// again.
    Refresh,
}

/// A key as the terminal reports it.
#[derive(Clone, Copy, Debug, PartialEq, Eq, Structural)]
pub enum Key {
    Char(char),
    Tab,
    Left,
    Right,
    Up,
    Down,
    PageUp,
    PageDown,
    Home,
    F5,
    Other,
}

/// The event that a key stands for, if any.
pub open spec fn key_event(key: Key) -> Option<Event> {
    match key {
        Key::Char('q') => Some(Event::Quit),
        Key::Tab | Key::Right => Some(Event::NextView),
        Key::Left => Some(Event::PrevView),
        Key::Up | Key::Char('k') => Some(Event::ScrollUp),
        Key::Down | Key::Char('j') => Some(Event::ScrollDown),
        Key::PageUp => Some(Event::PageUp),
        Key::PageDown => Some(Event::PageDown),
        Key::Home => Some(Event::Home),
        Key::Char('n') => Some(Event::NextHistoryPage),
        Key::Char('p') => Some(Event::PrevHistoryPage),
        Key::Char('r') => Some(Event::ToggleHistorySort),
        Key::F5 => Some(Event::Refresh),
        _ => None,
    }
}

/// Maps a key to its event by the dashboard's key map.
pub fn event_for_key(key: Key) -> (r: Option<Event>)
    ensures
        r == key_event(key),
{
    match key {
        Key::Char('q') => Some(Event::Quit),
        Key::Tab | Key::Right => Some(Event::NextView),
        Key::Left => Some(Event::PrevView),
        Key::Up | Key::Char('k') => Some(Event::ScrollUp),
        Key::Down | Key::Char('j') => Some(Event::ScrollDown),
        Key::PageUp => Some(Event::PageUp),
        Key::PageDown => Some(Event::PageDown),
        Key::Home => Some(Event::Home),
        Key::Char('n') => Some(Event::NextHistoryPage),
        Key::Char('p') => Some(Event::PrevHistoryPage),
        Key::Char('r') => Some(Event::ToggleHistorySort),
        Key::F5 => Some(Event::Refresh),
        _ => None,
    }
}

/// A snapshot that is fetched on first visit to its view and then kept.
pub enum Slot<T> {
    /// Not fetched yet, or dropped by a refresh or a failed fetch's retry.
    Empty,
    Ready(T),
    /// The last fetch failed; the view shows a placeholder.
    Unavailable,
}

/// A snapshot that the active view needs fetched.
#[derive(Clone, Copy, Debug, PartialEq, Eq, Structural)]
pub enum Fetch {
    Configuration,
    Timeline,
}

/// The session state; `H` is a history entry, `C` and `T` the configuration
/// and timeline snapshots.
pub struct Dashboard<H, C, T> {
    pub current_tab: usize,
    pub scroll_positions: [u16; 5],
    pub history: Vec<H>,
    pub history_page: usize,
    pub history_reversed: bool,
    pub should_quit: bool,
    pub configuration: Slot<C>,
    pub timeline: Slot<T>,
}

/// The value of a [`Dashboard`].
pub struct DashboardView<H, C, T> {
    pub tab: nat,
    pub scroll: Seq<u16>,
    pub history: Seq<H>,
    pub page: nat,
    pub reversed: bool,
    pub quit: bool,
    pub configuration: Slot<C>,
    pub timeline: Slot<T>,
}

impl<H, C, T> View for Dashboard<H, C, T> {
    type V = DashboardView<H, C, T>;

    open spec fn view(&self) -> DashboardView<H, C, T> {
        DashboardView {
            tab: self.current_tab as nat,
            scroll: self.scroll_positions@,
            history: self.history@,
            page: self.history_page as nat,
            reversed: self.history_reversed,
            quit: self.should_quit,
            configuration: self.configuration,
            timeline: self.timeline,
        }
    }
}

/// The number of history pages for `len` entries: `len / 10` rounded up.
pub open spec fn page_count(len: nat) -> nat {
    (len + 9) / 10
}

/// The active view exists, and the history page is a page of the history
/// (page 0 when the history is empty).
pub open spec fn view_wf<H, C, T>(v: DashboardView<H, C, T>) -> bool {
    &&& v.tab < 5
    &&& v.scroll.len() == 5
    &&& v.page == 0 || v.page < page_count(v.history.len())
}

/// After a failed fetch, a visit fetches again.
pub open spec fn retry<X>(s: Slot<X>) -> Slot<X> {
    match s {
        Slot::Unavailable => Slot::Empty,
        _ => s,
    }
}

/// Switches to view `tab` with its scroll reset; a lazily fetched snapshot
/// whose last fetch failed is fetched again.
pub open spec fn enter<H, C, T>(v: DashboardView<H, C, T>, tab: nat) -> DashboardView<H, C, T> {
    DashboardView {
        tab,
        scroll: v.scroll.update(tab as int, 0),
        configuration: if tab == 3 {
            retry(v.configuration)
        } else {
            v.configuration
        },
        timeline: if tab == 4 {
            retry(v.timeline)
        } else {
            v.timeline
        },
        ..v
    }
}

/// Sets the active view's scroll to `s`.
pub open spec fn scroll_to<H, C, T>(v: DashboardView<H, C, T>, s: int) -> DashboardView<H, C, T> {
    DashboardView { scroll: v.scroll.update(v.tab as int, s as u16), ..v }
}

/// `x - d`, but not below 0.
pub open spec fn down_to_zero(x: int, d: int) -> int {
    if x >= d { x - d } else { 0 }
}

/// `x + d`, but not above `u16::MAX`.
pub open spec fn up_to_max(x: int, d: int) -> int {
    if x + d <= u16::MAX { x + d } else { u16::MAX as int }
}

/// The state after event `ev`.
pub open spec fn transition<H, C, T>(v: DashboardView<H, C, T>, ev: Event) -> DashboardView<H, C, T> {
    let cur = v.scroll[v.tab as int] as int;
    match ev {
        Event::NextView => enter(v, (v.tab + 1) % 5),
        Event::PrevView => enter(v, ((v.tab + 4) % 5) as nat),
        Event::ScrollUp => scroll_to(v, down_to_zero(cur, 1)),
        Event::ScrollDown => scroll_to(v, up_to_max(cur, 1)),
        Event::PageUp => scroll_to(v, down_to_zero(cur, 10)),
        Event::PageDown => scroll_to(v, up_to_max(cur, 10)),
        Event::Home => scroll_to(v, 0),
        Event::Quit => DashboardView { quit: true, ..v },
        Event::NextHistoryPage => if v.tab == 1 && v.page + 1 < page_count(v.history.len()) {
            DashboardView { page: v.page + 1, scroll: v.scroll.update(1, 0), ..v }
        } else {
            v
        },
        Event::PrevHistoryPage => if v.tab == 1 && v.page > 0 {
            DashboardView { page: (v.page - 1) as nat, scroll: v.scroll.update(1, 0), ..v }
        } else {
            v
        },
        Event::ToggleHistorySort => if v.tab == 1 {
            DashboardView {
                reversed: !v.reversed,
                history: v.history.reverse(),
                page: 0,
                scroll: v.scroll.update(1, 0),
                ..v
            }
        } else {
            v
        },
        Event::Refresh => if v.tab == 3 {
            DashboardView { configuration: Slot::Empty, ..v }
        } else if v.tab == 4 {
            DashboardView { timeline: Slot::Empty, ..v }
        } else {
            v
        },
    }
}

/// The snapshot that view `v` still has to fetch, if any.
pub open spec fn needed_fetch<H, C, T>(v: DashboardView<H, C, T>) -> Option<Fetch> {
    if v.tab == 3 && v.configuration is Empty {
        Some(Fetch::Configuration)
    } else if v.tab == 4 && v.timeline is Empty {
        Some(Fetch::Timeline)
    } else {
        None
    }
}

fn reverse_in_place<H>(v: &mut Vec<H>)
    ensures
        final(v)@ == old(v)@.reverse(),
{
    let ghost orig = v@;
    let mut out: Vec<H> = Vec::new();
    while v.len() > 0
        invariant
            v@ == orig.subrange(0, v@.len() as int),
            out@ == orig.subrange(v@.len() as int, orig.len() as int).reverse(),
            v@.len() <= orig.len(),
        decreases v@.len(),
    {
        let ghost n = v@.len() as int;
        let x = v.pop().unwrap();
        out.push(x);
        assert(out@ =~= orig.subrange(n - 1, orig.len() as int).reverse());
    }
    assert(out@ =~= orig.reverse());
    *v = out;
}

impl<H, C, T> Dashboard<H, C, T> {
    /// The invariant of the session state.
    pub open spec fn wf(&self) -> bool {
        view_wf(self@)
    }

    /// A session over `history`, on the Overview, nothing scrolled and
    /// nothing fetched.
    pub fn new(history: Vec<H>) -> (r: Self)
        ensures
            r.wf(),
            r@.tab == 0,
            r@.scroll == seq![0u16, 0u16, 0u16, 0u16, 0u16],
            r@.history == history@,
            r@.page == 0,
            !r@.reversed,
            !r@.quit,
            r@.configuration is Empty,
            r@.timeline is Empty,
    {
        let d = Dashboard {
            current_tab: 0,
            scroll_positions: [0, 0, 0, 0, 0],
            history,
            history_page: 0,
            history_reversed: false,
            should_quit: false,
            configuration: Slot::Empty,
            timeline: Slot::Empty,
        };
        assert(d@.scroll =~= seq![0u16, 0u16, 0u16, 0u16, 0u16]);
        d
    }

    /// The number of history pages.
    pub fn total_history_pages(&self) -> (r: usize)
        ensures
            r == page_count(self.history@.len()),
    {
        let len = self.history.len();
        len / HISTORY_PAGE_SIZE + if len % HISTORY_PAGE_SIZE == 0 { 0 } else { 1 }
    }

    /// The history entries of the current page, as a range of positions.
    pub fn history_page_range(&self) -> (r: (usize, usize))
        requires
            self.wf(),
        ensures
            r.0 == 10 * self.history_page,
            r.1 == if r.0 + 10 <= self.history@.len() { r.0 + 10 } else { self.history@.len() as int },
            self.history@.len() > 0 ==> r.0 < r.1,
    {
        let len = self.history.len();
        assert(10 * self.history_page <= len);
        let start = HISTORY_PAGE_SIZE * self.history_page;
        let end = if len - start >= HISTORY_PAGE_SIZE { start + HISTORY_PAGE_SIZE } else { len };
        (start, end)
    }

    fn enter_view(&mut self, tab: usize)
        requires
            tab < 5,
            old(self).wf(),
        ensures
            final(self)@ == enter(old(self)@, tab as nat),
    {
        self.current_tab = tab;
        self.scroll_positions[tab] = 0;
        if tab == CONFIGURATION_VIEW {
            if let Slot::Unavailable = self.configuration {
                self.configuration = Slot::Empty;
            }
        }
        if tab == TIMELINE_VIEW {
            if let Slot::Unavailable = self.timeline {
                self.timeline = Slot::Empty;
            }
        }
    }

    /// Applies one event.
    pub fn handle_event(&mut self, ev: Event)
        requires
            old(self).wf(),
        ensures
            final(self).wf(),
            final(self)@ == transition(old(self)@, ev),
    {
        let tab = self.current_tab;
        let cur = self.scroll_positions[tab];
        match ev {
            Event::NextView => {
                self.enter_view((tab + 1) % VIEW_COUNT);
            },
            Event::PrevView => {
                self.enter_view((tab + 4) % VIEW_COUNT);
            },
            Event::ScrollUp => {
                self.scroll_positions[tab] = if cur >= 1 { cur - 1 } else { 0 };
            },
            Event::ScrollDown => {
                self.scroll_positions[tab] = if cur < u16::MAX { cur + 1 } else { u16::MAX };
            },
            Event::PageUp => {
                self.scroll_positions[tab] = if cur >= SCROLL_PAGE { cur - SCROLL_PAGE } else { 0 };
            },
            Event::PageDown => {
                self.scroll_positions[tab] = if cur <= u16::MAX - SCROLL_PAGE { cur + SCROLL_PAGE } else { u16::MAX };
            },
            Event::Home => {
                self.scroll_positions[tab] = 0;
            },
            Event::Quit => {
                self.should_quit = true;
            },
            Event::NextHistoryPage => {
                let total = self.total_history_pages();
                if tab == HISTORY_VIEW && total > 0 && self.history_page < total - 1 {
                    self.history_page = self.history_page + 1;
                    self.scroll_positions[HISTORY_VIEW] = 0;
                }
            },
            Event::PrevHistoryPage => {
                if tab == HISTORY_VIEW && self.history_page > 0 {
                    self.history_page = self.history_page - 1;
                    self.scroll_positions[HISTORY_VIEW] = 0;
                }
            },
            Event::ToggleHistorySort => {
                if tab == HISTORY_VIEW {
                    self.history_reversed = !self.history_reversed;
                    reverse_in_place(&mut self.history);
                    self.history_page = 0;
                    self.scroll_positions[HISTORY_VIEW] = 0;
                }
            },
            Event::Refresh => {
                if tab == CONFIGURATION_VIEW {
                    self.configuration = Slot::Empty;
                } else if tab == TIMELINE_VIEW {
                    self.timeline = Slot::Empty;
                }
            },
        }
        assert(self@ =~= transition(old(self)@, ev));
    }

    /// The snapshot that the active view still has to fetch, if any.
    pub fn pending_fetch(&self) -> (r: Option<Fetch>)
        ensures
            r == needed_fetch(self@),
    {
        if self.current_tab == CONFIGURATION_VIEW {
            if let Slot::Empty = self.configuration {
                return Some(Fetch::Configuration);
            }
        }
        if self.current_tab == TIMELINE_VIEW {
            if let Slot::Empty = self.timeline {
                return Some(Fetch::Timeline);
            }
        }
        None
    }

    /// Keeps the outcome of a configuration fetch: the snapshot, or
    /// `None` for a failure.
    pub fn store_configuration(&mut self, fetched: Option<C>)
        requires
            old(self).wf(),
        ensures
            final(self).wf(),
            final(self)@ == (DashboardView {
                configuration: match fetched {
                    Some(c) => Slot::Ready(c),
                    None => Slot::Unavailable,
                },
                ..old(self)@
            }),
    {
        self.configuration = match fetched {
            Some(c) => Slot::Ready(c),
            None => Slot::Unavailable,
        };
    }

    /// Keeps the outcome of a timeline fetch: the snapshot, or `None` for a
    /// failure.
    pub fn store_timeline(&mut self, fetched: Option<T>)
        requires
            old(self).wf(),
        ensures
            final(self).wf(),
            final(self)@ == (DashboardView {
                timeline: match fetched {
                    Some(t) => Slot::Ready(t),
                    None => Slot::Unavailable,
                },
                ..old(self)@
            }),
    {
        self.timeline = match fetched {
            Some(t) => Slot::Ready(t),
            None => Slot::Unavailable,
        };
    }
}

// ---------------------------------------------------------------------------
// Laws

/// The state after `k` events `ev` in a row.
pub open spec fn after_events<H, C, T>(v: DashboardView<H, C, T>, ev: Event, k: nat) -> DashboardView<H, C, T>
    decreases k,
{
    if k == 0 {
        v
    } else {
        transition(after_events(v, ev, (k - 1) as nat), ev)
    }
}

/// After `k` `NextView` events the active view is `k` views further on,
/// counting round the five views: five of them bring the session back to
/// where it started, and from the Overview four of them reach the Timeline.
pub proof fn lemma_next_view_cycles<H, C, T>(v: DashboardView<H, C, T>, k: nat)
    requires
        view_wf(v),
    ensures
        view_wf(after_events(v, Event::NextView, k)),
        after_events(v, Event::NextView, k).tab == (v.tab + k) % 5,
        after_events(v, Event::NextView, k).scroll[after_events(v, Event::NextView, k).tab as int] == 0
            || k == 0,
    decreases k,
{
    if k > 0 {
        lemma_next_view_cycles(v, (k - 1) as nat);
        lemma_transition_wf(after_events(v, Event::NextView, (k - 1) as nat), Event::NextView);
    }
}

/// `PrevView` on the Overview wraps round to the Timeline.
pub proof fn lemma_prev_view_wraps<H, C, T>(v: DashboardView<H, C, T>)
    requires
        view_wf(v),
        v.tab == 0,
    ensures
        transition(v, Event::PrevView).tab == 4,
{
}

/// A view change leaves the destination view scrolled to the top, however
/// far it was scrolled before, and touches no other view's scroll.
pub proof fn lemma_view_change_resets_scroll<H, C, T>(v: DashboardView<H, C, T>, ev: Event)
    requires
        view_wf(v),
        ev == Event::NextView || ev == Event::PrevView,
    ensures
        transition(v, ev).scroll[transition(v, ev).tab as int] == 0,
        forall|i: int|
            0 <= i < 5 && i != transition(v, ev).tab ==> #[trigger] transition(v, ev).scroll[i]
                == v.scroll[i],
{
}

/// The history splits into pages of ten with the last one not empty: every
/// entry is on a page, and no page is empty.
pub proof fn lemma_page_count_covers(len: nat)
    ensures
        10 * page_count(len) >= len,
        len > 0 ==> 10 * (page_count(len) - 1) < len,
        len == 0 ==> page_count(len) == 0,
{
}

/// On the last history page, `NextHistoryPage` changes nothing.
pub proof fn lemma_next_page_stops_at_last<H, C, T>(v: DashboardView<H, C, T>)
    requires
        view_wf(v),
        v.tab == 1,
        v.page + 1 >= page_count(v.history.len()),
    ensures
        transition(v, Event::NextHistoryPage) == v,
{
}

/// On the History view, `ToggleHistorySort` flips the direction, reverses
/// the entries and goes back to the first page, scrolled to the top.
pub proof fn lemma_toggle_sort_reverses<H, C, T>(v: DashboardView<H, C, T>)
    requires
        view_wf(v),
        v.tab == 1,
    ensures
        transition(v, Event::ToggleHistorySort).history == v.history.reverse(),
        transition(v, Event::ToggleHistorySort).reversed == !v.reversed,
        transition(v, Event::ToggleHistorySort).page == 0,
        transition(v, Event::ToggleHistorySort).scroll[1] == 0,
{
}

/// Every event keeps the session state well formed.
pub proof fn lemma_transition_wf<H, C, T>(v: DashboardView<H, C, T>, ev: Event)
    requires
        view_wf(v),
    ensures
        view_wf(transition(v, ev)),
{
}

} // verus!
