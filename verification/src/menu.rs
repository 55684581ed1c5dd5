//! The menu state and its transition rules.

use vstd::prelude::*;

use crate::event::{quits, Event, Key};

verus! {

/// The menu state: an ordered list of display labels, fixed at startup, and
/// an optional index of the highlighted row.
pub struct App<'a> {
    pub menu_items: Vec<&'a str>,
    pub selected_menu: Option<usize>,
}

/// Where a `Down` key moves the selection in a list of `n` items: one row
/// down, wrapping from the last row to the first; from no selection it lands
/// on the first row.
pub open spec fn down_select(sel: Option<int>, n: int) -> Option<int> {
    match sel {
        Some(i) => if i == n - 1 { Some(0int) } else { Some(i + 1) },
        None => Some(0int),
    }
}

/// Where an `Up` key moves the selection in a list of `n` items: one row up,
/// wrapping from the first row to the last; from no selection it lands on the
/// first row.
pub open spec fn up_select(sel: Option<int>, n: int) -> Option<int> {
    match sel {
        Some(i) => if i == 0 { Some(n - 1) } else { Some(i - 1) },
        None => Some(0int),
    }
}

/// How one event moves the selection: only the two arrow keys move it; every
/// other key, and a tick, leaves it in place.
pub open spec fn step_select(sel: Option<int>, n: int, ev: Event) -> Option<int> {
    match ev {
        Event::Input(Key::Down) => down_select(sel, n),
        Event::Input(Key::Up) => up_select(sel, n),
        _ => sel,
    }
}

/// Law: from any valid selection, moving down and then up restores it, and so
/// does moving up and then down.
pub proof fn lemma_down_up_round_trip(i: int, n: int)
    requires
        0 <= i < n,
    ensures
        up_select(down_select(Some(i), n), n) == Some(i),
        down_select(up_select(Some(i), n), n) == Some(i),
{
}

/// Law: the selection wraps around — `Down` from the last row lands on the
/// first, and `Up` from the first row lands on the last.
pub proof fn lemma_wrap_around(n: int)
    requires
        n >= 1,
    ensures
        down_select(Some(n - 1), n) == Some(0int),
        up_select(Some(0int), n) == Some(n - 1),
{
}

/// Law: from no selection, both arrow keys land on the first row.
pub proof fn lemma_none_selects_first(n: int)
    ensures
        down_select(None, n) == Some(0int),
        up_select(None, n) == Some(0int),
{
}

/// Law: a tick, and any key other than the two arrow keys, leaves the
/// selection unchanged — the quit key `q` included.
pub proof fn lemma_non_arrow_keeps_selection(sel: Option<int>, n: int, ev: Event)
    requires
        ev != Event::Input(Key::Up),
        ev != Event::Input(Key::Down),
    ensures
        step_select(sel, n, ev) == sel,
{
}

/// The selection after a whole sequence of events has been applied in order,
/// starting from `sel` in a list of `n` items.
pub open spec fn run_select(sel: Option<int>, n: int, events: Seq<Event>) -> Option<int>
    decreases events.len(),
{
    if events.len() == 0 {
        sel
    } else {
        run_select(step_select(sel, n, events[0]), n, events.skip(1))
    }
}

/// Folding one more event onto the end of a sequence applies its transition
/// after all the earlier ones.
proof fn lemma_run_select_push(sel: Option<int>, n: int, events: Seq<Event>, ev: Event)
    ensures
        run_select(sel, n, events.push(ev)) == step_select(run_select(sel, n, events), n, ev),
    decreases events.len(),
{
    let pushed = events.push(ev);
    if events.len() == 0 {
        assert(pushed[0] == ev);
        assert(pushed.skip(1) =~= Seq::<Event>::empty());
        assert(run_select(sel, n, pushed) == run_select(step_select(sel, n, ev), n, pushed.skip(1)));
    } else {
        assert(pushed[0] == events[0]);
        assert(pushed.skip(1) =~= events.skip(1).push(ev));
        assert(run_select(sel, n, pushed) == run_select(
            step_select(sel, n, events[0]),
            n,
            events.skip(1).push(ev),
        ));
        lemma_run_select_push(step_select(sel, n, events[0]), n, events.skip(1), ev);
    }
}

/// What one pass of the application loop over a finite script of events did:
/// how many events it consumed, how many full redraws it issued, and whether
/// it stopped on the quit key.
#[derive(Clone, Copy, Debug, PartialEq, Eq, Structural)]
pub struct LoopOutcome {
    pub consumed: usize,
    pub redraws: usize,
    pub quit: bool,
}

impl<'a> App<'a> {
    /// The state invariant: a highlighted row, when present, is a valid index
    /// into the list of labels.
    pub open spec fn wf(&self) -> bool {
        self.selected_menu matches Some(i) ==> i < self.menu_items@.len()
    }

    /// The selection as a mathematical value.
    pub open spec fn selection(&self) -> Option<int> {
        match self.selected_menu {
            Some(i) => Some(i as int),
            None => None,
        }
    }

    /// The number of menu entries.
    pub open spec fn item_count(&self) -> int {
        self.menu_items@.len() as int
    }

    /// The initial state: the four fixed labels, with the first row
    /// highlighted.
    pub fn new() -> (app: App<'a>)
        ensures
            app.wf(),
            app.menu_items@.len() == 4,
            app.menu_items@[0]@ == "Install"@,
            app.menu_items@[1]@ == "Update"@,
            app.menu_items@[2]@ == "Authors"@,
            app.menu_items@[3]@ == "Exit"@,
            app.selected_menu == Some(0usize),
    {
        App {
            menu_items: vec!["Install", "Update", "Authors", "Exit"],
            selected_menu: Some(0),
        }
    }

    /// Move the selection one row down, wrapping at the bottom.
    pub fn on_down(&mut self)
        requires
            old(self).wf(),
            old(self).menu_items@.len() >= 1,
        ensures
            final(self).wf(),
            final(self).menu_items == old(self).menu_items,
            final(self).selection() == down_select(old(self).selection(), old(self).item_count()),
    {
        self.selected_menu = if let Some(selected) = self.selected_menu {
            if selected >= self.menu_items.len() - 1 {
                Some(0)
            } else {
                Some(selected + 1)
            }
        } else {
            Some(0)
        };
    }

    /// Move the selection one row up, wrapping at the top.
    pub fn on_up(&mut self)
        requires
            old(self).wf(),
            old(self).menu_items@.len() >= 1,
        ensures
            final(self).wf(),
            final(self).menu_items == old(self).menu_items,
            final(self).selection() == up_select(old(self).selection(), old(self).item_count()),
    {
        self.selected_menu = if let Some(selected) = self.selected_menu {
            if selected > 0 {
                Some(selected - 1)
            } else {
                Some(self.menu_items.len() - 1)
            }
        } else {
            Some(0)
        };
    }

    /// Apply one event to the state. Returns `true` exactly when the event is
    /// the quit key `q`, which ends the application loop; the selection moves
    /// only on the arrow keys.
    pub fn handle_event(&mut self, ev: Event) -> (quit: bool)
        requires
            old(self).wf(),
            old(self).menu_items@.len() >= 1,
        ensures
            final(self).wf(),
            final(self).menu_items == old(self).menu_items,
            final(self).selection() == step_select(
                old(self).selection(),
                old(self).item_count(),
                ev,
            ),
            quit == quits(ev),
    {
        match ev {
            Event::Input(key) => match key {
                Key::Char(c) => c == 'q',
                Key::Down => {
                    self.on_down();
                    false
                },
                Key::Up => {
                    self.on_up();
                    false
                },
                Key::Other => false,
            },
            Event::Tick => false,
        }
    }

    /// Run the application loop over a finite script of events, as the
    /// interactive loop runs over the event channel: issue one full redraw,
    /// consume the next event, apply it, and stop as soon as the quit key is
    /// consumed or the script is exhausted.
    ///
    /// The outcome pins the loop's observable behaviour down: exactly one
    /// redraw per consumed event, consumption up to and including the first
    /// quit key (or the whole script when there is none), and the final
    /// selection as the fold of the transitions over the consumed prefix.
    pub fn run_events(&mut self, events: &Vec<Event>) -> (out: LoopOutcome)
        requires
            old(self).wf(),
            old(self).menu_items@.len() >= 1,
        ensures
            final(self).wf(),
            final(self).menu_items == old(self).menu_items,
            out.redraws == out.consumed,
            out.consumed <= events@.len(),
            !out.quit ==> out.consumed == events@.len(),
            out.quit ==> 0 < out.consumed && quits(events@[out.consumed - 1]),
            forall|k: int|
                0 <= k < out.consumed ==> (quits(events@[k]) <==> (out.quit && k == out.consumed
                    - 1)),
            final(self).selection() == run_select(
                old(self).selection(),
                old(self).item_count(),
                events@.take(out.consumed as int),
            ),
    {
        let ghost n: int = self.menu_items@.len() as int;
        let mut i: usize = 0;
        let mut redraws: usize = 0;
        let mut quit: bool = false;
        while i < events.len() && !quit
            invariant
                0 <= i <= events@.len(),
                redraws == i,
                self.wf(),
                self.menu_items == old(self).menu_items,
                self.menu_items@.len() >= 1,
                n == old(self).item_count(),
                quit ==> 0 < i && quits(events@[i - 1]),
                forall|k: int| 0 <= k < i ==> (quits(events@[k]) <==> (quit && k == i - 1)),
                self.selection() == run_select(old(self).selection(), n, events@.take(i as int)),
            decreases events@.len() - i,
        {
            redraws = redraws + 1;
            let ev = events[i];
            quit = self.handle_event(ev);
            proof {
                assert(events@.take(i + 1) =~= events@.take(i as int).push(events@[i as int]));
                lemma_run_select_push(old(self).selection(), n, events@.take(i as int), ev);
            }
            i = i + 1;
        }
        LoopOutcome { consumed: i, redraws, quit }
    }
}

} // verus!
