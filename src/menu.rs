//! The decisions of a grub2-like selection menu.
//!
//! Up and down (or `k` and `j`) move the selection, enter, right or `l`
//! start the selected entry, and when the timer fires first the selected
//! entry starts. The caller polls the keyboard and the timer, hands each
//! observation to [`Menu::step`], and draws or boots as it answers.
use crate::config::{render_view, Entry};
use vstd::prelude::*;

verus! {

/// Firmware scan code of the up arrow.
pub const SCAN_UP: u16 = 0x01;

/// Firmware scan code of the down arrow.
pub const SCAN_DOWN: u16 = 0x02;

/// Firmware scan code of the right arrow.
pub const SCAN_RIGHT: u16 = 0x03;

/// A key as the firmware reports it.
#[derive(Debug, Clone, Copy, PartialEq, Eq, Structural)]
pub enum KeyInput {
    /// A navigation key, by scan code.
    Special(u16),
    /// A printable character, by code unit.
    Printable(u16),
}

/// What a key means to the menu.
#[derive(Debug, Clone, Copy, PartialEq, Eq, Structural)]
pub enum MenuKey {
    Up,
    Down,
    Confirm,
    Other,
}

/// What one poll of the timer and the keyboard found.
#[derive(Debug, Clone, Copy, PartialEq, Eq, Structural)]
pub enum MenuEvent {
    /// The timer has fired.
    TimedOut,
    /// No key was waiting.
    NoKey,
    /// A key was read.
    Key(KeyInput),
}

/// What the caller does next.
#[derive(Debug, Clone, Copy, PartialEq, Eq, Structural)]
pub enum MenuAction {
    /// Boot the entry at this index; the menu is over.
    Choose(usize),
    /// The selection moved to this index: draw the menu again.
    Redraw(usize),
    /// Nothing changed: poll again.
    Idle,
}

/// The meaning of a key: arrows and `k`, `j`, `l`, carriage return and
/// line feed.
pub open spec fn key_meaning(k: KeyInput) -> MenuKey {
    match k {
        KeyInput::Special(c) => if c == SCAN_UP {
            MenuKey::Up
        } else if c == SCAN_DOWN {
            MenuKey::Down
        } else if c == SCAN_RIGHT {
            MenuKey::Confirm
        } else {
            MenuKey::Other
        },
        KeyInput::Printable(c) => if c == 0x6Bu16 {
            MenuKey::Up
        } else if c == 0x6Au16 {
            MenuKey::Down
        } else if c == 0x0Du16 || c == 0x0Au16 || c == 0x6Cu16 {
            MenuKey::Confirm
        } else {
            MenuKey::Other
        },
    }
}

/// The selection after "up": the previous entry, wrapping from the first
/// to the last.
pub open spec fn up_of(selected: nat, n: nat) -> nat {
    if selected == 0 {
        (n - 1) as nat
    } else {
        (selected - 1) as nat
    }
}

/// The selection after "down": the next entry, wrapping from the last to
/// the first.
pub open spec fn down_of(selected: nat, n: nat) -> nat {
    if selected + 1 >= n {
        0
    } else {
        selected + 1
    }
}

/// The selection after an event that does not end the menu.
pub open spec fn next_selected(selected: nat, n: nat, ev: MenuEvent) -> nat {
    match ev {
        MenuEvent::Key(k) => match key_meaning(k) {
            MenuKey::Up => up_of(selected, n),
            MenuKey::Down => down_of(selected, n),
            _ => selected,
        },
        _ => selected,
    }
}

/// True when the event ends the menu: the timer fired or a confirming key
/// was pressed.
pub open spec fn ends_menu(ev: MenuEvent) -> bool {
    match ev {
        MenuEvent::TimedOut => true,
        MenuEvent::Key(k) => key_meaning(k) == MenuKey::Confirm,
        MenuEvent::NoKey => false,
    }
}

/// The index that a run of events chooses from `selected` among `n`
/// entries, or `None` while none of them ends the menu.
pub open spec fn run_menu(selected: nat, n: nat, events: Seq<MenuEvent>) -> Option<nat>
    decreases events.len(),
{
    if events.len() == 0 {
        None
    } else if ends_menu(events[0]) {
        Some(selected)
    } else {
        run_menu(next_selected(selected, n, events[0]), n, events.drop_first())
    }
}

/// The selection after a run of events, none of which ends the menu.
pub open spec fn navigate(selected: nat, n: nat, events: Seq<MenuEvent>) -> nat
    decreases events.len(),
{
    if events.len() == 0 {
        selected
    } else {
        navigate(next_selected(selected, n, events[0]), n, events.drop_first())
    }
}

/// The selection stays among the `n` entries whatever happens; "up" from
/// the first entry selects the last, and "down" from the last selects the
/// first.
pub proof fn lemma_selection_wraps(selected: nat, n: nat, ev: MenuEvent)
    requires
        n >= 1,
        selected < n,
    ensures
        next_selected(selected, n, ev) < n,
        next_selected(0, n, MenuEvent::Key(KeyInput::Special(SCAN_UP))) == n - 1,
        next_selected(0, n, MenuEvent::Key(KeyInput::Printable(0x6Bu16))) == n - 1,
        next_selected((n - 1) as nat, n, MenuEvent::Key(KeyInput::Special(SCAN_DOWN))) == 0,
        next_selected((n - 1) as nat, n, MenuEvent::Key(KeyInput::Printable(0x6Au16))) == 0,
{
}

/// When no event ends the menu before the timer fires, the menu chooses
/// the entry that navigation had selected by then, which is one of the
/// entries: the start moved by the "down" events less the "up" events,
/// modulo the number of entries.
pub proof fn lemma_timeout_chooses_current(selected: nat, n: nat, events: Seq<MenuEvent>)
    requires
        n >= 1,
        selected < n,
        forall|i: int| 0 <= i < events.len() ==> !ends_menu(#[trigger] events[i]),
    ensures
        run_menu(selected, n, events.push(MenuEvent::TimedOut)) == Some(
            navigate(selected, n, events),
        ),
        navigate(selected, n, events) < n,
        navigate(selected, n, events) as int == (selected + net_moves(events)) % (n as int),
    decreases events.len(),
{
    lemma_navigate_counts(selected, n, events);
    if events.len() > 0 {
        let next = next_selected(selected, n, events[0]);
        lemma_selection_wraps(selected, n, events[0]);
        assert(events.push(MenuEvent::TimedOut).drop_first() =~= events.drop_first().push(
            MenuEvent::TimedOut,
        ));
        assert forall|i: int| 0 <= i < events.drop_first().len() implies !ends_menu(
            #[trigger] events.drop_first()[i],
        ) by {
            assert(events.drop_first()[i] == events[i + 1]);
        }
        assert(!ends_menu(events.push(MenuEvent::TimedOut)[0]));
        lemma_timeout_chooses_current(next, n, events.drop_first());
    }
}

/// How far an event moves the selection: one back for "up", one on for
/// "down", none otherwise.
pub open spec fn shift_of(ev: MenuEvent) -> int {
    match ev {
        MenuEvent::Key(k) => match key_meaning(k) {
            MenuKey::Up => -1,
            MenuKey::Down => 1,
            _ => 0,
        },
        _ => 0,
    }
}

/// The number of "down" events less the number of "up" events.
pub open spec fn net_moves(events: Seq<MenuEvent>) -> int
    decreases events.len(),
{
    if events.len() == 0 {
        0
    } else {
        shift_of(events[0]) + net_moves(events.drop_first())
    }
}

proof fn lemma_step_is_mod(selected: nat, n: nat, ev: MenuEvent)
    requires
        n >= 1,
        selected < n,
    ensures
        next_selected(selected, n, ev) as int == (selected + shift_of(ev)) % (n as int),
{
    let m = n as int;
    let t = selected + shift_of(ev);
    if 0 <= t < m {
        vstd::arithmetic::div_mod::lemma_small_mod(t as nat, n);
    } else if t < 0 {
        vstd::arithmetic::div_mod::lemma_mod_add_multiples_vanish(-1, m);
        vstd::arithmetic::div_mod::lemma_small_mod((n - 1) as nat, n);
    } else {
        vstd::arithmetic::div_mod::lemma_mod_add_multiples_vanish(0, m);
        vstd::arithmetic::div_mod::lemma_small_mod(0, n);
    }
}

/// After a run of events that do not end the menu, the selection is the
/// start moved by the number of "down" events less the number of "up"
/// events, modulo the number of entries.
pub proof fn lemma_navigate_counts(selected: nat, n: nat, events: Seq<MenuEvent>)
    requires
        n >= 1,
        selected < n,
    ensures
        navigate(selected, n, events) as int == (selected + net_moves(events)) % (n as int),
    decreases events.len(),
{
    if events.len() == 0 {
        vstd::arithmetic::div_mod::lemma_small_mod(selected, n);
    } else {
        let e = events[0];
        let next = next_selected(selected, n, e);
        lemma_step_is_mod(selected, n, e);
        lemma_selection_wraps(selected, n, e);
        lemma_navigate_counts(next, n, events.drop_first());
        vstd::arithmetic::div_mod::lemma_add_mod_noop_right(
            net_moves(events.drop_first()),
            selected + shift_of(e),
            n as int,
        );
        assert(net_moves(events.drop_first()) + (selected + shift_of(e)) == selected + net_moves(
            events,
        ));
    }
}

/// The meaning of a key.
pub fn classify_key(k: KeyInput) -> (r: MenuKey)
    ensures
        r == key_meaning(k),
{
    match k {
        KeyInput::Special(c) => if c == SCAN_UP {
            MenuKey::Up
        } else if c == SCAN_DOWN {
            MenuKey::Down
        } else if c == SCAN_RIGHT {
            MenuKey::Confirm
        } else {
            MenuKey::Other
        },
        KeyInput::Printable(c) => if c == 0x6Bu16 {
            MenuKey::Up
        } else if c == 0x6Au16 {
            MenuKey::Down
        } else if c == 0x0Du16 || c == 0x0Au16 || c == 0x6Cu16 {
            MenuKey::Confirm
        } else {
            MenuKey::Other
        },
    }
}

/// The state of a menu over a non-empty list of entries.
#[derive(Debug)]
pub struct Menu {
    selected: usize,
    len: usize,
}

impl View for Menu {
    /// The selected index and the number of entries.
    type V = (nat, nat);

    closed spec fn view(&self) -> (nat, nat) {
        (self.selected as nat, self.len as nat)
    }
}

impl Menu {
    /// The selection is always one of the entries.
    #[verifier::type_invariant]
    spec fn inv(&self) -> bool {
        self.selected < self.len
    }

    /// A menu over `len` entries with the first one selected.
    pub fn new(len: usize) -> (r: Menu)
        requires
            len >= 1,
        ensures
            r@ == (0nat, len as nat),
    {
        Menu { selected: 0, len }
    }

    /// The selected index, always below the number of entries.
    pub fn selected(&self) -> (r: usize)
        ensures
            r == self@.0,
            r < self@.1,
    {
        proof {
            use_type_invariant(self);
        }
        self.selected
    }

    /// Takes one observation of the timer and the keyboard. The timer
    /// firing, or a confirming key, chooses the selected entry; "up" and
    /// "down" move the selection with wrap-around; any other key, or none,
    /// changes nothing.
    pub fn step(&mut self, ev: MenuEvent) -> (r: MenuAction)
        ensures
            final(self)@.1 == old(self)@.1,
            final(self)@.0 < final(self)@.1,
            ends_menu(ev) ==> r == MenuAction::Choose(old(self)@.0 as usize) && final(self)@
                == old(self)@,
            !ends_menu(ev) ==> final(self)@.0 == next_selected(old(self)@.0, old(self)@.1, ev),
            !ends_menu(ev) ==> r == (if final(self)@.0 != old(self)@.0 {
                MenuAction::Redraw(final(self)@.0 as usize)
            } else {
                MenuAction::Idle
            }),
    {
        proof {
            use_type_invariant(&*self);
        }
        let key = match ev {
            MenuEvent::TimedOut => {
                return MenuAction::Choose(self.selected);
            },
            MenuEvent::NoKey => {
                return MenuAction::Idle;
            },
            MenuEvent::Key(k) => classify_key(k),
        };
        let next = match key {
            MenuKey::Confirm => {
                return MenuAction::Choose(self.selected);
            },
            MenuKey::Up => if self.selected == 0 {
                self.len - 1
            } else {
                self.selected - 1
            },
            MenuKey::Down => if self.selected + 1 >= self.len {
                0
            } else {
                self.selected + 1
            },
            MenuKey::Other => self.selected,
        };
        if next == self.selected {
            MenuAction::Idle
        } else {
            self.selected = next;
            MenuAction::Redraw(next)
        }
    }
}

/// One line of the menu: the entry, marked with `> ` when selected and
/// indented by two spaces otherwise.
pub open spec fn menu_line(e: crate::config::EntryView, marked: bool) -> Seq<u16> {
    (if marked {
        seq![0x3Eu16, 0x20u16]
    } else {
        seq![0x20u16, 0x20u16]
    }) + render_view(e)
}

/// The lines that show the menu, one for each entry, in order.
pub fn show_menu(entries: &[Entry], selected: usize) -> (r: Vec<Vec<u16>>)
    ensures
        r@.len() == entries@.len(),
        forall|i: int|
            0 <= i < entries@.len() ==> #[trigger] r@[i]@ == menu_line(
                entries@[i]@,
                i == selected,
            ),
{
    let mut lines: Vec<Vec<u16>> = Vec::new();
    let mut i: usize = 0;
    while i < entries.len()
        invariant
            i <= entries@.len(),
            lines@.len() == i,
            forall|j: int|
                0 <= j < i ==> #[trigger] lines@[j]@ == menu_line(entries@[j]@, j == selected),
        decreases entries@.len() - i,
    {
        let mut line: Vec<u16> = if i == selected {
            vec![0x3Eu16, 0x20u16]
        } else {
            vec![0x20u16, 0x20u16]
        };
        let mut shown = entries[i].render();
        line.append(&mut shown);
        assert(line@ =~= menu_line(entries@[i as int]@, i == selected));
        lines.push(line);
        i += 1;
    }
    lines
}

} // verus!
