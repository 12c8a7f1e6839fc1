//! The focus state machine: each mode's handler of keyboard events.
//!
//! A handler acts only when the session is in its own mode; in any other
//! mode it leaves the session as it is. Each returns `true` when the event
//! asks to end the session.

use vstd::prelude::*;
use vstd::string::*;
use crate::ledger::{
    Owner, FULL_SHARE, equal_split, items_total, owners_share, lemma_replace_owners_total,
    lemma_single_owner_share, flatten_owners, from_indices_to_owners, lemma_equal_split_sum,
    lemma_equal_split_valid, lemma_merged_valid, merged, owners_replaced, default_owner_applied,
};
use crate::state::{AppState, FocusedWindow, index_ok};
use crate::text::{char_substring, push_char};

verus! {

/// A key as the handlers see it.
#[derive(Clone, Copy, Debug, PartialEq, Eq, Structural)]
pub enum Key {
    Char(char),
    Up,
    Down,
    Enter,
    Esc,
    Backspace,
    /// Any other key; no mode reacts to it.
    Other,
}

/// What the session loop hands to the handlers.
#[derive(Clone, Copy, Debug, PartialEq, Eq, Structural)]
pub enum Event {
    Input(Key),
    /// The periodic tick; no mode reacts to it yet.
    Tick,
}

pub open spec fn is_quit(k: Key) -> bool {
    k == Key::Char('q') || k == Key::Char('Q')
}

/// Moving down in the item and people tables.
pub open spec fn is_list_down(k: Key) -> bool {
    k == Key::Down || k == Key::Char('j')
}

/// Moving up in the item and people tables.
pub open spec fn is_list_up(k: Key) -> bool {
    k == Key::Up || k == Key::Char('k')
}

/// Moving down in the owner pickers.
pub open spec fn is_picker_down(k: Key) -> bool {
    k == Key::Down || k == Key::Char('j') || k == Key::Char('J')
}

/// Moving up in the owner pickers.
pub open spec fn is_picker_up(k: Key) -> bool {
    k == Key::Up || k == Key::Char('k') || k == Key::Char('K')
}

/// One step down in a list of `len` rows, staying on the last row.
pub open spec fn moved_down(idx: usize, len: nat) -> usize {
    if len > 0 && idx < len - 1 {
        (idx + 1) as usize
    } else {
        idx
    }
}

/// One step up, staying on the first row.
pub open spec fn moved_up(idx: usize) -> usize {
    if idx > 0 {
        (idx - 1) as usize
    } else {
        idx
    }
}

/// The effect of `items_input_handler` from `o` to `n`, with its result.
pub open spec fn items_step(o: AppState, input: Event, n: AppState, exit: bool) -> bool {
    match o.focused {
        FocusedWindow::Items(idx) => {
            let len = o.data.items@.len();
            &&& n.data == o.data
            &&& match input {
                Event::Tick => !exit && n.focused == o.focused,
                Event::Input(k) => if is_quit(k) {
                    exit && n.focused == o.focused
                } else if is_list_down(k) {
                    !exit && n.focused == FocusedWindow::Items(moved_down(idx, len))
                } else if is_list_up(k) {
                    !exit && n.focused == FocusedWindow::Items(moved_up(idx))
                } else if k == Key::Enter {
                    !exit && if len > 0 {
                        n.focused matches FocusedWindow::OwnerSelector(i, c, p) && i == idx && c == 0 && p@.len()
                            == 0
                    } else {
                        n.focused == o.focused
                    }
                } else if k == Key::Char('r') || k == Key::Char('R') {
                    !exit && n.focused == if len > 0 {
                        FocusedWindow::RestOwnerSelector(0)
                    } else {
                        o.focused
                    }
                } else if k == Key::Char('a') || k == Key::Char('A') {
                    !exit && (n.focused matches FocusedWindow::AddPerson(b) && b@.len() == 0)
                } else {
                    !exit && n.focused == o.focused
                },
            }
        },
        _ => !exit && n == o,
    }
}

/// The effect of `people_input_handler` from `o` to `n`, with its result.
pub open spec fn people_step(o: AppState, input: Event, n: AppState, exit: bool) -> bool {
    match o.focused {
        FocusedWindow::People(idx) => {
            &&& n.data == o.data
            &&& match input {
                Event::Tick => !exit && n.focused == o.focused,
                Event::Input(k) => if is_quit(k) {
                    exit && n.focused == o.focused
                } else if is_list_down(k) {
                    !exit && n.focused == FocusedWindow::People(moved_down(idx, o.data.people@.len()))
                } else if is_list_up(k) {
                    !exit && n.focused == FocusedWindow::People(moved_up(idx))
                } else {
                    !exit && n.focused == o.focused
                },
            }
        },
        _ => !exit && n == o,
    }
}

/// The effect of `owner_selector_input_handler` from `o` to `n`, with its
/// result. Enter adds the person under the cursor to those picked, splits
/// the item equally among the picks, merges adjacent picks of one person,
/// and makes that the item's owner list.
pub open spec fn owner_selector_step(o: AppState, input: Event, n: AppState, exit: bool) -> bool {
    match o.focused {
        FocusedWindow::OwnerSelector(item, cursor, picked) => {
            let len = o.data.people@.len();
            match input {
                Event::Tick => !exit && n == o,
                Event::Input(k) => if is_quit(k) {
                    exit && n == o
                } else if is_picker_down(k) {
                    !exit && n.data == o.data && n.focused == FocusedWindow::OwnerSelector(
                        item,
                        moved_down(cursor, len),
                        picked,
                    )
                } else if is_picker_up(k) {
                    !exit && n.data == o.data && n.focused == FocusedWindow::OwnerSelector(
                        item,
                        moved_up(cursor),
                        picked,
                    )
                } else if k == Key::Enter {
                    &&& !exit
                    &&& n.focused == FocusedWindow::Items(item)
                    &&& if cursor < len {
                        &&& n.data.people@ == o.data.people@
                        &&& owners_replaced(
                            o.data.items@,
                            n.data.items@,
                            item as int,
                            merged(equal_split(picked@.push(cursor))),
                        )
                    } else {
                        n.data == o.data
                    }
                } else if k == Key::Char('p') || k == Key::Char('P') {
                    &&& !exit
                    &&& n.data == o.data
                    &&& if cursor < len && picked@.len() + 1 < FULL_SHARE {
                        n.focused matches FocusedWindow::OwnerSelector(i, c, p) && i == item && c == cursor && p@
                            == picked@.push(cursor)
                    } else {
                        n.focused == o.focused
                    }
                } else if k == Key::Esc {
                    !exit && n.data == o.data && n.focused == FocusedWindow::Items(item)
                } else {
                    !exit && n == o
                },
            }
        },
        _ => !exit && n == o,
    }
}

/// The effect of `rest_owner_selector_input_handler` from `o` to `n`, with
/// its result.
pub open spec fn rest_owner_selector_step(o: AppState, input: Event, n: AppState, exit: bool) -> bool {
    match o.focused {
        FocusedWindow::RestOwnerSelector(cursor) => {
            let len = o.data.people@.len();
            match input {
                Event::Tick => !exit && n == o,
                Event::Input(k) => if is_quit(k) {
                    exit && n == o
                } else if is_picker_down(k) {
                    !exit && n.data == o.data && n.focused == FocusedWindow::RestOwnerSelector(
                        moved_down(cursor, len),
                    )
                } else if is_picker_up(k) {
                    !exit && n.data == o.data && n.focused == FocusedWindow::RestOwnerSelector(moved_up(cursor))
                } else if k == Key::Enter {
                    &&& !exit
                    &&& n.focused == FocusedWindow::Items(0)
                    &&& if cursor < len {
                        &&& n.data.people@ == o.data.people@
                        &&& default_owner_applied(o.data.items@, n.data.items@, cursor)
                    } else {
                        n.data == o.data
                    }
                } else if k == Key::Esc {
                    !exit && n.data == o.data && n.focused == FocusedWindow::Items(0)
                } else {
                    !exit && n == o
                },
            }
        },
        _ => !exit && n == o,
    }
}

/// The effect of `add_person_input_handler` from `o` to `n`; it never ends
/// the session, since every character belongs to the name.
pub open spec fn add_person_step(o: AppState, input: Event, n: AppState, exit: bool) -> bool {
    &&& !exit
    &&& match o.focused {
        FocusedWindow::AddPerson(buf) => match input {
            Event::Input(Key::Char(c)) => n.data == o.data && (n.focused matches FocusedWindow::AddPerson(b)
                && b@ == buf@.push(c)),
            Event::Input(Key::Backspace) => n.data == o.data && (n.focused matches FocusedWindow::AddPerson(b)
                && b@ == if buf@.len() > 0 {
                buf@.drop_last()
            } else {
                buf@
            }),
            Event::Input(Key::Enter) => {
                &&& n.focused == FocusedWindow::Items(0)
                &&& n.data.items@ == o.data.items@
                &&& n.data.people@ == o.data.people@.push(buf)
            },
            Event::Input(Key::Esc) => n.data == o.data && n.focused == FocusedWindow::Items(0),
            _ => n == o,
        },
        _ => n == o,
    }
}

/// Moves the focus out of the session, leaving `Items(0)` in its place.
fn take_focus(app: &mut AppState) -> (f: FocusedWindow)
    ensures
        f == old(app).focused,
        final(app).data == old(app).data,
        final(app).focused == FocusedWindow::Items(0),
{
    let mut f = FocusedWindow::Items(0);
    std::mem::swap(&mut app.focused, &mut f);
    f
}

/// Browsing the items: move the selection, open the owner picker for the
/// selected item or the default-owner picker (when there are items), start
/// adding a person, or quit.
pub fn items_input_handler(input: &Event, app: &mut AppState) -> (exit: bool)
    requires
        old(app).wf(),
    ensures
        final(app).wf(),
        items_step(*old(app), *input, *final(app), exit),
{
    let idx = match &app.focused {
        FocusedWindow::Items(i) => *i,
        _ => {
            return false;
        },
    };
    let n = app.data.items.len();
    match input {
        Event::Tick => {},
        Event::Input(key) => {
            let k = *key;
            if k == Key::Char('q') || k == Key::Char('Q') {
                return true;
            } else if k == Key::Down || k == Key::Char('j') {
                if n > 0 && idx < n - 1 {
                    app.focused = FocusedWindow::Items(idx + 1);
                }
            } else if k == Key::Up || k == Key::Char('k') {
                if idx > 0 {
                    app.focused = FocusedWindow::Items(idx - 1);
                }
            } else if k == Key::Enter {
                if n > 0 {
                    app.focused = FocusedWindow::OwnerSelector(idx, 0, Vec::new());
                }
            } else if k == Key::Char('r') || k == Key::Char('R') {
                if n > 0 {
                    app.focused = FocusedWindow::RestOwnerSelector(0);
                }
            } else if k == Key::Char('a') || k == Key::Char('A') {
                app.focused = FocusedWindow::AddPerson(String::new());
            }
        },
    }
    false
}

/// Browsing the people: move the selection, or quit.
pub fn people_input_handler(event: &Event, app: &mut AppState) -> (exit: bool)
    requires
        old(app).wf(),
    ensures
        final(app).wf(),
        people_step(*old(app), *event, *final(app), exit),
{
    let idx = match &app.focused {
        FocusedWindow::People(i) => *i,
        _ => {
            return false;
        },
    };
    let n = app.data.people.len();
    match event {
        Event::Tick => {},
        Event::Input(key) => {
            let k = *key;
            if k == Key::Char('q') || k == Key::Char('Q') {
                return true;
            } else if k == Key::Down || k == Key::Char('j') {
                if n > 0 && idx < n - 1 {
                    app.focused = FocusedWindow::People(idx + 1);
                }
            } else if k == Key::Up || k == Key::Char('k') {
                if idx > 0 {
                    app.focused = FocusedWindow::People(idx - 1);
                }
            }
        },
    }
    false
}

/// Choosing owners of one item: move the cursor, pick the person under it
/// with "p" (several picks split the item; a pick that would reach
/// `FULL_SHARE` picks, more than memory can hold, is ignored), commit with
/// enter (which picks
/// the person under the cursor once more), leave without change with esc,
/// or quit.
pub fn owner_selector_input_handler(event: &Event, app: &mut AppState) -> (exit: bool)
    requires
        old(app).wf(),
    ensures
        final(app).wf(),
        owner_selector_step(*old(app), *event, *final(app), exit),
{
    if !matches!(app.focused, FocusedWindow::OwnerSelector(..)) {
        return false;
    }
    let focus = take_focus(app);
    let (item, cursor, mut picked) = match focus {
        FocusedWindow::OwnerSelector(i, c, p) => (i, c, p),
        _ => {
            return false;
        },
    };
    let n = app.data.people.len();
    let k = match event {
        Event::Tick => {
            app.focused = FocusedWindow::OwnerSelector(item, cursor, picked);
            return false;
        },
        Event::Input(key) => *key,
    };
    if k == Key::Char('q') || k == Key::Char('Q') {
        app.focused = FocusedWindow::OwnerSelector(item, cursor, picked);
        return true;
    } else if k == Key::Down || k == Key::Char('j') || k == Key::Char('J') {
        let next = if n > 0 && cursor < n - 1 {
            cursor + 1
        } else {
            cursor
        };
        app.focused = FocusedWindow::OwnerSelector(item, next, picked);
    } else if k == Key::Up || k == Key::Char('k') || k == Key::Char('K') {
        let next = if cursor > 0 {
            cursor - 1
        } else {
            cursor
        };
        app.focused = FocusedWindow::OwnerSelector(item, next, picked);
    } else if k == Key::Enter {
        if cursor < n {
            let ghost before = picked@;
            picked.push(cursor);
            let mut owners = from_indices_to_owners(&picked);
            proof {
                assert forall|j: int| 0 <= j < picked@.len() implies #[trigger] picked@[j] < n by {
                    if j < before.len() {
                        assert(picked@[j] == before[j]);
                    }
                }
                lemma_equal_split_sum(picked@);
                lemma_equal_split_valid(picked@, n as nat);
            }
            flatten_owners(&mut owners);
            proof {
                lemma_merged_valid(equal_split(picked@), n as nat);
            }
            assert(owners@ == merged(equal_split(picked@)));
            app.data.set_item_owners(item, owners);
        }
        app.focused = FocusedWindow::Items(item);
    } else if k == Key::Char('p') || k == Key::Char('P') {
        if cursor < n && (picked.len() as u64) < FULL_SHARE - 1 {
            let ghost before = picked@;
            picked.push(cursor);
            proof {
                assert forall|j: int| 0 <= j < picked@.len() implies #[trigger] picked@[j] < n by {
                    if j < before.len() {
                        assert(picked@[j] == before[j]);
                    }
                }
            }
        }
        app.focused = FocusedWindow::OwnerSelector(item, cursor, picked);
    } else if k == Key::Esc {
        app.focused = FocusedWindow::Items(item);
    } else {
        app.focused = FocusedWindow::OwnerSelector(item, cursor, picked);
    }
    false
}

/// Choosing one person to own every item that has no owner: move the
/// cursor, commit with enter, leave without change with esc, or quit.
/// Either way out returns to the first item.
pub fn rest_owner_selector_input_handler(event: &Event, app: &mut AppState) -> (exit: bool)
    requires
        old(app).wf(),
    ensures
        final(app).wf(),
        rest_owner_selector_step(*old(app), *event, *final(app), exit),
{
    let cursor = match &app.focused {
        FocusedWindow::RestOwnerSelector(c) => *c,
        _ => {
            return false;
        },
    };
    let n = app.data.people.len();
    match event {
        Event::Tick => {},
        Event::Input(key) => {
            let k = *key;
            if k == Key::Char('q') || k == Key::Char('Q') {
                return true;
            } else if k == Key::Down || k == Key::Char('j') || k == Key::Char('J') {
                if n > 0 && cursor < n - 1 {
                    app.focused = FocusedWindow::RestOwnerSelector(cursor + 1);
                }
            } else if k == Key::Up || k == Key::Char('k') || k == Key::Char('K') {
                if cursor > 0 {
                    app.focused = FocusedWindow::RestOwnerSelector(cursor - 1);
                }
            } else if k == Key::Enter {
                if cursor < n {
                    app.data.set_rest_items_owner(cursor);
                }
                app.focused = FocusedWindow::Items(0);
            } else if k == Key::Esc {
                app.focused = FocusedWindow::Items(0);
            }
        },
    }
    false
}

/// Typing a new person's name: characters extend it, backspace removes its
/// last character, enter adds the person (even with an empty name) and esc
/// drops the name; both return to the first item.
pub fn add_person_input_handler(event: &Event, app: &mut AppState) -> (exit: bool)
    requires
        old(app).wf(),
    ensures
        final(app).wf(),
        add_person_step(*old(app), *event, *final(app), exit),
{
    if !matches!(app.focused, FocusedWindow::AddPerson(_)) {
        return false;
    }
    let focus = take_focus(app);
    let mut name = match focus {
        FocusedWindow::AddPerson(b) => b,
        _ => {
            return false;
        },
    };
    match event {
        Event::Input(Key::Char(c)) => {
            push_char(&mut name, *c);
            app.focused = FocusedWindow::AddPerson(name);
        },
        Event::Input(Key::Backspace) => {
            let len = name.as_str().unicode_len();
            if len > 0 {
                let shorter = char_substring(name.as_str(), 0, len - 1);
                assert(shorter@ =~= name@.drop_last());
                name = shorter;
            }
            app.focused = FocusedWindow::AddPerson(name);
        },
        Event::Input(Key::Enter) => {
            app.data.add_person(name);
        },
        Event::Input(Key::Esc) => {},
        _ => {
            app.focused = FocusedWindow::AddPerson(name);
        },
    }
    false
}

/// The effect of `handle_event`: that of the active mode's handler.
pub open spec fn event_step(o: AppState, input: Event, n: AppState, exit: bool) -> bool {
    match o.focused {
        FocusedWindow::Items(_) => items_step(o, input, n, exit),
        FocusedWindow::People(_) => people_step(o, input, n, exit),
        FocusedWindow::OwnerSelector(..) => owner_selector_step(o, input, n, exit),
        FocusedWindow::RestOwnerSelector(_) => rest_owner_selector_step(o, input, n, exit),
        FocusedWindow::AddPerson(_) => add_person_step(o, input, n, exit),
    }
}

/// Hands the event to the handler of the active mode; `true` asks to end
/// the session.
pub fn handle_event(event: &Event, app: &mut AppState) -> (exit: bool)
    requires
        old(app).wf(),
    ensures
        final(app).wf(),
        event_step(*old(app), *event, *final(app), exit),
{
    if matches!(app.focused, FocusedWindow::Items(_)) {
        items_input_handler(event, app)
    } else if matches!(app.focused, FocusedWindow::People(_)) {
        people_input_handler(event, app)
    } else if matches!(app.focused, FocusedWindow::OwnerSelector(..)) {
        owner_selector_input_handler(event, app)
    } else if matches!(app.focused, FocusedWindow::RestOwnerSelector(_)) {
        rest_owner_selector_input_handler(event, app)
    } else {
        add_person_input_handler(event, app)
    }
}

/// A key that only moves a selection.
pub open spec fn is_navigation(k: Key) -> bool {
    k == Key::Up || k == Key::Down
}

/// The selection index of a mode, if it has one.
pub open spec fn selection(f: FocusedWindow) -> Option<usize> {
    match f {
        FocusedWindow::Items(i) => Some(i),
        FocusedWindow::People(i) => Some(i),
        FocusedWindow::OwnerSelector(_, c, _) => Some(c),
        FocusedWindow::RestOwnerSelector(c) => Some(c),
        FocusedWindow::AddPerson(_) => None,
    }
}

/// The size of the collection that the active mode's selection ranges over.
pub open spec fn selection_len(a: AppState) -> nat {
    match a.focused {
        FocusedWindow::Items(_) => a.data.items@.len(),
        _ => a.data.people@.len(),
    }
}

/// The selection, if any, is a row of its collection, or 0 when that is empty.
pub open spec fn selection_in_bounds(a: AppState) -> bool {
    selection(a.focused) matches Some(c) ==> index_ok(c, selection_len(a))
}

proof fn lemma_navigation_step(o: AppState, k: Key, n: AppState, exit: bool)
    requires
        selection_in_bounds(o),
        is_navigation(k),
        event_step(o, Event::Input(k), n, exit),
    ensures
        selection_in_bounds(n),
        selection_len(n) == selection_len(o),
        n.data == o.data,
        !exit,
        selection_len(o) == 0 ==> n.focused == o.focused,
{
}

/// However many navigation keys arrive, in whatever mode, every selection
/// stays a row of its collection (0 when that is empty), a selection over
/// an empty collection never changes, the ledger never changes, and no key
/// ends the session.
pub proof fn lemma_navigation_in_bounds(states: Seq<AppState>, keys: Seq<Key>, exits: Seq<bool>)
    requires
        states.len() == keys.len() + 1,
        exits.len() == keys.len(),
        states[0].wf(),
        forall|i: int| 0 <= i < keys.len() ==> is_navigation(#[trigger] keys[i]),
        forall|i: int| 0 <= i < keys.len() ==> event_step(#[trigger] states[i], Event::Input(keys[i]), states[i + 1], exits[i]),
    ensures
        forall|i: int| 0 <= i < states.len() ==> selection_in_bounds(#[trigger] states[i]),
        forall|i: int| 0 <= i < keys.len() ==> selection_len(#[trigger] states[i]) == 0 ==> states[i + 1].focused
            == states[i].focused,
        forall|i: int| 0 <= i < keys.len() ==> (#[trigger] states[i + 1]).data == states[i].data && !exits[i],
    decreases keys.len(),
{
    if keys.len() > 0 {
        let m = keys.len() - 1;
        let s = states.drop_last();
        let ks = keys.drop_last();
        let es = exits.drop_last();
        assert forall|i: int| 0 <= i < ks.len() implies event_step(#[trigger] s[i], Event::Input(ks[i]), s[i + 1], es[i]) by {
            assert(event_step(states[i], Event::Input(keys[i]), states[i + 1], exits[i]));
        }
        assert forall|i: int| 0 <= i < ks.len() implies is_navigation(#[trigger] ks[i]) by {
            assert(is_navigation(keys[i]));
        }
        lemma_navigation_in_bounds(s, ks, es);
        assert(selection_in_bounds(s[m]));
        assert(is_navigation(keys[m]));
        assert(event_step(states[m], Event::Input(keys[m]), states[m + 1], exits[m]));
        lemma_navigation_step(states[m], keys[m], states[m + 1], exits[m]);
        assert forall|i: int| 0 <= i < states.len() implies selection_in_bounds(#[trigger] states[i]) by {
            if i < m + 1 {
                assert(selection_in_bounds(s[i]));
            }
        }
        assert forall|i: int| 0 <= i < keys.len() implies (#[trigger] states[i + 1]).data == states[i].data
            && !exits[i] by {
            if i < m {
                assert(s[i + 1].data == s[i].data && !es[i]);
            }
        }
        assert forall|i: int| 0 <= i < keys.len() && selection_len(#[trigger] states[i]) == 0 implies states[i
            + 1].focused == states[i].focused by {
            if i < m {
                assert(selection_len(s[i]) == 0 ==> s[i + 1].focused == s[i].focused);
            }
        }
    }
}

/// Picking the person under the cursor once with "p" and committing with
/// enter makes that person the item's sole owner with the whole share:
/// their total gains the item's full price, in place of what the item's
/// former owners had from it, and no other item changes.
pub proof fn lemma_pick_then_commit(
    o: AppState,
    m: AppState,
    n: AppState,
    item: usize,
    cursor: usize,
    picked: Vec<usize>,
    pick: Key,
    exit_pick: bool,
    exit_commit: bool,
)
    requires
        o.wf(),
        o.focused == FocusedWindow::OwnerSelector(item, cursor, picked),
        picked@.len() == 0,
        cursor < o.data.people@.len(),
        pick == Key::Char('p') || pick == Key::Char('P'),
        event_step(o, Event::Input(pick), m, exit_pick),
        event_step(m, Event::Input(Key::Enter), n, exit_commit),
    ensures
        !exit_pick && !exit_commit,
        n.focused == FocusedWindow::Items(item),
        n.data.people@ == o.data.people@,
        owners_replaced(
            o.data.items@,
            n.data.items@,
            item as int,
            seq![Owner { person: cursor, percentage: FULL_SHARE }],
        ),
        forall|q: int| #[trigger] items_total(n.data.items@, q) == items_total(o.data.items@, q)
            - owners_share(o.data.items@[item as int].owners@, o.data.items@[item as int].price, q)
            + if q == cursor { o.data.items@[item as int].price * FULL_SHARE } else { 0 },
{
    let p2 = match m.focused {
        FocusedWindow::OwnerSelector(_, _, p) => p,
        _ => picked,
    };
    assert(p2@ =~= seq![cursor]);
    let two = p2@.push(cursor);
    assert(two =~= seq![cursor, cursor]);
    let half = Owner { person: cursor, percentage: (FULL_SHARE as nat / 2) as u64 };
    let split = equal_split(two);
    assert(split =~= seq![half, half]);
    assert(split.drop_last() =~= seq![half]);
    assert(seq![half].drop_last() =~= Seq::<Owner>::empty());
    let whole = Owner { person: cursor, percentage: FULL_SHARE };
    assert(merged(Seq::<Owner>::empty()) =~= Seq::<Owner>::empty());
    assert(seq![half].last() == half);
    assert(merged(seq![half]) =~= Seq::<Owner>::empty().push(half));
    assert(merged(seq![half]) =~= seq![half]);
    assert(split.last() == half);
    assert(merged(split) =~= seq![whole]);
    let price = o.data.items@[item as int].price;
    assert forall|q: int| #[trigger] items_total(n.data.items@, q) == items_total(o.data.items@, q)
        - owners_share(o.data.items@[item as int].owners@, price, q)
        + if q == cursor { price * FULL_SHARE } else { 0 } by {
        lemma_replace_owners_total(o.data.items@, n.data.items@, item as int, seq![whole], q);
        lemma_single_owner_share(whole, price, q);
    }
}

} // verus!
