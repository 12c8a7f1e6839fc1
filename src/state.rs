//! The application state: which mode has the keyboard, and the ledger.

use vstd::prelude::*;
use vstd::string::*;
use crate::ledger::{Data, Item, Owner, FULL_SHARE, owners_valid};

verus! {

/// The active interaction mode and its transient editing state.
#[derive(Clone, Debug)]
pub enum FocusedWindow {
    /// Browsing the items; the selected item.
    Items(usize),
    /// Browsing the people; the selected person.
    People(usize),
    /// Choosing owners of an item: the item, the person under the cursor,
    /// and the people picked so far, in the order they were picked.
    OwnerSelector(usize, usize, Vec<usize>),
    /// Choosing the owner of every unowned item; the person under the cursor.
    RestOwnerSelector(usize),
    /// Typing the name of a new person.
    AddPerson(String),
}

/// The whole state of a session.
#[derive(Clone, Debug)]
pub struct AppState {
    pub focused: FocusedWindow,
    pub data: Data,
}

/// An index into a collection of `len` elements, or 0 when it is empty.
pub open spec fn index_ok(idx: usize, len: nat) -> bool {
    idx < len || idx == 0
}

impl AppState {
    /// The ledger is well formed, every cursor points into its collection
    /// (or is 0 when that collection is empty), and an item being edited
    /// exists, as do the people picked for it; there are fewer picks than
    /// `FULL_SHARE`, a count no machine can hold.
    pub open spec fn wf(&self) -> bool {
        &&& self.data.wf()
        &&& match self.focused {
            FocusedWindow::Items(i) => index_ok(i, self.data.items@.len()),
            FocusedWindow::People(i) => index_ok(i, self.data.people@.len()),
            FocusedWindow::OwnerSelector(item, cursor, picked) => {
                &&& item < self.data.items@.len()
                &&& index_ok(cursor, self.data.people@.len())
                &&& forall|k: int| 0 <= k < picked@.len() ==> #[trigger] picked@[k] < self.data.people@.len()
                &&& picked@.len() < FULL_SHARE
            },
            FocusedWindow::RestOwnerSelector(i) => index_ok(i, self.data.people@.len()),
            FocusedWindow::AddPerson(_) => true,
        }
    }

    /// A session over `data`, browsing the items from the first one.
    pub fn with_data(data: Data) -> (r: Self)
        requires
            data.wf(),
        ensures
            r.wf(),
            r.data == data,
            r.focused == FocusedWindow::Items(0),
    {
        Self { focused: FocusedWindow::Items(0), data }
    }
}

impl Default for AppState {
    /// A small sample session: two items without owners and one person.
    fn default() -> (r: Self)
        ensures
            r.wf(),
            r.focused == FocusedWindow::Items(0),
            r.data.people@.len() == 1,
            r.data.people@[0]@ == "jojo"@,
            r.data.items@.len() == 2,
            r.data.items@[0].description@ == "Iogurte Grego Natural Açucarado"@,
            r.data.items@[0].quantity == 2,
            r.data.items@[0].price == 248,
            r.data.items@[0].owners@.len() == 0,
            r.data.items@[1].description@ == "Iogurte Grego Natural Açucarado"@,
            r.data.items@[1].quantity == 1,
            r.data.items@[1].price == 124,
            r.data.items@[1].owners@.len() == 0,
    {
        let item1 = Item {
            description: String::from_str("Iogurte Grego Natural Açucarado"),
            quantity: 2,
            price: 248,
            owners: Vec::new(),
        };
        let item2 = Item {
            description: String::from_str("Iogurte Grego Natural Açucarado"),
            quantity: 1,
            price: 124,
            owners: Vec::new(),
        };
        let data = Data { items: vec![item1, item2], people: vec![String::from_str("jojo")] };
        assert forall|i: int| 0 <= i < data.items@.len() implies owners_valid(
            #[trigger] data.items@[i].owners@,
            data.people@.len(),
        ) by {
            assert(data.items@[i].owners@.len() == 0);
        }
        AppState { focused: FocusedWindow::Items(0), data }
    }
}

/// The name of the person that an ownership entry refers to.
pub fn owner_to_string(owner: &Owner, app: &AppState) -> (r: String)
    requires
        owner.person < app.data.people@.len(),
    ensures
        r@ == app.data.people@[owner.person as int]@,
{
    app.data.people[owner.person].clone()
}

} // verus!
