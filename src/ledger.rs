//! Items, people, fractional ownership of items, and per-person totals.
//!
//! Prices are whole cents. A percentage is fixed-point: `FULL_SHARE` stands
//! for the whole item (1.0), so `FULL_SHARE / 2` is one half. A person's total
//! is the exact sum of `price * percentage` over the entries naming them,
//! and is therefore expressed in cents times `FULL_SHARE`.

use vstd::prelude::*;

verus! {

/// The fixed-point value of a whole item (a percentage of 1.0): 2^61. The
/// unit is so fine that an equal split among fewer than 2^61 picks, more
/// than any machine can hold as a list of indices, gives every pick a share
/// above zero.
pub const FULL_SHARE: u64 = 2_305_843_009_213_693_952;

/// A fractional claim of one person on one item.
#[derive(Clone, Copy, Debug, PartialEq, Eq, Structural)]
pub struct Owner {
    /// Index of the person in the ledger's `people`.
    pub person: usize,
    /// Share of the item, out of `FULL_SHARE`.
    pub percentage: u64,
}

/// One purchased line of the receipt.
#[derive(Clone, Debug)]
pub struct Item {
    pub description: String,
    pub quantity: u32,
    /// Unit price of the line, in cents.
    pub price: u64,
    pub owners: Vec<Owner>,
}

/// The items of a receipt and the people who share them.
#[derive(Clone, Debug)]
pub struct Data {
    pub items: Vec<Item>,
    pub people: Vec<String>,
}

/// What one ownership entry adds to the total of person `p`.
pub open spec fn owner_share(o: Owner, price: u64, p: int) -> int {
    if o.person == p {
        price * o.percentage
    } else {
        0
    }
}

/// What a list of ownership entries of an item priced `price` adds to the
/// total of person `p`.
pub open spec fn owners_share(owners: Seq<Owner>, price: u64, p: int) -> int
    decreases owners.len(),
{
    if owners.len() == 0 {
        0
    } else {
        owners_share(owners.drop_last(), price, p) + owner_share(owners.last(), price, p)
    }
}

/// The total of person `p` over a sequence of items.
pub open spec fn items_total(items: Seq<Item>, p: int) -> int
    decreases items.len(),
{
    if items.len() == 0 {
        0
    } else {
        items_total(items.drop_last(), p) + owners_share(items.last().owners@, items.last().price, p)
    }
}

/// The sum of the percentages of a list of ownership entries.
pub open spec fn percentage_sum(owners: Seq<Owner>) -> int
    decreases owners.len(),
{
    if owners.len() == 0 {
        0
    } else {
        percentage_sum(owners.drop_last()) + owners.last().percentage
    }
}

/// Every entry names a person below `n_people` and has a percentage above
/// zero and at most the whole item.
pub open spec fn owners_valid(owners: Seq<Owner>, n_people: nat) -> bool {
    forall|j: int| 0 <= j < owners.len() ==> {
        &&& (#[trigger] owners[j]).person < n_people
        &&& 0 < owners[j].percentage <= FULL_SHARE
    }
}

/// `new` is `old` with the owner list of item `i` replaced by `owners`.
pub open spec fn owners_replaced(old: Seq<Item>, new: Seq<Item>, i: int, owners: Seq<Owner>) -> bool {
    &&& new.len() == old.len()
    &&& forall|k: int| 0 <= k < old.len() && k != i ==> #[trigger] new[k] == old[k]
    &&& new[i].description == old[i].description
    &&& new[i].quantity == old[i].quantity
    &&& new[i].price == old[i].price
    &&& new[i].owners@ == owners
}

/// `new` is `old` where every item without owners now has `person` as its
/// sole owner with the whole share, and every other item is unchanged.
pub open spec fn default_owner_applied(old: Seq<Item>, new: Seq<Item>, person: usize) -> bool {
    &&& new.len() == old.len()
    &&& forall|k: int| 0 <= k < old.len() ==> item_after_default(old[k], #[trigger] new[k], person)
}

/// `n` is `o` after `person` was made the owner of `o` if `o` had no owner.
pub open spec fn item_after_default(o: Item, n: Item, person: usize) -> bool {
    &&& n.description == o.description
    &&& n.quantity == o.quantity
    &&& n.price == o.price
    &&& n.owners@ == if o.owners@.len() == 0 {
        seq![Owner { person, percentage: FULL_SHARE }]
    } else {
        o.owners@
    }
}

/// The sum of the prices of the items that have no owner.
pub open spec fn unowned_price_sum(items: Seq<Item>) -> int
    decreases items.len(),
{
    if items.len() == 0 {
        0
    } else {
        unowned_price_sum(items.drop_last()) + if items.last().owners@.len() == 0 {
            items.last().price as int
        } else {
            0
        }
    }
}

/// The equal split among the listed people: one entry per index, in order,
/// each with `FULL_SHARE / people.len()`.
pub open spec fn equal_split(people: Seq<usize>) -> Seq<Owner> {
    Seq::new(people.len(), |k: int| Owner { person: people[k], percentage: (FULL_SHARE as nat / people.len()) as u64 })
}

/// Adjacent entries for the same person merged into the first of them, whose
/// percentage becomes the sum of theirs.
pub open spec fn merged(owners: Seq<Owner>) -> Seq<Owner>
    decreases owners.len(),
{
    if owners.len() == 0 {
        owners
    } else {
        let m = merged(owners.drop_last());
        let x = owners.last();
        if m.len() > 0 && m.last().person == x.person {
            m.update(m.len() - 1, Owner { person: x.person, percentage: (m.last().percentage + x.percentage) as u64 })
        } else {
            m.push(x)
        }
    }
}

/// Taking one more entry adds that entry's share.
proof fn lemma_owners_share_step(owners: Seq<Owner>, price: u64, j: int)
    requires
        0 <= j < owners.len(),
    ensures
        forall|q: int| #[trigger] owners_share(owners.take(j + 1), price, q)
            == owners_share(owners.take(j), price, q) + owner_share(owners[j], price, q),
{
    assert(owners.take(j + 1).drop_last() =~= owners.take(j));
}

proof fn lemma_owners_share_prefix(owners: Seq<Owner>, price: u64, j: int, q: int)
    requires
        0 <= j <= owners.len(),
    ensures
        owners_share(owners.take(j), price, q) <= owners_share(owners, price, q),
    decreases owners.len(),
{
    if j < owners.len() {
        lemma_owners_share_prefix(owners.drop_last(), price, j, q);
        assert(owners.drop_last().take(j) =~= owners.take(j));
        assert(price * owners.last().percentage >= 0) by (nonlinear_arith);
    } else {
        assert(owners.take(j) =~= owners);
    }
}

proof fn lemma_items_total_prefix(items: Seq<Item>, i: int, q: int)
    requires
        0 <= i <= items.len(),
    ensures
        items_total(items.take(i), q) <= items_total(items, q),
    decreases items.len(),
{
    if i < items.len() {
        lemma_items_total_prefix(items.drop_last(), i, q);
        assert(items.drop_last().take(i) =~= items.take(i));
        let l = items.last();
        lemma_owners_share_prefix(l.owners@, l.price, 0, q);
        assert(l.owners@.take(0) =~= Seq::<Owner>::empty());
    } else {
        assert(items.take(i) =~= items);
    }
}

/// The partial sum reached inside item `i` bounds the total from below.
proof fn lemma_items_total_bound(items: Seq<Item>, i: int, j: int, q: int)
    requires
        0 <= i < items.len(),
        0 <= j < items[i].owners@.len(),
    ensures
        items_total(items.take(i), q) + owners_share(items[i].owners@.take(j + 1), items[i].price, q)
            <= items_total(items, q),
{
    lemma_items_total_prefix(items, i + 1, q);
    assert(items.take(i + 1).drop_last() =~= items.take(i));
    lemma_owners_share_prefix(items[i].owners@, items[i].price, j + 1, q);
}

impl Data {
    /// Every ownership entry of every item names an existing person and has
    /// a percentage above zero and at most the whole item.
    pub open spec fn wf(&self) -> bool {
        forall|i: int| 0 <= i < self.items@.len() ==> owners_valid(
            #[trigger] self.items@[i].owners@,
            self.people@.len(),
        )
    }

    /// The exact total of person `p`, in cents times `FULL_SHARE`.
    pub open spec fn total_of(&self, p: int) -> int {
        items_total(self.items@, p)
    }

    /// Makes `person_idx` the sole owner of item `item_idx`, with the whole share.
    pub fn set_item_owner(&mut self, item_idx: usize, person_idx: usize)
        requires
            old(self).wf(),
            item_idx < old(self).items@.len(),
            person_idx < old(self).people@.len(),
        ensures
            final(self).wf(),
            final(self).people@ == old(self).people@,
            owners_replaced(
                old(self).items@,
                final(self).items@,
                item_idx as int,
                seq![Owner { person: person_idx, percentage: FULL_SHARE }],
            ),
    {
        let owner = Owner { person: person_idx, percentage: FULL_SHARE };
        let size = self.items[item_idx].owners.len();
        if size == 1 {
            self.items[item_idx].owners.set(0, owner);
        } else {
            self.items[item_idx].owners = vec![owner];
        }
        assert(self.items@[item_idx as int].owners@ =~= seq![owner]);
        assert(owners_valid(self.items@[item_idx as int].owners@, self.people@.len()));
    }

    /// Appends a person at the end of `people`; names may repeat or be empty.
    pub fn add_person(&mut self, name: String)
        requires
            old(self).wf(),
        ensures
            final(self).wf(),
            final(self).items@ == old(self).items@,
            final(self).people@ == old(self).people@.push(name),
    {
        self.people.push(name);
        assert forall|i: int| 0 <= i < self.items@.len() implies owners_valid(
            #[trigger] self.items@[i].owners@,
            self.people@.len(),
        ) by {
            assert(owners_valid(old(self).items@[i].owners@, old(self).people@.len()));
        }
    }

    /// Replaces the owner list of item `item_idx` with `owners`, which the
    /// caller has already merged.
    pub fn set_item_owners(&mut self, item_idx: usize, owners: Vec<Owner>)
        requires
            old(self).wf(),
            item_idx < old(self).items@.len(),
            owners_valid(owners@, old(self).people@.len()),
        ensures
            final(self).wf(),
            final(self).people@ == old(self).people@,
            owners_replaced(old(self).items@, final(self).items@, item_idx as int, owners@),
    {
        self.items[item_idx].owners = owners;
    }

    /// Gives every item without owners the sole owner `person_idx`, with the
    /// whole share; items that have any owner are left as they are.
    pub fn set_rest_items_owner(&mut self, person_idx: usize)
        requires
            old(self).wf(),
            person_idx < old(self).people@.len(),
        ensures
            final(self).wf(),
            final(self).people@ == old(self).people@,
            default_owner_applied(old(self).items@, final(self).items@, person_idx),
    {
        let n = self.items.len();
        let mut i: usize = 0;
        while i < n
            invariant
                0 <= i <= n,
                n == old(self).items@.len(),
                self.items@.len() == n,
                self.people@ == old(self).people@,
                person_idx < self.people@.len(),
                self.wf(),
                forall|k: int| 0 <= k < i ==> item_after_default(old(self).items@[k], #[trigger] self.items@[k], person_idx),
                forall|k: int| i <= k < n ==> #[trigger] self.items@[k] == old(self).items@[k],
            decreases n - i,
        {
            if self.items[i].owners.len() == 0 {
                let ghost before = self.items@;
                self.items[i].owners.push(Owner { person: person_idx, percentage: FULL_SHARE });
                assert(self.items@[i as int].owners@ =~= seq![Owner { person: person_idx, percentage: FULL_SHARE }]);
                assert(self.items@[i as int].owners@[0].person == person_idx);
                assert(owners_valid(self.items@[i as int].owners@, self.people@.len()));
                assert(self.wf()) by {
                    assert forall|k: int| 0 <= k < self.items@.len() implies owners_valid(
                        #[trigger] self.items@[k].owners@,
                        self.people@.len(),
                    ) by {
                        if k != i {
                            assert(self.items@[k] == before[k]);
                        }
                    }
                }
            }
            i += 1;
        }
    }

    /// The total of every person, in cents times `FULL_SHARE`, ordered as
    /// `people`; `None` exactly when some total does not fit in a `u128`.
    pub fn compute_total(&self) -> (r: Option<Vec<u128>>)
        requires
            self.wf(),
        ensures
            r is Some <==> forall|p: int| 0 <= p < self.people@.len() ==> #[trigger] self.total_of(p) <= u128::MAX,
            r matches Some(t) ==> {
                &&& t@.len() == self.people@.len()
                &&& forall|p: int| 0 <= p < self.people@.len() ==> #[trigger] t@[p] == self.total_of(p)
            },
    {
        let n = self.people.len();
        let mut totals: Vec<u128> = Vec::with_capacity(n);
        let mut k: usize = 0;
        while k < n
            invariant
                0 <= k <= n,
                n == self.people@.len(),
                totals@.len() == k,
                forall|q: int| 0 <= q < k ==> totals@[q] == 0,
            decreases n - k,
        {
            totals.push(0);
            k += 1;
        }
        let mut i: usize = 0;
        while i < self.items.len()
            invariant
                0 <= i <= self.items@.len(),
                n == self.people@.len(),
                self.wf(),
                totals@.len() == n,
                forall|q: int| 0 <= q < n ==> #[trigger] totals@[q] == items_total(self.items@.take(i as int), q),
            decreases self.items@.len() - i,
        {
            let item = &self.items[i];
            let ghost done = self.items@.take(i as int);
            assert(owners_valid(item.owners@, n as nat));
            let mut j: usize = 0;
            while j < item.owners.len()
                invariant
                    0 <= j <= item.owners@.len(),
                    *item == self.items@[i as int],
                    i < self.items@.len(),
                    done == self.items@.take(i as int),
                    n == self.people@.len(),
                    self.wf(),
                    owners_valid(item.owners@, n as nat),
                    totals@.len() == n,
                    forall|q: int| 0 <= q < n ==> #[trigger] totals@[q] == items_total(done, q)
                        + owners_share(item.owners@.take(j as int), item.price, q),
                decreases item.owners@.len() - j,
            {
                let o = item.owners[j];
                proof {
                    lemma_owners_share_step(item.owners@, item.price, j as int);
                }
                assert((item.price as int) * (o.percentage as int) <= u64::MAX * u64::MAX) by (nonlinear_arith)
                    requires
                        item.price <= u64::MAX,
                        o.percentage <= u64::MAX,
                ;
                let add: u128 = (item.price as u128) * (o.percentage as u128);
                assert(add == owner_share(o, item.price, o.person as int));
                let cur = totals[o.person];
                if cur > u128::MAX - add {
                    proof {
                        lemma_items_total_bound(self.items@, i as int, j as int, o.person as int);
                        assert(!(self.total_of(o.person as int) <= u128::MAX));
                    }
                    return None;
                }
                totals.set(o.person, cur + add);
                j += 1;
            }
            proof {
                assert(item.owners@.take(item.owners@.len() as int) =~= item.owners@);
                assert(self.items@.take(i + 1).drop_last() =~= done);
            }
            i += 1;
        }
        assert(self.items@.take(self.items@.len() as int) =~= self.items@);
        assert forall|p: int| 0 <= p < self.people@.len() implies #[trigger] self.total_of(p) <= u128::MAX by {
            assert(totals@[p] == self.total_of(p));
        }
        Some(totals)
    }
}

/// One entry per listed person, in order, each with an equal share of
/// `FULL_SHARE / people.len()` (rounded down), which is above zero.
pub fn from_indices_to_owners(people: &Vec<usize>) -> (r: Vec<Owner>)
    requires
        people@.len() <= FULL_SHARE,
    ensures
        r@ == equal_split(people@),
        forall|k: int| 0 <= k < r@.len() ==> 0 < (#[trigger] r@[k]).percentage <= FULL_SHARE,
{
    let n = people.len();
    let mut owners: Vec<Owner> = Vec::with_capacity(n);
    if n == 0 {
        assert(owners@ =~= equal_split(people@));
        return owners;
    }
    let percentage = FULL_SHARE / (n as u64);
    let mut i: usize = 0;
    while i < n
        invariant
            0 <= i <= n,
            n == people@.len(),
            n > 0,
            percentage == FULL_SHARE as nat / people@.len(),
            owners@ =~= equal_split(people@).take(i as int),
        decreases n - i,
    {
        owners.push(Owner { person: people[i], percentage });
        i += 1;
    }
    assert(equal_split(people@).take(n as int) =~= equal_split(people@));
    proof {
        lemma_equal_share_range(n as nat);
    }
    owners
}

/// An equal share among `n` picks, with `n` at most `FULL_SHARE`, is above
/// zero and at most the whole.
proof fn lemma_equal_share_range(n: nat)
    requires
        0 < n <= FULL_SHARE,
    ensures
        0 < FULL_SHARE as nat / n <= FULL_SHARE,
{
    vstd::arithmetic::div_mod::lemma_div_is_ordered_by_denominator(FULL_SHARE as int, 1, n as int);
    vstd::arithmetic::div_mod::lemma_div_is_ordered(n as int, FULL_SHARE as int, n as int);
    vstd::arithmetic::div_mod::lemma_div_by_self(n as int);
}

/// Merges each run of adjacent entries for the same person into the first
/// entry of the run, whose percentage becomes the sum of the run's.
/// Entries for one person that are not adjacent stay apart.
pub fn flatten_owners(owners: &mut Vec<Owner>)
    requires
        percentage_sum(old(owners)@) <= u64::MAX,
    ensures
        final(owners)@ == merged(old(owners)@),
{
    let ghost input = owners@;
    let mut out: Vec<Owner> = Vec::with_capacity(owners.len());
    let mut i: usize = 0;
    while i < owners.len()
        invariant
            0 <= i <= input.len(),
            owners@ == input,
            percentage_sum(input) <= u64::MAX,
            out@ == merged(input.take(i as int)),
            forall|k: int| 0 <= k < out@.len() ==> (#[trigger] out@[k]).percentage <= percentage_sum(input.take(i as int)),
        decreases input.len() - i,
    {
        let x = owners[i];
        proof {
            assert(input.take(i + 1).drop_last() =~= input.take(i as int));
            lemma_percentage_sum_prefix(input, i + 1);
            assert(x == input[i as int]);
            assert(percentage_sum(input.take(i + 1)) == percentage_sum(input.take(i as int)) + x.percentage);
        }
        let len = out.len();
        if len > 0 && out[len - 1].person == x.person {
            let last = out[len - 1];
            out.set(len - 1, Owner { person: x.person, percentage: last.percentage + x.percentage });
        } else {
            out.push(x);
        }
        i += 1;
    }
    assert(input.take(input.len() as int) =~= input);
    *owners = out;
}

proof fn lemma_percentage_sum_prefix(owners: Seq<Owner>, j: int)
    requires
        0 <= j <= owners.len(),
    ensures
        percentage_sum(owners.take(j)) <= percentage_sum(owners),
    decreases owners.len(),
{
    if j < owners.len() {
        lemma_percentage_sum_prefix(owners.drop_last(), j);
        assert(owners.drop_last().take(j) =~= owners.take(j));
    } else {
        assert(owners.take(j) =~= owners);
    }
}

/// A list of one entry adds that entry's share.
pub proof fn lemma_single_owner_share(o: Owner, price: u64, q: int)
    ensures
        owners_share(seq![o], price, q) == owner_share(o, price, q),
{
    assert(seq![o].drop_last() =~= Seq::<Owner>::empty());
    assert(owners_share(Seq::<Owner>::empty(), price, q) == 0);
    assert(seq![o].last() == o);
}

/// Giving every item without owners the sole owner `person` raises the
/// total of `person` by `FULL_SHARE` times the sum of the prices of those
/// items, and leaves the total of every other person as it was: items that
/// already had owners contribute exactly what they did before.
pub proof fn lemma_default_owner_totals(before: Seq<Item>, after: Seq<Item>, person: usize, q: int)
    requires
        default_owner_applied(before, after, person),
    ensures
        items_total(after, q) == items_total(before, q) + if q == person {
            FULL_SHARE * unowned_price_sum(before)
        } else {
            0
        },
    decreases before.len(),
{
    if before.len() > 0 {
        let b = before.drop_last();
        let a = after.drop_last();
        assert(default_owner_applied(b, a, person)) by {
            assert forall|k: int| 0 <= k < b.len() implies item_after_default(b[k], #[trigger] a[k], person) by {
                assert(item_after_default(before[k], after[k], person));
            }
        }
        lemma_default_owner_totals(b, a, person, q);
        let l = before.last();
        assert(item_after_default(l, after[before.len() - 1], person));
        if l.owners@.len() == 0 {
            lemma_single_owner_share(Owner { person, percentage: FULL_SHARE }, l.price, q);
            assert(owners_share(l.owners@, l.price, q) == 0);
            assert(FULL_SHARE * unowned_price_sum(before) == FULL_SHARE * unowned_price_sum(b) + l.price
                * FULL_SHARE) by (nonlinear_arith)
                requires
                    unowned_price_sum(before) == unowned_price_sum(b) + l.price,
            ;
        } else {
            assert(unowned_price_sum(before) == unowned_price_sum(b));
        }
    }
}

/// Replacing the owner list of item `i` changes each person's total by the
/// difference between the new list's share and the old list's share of
/// that item; no other item's contribution changes.
pub proof fn lemma_replace_owners_total(before: Seq<Item>, after: Seq<Item>, i: int, owners: Seq<Owner>, q: int)
    requires
        0 <= i < before.len(),
        owners_replaced(before, after, i, owners),
    ensures
        items_total(after, q) == items_total(before, q) - owners_share(before[i].owners@, before[i].price, q)
            + owners_share(owners, before[i].price, q),
    decreases before.len(),
{
    let n = before.len();
    if i == n - 1 {
        assert(after.drop_last() =~= before.drop_last()) by {
            assert forall|k: int| 0 <= k < n - 1 implies after.drop_last()[k] == before.drop_last()[k] by {
                assert(after[k] == before[k]);
            }
        }
    } else {
        assert(owners_replaced(before.drop_last(), after.drop_last(), i, owners)) by {
            assert forall|k: int| 0 <= k < n - 1 && k != i implies #[trigger] after.drop_last()[k]
                == before.drop_last()[k] by {
                assert(after[k] == before[k]);
            }
        }
        lemma_replace_owners_total(before.drop_last(), after.drop_last(), i, owners, q);
        assert(after[n - 1] == before[n - 1]);
    }
}

/// Splitting item `i` in two halves between `a` and `b` adds half of its
/// price to the total of each of them, in place of what its former owners
/// had from it.
pub proof fn lemma_half_split_totals(before: Seq<Item>, after: Seq<Item>, i: int, a: usize, b: usize, q: int)
    requires
        0 <= i < before.len(),
        owners_replaced(
            before,
            after,
            i,
            seq![Owner { person: a, percentage: FULL_SHARE / 2 }, Owner { person: b, percentage: FULL_SHARE / 2 }],
        ),
    ensures
        items_total(after, q) == items_total(before, q) - owners_share(before[i].owners@, before[i].price, q)
            + (if q == a { before[i].price * (FULL_SHARE / 2) } else { 0 })
            + (if q == b { before[i].price * (FULL_SHARE / 2) } else { 0 }),
{
    let oa = Owner { person: a, percentage: FULL_SHARE / 2 };
    let ob = Owner { person: b, percentage: FULL_SHARE / 2 };
    let owners = seq![oa, ob];
    lemma_replace_owners_total(before, after, i, owners, q);
    assert(owners.drop_last() =~= seq![oa]);
    lemma_single_owner_share(oa, before[i].price, q);
}

/// Every entry of an equal split has a person from the list.
pub proof fn lemma_equal_split_valid(people: Seq<usize>, n_people: nat)
    requires
        people.len() <= FULL_SHARE,
        forall|k: int| 0 <= k < people.len() ==> #[trigger] people[k] < n_people,
    ensures
        owners_valid(equal_split(people), n_people),
{
    if people.len() > 0 {
        lemma_equal_share_range(people.len());
    }
    assert forall|j: int| 0 <= j < equal_split(people).len() implies {
        &&& (#[trigger] equal_split(people)[j]).person < n_people
        &&& 0 < equal_split(people)[j].percentage <= FULL_SHARE
    } by {
        assert(equal_split(people)[j].person == people[j]);
    }
}

/// The percentages of an equal split add up to at most the whole.
pub proof fn lemma_equal_split_sum(people: Seq<usize>)
    ensures
        percentage_sum(equal_split(people)) <= FULL_SHARE,
{
    if people.len() > 0 {
        let c = (FULL_SHARE as nat / people.len()) as u64;
        lemma_constant_percentage_sum(equal_split(people), c);
        let n = people.len() as int;
        assert(n * (FULL_SHARE as int / n) <= FULL_SHARE) by (nonlinear_arith)
            requires
                n > 0,
        {
            vstd::arithmetic::div_mod::lemma_fundamental_div_mod(FULL_SHARE as int, n);
        }
    } else {
        assert(equal_split(people).len() == 0);
    }
}

proof fn lemma_constant_percentage_sum(owners: Seq<Owner>, c: u64)
    requires
        forall|k: int| 0 <= k < owners.len() ==> (#[trigger] owners[k]).percentage == c,
    ensures
        percentage_sum(owners) == owners.len() * c,
    decreases owners.len(),
{
    if owners.len() > 0 {
        let d = owners.drop_last();
        assert forall|k: int| 0 <= k < d.len() implies (#[trigger] d[k]).percentage == c by {
            assert(d[k] == owners[k]);
        }
        lemma_constant_percentage_sum(d, c);
        assert(owners.last() == owners[owners.len() - 1]);
        assert(owners.len() * c == d.len() * c + c) by (nonlinear_arith)
            requires
                owners.len() == d.len() + 1,
        ;
    }
}

/// Merging adjacent entries brings in no person that was not there, and,
/// when the percentages add up to at most the whole, keeps every percentage
/// above zero and at most the whole.
pub proof fn lemma_merged_valid(owners: Seq<Owner>, n_people: nat)
    requires
        owners_valid(owners, n_people),
        percentage_sum(owners) <= FULL_SHARE,
    ensures
        owners_valid(merged(owners), n_people),
    decreases owners.len(),
{
    if owners.len() > 0 {
        let d = owners.drop_last();
        let x = owners.last();
        assert(x == owners[owners.len() - 1]);
        assert(percentage_sum(owners) == percentage_sum(d) + x.percentage);
        assert forall|j: int| 0 <= j < d.len() implies {
            &&& (#[trigger] d[j]).person < n_people
            &&& 0 < d[j].percentage <= FULL_SHARE
        } by {
            assert(d[j] == owners[j]);
        }
        lemma_merged_valid(d, n_people);
        lemma_merged_bound(owners);
        let m = merged(d);
        let r = merged(owners);
        assert forall|k: int| 0 <= k < r.len() implies {
            &&& (#[trigger] r[k]).person < n_people
            &&& 0 < r[k].percentage <= FULL_SHARE
        } by {
            if m.len() > 0 && m.last().person == x.person {
                assert(m.last() == m[m.len() - 1]);
                if k < m.len() - 1 {
                    assert(r[k] == m[k]);
                }
            } else if k < m.len() {
                assert(r[k] == m[k]);
            }
        }
    }
}

/// No entry of a merge exceeds the sum of all the percentages merged.
proof fn lemma_merged_bound(owners: Seq<Owner>)
    requires
        percentage_sum(owners) <= u64::MAX,
    ensures
        forall|k: int| 0 <= k < merged(owners).len() ==> (#[trigger] merged(owners)[k]).percentage
            <= percentage_sum(owners),
    decreases owners.len(),
{
    if owners.len() > 0 {
        let d = owners.drop_last();
        let x = owners.last();
        let m = merged(d);
        assert(percentage_sum(owners) == percentage_sum(d) + x.percentage);
        lemma_merged_bound(d);
        let r = merged(owners);
        assert forall|k: int| 0 <= k < r.len() implies (#[trigger] r[k]).percentage <= percentage_sum(owners) by {
            if m.len() > 0 && m.last().person == x.person {
                assert(m.last() == m[m.len() - 1]);
                assert(m.last().percentage <= percentage_sum(d));
                if k < m.len() - 1 {
                    assert(r[k] == m[k]);
                } else {
                    assert(r[k].percentage == m.last().percentage + x.percentage);
                }
            } else {
                if k < m.len() {
                    assert(r[k] == m[k]);
                }
            }
        }
    }
}

/// Merging adjacent entries for the same person changes no person's share
/// of the item.
pub proof fn lemma_merged_share(owners: Seq<Owner>, price: u64, q: int)
    requires
        percentage_sum(owners) <= u64::MAX,
    ensures
        owners_share(merged(owners), price, q) == owners_share(owners, price, q),
    decreases owners.len(),
{
    if owners.len() > 0 {
        let d = owners.drop_last();
        let x = owners.last();
        let m = merged(d);
        lemma_merged_share(d, price, q);
        lemma_merged_bound(d);
        if m.len() > 0 && m.last().person == x.person {
            let y = m.last();
            let merged_entry = Owner { person: x.person, percentage: (y.percentage + x.percentage) as u64 };
            assert(y == m[m.len() - 1]);
            assert(y.percentage + x.percentage <= percentage_sum(owners));
            assert(m.update(m.len() - 1, merged_entry).drop_last() =~= m.drop_last());
            assert(price * (y.percentage + x.percentage) == price * y.percentage + price * x.percentage)
                by (nonlinear_arith);
        } else {
            assert(m.push(x).drop_last() =~= m);
        }
    }
}

} // verus!
