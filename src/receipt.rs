//! Reading the items of a plain-text receipt export.
//!
//! An item takes four lines, each indented by four spaces: its description,
//! its quantity (digits), a discount line (an optional minus sign, digits, a
//! comma and digits) whose value is ignored, and its price (digits, a comma
//! and digits, read as whole units and cents). Lines that do not fit are
//! skipped as described on `parse_step`. A line is searched from the left
//! for the first place where its pattern starts, as an unanchored pattern
//! would be.

use vstd::prelude::*;
use vstd::string::*;
use crate::ledger::{Data, Item, owners_valid};
use crate::text::char_substring;

verus! {

/// The kind of line the parser expects next.
#[derive(Clone, Copy, Debug, PartialEq, Eq, Structural)]
pub enum Expect {
    Description,
    Quantity,
    Discount,
    Price,
}

pub open spec fn is_digit(c: char) -> bool {
    '0' <= c && c <= '9'
}

pub open spec fn digit_value(c: char) -> nat {
    (c as u32 - '0' as u32) as nat
}

/// The decimal value of a sequence of digits.
pub open spec fn digits_value(d: Seq<char>) -> nat
    decreases d.len(),
{
    if d.len() == 0 {
        0
    } else {
        digits_value(d.drop_last()) * 10 + digit_value(d.last())
    }
}

/// Four spaces start at `i`.
pub open spec fn spaces_at(s: Seq<char>, i: int) -> bool {
    &&& 0 <= i
    &&& i + 4 <= s.len()
    &&& s[i] == ' ' && s[i + 1] == ' ' && s[i + 2] == ' ' && s[i + 3] == ' '
}

/// Where the run of digits that starts at `j` ends.
pub open spec fn digits_end(s: Seq<char>, j: int) -> int
    decreases s.len() - j,
{
    if 0 <= j < s.len() && is_digit(s[j]) {
        digits_end(s, j + 1)
    } else {
        j
    }
}

/// Digits, a comma and digits start at `q`.
pub open spec fn amount_at(s: Seq<char>, q: int) -> bool {
    &&& 0 <= q < s.len()
    &&& is_digit(s[q])
    &&& digits_end(s, q) + 1 < s.len()
    &&& s[digits_end(s, q)] == ','
    &&& is_digit(s[digits_end(s, q) + 1])
}

/// A line of the given kind starts at `i`.
pub open spec fn matches_at(s: Seq<char>, i: int, kind: Expect) -> bool {
    &&& spaces_at(s, i)
    &&& match kind {
        Expect::Description => i + 4 < s.len(),
        Expect::Quantity => i + 4 < s.len() && is_digit(s[i + 4]),
        Expect::Discount => amount_at(s, if i + 4 < s.len() && s[i + 4] == '-' { i + 5 } else { i + 4 }),
        Expect::Price => amount_at(s, i + 4),
    }
}

/// The first place at or after `i` where a line of the given kind starts.
pub open spec fn first_match(s: Seq<char>, i: int, kind: Expect) -> Option<int>
    decreases s.len() - i,
{
    if i < 0 || i >= s.len() {
        None
    } else if matches_at(s, i, kind) {
        Some(i)
    } else {
        first_match(s, i + 1, kind)
    }
}

/// The quantity of a quantity line that starts at `i`.
pub open spec fn quantity_value(s: Seq<char>, i: int) -> nat {
    digits_value(s.subrange(i + 4, digits_end(s, i + 4)))
}

/// The whole units of a price line that starts at `i`.
pub open spec fn price_whole(s: Seq<char>, i: int) -> nat {
    digits_value(s.subrange(i + 4, digits_end(s, i + 4)))
}

/// The cents of a price line that starts at `i`.
pub open spec fn price_cents(s: Seq<char>, i: int) -> nat {
    let k = digits_end(s, i + 4) + 1;
    digits_value(s.subrange(k, digits_end(s, k)))
}

/// What the parser holds between lines: the kind of line it expects, and
/// the description and quantity read so far for the current item.
pub type ParseState = (Expect, Seq<char>, u32);

/// An item as read: description, quantity, price in cents.
pub type ItemRecord = (Seq<char>, u32, u64);

/// One line of input. A description line moves on to the quantity; a
/// quantity line moves on to the discount, and anything else (or a quantity
/// beyond `u32`) goes back to expecting a description; the parser waits on
/// the discount line until one comes; after the price line, matched or not,
/// it expects a description again, and a matched price whose two numbers
/// fit in `u32` yields the item, whatever its value (zero included).
pub open spec fn parse_step(st: ParseState, s: Seq<char>) -> (ParseState, Option<ItemRecord>) {
    let (stage, d, q) = st;
    match stage {
        Expect::Description => match first_match(s, 0, Expect::Description) {
            Some(i) => ((Expect::Quantity, s.subrange(i + 4, s.len() as int), q), None),
            None => (st, None),
        },
        Expect::Quantity => match first_match(s, 0, Expect::Quantity) {
            Some(i) => if quantity_value(s, i) <= u32::MAX {
                ((Expect::Discount, d, quantity_value(s, i) as u32), None)
            } else {
                ((Expect::Description, d, q), None)
            },
            None => ((Expect::Description, d, q), None),
        },
        Expect::Discount => if first_match(s, 0, Expect::Discount) is Some {
            ((Expect::Price, d, q), None)
        } else {
            (st, None)
        },
        Expect::Price => match first_match(s, 0, Expect::Price) {
            Some(i) => {
                let a = price_whole(s, i);
                let b = price_cents(s, i);
                if a <= u32::MAX && b <= u32::MAX {
                    ((Expect::Description, d, q), Some((d, q, (a * 100 + b) as u64)))
                } else {
                    ((Expect::Description, d, q), None)
                }
            },
            None => ((Expect::Description, d, q), None),
        },
    }
}

/// The state after the given lines, and the items they yielded, in order.
pub open spec fn parse_run(lines: Seq<Seq<char>>) -> (ParseState, Seq<ItemRecord>)
    decreases lines.len(),
{
    if lines.len() == 0 {
        ((Expect::Description, Seq::empty(), 0), Seq::empty())
    } else {
        let (st, out) = parse_run(lines.drop_last());
        let (next, emitted) = parse_step(st, lines.last());
        (
            next,
            match emitted {
                Some(r) => out.push(r),
                None => out,
            },
        )
    }
}

/// The characters of each line.
pub open spec fn line_views(lines: Seq<String>) -> Seq<Seq<char>> {
    Seq::new(lines.len(), |k: int| lines[k]@)
}

/// The items of a receipt, in the order its lines give them; an item left
/// unfinished at the end is dropped.
pub open spec fn receipt_items(lines: Seq<String>) -> Seq<ItemRecord> {
    parse_run(line_views(lines)).1
}

/// `item` is the record `r`, with no owners.
pub open spec fn item_is(item: Item, r: ItemRecord) -> bool {
    &&& item.description@ == r.0
    &&& item.quantity == r.1
    &&& item.price == r.2
    &&& item.owners@.len() == 0
}

fn line_chars(line: &String) -> (r: Vec<char>)
    ensures
        r@ == line@,
{
    let s = line.as_str();
    let n = s.unicode_len();
    let mut out: Vec<char> = Vec::with_capacity(n);
    let mut i: usize = 0;
    while i < n
        invariant
            0 <= i <= n,
            n == s@.len(),
            s@ == line@,
            out@ =~= s@.take(i as int),
        decreases n - i,
    {
        out.push(s.get_char(i));
        i += 1;
    }
    assert(s@.take(n as int) =~= s@);
    out
}

fn digits_end_exec(s: &Vec<char>, j: usize) -> (r: usize)
    requires
        j <= s@.len(),
    ensures
        r == digits_end(s@, j as int),
        j <= r <= s@.len(),
        forall|k: int| j <= k < r ==> is_digit(#[trigger] s@[k]),
{
    let mut k = j;
    while k < s.len() && '0' <= s[k] && s[k] <= '9'
        invariant
            j <= k <= s@.len(),
            digits_end(s@, j as int) == digits_end(s@, k as int),
            forall|m: int| j <= m < k ==> is_digit(#[trigger] s@[m]),
        decreases s@.len() - k,
    {
        k += 1;
    }
    k
}

proof fn lemma_digits_value_prefix(d: Seq<char>, j: int)
    requires
        0 <= j <= d.len(),
    ensures
        digits_value(d.take(j)) <= digits_value(d),
    decreases d.len(),
{
    if j < d.len() {
        lemma_digits_value_prefix(d.drop_last(), j);
        assert(d.drop_last().take(j) =~= d.take(j));
    } else {
        assert(d.take(j) =~= d);
    }
}

/// The value of the digits in `from..to`, when it fits in a `u32`.
fn digits_value_exec(s: &Vec<char>, from: usize, to: usize) -> (r: Option<u32>)
    requires
        from <= to <= s@.len(),
        forall|k: int| from <= k < to ==> is_digit(#[trigger] s@[k]),
    ensures
        r is Some <==> digits_value(s@.subrange(from as int, to as int)) <= u32::MAX,
        r matches Some(v) ==> v == digits_value(s@.subrange(from as int, to as int)),
{
    let ghost d = s@.subrange(from as int, to as int);
    let mut acc: u64 = 0;
    let mut k = from;
    while k < to
        invariant
            from <= k <= to <= s@.len(),
            d == s@.subrange(from as int, to as int),
            acc == digits_value(d.take(k - from)),
            acc <= u32::MAX,
            forall|m: int| from <= m < to ==> is_digit(#[trigger] s@[m]),
        decreases to - k,
    {
        let c = s[k];
        assert(d.take(k - from + 1).drop_last() =~= d.take(k - from));
        assert(d.take(k - from + 1).last() == c);
        assert(is_digit(s@[k as int]));
        let digit: u64 = (c as u32 - '0' as u32) as u64;
        let next = acc * 10 + digit;
        if next > u32::MAX as u64 {
            proof {
                lemma_digits_value_prefix(d, k - from + 1);
            }
            return None;
        }
        acc = next;
        k += 1;
    }
    assert(d.take(to - from) =~= d);
    Some(acc as u32)
}

fn amount_at_exec(s: &Vec<char>, q: usize) -> (r: bool)
    ensures
        r == amount_at(s@, q as int),
{
    if q >= s.len() || !('0' <= s[q] && s[q] <= '9') {
        return false;
    }
    let k = digits_end_exec(s, q);
    k < s.len() && s.len() - k > 1 && s[k] == ',' && '0' <= s[k + 1] && s[k + 1] <= '9'
}

fn matches_at_exec(s: &Vec<char>, i: usize, kind: Expect) -> (r: bool)
    ensures
        r == matches_at(s@, i as int, kind),
{
    let n = s.len();
    if i >= n || n - i < 4 {
        return false;
    }
    if !(s[i] == ' ' && s[i + 1] == ' ' && s[i + 2] == ' ' && s[i + 3] == ' ') {
        return false;
    }
    let p = i + 4;
    match kind {
        Expect::Description => p < n,
        Expect::Quantity => p < n && '0' <= s[p] && s[p] <= '9',
        Expect::Discount => {
            let q = if p < n && s[p] == '-' {
                p + 1
            } else {
                p
            };
            amount_at_exec(s, q)
        },
        Expect::Price => amount_at_exec(s, p),
    }
}

proof fn lemma_first_match_at(s: Seq<char>, j: int, kind: Expect)
    ensures
        first_match(s, j, kind) matches Some(i) ==> j <= i < s.len() && matches_at(s, i, kind),
    decreases s.len() - j,
{
    if 0 <= j < s.len() && !matches_at(s, j, kind) {
        lemma_first_match_at(s, j + 1, kind);
    }
}

/// The first place in the line where a line of the given kind starts.
fn first_match_exec(s: &Vec<char>, kind: Expect) -> (r: Option<usize>)
    ensures
        r matches Some(i) ==> first_match(s@, 0, kind) == Some(i as int) && matches_at(s@, i as int, kind),
        r is None ==> first_match(s@, 0, kind) is None,
{
    let mut i: usize = 0;
    while i < s.len()
        invariant
            0 <= i <= s@.len(),
            first_match(s@, 0, kind) == first_match(s@, i as int, kind),
        decreases s@.len() - i,
    {
        if matches_at_exec(s, i, kind) {
            proof {
                lemma_first_match_at(s@, 0, kind);
            }
            return Some(i);
        }
        i += 1;
    }
    None
}

/// The items of the receipt whose lines are given, in order.
pub fn parse_receipt(lines: &Vec<String>) -> (r: Vec<Item>)
    ensures
        r@.len() == receipt_items(lines@).len(),
        forall|k: int| 0 <= k < r@.len() ==> item_is(#[trigger] r@[k], receipt_items(lines@)[k]),
{
    let ghost views = line_views(lines@);
    let mut items: Vec<Item> = Vec::new();
    let mut stage = Expect::Description;
    let mut description = String::new();
    let mut quantity: u32 = 0;
    let mut li: usize = 0;
    while li < lines.len()
        invariant
            0 <= li <= lines@.len(),
            views == line_views(lines@),
            (stage, description@, quantity) == parse_run(views.take(li as int)).0,
            items@.len() == parse_run(views.take(li as int)).1.len(),
            forall|k: int| 0 <= k < items@.len() ==> item_is(#[trigger] items@[k], parse_run(views.take(li as int)).1[k]),
        decreases lines@.len() - li,
    {
        let line = &lines[li];
        let chars = line_chars(line);
        let ghost before = parse_run(views.take(li as int));
        proof {
            assert(views.take(li + 1).drop_last() =~= views.take(li as int));
            assert(views.take(li + 1).last() == line@);
        }
        let n = chars.len();
        match stage {
            Expect::Description => {
                if let Some(i) = first_match_exec(&chars, Expect::Description) {
                    description = char_substring(line.as_str(), i + 4, n);
                    stage = Expect::Quantity;
                }
            },
            Expect::Quantity => {
                stage = Expect::Description;
                if let Some(i) = first_match_exec(&chars, Expect::Quantity) {
                    let end = digits_end_exec(&chars, i + 4);
                    if let Some(v) = digits_value_exec(&chars, i + 4, end) {
                        quantity = v;
                        stage = Expect::Discount;
                    }
                }
            },
            Expect::Discount => {
                if first_match_exec(&chars, Expect::Discount).is_some() {
                    stage = Expect::Price;
                }
            },
            Expect::Price => {
                stage = Expect::Description;
                if let Some(i) = first_match_exec(&chars, Expect::Price) {
                    let k = digits_end_exec(&chars, i + 4);
                    let m = digits_end_exec(&chars, k + 1);
                    let whole = digits_value_exec(&chars, i + 4, k);
                    let cents = digits_value_exec(&chars, k + 1, m);
                    if let (Some(a), Some(b)) = (whole, cents) {
                        let price = (a as u64) * 100 + (b as u64);
                        let ghost out = before.1;
                        let ghost prev = items@;
                        items.push(Item { description: description.clone(), quantity, price, owners: Vec::new() });
                        proof {
                            assert forall|j: int| 0 <= j < items@.len() implies item_is(
                                #[trigger] items@[j],
                                parse_run(views.take(li + 1)).1[j],
                            ) by {
                                if j < out.len() {
                                    assert(items@[j] == prev[j]);
                                }
                            }
                        }
                    }
                }
            },
        }
        li += 1;
    }
    assert(views.take(lines@.len() as int) =~= views);
    items
}

impl Data {
    /// The ledger of a receipt export: the items that its lines give, none
    /// of them owned yet, and a single person, "jojo".
    pub fn from_lines(lines: &Vec<String>) -> (r: Data)
        ensures
            r.wf(),
            r.people@.len() == 1,
            r.people@[0]@ == "jojo"@,
            r.items@.len() == receipt_items(lines@).len(),
            forall|k: int| 0 <= k < r.items@.len() ==> item_is(#[trigger] r.items@[k], receipt_items(lines@)[k]),
    {
        let items = parse_receipt(lines);
        let data = Data { items, people: vec![String::from_str("jojo")] };
        assert forall|i: int| 0 <= i < data.items@.len() implies owners_valid(
            #[trigger] data.items@[i].owners@,
            data.people@.len(),
        ) by {
            assert(item_is(data.items@[i], receipt_items(lines@)[i]));
        }
        data
    }
}

} // verus!
