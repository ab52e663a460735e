//! The shopping cart: an insertion-ordered list of distinct items with
//! accumulated quantities, and the overflow-checked derivation of per-item
//! totals, grand totals and receipt rows in minor currency units.

use vstd::prelude::*;

use crate::item::{Item, ItemModel};
use crate::tax::tax_on;
use crate::text::spec_decimal;

verus! {

/// A shopping cart that keeps track of items and their taxes.
///
/// The two vectors run in parallel: `quantities[i]` is the accumulated
/// quantity of `items[i]`, and the item names are pairwise distinct, each
/// item sitting at the position of its first insertion.
pub struct Cart {
    items: Vec<Item>,
    quantities: Vec<u32>,
}

impl View for Cart {
    type V = Seq<(ItemModel, u32)>;

    closed spec fn view(&self) -> Seq<(ItemModel, u32)> {
        Seq::new(self.items@.len(), |i: int| (self.items@[i]@, self.quantities@[i]))
    }
}

/// No two entries share an item name.
pub open spec fn distinct_ids(entries: Seq<(ItemModel, u32)>) -> bool {
    forall|i: int, j: int|
        0 <= i < j < entries.len() ==> entries[i].0.id != entries[j].0.id
}

/// The position of the entry named `id`, or -1 if there is none.
pub open spec fn index_of_id(entries: Seq<(ItemModel, u32)>, id: Seq<char>) -> int
    decreases entries.len(),
{
    if entries.len() == 0 {
        -1
    } else if entries[0].0.id == id {
        0
    } else {
        let r = index_of_id(entries.drop_first(), id);
        if r < 0 {
            -1
        } else {
            r + 1
        }
    }
}

/// `u32` addition that caps at the maximum instead of overflowing.
pub open spec fn saturating_add_u32(a: u32, b: u32) -> u32 {
    if a + b > u32::MAX {
        u32::MAX
    } else {
        (a + b) as u32
    }
}

/// What one `add` call does to the entries: a new name is appended with its
/// quantity; a known name keeps its first-seen price and tax and has its
/// quantity increased, saturating at `u32::MAX`.
pub open spec fn spec_add(entries: Seq<(ItemModel, u32)>, amount: u32, item: ItemModel) -> Seq<
    (ItemModel, u32),
> {
    let i = index_of_id(entries, item.id);
    if i < 0 {
        entries.push((item, amount))
    } else {
        entries.update(i, (entries[i].0, saturating_add_u32(entries[i].1, amount)))
    }
}

proof fn lemma_index_of_id_found(entries: Seq<(ItemModel, u32)>, id: Seq<char>, j: int)
    requires
        0 <= j < entries.len(),
        entries[j].0.id == id,
        forall|k: int| 0 <= k < j ==> entries[k].0.id != id,
    ensures
        index_of_id(entries, id) == j,
    decreases entries.len(),
{
    if j > 0 {
        lemma_index_of_id_found(entries.drop_first(), id, j - 1);
    }
}

proof fn lemma_index_of_id_absent(entries: Seq<(ItemModel, u32)>, id: Seq<char>)
    requires
        forall|k: int| 0 <= k < entries.len() ==> entries[k].0.id != id,
    ensures
        index_of_id(entries, id) == -1,
    decreases entries.len(),
{
    if entries.len() > 0 {
        lemma_index_of_id_absent(entries.drop_first(), id);
    }
}

/// The extended price (tax included) and the tax of `quantity` units of
/// `item`, in minor units; None where either sum leaves the `u32` range.
pub open spec fn spec_item_price(item: ItemModel, quantity: u32) -> Option<(u32, u32)> {
    let extended = item.price * quantity;
    if extended > u32::MAX {
        None
    } else {
        let tax = tax_on(item.tax, extended);
        if extended + tax > u32::MAX {
            None
        } else {
            Some(((extended + tax) as u32, tax as u32))
        }
    }
}

/// The cart's grand total (taxes included) and grand tax, accumulated with
/// checked addition: None as soon as any per-item price or running total
/// leaves the `u32` range.
pub open spec fn spec_totals(entries: Seq<(ItemModel, u32)>) -> Option<(u32, u32)>
    decreases entries.len(),
{
    if entries.len() == 0 {
        Some((0u32, 0u32))
    } else {
        match spec_totals(entries.drop_last()) {
            None => None,
            Some(acc) => match spec_item_price(entries.last().0, entries.last().1) {
                None => None,
                Some(p) => if acc.0 + p.0 > u32::MAX || acc.1 + p.1 > u32::MAX {
                    None
                } else {
                    Some(((acc.0 + p.0) as u32, (acc.1 + p.1) as u32))
                },
            },
        }
    }
}

/// The extended price (tax included) of one entry; 0 stands in for the
/// overflow case, which receipt derivation never reaches.
pub open spec fn spec_entry_total(entry: (ItemModel, u32)) -> u32 {
    match spec_item_price(entry.0, entry.1) {
        Some(p) => p.0,
        None => 0,
    }
}

/// The label of a receipt row: the quantity in decimal, a space, the name.
pub open spec fn spec_label(quantity: u32, id: Seq<char>) -> Seq<char> {
    spec_decimal(quantity as nat) + seq![' '] + id
}

/// The receipt rows when no overflow occurs: one row per entry in insertion
/// order, then the grand tax and the grand total.
pub open spec fn spec_receipt_rows(entries: Seq<(ItemModel, u32)>) -> Seq<(Seq<char>, u32)> {
    match spec_totals(entries) {
        None => Seq::empty(),
        Some(t) => Seq::new(
            entries.len(),
            |i: int| (spec_label(entries[i].1, entries[i].0.id), spec_entry_total(entries[i])),
        ).push(("Sales Taxes"@, t.1)).push(("Total"@, t.0)),
    }
}

/// The receipt as a function of the cart entries alone.
pub open spec fn spec_receipt(entries: Seq<(ItemModel, u32)>) -> Option<Seq<(Seq<char>, u32)>> {
    if spec_totals(entries) is Some {
        Some(spec_receipt_rows(entries))
    } else {
        None
    }
}

/// The mathematical content of a receipt: each row's label as a character
/// sequence with its amount in minor units.
pub open spec fn rows_view(r: Option<Vec<(String, u32)>>) -> Option<Seq<(Seq<char>, u32)>> {
    match r {
        None => None,
        Some(rows) => Some(rows@.map_values(|row: (String, u32)| (row.0@, row.1))),
    }
}

/// `(quantity, item)` pairs by their mathematical content.
pub open spec fn adds_of(entries: Seq<(u32, Item)>) -> Seq<(u32, ItemModel)> {
    entries.map_values(|p: (u32, Item)| (p.0, p.1@))
}

/// The entries of a cart built by one `add` call per pair, in order,
/// starting from an empty cart.
pub open spec fn spec_add_all(adds: Seq<(u32, ItemModel)>) -> Seq<(ItemModel, u32)>
    decreases adds.len(),
{
    if adds.len() == 0 {
        Seq::empty()
    } else {
        spec_add(spec_add_all(adds.drop_last()), adds.last().0, adds.last().1)
    }
}

/// Once a prefix of the entries fails to total, the whole cart fails: the
/// checked accumulation has no way back from an overflow.
proof fn lemma_totals_none_from(entries: Seq<(ItemModel, u32)>, i: int)
    requires
        0 <= i <= entries.len(),
        spec_totals(entries.subrange(0, i)) is None,
    ensures
        spec_totals(entries) is None,
    decreases entries.len() - i,
{
    if i < entries.len() {
        assert(entries.subrange(0, i + 1).drop_last() =~= entries.subrange(0, i));
        lemma_totals_none_from(entries, i + 1);
    } else {
        assert(entries.subrange(0, entries.len() as int) =~= entries);
    }
}

/// When the whole cart totals without overflow, so does each single entry,
/// and each entry's price and tax are bounded by the grand totals.
proof fn lemma_totals_entry(entries: Seq<(ItemModel, u32)>, i: int)
    requires
        0 <= i < entries.len(),
        spec_totals(entries) is Some,
    ensures
        spec_totals(entries) matches Some(t) ==> spec_item_price(entries[i].0, entries[i].1)
            matches Some(p) && p.0 <= t.0 && p.1 <= t.1,
    decreases entries.len(),
{
    if i == entries.len() - 1 {
    } else {
        lemma_totals_entry(entries.drop_last(), i);
    }
}

impl Cart {
    #[verifier::type_invariant]
    spec fn inv(self) -> bool {
        &&& self.items@.len() == self.quantities@.len()
        &&& forall|i: int, j: int|
            0 <= i < j < self.items@.len() ==> self.items@[i]@.id != self.items@[j]@.id
    }

    /// Create a cart with enough capacity to avoid unnecessary resizing.
    pub fn with_capacity(capacity: usize) -> (cart: Cart)
        ensures
            cart@ == Seq::<(ItemModel, u32)>::empty(),
    {
        let cart = Cart { items: Vec::with_capacity(capacity), quantities: Vec::with_capacity(capacity) };
        proof {
            assert(cart@ =~= Seq::<(ItemModel, u32)>::empty());
        }
        cart
    }

    /// Create a new cart.
    pub fn new() -> (cart: Cart)
        ensures
            cart@ == Seq::<(ItemModel, u32)>::empty(),
    {
        Cart::with_capacity(2)
    }

    /// Add Items to the cart: accumulate `amount` onto the entry with
    /// `item`'s name, appending a fresh entry first if the name is new.
    pub fn add(&mut self, amount: u32, item: Item)
        ensures
            final(self)@ == spec_add(old(self)@, amount, item@),
    {
        proof {
            use_type_invariant(&*self);
        }
        let ghost entries = self@;
        let mut tmp = Cart { items: Vec::new(), quantities: Vec::new() };
        core::mem::swap(self, &mut tmp);
        let Cart { mut items, mut quantities } = tmp;
        let n: usize = items.len();
        let mut j: usize = 0;
        let mut idx: usize = n;
        while j < n
            invariant
                n == items@.len(),
                j <= n,
                idx <= n,
                idx == n ==> forall|k: int| 0 <= k < j ==> items@[k]@.id != item@.id,
                idx < n ==> items@[idx as int]@.id == item@.id && forall|k: int|
                    0 <= k < idx ==> items@[k]@.id != item@.id,
            decreases n - j,
        {
            if idx == n && items[j] == item {
                idx = j;
            }
            j += 1;
        }
        proof {
            assert(forall|k: int| 0 <= k < entries.len() ==> entries[k].0.id == items@[k]@.id);
        }
        if idx < n {
            proof {
                lemma_index_of_id_found(entries, item@.id, idx as int);
            }
            let q = quantities[idx];
            quantities.set(idx, q.saturating_add(amount));
        } else {
            proof {
                lemma_index_of_id_absent(entries, item@.id);
            }
            items.push(item);
            quantities.push(amount);
        }
        let done = Cart { items, quantities };
        proof {
            assert(done@ =~= spec_add(entries, amount, item@));
        }
        *self = done;
    }

    /// The number of distinct items in the cart.
    pub fn len(&self) -> (n: usize)
        ensures
            n == self@.len(),
    {
        self.items.len()
    }

    /// The extended price and tax of `quantity` units of `item`, in minor
    /// units. None means that some price overflowed.
    pub fn item_price(&self, item: &Item, quantity: u32) -> (r: Option<(u32, u32)>)
        ensures
            r == spec_item_price(item@, quantity),
    {
        let extended = match item.price().checked_mul(quantity) {
            Some(p) => p,
            None => {
                return None;
            }
        };
        let tax = item.tax().apply(extended);
        let total = match extended.checked_add(tax) {
            Some(t) => t,
            None => {
                return None;
            }
        };
        Some((total, tax))
    }

    /// The cart's grand total (taxes included) and its tax part, in minor
    /// units. None means that some price overflowed.
    pub fn totals(&self) -> (r: Option<(u32, u32)>)
        ensures
            r == spec_totals(self@),
    {
        proof {
            use_type_invariant(&*self);
        }
        let n: usize = self.items.len();
        let mut total_price: u32 = 0;
        let mut total_taxes: u32 = 0;
        let mut i: usize = 0;
        while i < n
            invariant
                n == self.items@.len(),
                self.items@.len() == self.quantities@.len(),
                i <= n,
                spec_totals(self@.subrange(0, i as int)) == Some((total_price, total_taxes)),
            decreases n - i,
        {
            let ghost prefix = self@.subrange(0, i as int);
            let ghost prefix1 = self@.subrange(0, i as int + 1);
            proof {
                assert(prefix1.drop_last() =~= prefix);
                assert(prefix1.last() == self@[i as int]);
            }
            let item = &self.items[i];
            let quantity = self.quantities[i];
            let (total, tax) = match self.item_price(item, quantity) {
                Some(p) => p,
                None => {
                    proof {
                        lemma_totals_none_from(self@, i as int + 1);
                    }
                    return None;
                }
            };
            total_price = match total_price.checked_add(total) {
                Some(t) => t,
                None => {
                    proof {
                        lemma_totals_none_from(self@, i as int + 1);
                    }
                    return None;
                }
            };
            total_taxes = match total_taxes.checked_add(tax) {
                Some(t) => t,
                None => {
                    proof {
                        lemma_totals_none_from(self@, i as int + 1);
                    }
                    return None;
                }
            };
            i += 1;
        }
        proof {
            assert(self@.subrange(0, n as int) =~= self@);
        }
        Some((total_price, total_taxes))
    }

    /// Return the cart receipt: one row per item in insertion order, labelled
    /// `"{quantity} {id}"` with the item's extended price including tax, then
    /// a "Sales Taxes" row and a "Total" row. All amounts are in minor units.
    ///
    /// None means that some price overflowed; no partial receipt is produced.
    pub fn receipt(&self) -> (r: Option<Vec<(String, u32)>>)
        ensures
            rows_view(r) == spec_receipt(self@),
    {
        proof {
            use_type_invariant(&*self);
        }
        let (total, total_taxes) = match self.totals() {
            Some(t) => t,
            None => {
                return None;
            }
        };
        let mut rows: Vec<(String, u32)> = Vec::new();
        let n: usize = self.items.len();
        let mut i: usize = 0;
        while i < n
            invariant
                n == self.items@.len(),
                self.items@.len() == self.quantities@.len(),
                i <= n,
                spec_totals(self@) == Some((total, total_taxes)),
                rows@.len() == i,
                forall|k: int|
                    0 <= k < i ==> rows@[k].1 == spec_entry_total(self@[k]) && rows@[k].0@
                        == spec_label(self@[k].1, self@[k].0.id),
            decreases n - i,
        {
            let item = &self.items[i];
            let quantity = self.quantities[i];
            proof {
                lemma_totals_entry(self@, i as int);
            }
            let (row_total, _row_tax) = match self.item_price(item, quantity) {
                Some(p) => p,
                None => {
                    proof {
                        assert(false);
                    }
                    return None;
                }
            };
            let mut label = crate::text::decimal_string(quantity);
            label.append(" ");
            label.append(item.id());
            proof {
                reveal_strlit(" ");
                assert(" "@ =~= seq![' ']);
                assert(label@ =~= spec_label(quantity, item@.id));
            }
            rows.push((label, row_total));
            i += 1;
        }
        rows.push(("Sales Taxes".to_owned(), total_taxes));
        rows.push(("Total".to_owned(), total));
        proof {
            assert(rows@.map_values(|row: (String, u32)| (row.0@, row.1)) =~= spec_receipt_rows(
                self@,
            ));
        }
        Some(rows)
    }

    /// Return the grand total (taxes included) for the items in the cart, in
    /// minor units. None means that some price overflowed.
    pub fn total(&self) -> (r: Option<u32>)
        ensures
            r == (match spec_totals(self@) {
                None => None::<u32>,
                Some(t) => Some(t.0),
            }),
    {
        match self.totals() {
            Some(t) => Some(t.0),
            None => None,
        }
    }

    /// Return the part of the total that is taxes, in minor units. None
    /// means that some price overflowed.
    pub fn total_taxes(&self) -> (r: Option<u32>)
        ensures
            r == (match spec_totals(self@) {
                None => None::<u32>,
                Some(t) => Some(t.1),
            }),
    {
        match self.totals() {
            Some(t) => Some(t.1),
            None => None,
        }
    }

    /// Build a cart from `(quantity, item)` pairs, equivalent to an empty
    /// cart with one `add` call per pair, in order.
    pub fn from_items(entries: Vec<(u32, Item)>) -> (cart: Cart)
        ensures
            cart@ == spec_add_all(adds_of(entries@)),
    {
        let ghost adds = adds_of(entries@);
        let ghost total: int = adds.len() as int;
        let mut entries = entries;
        let mut cart = Cart::with_capacity(entries.len());
        while entries.len() > 0
            invariant
                total == adds.len(),
                entries@.len() <= total,
                adds_of(entries@) == adds.subrange(total - entries@.len(), total),
                cart@ == spec_add_all(adds.subrange(0, total - entries@.len())),
            decreases entries@.len(),
        {
            let ghost k = total - entries@.len();
            let ghost before = entries@;
            let (quantity, item) = entries.remove(0);
            proof {
                assert(adds_of(before)[0] == adds[k]);
                assert(adds_of(entries@) =~= adds_of(before).drop_first());
                assert(adds_of(entries@) =~= adds.subrange(k + 1, total));
            }
            cart.add(quantity, item);
            proof {
                let s = adds.subrange(0, k + 1);
                assert(s.drop_last() =~= adds.subrange(0, k));
                assert(s.last() == adds[k]);
            }
        }
        proof {
            assert(adds.subrange(0, total) =~= adds);
        }
        cart
    }
}

/// Adding to a cart whose item names are pairwise distinct keeps them
/// distinct: a known name only has its quantity raised, a new name is
/// appended once. Since a cart starts empty, an item name appears at most
/// once in the ordered entry list, whatever sequence of `add` calls built it.
pub proof fn lemma_add_preserves_distinct(
    entries: Seq<(ItemModel, u32)>,
    amount: u32,
    item: ItemModel,
)
    requires
        distinct_ids(entries),
    ensures
        distinct_ids(spec_add(entries, amount, item)),
{
    let i = index_of_id(entries, item.id);
    if i < 0 {
        lemma_index_of_id_bounds(entries, item.id);
        assert forall|k: int| 0 <= k < entries.len() implies entries[k].0.id != item.id by {
            if entries[k].0.id == item.id {
                lemma_index_of_id_finds(entries, item.id, k);
            }
        }
        let pushed = entries.push((item, amount));
        assert forall|a: int, b: int| 0 <= a < b < pushed.len() implies pushed[a].0.id
            != pushed[b].0.id by {
            if b < entries.len() {
                assert(pushed[a] == entries[a] && pushed[b] == entries[b]);
            } else {
                assert(pushed[a] == entries[a] && pushed[b] == (item, amount));
            }
        }
    } else {
        lemma_index_of_id_bounds(entries, item.id);
        let updated = entries.update(i, (entries[i].0, saturating_add_u32(entries[i].1, amount)));
        assert(forall|k: int| 0 <= k < updated.len() ==> updated[k].0.id == entries[k].0.id);
    }
}

/// `index_of_id` returns -1 or a position holding `id`.
proof fn lemma_index_of_id_bounds(entries: Seq<(ItemModel, u32)>, id: Seq<char>)
    ensures
        index_of_id(entries, id) == -1 || (0 <= index_of_id(entries, id) < entries.len()
            && entries[index_of_id(entries, id)].0.id == id),
    decreases entries.len(),
{
    if entries.len() > 0 && entries[0].0.id != id {
        lemma_index_of_id_bounds(entries.drop_first(), id);
    }
}

/// Where some position holds `id`, `index_of_id` finds one.
proof fn lemma_index_of_id_finds(entries: Seq<(ItemModel, u32)>, id: Seq<char>, k: int)
    requires
        0 <= k < entries.len(),
        entries[k].0.id == id,
    ensures
        index_of_id(entries, id) >= 0,
    decreases entries.len(),
{
    if entries[0].0.id != id {
        lemma_index_of_id_finds(entries.drop_first(), id, k - 1);
    }
}

/// Monetary overflow is reported whole: the receipt exists exactly when the
/// grand totals do, so `total`, `total_taxes` and `receipt` — whose
/// contracts each mirror [`spec_totals`] — report failure together, and no
/// partial receipt is produced on overflow.
pub proof fn lemma_no_partial_receipt(entries: Seq<(ItemModel, u32)>)
    ensures
        (spec_receipt(entries) is Some) == (spec_totals(entries) is Some),
{
}

/// Reading is idempotent: the receipt is a function of the cart entries
/// alone, so any two receipt computations over the same entries — two calls
/// with no `add` between them — have identical rows.
pub proof fn lemma_receipt_idempotent(
    entries: Seq<(ItemModel, u32)>,
    r1: Option<Vec<(String, u32)>>,
    r2: Option<Vec<(String, u32)>>,
)
    requires
        rows_view(r1) == spec_receipt(entries),
        rows_view(r2) == spec_receipt(entries),
    ensures
        rows_view(r1) == rows_view(r2),
{
}

impl From<Vec<(u32, Item)>> for Cart {
    /// Build a cart from `(quantity, item)` pairs, as [`Cart::from_items`]
    /// does; the contract lives on that function.
    fn from(entries: Vec<(u32, Item)>) -> (cart: Cart) {
        Cart::from_items(entries)
    }
}

impl vstd::std_specs::convert::FromSpecImpl<Vec<(u32, Item)>> for Cart {
    open spec fn obeys_from_spec() -> bool {
        false
    }

    open spec fn from_spec(entries: Vec<(u32, Item)>) -> Cart {
        vstd::pervasive::arbitrary()
    }
}

} // verus!
