//! The cart: an insertion-ordered sequence of lines, at most one per product
//! identifier, with idempotent quantity merging and pure total computation.
use vstd::prelude::*;

use crate::record::ProductRecord;
use crate::text::str_eq;

verus! {

/// One cart entry: the product as captured at add time (the price is a
/// snapshot, not live-updated by later cache changes) and the accumulated
/// quantity.
pub struct CartLine {
    pub record: ProductRecord,
    pub quantity: u32,
}

/// How many lines of `lines` carry the identifier `id`.
pub open spec fn spec_line_count(lines: Seq<CartLine>, id: Seq<char>) -> nat
    decreases lines.len(),
{
    if lines.len() == 0 {
        0
    } else {
        (if lines[0].record.identifier@ == id {
            1nat
        } else {
            0nat
        }) + spec_line_count(lines.drop_first(), id)
    }
}

/// The total quantity that `lines` hold under the identifier `id`.
pub open spec fn spec_quantity(lines: Seq<CartLine>, id: Seq<char>) -> nat
    decreases lines.len(),
{
    if lines.len() == 0 {
        0
    } else {
        (if lines[0].record.identifier@ == id {
            lines[0].quantity as nat
        } else {
            0nat
        }) + spec_quantity(lines.drop_first(), id)
    }
}

/// What a merge leaves behind: with a zero quantity, the lines unchanged;
/// with an existing line under the record's identifier, that line's quantity
/// raised (its record — and so its price snapshot — kept); otherwise a new
/// line appended at the end.
pub open spec fn spec_add_or_merge(
    lines: Seq<CartLine>,
    record: ProductRecord,
    qty: u32,
) -> Seq<CartLine>
    decreases lines.len(),
{
    if qty == 0 {
        lines
    } else if lines.len() == 0 {
        seq![CartLine { record, quantity: qty }]
    } else if lines[0].record.identifier@ == record.identifier@ {
        seq![
            (CartLine {
                record: lines[0].record,
                quantity: (lines[0].quantity + qty) as u32,
            }),
        ] + lines.drop_first()
    } else {
        seq![lines[0]] + spec_add_or_merge(lines.drop_first(), record, qty)
    }
}

/// The cart total in cents: the sum over all lines of unit price times
/// quantity.
pub open spec fn spec_total(lines: Seq<CartLine>) -> int
    decreases lines.len(),
{
    if lines.len() == 0 {
        0
    } else {
        lines[0].record.unit_price_cents * lines[0].quantity + spec_total(lines.drop_first())
    }
}

/// A meaningful cart: at most one line per identifier, and no empty lines.
pub open spec fn cart_wf(lines: Seq<CartLine>) -> bool {
    &&& forall|i: int, j: int|
        0 <= i < j < lines.len() ==> lines[i].record.identifier@ != lines[j].record.identifier@
    &&& forall|i: int| 0 <= i < lines.len() ==> lines[i].quantity > 0
}

proof fn lemma_no_match_zero(lines: Seq<CartLine>, id: Seq<char>)
    requires
        forall|j: int| 0 <= j < lines.len() ==> lines[j].record.identifier@ != id,
    ensures
        spec_line_count(lines, id) == 0,
        spec_quantity(lines, id) == 0,
    decreases lines.len(),
{
    if lines.len() > 0 {
        lemma_no_match_zero(lines.drop_first(), id);
    }
}

proof fn lemma_quantity_at(lines: Seq<CartLine>, i: int, id: Seq<char>)
    requires
        cart_wf(lines),
        0 <= i < lines.len(),
        lines[i].record.identifier@ == id,
    ensures
        spec_quantity(lines, id) == lines[i].quantity,
        spec_line_count(lines, id) == 1,
    decreases i,
{
    if i == 0 {
        assert(forall|j: int|
            0 <= j < lines.drop_first().len() ==> lines.drop_first()[j] == lines[j + 1]);
        lemma_no_match_zero(lines.drop_first(), id);
    } else {
        assert(lines[0].record.identifier@ != id);
        assert(forall|j: int|
            0 <= j < lines.drop_first().len() ==> lines.drop_first()[j] == lines[j + 1]);
        lemma_quantity_at(lines.drop_first(), i - 1, id);
    }
}

proof fn lemma_total_nonneg(lines: Seq<CartLine>)
    ensures
        spec_total(lines) >= 0,
    decreases lines.len(),
{
    if lines.len() > 0 {
        lemma_total_nonneg(lines.drop_first());
    }
}

/// Holds the lines in insertion order.
pub struct Cart {
    lines: Vec<CartLine>,
}

impl View for Cart {
    type V = Seq<CartLine>;

    /// The cart as its sequence of lines, oldest first.
    closed spec fn view(&self) -> Seq<CartLine> {
        self.lines@
    }
}

impl Cart {
    /// A meaningful cart: at most one line per identifier, no empty lines.
    pub open spec fn wf(&self) -> bool {
        cart_wf(self@)
    }

    /// An empty cart.
    pub fn new() -> (r: Self)
        ensures
            r.wf(),
            r@ == Seq::<CartLine>::empty(),
    {
        let r = Cart { lines: Vec::new() };
        proof {
            assert(r@ =~= Seq::<CartLine>::empty());
        }
        r
    }

    /// The position of the line under `id`, if there is one.
    fn find_line(&self, id: &str) -> (r: Option<usize>)
        ensures
            match r {
                Some(i) => i < self@.len() && self@[i as int].record.identifier@ == id@ && forall|
                    j: int,
                |
                    0 <= j < i ==> self@[j].record.identifier@ != id@,
                None => forall|j: int| 0 <= j < self@.len() ==> self@[j].record.identifier@ != id@,
            },
    {
        let n = self.lines.len();
        let mut i: usize = 0;
        while i < n
            invariant
                i <= n,
                n == self@.len(),
                forall|j: int| 0 <= j < i ==> self@[j].record.identifier@ != id@,
            decreases n - i,
        {
            if str_eq(self.lines[i].record.identifier.as_str(), id) {
                return Some(i);
            }
            i += 1;
        }
        None
    }

    /// How many lines the cart holds.
    pub fn line_count(&self) -> (r: usize)
        ensures
            r == self@.len(),
    {
        self.lines.len()
    }

    /// The line at position `i`, oldest first.
    pub fn line(&self, i: usize) -> (r: &CartLine)
        requires
            i < self@.len(),
        ensures
            *r == self@[i as int],
    {
        &self.lines[i]
    }

    /// The quantity the cart holds under `identifier`; zero if it holds none.
    pub fn quantity_of(&self, identifier: &str) -> (r: u32)
        requires
            self.wf(),
        ensures
            r == spec_quantity(self@, identifier@),
    {
        match self.find_line(identifier) {
            Some(i) => {
                proof {
                    lemma_quantity_at(self@, i as int, identifier@);
                }
                self.lines[i].quantity
            },
            None => {
                proof {
                    lemma_no_match_zero(self@, identifier@);
                }
                0
            },
        }
    }

    /// Folds `quantity` of `record` into the cart as [`spec_add_or_merge`]
    /// describes: a zero quantity changes nothing; an existing line under the
    /// same identifier absorbs the quantity and keeps its first-seen record;
    /// otherwise a new line goes to the end.
    pub fn add_or_merge(&mut self, record: ProductRecord, quantity: u32)
        requires
            old(self).wf(),
            spec_quantity(old(self)@, record.identifier@) + quantity <= u32::MAX,
        ensures
            final(self).wf(),
            final(self)@ == spec_add_or_merge(old(self)@, record, quantity),
            quantity == 0 ==> final(self)@ == old(self)@,
            spec_quantity(final(self)@, record.identifier@) == spec_quantity(
                old(self)@,
                record.identifier@,
            ) + quantity,
            quantity > 0 ==> spec_line_count(final(self)@, record.identifier@) == 1,
    {
        proof {
            if quantity > 0 {
                lemma_wf_at_most_one_line(old(self)@, record.identifier@);
                lemma_add_effect(old(self)@, record, quantity);
            }
        }
        if quantity == 0 {
            return ;
        }
        match self.find_line(record.identifier.as_str()) {
            Some(i) => {
                proof {
                    lemma_quantity_at(self@, i as int, record.identifier@);
                    lemma_add_or_merge_is_update(self@, record, quantity, i as int);
                }
                let merged_record = self.lines[i].record.clone();
                let merged_quantity = self.lines[i].quantity + quantity;
                self.lines[i] = CartLine { record: merged_record, quantity: merged_quantity };
                proof {
                    assert(forall|j: int|
                        0 <= j < self@.len() ==> self@[j].record.identifier@ == old(
                            self,
                        )@[j].record.identifier@);
                }
            },
            None => {
                proof {
                    lemma_add_or_merge_is_push(self@, record, quantity);
                }
                self.lines.push(CartLine { record, quantity });
                proof {
                    assert(forall|j: int|
                        0 <= j < old(self)@.len() ==> self@[j] == old(self)@[j]);
                }
            },
        }
    }

    /// The cart total in cents, or nothing if it does not fit; reads only.
    pub fn total_cents(&self) -> (r: Option<u64>)
        ensures
            match r {
                Some(t) => t == spec_total(self@),
                None => spec_total(self@) > u64::MAX,
            },
    {
        let n = self.lines.len();
        let mut acc: u64 = 0;
        let mut i: usize = 0;
        assert(self@.skip(0) =~= self@);
        while i < n
            invariant
                i <= n,
                n == self@.len(),
                spec_total(self@) == acc + spec_total(self@.skip(i as int)),
            decreases n - i,
        {
            let line = &self.lines[i];
            assert(self@.skip(i as int)[0] == self@[i as int]);
            assert(self@.skip(i as int).drop_first() =~= self@.skip(i as int + 1));
            proof {
                lemma_total_nonneg(self@.skip(i as int + 1));
            }
            let term = match line.record.unit_price_cents.checked_mul(line.quantity as u64) {
                Some(term) => term,
                None => {
                    return None;
                },
            };
            acc = match acc.checked_add(term) {
                Some(next) => next,
                None => {
                    return None;
                },
            };
            i += 1;
        }
        assert(self@.skip(n as int).len() == 0);
        Some(acc)
    }

    /// The total converted at a fixed-point exchange rate given in
    /// thousandths of the target currency per unit: `cents * rate_milli /
    /// 1000`, rounded down, or nothing if the product does not fit.
    pub fn convert_cents(cents: u64, rate_milli: u64) -> (r: Option<u64>)
        ensures
            match r {
                Some(v) => cents * rate_milli <= u64::MAX && v == cents * rate_milli / 1000,
                None => cents * rate_milli > u64::MAX,
            },
    {
        match cents.checked_mul(rate_milli) {
            Some(p) => Some(p / 1000),
            None => None,
        }
    }
}

proof fn lemma_add_or_merge_is_update(lines: Seq<CartLine>, record: ProductRecord, qty: u32, i: int)
    requires
        qty > 0,
        0 <= i < lines.len(),
        lines[i].record.identifier@ == record.identifier@,
        forall|j: int| 0 <= j < i ==> lines[j].record.identifier@ != record.identifier@,
        lines[i].quantity + qty <= u32::MAX,
    ensures
        spec_add_or_merge(lines, record, qty) == lines.update(
            i,
            (CartLine { record: lines[i].record, quantity: (lines[i].quantity + qty) as u32 }),
        ),
    decreases i,
{
    if i == 0 {
        assert(spec_add_or_merge(lines, record, qty) =~= lines.update(
            0,
            (CartLine { record: lines[0].record, quantity: (lines[0].quantity + qty) as u32 }),
        ));
    } else {
        let rest = lines.drop_first();
        assert(forall|j: int| 0 <= j < rest.len() ==> rest[j] == lines[j + 1]);
        lemma_add_or_merge_is_update(rest, record, qty, i - 1);
        assert(spec_add_or_merge(lines, record, qty) =~= lines.update(
            i,
            (CartLine { record: lines[i].record, quantity: (lines[i].quantity + qty) as u32 }),
        ));
    }
}

proof fn lemma_add_or_merge_is_push(lines: Seq<CartLine>, record: ProductRecord, qty: u32)
    requires
        qty > 0,
        forall|j: int| 0 <= j < lines.len() ==> lines[j].record.identifier@ != record.identifier@,
    ensures
        spec_add_or_merge(lines, record, qty) == lines.push(
            (CartLine { record, quantity: qty }),
        ),
    decreases lines.len(),
{
    if lines.len() == 0 {
        assert(spec_add_or_merge(lines, record, qty) =~= lines.push(
            (CartLine { record, quantity: qty }),
        ));
    } else {
        let rest = lines.drop_first();
        assert(forall|j: int| 0 <= j < rest.len() ==> rest[j] == lines[j + 1]);
        lemma_add_or_merge_is_push(rest, record, qty);
        assert(spec_add_or_merge(lines, record, qty) =~= lines.push(
            (CartLine { record, quantity: qty }),
        ));
    }
}

/// What one merge does to the counts under the record's identifier: exactly
/// one line afterwards, carrying the old quantity plus the added one; lines
/// under other identifiers are untouched.
proof fn lemma_add_effect(lines: Seq<CartLine>, record: ProductRecord, qty: u32)
    requires
        qty > 0,
        spec_line_count(lines, record.identifier@) <= 1,
        spec_quantity(lines, record.identifier@) + qty <= u32::MAX,
    ensures
        spec_line_count(spec_add_or_merge(lines, record, qty), record.identifier@) == 1,
        spec_quantity(spec_add_or_merge(lines, record, qty), record.identifier@) == spec_quantity(
            lines,
            record.identifier@,
        ) + qty,
    decreases lines.len(),
{
    let id = record.identifier@;
    let after = spec_add_or_merge(lines, record, qty);
    if lines.len() == 0 {
        assert(after =~= seq![CartLine { record, quantity: qty }]);
        assert(after[0].record.identifier@ == id);
        assert(after.drop_first() =~= Seq::<CartLine>::empty());
        assert(spec_line_count(after.drop_first(), id) == 0);
        assert(spec_quantity(after.drop_first(), id) == 0);
        assert(spec_line_count(after, id) == 1);
        assert(spec_quantity(after, id) == qty);
    } else if lines[0].record.identifier@ == id {
        assert(after[0].record.identifier@ == id);
        assert(after.drop_first() =~= lines.drop_first());
        // The head already matched, so no further line does.
        assert(spec_line_count(lines.drop_first(), id) == 0);
        lemma_count_zero_quantity_zero(lines.drop_first(), id);
        assert(after[0].quantity == lines[0].quantity + qty);
        assert(spec_line_count(after, id) == 1);
        assert(spec_quantity(after, id) == spec_quantity(lines, id) + qty);
    } else {
        let rest_after = spec_add_or_merge(lines.drop_first(), record, qty);
        assert(after =~= seq![lines[0]] + rest_after);
        assert(after[0] == lines[0]);
        assert(after.drop_first() =~= rest_after);
        lemma_add_effect(lines.drop_first(), record, qty);
        assert(spec_line_count(after, id) == 1);
        assert(spec_quantity(after, id) == spec_quantity(lines, id) + qty);
    }
}

proof fn lemma_count_zero_quantity_zero(lines: Seq<CartLine>, id: Seq<char>)
    requires
        spec_line_count(lines, id) == 0,
    ensures
        spec_quantity(lines, id) == 0,
    decreases lines.len(),
{
    if lines.len() > 0 {
        assert(lines[0].record.identifier@ != id);
        lemma_count_zero_quantity_zero(lines.drop_first(), id);
    }
}

/// A meaningful cart holds at most one line per identifier.
pub proof fn lemma_wf_at_most_one_line(lines: Seq<CartLine>, id: Seq<char>)
    requires
        cart_wf(lines),
    ensures
        spec_line_count(lines, id) <= 1,
    decreases lines.len(),
{
    if lines.len() > 0 {
        let rest = lines.drop_first();
        assert(forall|j: int| 0 <= j < rest.len() ==> rest[j] == lines[j + 1]);
        if lines[0].record.identifier@ == id {
            lemma_no_match_zero(rest, id);
        } else {
            lemma_wf_at_most_one_line(rest, id);
        }
    }
}

/// Law: merging the same record twice accumulates — afterwards the cart holds
/// exactly one line under that identifier, and its quantity is the sum of
/// what was there before and both added quantities.
pub proof fn lemma_add_twice_merges(
    lines: Seq<CartLine>,
    record: ProductRecord,
    q1: u32,
    q2: u32,
)
    requires
        cart_wf(lines),
        q1 > 0,
        q2 > 0,
        spec_quantity(lines, record.identifier@) + q1 + q2 <= u32::MAX,
    ensures
        spec_line_count(
            spec_add_or_merge(spec_add_or_merge(lines, record, q1), record, q2),
            record.identifier@,
        ) == 1,
        spec_quantity(
            spec_add_or_merge(spec_add_or_merge(lines, record, q1), record, q2),
            record.identifier@,
        ) == spec_quantity(lines, record.identifier@) + q1 + q2,
{
    lemma_wf_at_most_one_line(lines, record.identifier@);
    lemma_add_effect(lines, record, q1);
    lemma_add_effect(spec_add_or_merge(lines, record, q1), record, q2);
}

} // verus!
