//! The inventory ledger: authoritative per-product, per-variant stock
//! counters with conditional decrement and compensating increment.
//!
//! An entry is keyed by (product id, colour variant); the entry with no
//! colour is the product's primary variant, the row a cart line without a
//! colour selector addresses. The decrement is conditional on sufficient
//! stock, so a quantity never goes below zero however many decrements race.

use vstd::prelude::*;

use crate::text::str_eq;

verus! {

#[derive(Debug)]
pub struct LedgerEntry {
    pub product_id: i32,
    pub color: Option<String>,
    pub quantity: u64,
}

/// The view of a variant selector: the colour's characters, or `None` for
/// the primary variant.
pub open spec fn spec_color_view(c: Option<String>) -> Option<Seq<char>> {
    match c {
        Some(s) => Some(s@),
        None => None,
    }
}

/// Whether an entry is the row for the given key.
pub open spec fn spec_key_eq(e: LedgerEntry, product_id: i32, color: Option<Seq<char>>) -> bool {
    e.product_id == product_id && spec_color_view(e.color) == color
}

/// The index of the first entry for the given key, or -1 if absent.
pub open spec fn spec_find_entry(
    entries: Seq<LedgerEntry>,
    product_id: i32,
    color: Option<Seq<char>>,
) -> int
    decreases entries.len(),
{
    if entries.len() == 0 {
        -1
    } else if spec_key_eq(entries.first(), product_id, color) {
        0
    } else {
        let rest = spec_find_entry(entries.drop_first(), product_id, color);
        if rest == -1 {
            -1
        } else {
            rest + 1
        }
    }
}

/// What `spec_find_entry` returns: a well-formed index of a matching entry
/// with no earlier match, or -1 and no match at all.
pub proof fn lemma_find_entry_props(
    entries: Seq<LedgerEntry>,
    product_id: i32,
    color: Option<Seq<char>>,
)
    ensures
        ({
            let idx = spec_find_entry(entries, product_id, color);
            &&& -1 <= idx < entries.len()
            &&& idx >= 0 ==> spec_key_eq(entries[idx], product_id, color)
            &&& forall|k: int|
                0 <= k < entries.len() && (idx == -1 || k < idx) ==> !spec_key_eq(
                    #[trigger] entries[k],
                    product_id,
                    color,
                )
        }),
    decreases entries.len(),
{
    if entries.len() > 0 {
        lemma_find_entry_props(entries.drop_first(), product_id, color);
        assert(forall|k: int|
            1 <= k < entries.len() ==> #[trigger] entries[k] == entries.drop_first()[k - 1]);
    }
}

/// If no entry in the first `i` positions matches and position `i` does,
/// the first match is at `i`.
pub proof fn lemma_find_entry_at(
    entries: Seq<LedgerEntry>,
    product_id: i32,
    color: Option<Seq<char>>,
    i: int,
)
    requires
        0 <= i < entries.len(),
        spec_key_eq(entries[i], product_id, color),
        forall|k: int| 0 <= k < i ==> !spec_key_eq(#[trigger] entries[k], product_id, color),
    ensures
        spec_find_entry(entries, product_id, color) == i,
    decreases i,
{
    if i == 0 {
    } else {
        lemma_find_entry_at(entries.drop_first(), product_id, color, i - 1);
    }
}

/// If no entry matches, the key is absent.
pub proof fn lemma_find_entry_none(
    entries: Seq<LedgerEntry>,
    product_id: i32,
    color: Option<Seq<char>>,
)
    requires
        forall|k: int|
            0 <= k < entries.len() ==> !spec_key_eq(#[trigger] entries[k], product_id, color),
    ensures
        spec_find_entry(entries, product_id, color) == -1,
    decreases entries.len(),
{
    if entries.len() > 0 {
        lemma_find_entry_none(entries.drop_first(), product_id, color);
    }
}

/// Copies a variant selector; the copy equals the original.
pub fn clone_color(c: &Option<String>) -> (r: Option<String>)
    ensures
        r == *c,
{
    match c {
        Some(s) => Some(s.clone()),
        None => None,
    }
}

/// Compares two variant selectors.
pub fn color_eq(a: &Option<String>, b: &Option<String>) -> (r: bool)
    ensures
        r == (spec_color_view(*a) == spec_color_view(*b)),
{
    match (a, b) {
        (None, None) => true,
        (Some(x), Some(y)) => str_eq(x.as_str(), y.as_str()),
        _ => false,
    }
}

pub struct Ledger {
    pub entries: Vec<LedgerEntry>,
}

impl Ledger {
    /// Each key addresses at most one entry.
    pub open spec fn wf(self) -> bool {
        forall|i: int, j: int|
            0 <= i < j < self.entries@.len() ==> !spec_key_eq(
                #[trigger] self.entries@[j],
                (#[trigger] self.entries@[i]).product_id,
                spec_color_view(self.entries@[i].color),
            )
    }

    pub fn new() -> (r: Ledger)
        ensures
            r.wf(),
            r.entries@.len() == 0,
    {
        Ledger { entries: Vec::new() }
    }

    /// The stock of a key, or `None` if the ledger has no row for it.
    pub fn quantity(&self, product_id: i32, color: &Option<String>) -> (r: Option<u64>)
        ensures
            ({
                let idx = spec_find_entry(self.entries@, product_id, spec_color_view(*color));
                match r {
                    Some(q) => idx >= 0 && q == self.entries@[idx].quantity,
                    None => idx == -1,
                }
            }),
    {
        let n = self.entries.len();
        let mut i: usize = 0;
        while i < n
            invariant
                n == self.entries@.len(),
                0 <= i <= n,
                forall|k: int|
                    0 <= k < i ==> !spec_key_eq(
                        #[trigger] self.entries@[k],
                        product_id,
                        spec_color_view(*color),
                    ),
            decreases n - i,
        {
            if self.entries[i].product_id == product_id && color_eq(&self.entries[i].color, color) {
                proof {
                    lemma_find_entry_at(
                        self.entries@,
                        product_id,
                        spec_color_view(*color),
                        i as int,
                    );
                }
                return Some(self.entries[i].quantity);
            }
            i += 1;
        }
        proof {
            lemma_find_entry_none(self.entries@, product_id, spec_color_view(*color));
        }
        None
    }

    /// Adds a row for a key that must not already be present; the way a
    /// ledger is populated from the catalog.
    pub fn add_entry(&mut self, product_id: i32, color: Option<String>, quantity: u64) -> (r: bool)
        requires
            old(self).wf(),
        ensures
            final(self).wf(),
            ({
                let idx = spec_find_entry(
                    old(self).entries@,
                    product_id,
                    spec_color_view(color),
                );
                if idx == -1 {
                    r && final(self).entries@ == old(self).entries@.push(
                        LedgerEntry { product_id, color, quantity },
                    )
                } else {
                    !r && *final(self) == *old(self)
                }
            }),
    {
        let existing = self.quantity(product_id, &color);
        if existing.is_some() {
            return false;
        }
        proof {
            lemma_find_entry_props(self.entries@, product_id, spec_color_view(color));
        }
        let ghost prev = self.entries@;
        self.entries.push(LedgerEntry { product_id, color, quantity });
        proof {
            assert forall|i: int, j: int| 0 <= i < j < self.entries@.len() implies !spec_key_eq(
                self.entries@[j],
                self.entries@[i].product_id,
                spec_color_view(self.entries@[i].color),
            ) by {
                if j < prev.len() {
                } else {
                    assert(self.entries@[i] == prev[i]);
                }
            }
        }
        true
    }

    /// The single conditional decrement: subtracts `n` from the row for the
    /// key only if that row exists and holds at least `n`; reports whether a
    /// row was affected. Concurrent decrements can never race a quantity
    /// below zero because the condition and the subtraction are one step.
    pub fn try_decrement(&mut self, product_id: i32, color: &Option<String>, n: u64) -> (r: bool)
        requires
            old(self).wf(),
        ensures
            final(self).wf(),
            ({
                let idx = spec_find_entry(
                    old(self).entries@,
                    product_id,
                    spec_color_view(*color),
                );
                if idx >= 0 && old(self).entries@[idx].quantity >= n {
                    r && final(self).entries@ == old(self).entries@.update(
                        idx,
                        LedgerEntry {
                            quantity: (old(self).entries@[idx].quantity - n) as u64,
                            ..old(self).entries@[idx]
                        },
                    )
                } else {
                    !r && *final(self) == *old(self)
                }
            }),
    {
        let n_entries = self.entries.len();
        let mut i: usize = 0;
        while i < n_entries
            invariant
                n_entries == self.entries@.len(),
                0 <= i <= n_entries,
                self == old(self),
                old(self).wf(),
                forall|k: int|
                    0 <= k < i ==> !spec_key_eq(
                        #[trigger] self.entries@[k],
                        product_id,
                        spec_color_view(*color),
                    ),
            decreases n_entries - i,
        {
            if self.entries[i].product_id == product_id && color_eq(&self.entries[i].color, color) {
                proof {
                    lemma_find_entry_at(
                        self.entries@,
                        product_id,
                        spec_color_view(*color),
                        i as int,
                    );
                }
                let q = self.entries[i].quantity;
                if q >= n {
                    let ghost prev = self.entries@;
                    self.entries[i].quantity = q - n;
                    proof {
                        assert(self.entries@ =~= prev.update(
                            i as int,
                            LedgerEntry { quantity: (q - n) as u64, ..prev[i as int] },
                        ));
                        lemma_wf_update(prev, self.entries@, i as int);
                    }
                    return true;
                } else {
                    return false;
                }
            }
            i += 1;
        }
        proof {
            lemma_find_entry_none(self.entries@, product_id, spec_color_view(*color));
        }
        false
    }

    /// The compensating increment: adds `n` back to the row for the key if
    /// it exists; reports whether a row was affected.
    pub fn release(&mut self, product_id: i32, color: &Option<String>, n: u64) -> (r: bool)
        requires
            old(self).wf(),
            ({
                let idx = spec_find_entry(
                    old(self).entries@,
                    product_id,
                    spec_color_view(*color),
                );
                idx >= 0 ==> old(self).entries@[idx].quantity + n <= u64::MAX
            }),
        ensures
            final(self).wf(),
            ({
                let idx = spec_find_entry(
                    old(self).entries@,
                    product_id,
                    spec_color_view(*color),
                );
                if idx >= 0 {
                    r && final(self).entries@ == old(self).entries@.update(
                        idx,
                        LedgerEntry {
                            quantity: (old(self).entries@[idx].quantity + n) as u64,
                            ..old(self).entries@[idx]
                        },
                    )
                } else {
                    !r && *final(self) == *old(self)
                }
            }),
    {
        let n_entries = self.entries.len();
        let mut i: usize = 0;
        while i < n_entries
            invariant
                n_entries == self.entries@.len(),
                0 <= i <= n_entries,
                self == old(self),
                old(self).wf(),
                ({
                    let idx = spec_find_entry(
                        old(self).entries@,
                        product_id,
                        spec_color_view(*color),
                    );
                    idx >= 0 ==> old(self).entries@[idx].quantity + n <= u64::MAX
                }),
                forall|k: int|
                    0 <= k < i ==> !spec_key_eq(
                        #[trigger] self.entries@[k],
                        product_id,
                        spec_color_view(*color),
                    ),
            decreases n_entries - i,
        {
            if self.entries[i].product_id == product_id && color_eq(&self.entries[i].color, color) {
                proof {
                    lemma_find_entry_at(
                        self.entries@,
                        product_id,
                        spec_color_view(*color),
                        i as int,
                    );
                }
                let q = self.entries[i].quantity;
                let ghost prev = self.entries@;
                self.entries[i].quantity = q + n;
                proof {
                    assert(self.entries@ =~= prev.update(
                        i as int,
                        LedgerEntry { quantity: (q + n) as u64, ..prev[i as int] },
                    ));
                    lemma_wf_update(prev, self.entries@, i as int);
                }
                return true;
            }
            i += 1;
        }
        proof {
            lemma_find_entry_none(self.entries@, product_id, spec_color_view(*color));
        }
        false
    }
}

/// Updating one entry's quantity keeps the keys, and so the key-uniqueness
/// invariant.
proof fn lemma_wf_update(prev: Seq<LedgerEntry>, cur: Seq<LedgerEntry>, at: int)
    requires
        0 <= at < prev.len(),
        cur.len() == prev.len(),
        forall|k: int|
            0 <= k < prev.len() ==> (#[trigger] cur[k]).product_id == prev[k].product_id
                && cur[k].color == prev[k].color,
        forall|i: int, j: int|
            0 <= i < j < prev.len() ==> !spec_key_eq(
                #[trigger] prev[j],
                (#[trigger] prev[i]).product_id,
                spec_color_view(prev[i].color),
            ),
    ensures
        forall|i: int, j: int|
            0 <= i < j < cur.len() ==> !spec_key_eq(
                #[trigger] cur[j],
                (#[trigger] cur[i]).product_id,
                spec_color_view(cur[i].color),
            ),
{
}

/// One conditional decrement of `n` against a quantity `q`.
pub open spec fn spec_cond_dec(q: int, n: int) -> (int, bool) {
    if q >= n {
        (q - n, true)
    } else {
        (q, false)
    }
}

/// The number of successful conditional decrements of size `n` in a run of
/// `k` attempts against a quantity starting at `q`.
pub open spec fn spec_dec_successes(q: int, n: int, k: nat) -> nat
    decreases k,
{
    if k == 0 {
        0
    } else if q >= n {
        1 + spec_dec_successes(q - n, n, (k - 1) as nat)
    } else {
        spec_dec_successes(q, n, (k - 1) as nat)
    }
}

/// The quantity left after a run of `k` conditional decrement attempts.
pub open spec fn spec_dec_remaining(q: int, n: int, k: nat) -> int
    decreases k,
{
    if k == 0 {
        q
    } else if q >= n {
        spec_dec_remaining(q - n, n, (k - 1) as nat)
    } else {
        spec_dec_remaining(q, n, (k - 1) as nat)
    }
}

/// Stock non-negativity: against an entry starting at quantity `q`, any run
/// of conditional decrements of size `n` (the step `Ledger::try_decrement`
/// takes, per its contract) succeeds at most `q / n` times, and the
/// remaining quantity `q - successes * n` never drops below zero.
pub proof fn lemma_stock_non_negativity(q: int, n: int, k: nat)
    requires
        q >= 0,
        n >= 1,
    ensures
        spec_dec_remaining(q, n, k) == q - spec_dec_successes(q, n, k) * n,
        spec_dec_remaining(q, n, k) >= 0,
        spec_dec_successes(q, n, k) <= q / n,
    decreases k,
{
    if k == 0 {
        assert(q - 0 * n == q) by (nonlinear_arith);
        assert(q / n >= 0) by (nonlinear_arith)
            requires
                q >= 0,
                n >= 1,
        ;
    } else if q >= n {
        lemma_stock_non_negativity(q - n, n, (k - 1) as nat);
        let s = spec_dec_successes(q - n, n, (k - 1) as nat);
        assert((q - n) - s * n == q - (1 + s) * n) by (nonlinear_arith);
        assert(s <= (q - n) / n ==> 1 + s <= q / n) by (nonlinear_arith)
            requires
                n >= 1,
                q >= n,
        ;
    } else {
        lemma_stock_non_negativity(q, n, (k - 1) as nat);
    }
}

} // verus!
