use vstd::prelude::*;
use crate::store::{ReceivedNote, WalletStore, unspent_total};

verus! {

/// A note chosen, or available, to fund a payment.
#[derive(Debug, Clone, Copy, PartialEq, Eq, Structural)]
pub struct SelectedNote {
    pub value: u64,
    pub note_id: u64,
}

/// The notes chosen to fund a payment, their total, and the change that
/// returns to the account.
#[derive(Debug, Clone)]
pub struct NoteSelectionResult {
    pub selected_notes: Vec<SelectedNote>,
    pub total_selected: u64,
    pub change_amount: u64,
}

/// Why no selection was made.
#[derive(Debug, Clone, Copy, PartialEq, Eq, Structural)]
pub enum SelectionError {
    /// The spendable notes are worth less than the amount plus the fee.
    InsufficientFunds { required: u128, available: u128 },
    /// The spendable notes are worth more than a 64-bit amount can hold.
    ValueOverflow,
}

pub open spec fn total_value(ns: Seq<SelectedNote>) -> int
    decreases ns.len(),
{
    if ns.len() == 0 {
        0
    } else {
        total_value(ns.drop_last()) + ns.last().value
    }
}

/// `sel` is what greedy largest-first selection over `cands` takes to reach
/// `need`: distinct candidates, largest first, none left behind larger than
/// one taken, enough in total, and the last one was needed.
pub open spec fn is_greedy_selection(cands: Seq<SelectedNote>, sel: Seq<SelectedNote>, need: int) -> bool {
    &&& exists|p: Seq<int>|
        {
            &&& p.len() == sel.len()
            &&& forall|k: int|
                0 <= k < p.len() ==> 0 <= #[trigger] p[k] < cands.len() && sel[k] == cands[p[k]]
            &&& forall|a: int, b: int| 0 <= a < b < p.len() ==> #[trigger] p[a] != #[trigger] p[b]
            &&& forall|j: int, k: int|
                0 <= j < cands.len() && !p.contains(j) && 0 <= k < sel.len() ==> #[trigger] cands[j].value
                    <= #[trigger] sel[k].value
        }
    &&& forall|a: int, b: int| 0 <= a < b < sel.len() ==> #[trigger] sel[a].value >= #[trigger] sel[b].value
    &&& total_value(sel) >= need
    &&& sel.len() > 0 ==> total_value(sel.drop_last()) < need
}

/// Sum of the candidates not yet taken, over the first `n`.
pub open spec fn untaken_total(c: Seq<SelectedNote>, taken: Seq<bool>, n: int) -> int
    decreases n,
{
    if n <= 0 {
        0
    } else {
        untaken_total(c, taken, n - 1) + if taken[n - 1] {
            0
        } else {
            c[n - 1].value as int
        }
    }
}

proof fn lemma_untaken_all(c: Seq<SelectedNote>, taken: Seq<bool>, n: int)
    requires
        0 <= n <= c.len(),
        n <= taken.len(),
        forall|j: int| 0 <= j < n ==> !taken[j],
    ensures
        untaken_total(c, taken, n) == total_value(c.take(n)),
    decreases n,
{
    if n > 0 {
        lemma_untaken_all(c, taken, n - 1);
        assert(c.take(n).drop_last() =~= c.take(n - 1));
    }
}

proof fn lemma_untaken_take(c: Seq<SelectedNote>, taken: Seq<bool>, p: int, n: int)
    requires
        0 <= n <= c.len(),
        c.len() == taken.len(),
        0 <= p < c.len(),
        !taken[p],
    ensures
        untaken_total(c, taken.update(p, true), n) == untaken_total(c, taken, n) - if p < n {
            c[p].value as int
        } else {
            0
        },
    decreases n,
{
    if n > 0 {
        lemma_untaken_take(c, taken, p, n - 1);
    }
}

proof fn lemma_untaken_positive(c: Seq<SelectedNote>, taken: Seq<bool>, n: int)
    requires
        0 <= n <= c.len(),
        n <= taken.len(),
        untaken_total(c, taken, n) > 0,
    ensures
        exists|j: int| 0 <= j < n && !taken[j],
    decreases n,
{
    if n > 0 && !(!taken[n - 1]) {
        lemma_untaken_positive(c, taken, n - 1);
    }
}

pub open spec fn untaken_count(taken: Seq<bool>, n: int) -> nat
    decreases n,
{
    if n <= 0 {
        0
    } else {
        untaken_count(taken, n - 1) + if taken[n - 1] {
            0nat
        } else {
            1nat
        }
    }
}

proof fn lemma_untaken_count_take(taken: Seq<bool>, p: int, n: int)
    requires
        0 <= n <= taken.len(),
        0 <= p < taken.len(),
        !taken[p],
    ensures
        untaken_count(taken.update(p, true), n) + if p < n {
            1int
        } else {
            0int
        } == untaken_count(taken, n),
    decreases n,
{
    if n > 0 {
        lemma_untaken_count_take(taken, p, n - 1);
    }
}

proof fn lemma_untaken_nonneg(c: Seq<SelectedNote>, taken: Seq<bool>, n: int)
    ensures
        untaken_total(c, taken, n) >= 0,
    decreases n,
{
    if n > 0 {
        lemma_untaken_nonneg(c, taken, n - 1);
    }
}

proof fn lemma_total_nonneg(ns: Seq<SelectedNote>)
    ensures
        total_value(ns) >= 0,
    decreases ns.len(),
{
    if ns.len() > 0 {
        lemma_total_nonneg(ns.drop_last());
    }
}

fn sum_values(c: &Vec<SelectedNote>) -> (r: u128)
    ensures
        r == total_value(c@),
{
    let mut acc: u128 = 0;
    let mut i: usize = 0;
    while i < c.len()
        invariant
            0 <= i <= c@.len(),
            acc == total_value(c@.take(i as int)),
            acc <= i * (u64::MAX as int),
        decreases c.len() - i,
    {
        assert(c@.take(i + 1).drop_last() =~= c@.take(i as int));
        assert((i + 1) * (u64::MAX as int) == i * (u64::MAX as int) + u64::MAX) by (nonlinear_arith);
        assert(i * (u64::MAX as int) <= usize::MAX * (u64::MAX as int)) by (nonlinear_arith)
            requires
                i <= usize::MAX,
        ;
        acc = acc + c[i].value as u128;
        i = i + 1;
    }
    assert(c@.take(i as int) =~= c@);
    acc
}

/// Chooses notes to cover `target_amount` plus `fee`, largest first, until
/// the sum is reached; the excess is the change.
pub fn select_notes(candidates: &Vec<SelectedNote>, target_amount: u64, fee: u64) -> (r: Result<
    NoteSelectionResult,
    SelectionError,
>)
    ensures
        total_value(candidates@) < target_amount + fee <==> r matches Err(
            SelectionError::InsufficientFunds { .. },
        ),
        r matches Err(SelectionError::InsufficientFunds { required, available }) ==> required
            == target_amount + fee && available == total_value(candidates@),
        r matches Err(SelectionError::ValueOverflow) ==> total_value(candidates@) > u64::MAX,
        r matches Ok(s) ==> {
            &&& is_greedy_selection(candidates@, s.selected_notes@, target_amount + fee)
            &&& s.total_selected == total_value(s.selected_notes@)
            &&& s.change_amount == s.total_selected - target_amount - fee
        },
{
    let need: u128 = target_amount as u128 + fee as u128;
    let available = sum_values(candidates);
    if available < need {
        return Err(SelectionError::InsufficientFunds { required: need, available });
    }
    if available > u64::MAX as u128 {
        return Err(SelectionError::ValueOverflow);
    }
    let n = candidates.len();
    let mut taken: Vec<bool> = Vec::new();
    let mut t: usize = 0;
    while t < n
        invariant
            n == candidates@.len(),
            0 <= t <= n,
            taken@.len() == t,
            forall|j: int| 0 <= j < t ==> !taken@[j],
        decreases n - t,
    {
        taken.push(false);
        t = t + 1;
    }
    proof {
        lemma_untaken_all(candidates@, taken@, n as int);
        assert(candidates@.take(n as int) =~= candidates@);
    }
    let mut sel: Vec<SelectedNote> = Vec::new();
    let mut acc: u64 = 0;
    let ghost mut p: Seq<int> = Seq::empty();
    while (acc as u128) < need
        invariant
            n == candidates@.len(),
            taken@.len() == n,
            need == target_amount + fee,
            need <= available,
            available == total_value(candidates@),
            available <= u64::MAX,
            acc == total_value(sel@),
            acc + untaken_total(candidates@, taken@, n as int) == available,
            p.len() == sel@.len(),
            forall|k: int|
                0 <= k < p.len() ==> 0 <= #[trigger] p[k] < n && sel@[k] == candidates@[p[k]],
            forall|a: int, b: int| 0 <= a < b < p.len() ==> #[trigger] p[a] != #[trigger] p[b],
            forall|j: int| 0 <= j < n ==> (taken@[j] <==> p.contains(j)),
            forall|j: int, k: int|
                0 <= j < n && !p.contains(j) && 0 <= k < sel@.len() ==> #[trigger] candidates@[j].value
                    <= #[trigger] sel@[k].value,
            forall|a: int, b: int|
                0 <= a < b < sel@.len() ==> #[trigger] sel@[a].value >= #[trigger] sel@[b].value,
            sel@.len() > 0 ==> total_value(sel@.drop_last()) < need,
        decreases untaken_count(taken@, n as int),
    {
        proof {
            lemma_untaken_positive(candidates@, taken@, n as int);
        }
        let mut best: usize = n;
        let mut i: usize = 0;
        while i < n
            invariant
                n == candidates@.len(),
                taken@.len() == n,
                0 <= i <= n,
                best == n || (best < i && !taken@[best as int]),
                forall|j: int|
                    0 <= j < i && !taken@[j] ==> best < n && #[trigger] candidates@[j].value
                        <= candidates@[best as int].value,
                (exists|j: int| 0 <= j < i && !taken@[j]) ==> best < n,
            decreases n - i,
        {
            if !taken[i] {
                if best == n || candidates[i].value > candidates[best].value {
                    best = i;
                }
            }
            i = i + 1;
        }
        let chosen = candidates[best];
        proof {
            lemma_untaken_take(candidates@, taken@, best as int, n as int);
            lemma_untaken_count_take(taken@, best as int, n as int);
            assert(!p.contains(best as int));
        }
        let ghost old_sel = sel@;
        let ghost old_taken = taken@;
        let ghost old_acc = acc;
        taken.set(best, true);
        sel.push(chosen);
        proof {
            assert(sel@.drop_last() =~= old_sel);
            assert(old_acc < need);
            let ghost old_p = p;
            p = p.push(best as int);
            assert(taken@ == old_taken.update(best as int, true));
            assert forall|j: int| 0 <= j < n implies (taken@[j] <==> p.contains(j)) by {
                if j == best {
                    assert(p[p.len() - 1] == j);
                    assert(p.contains(j));
                } else if old_taken[j] {
                    assert(old_p.contains(j));
                    let w = choose|w: int| 0 <= w < old_p.len() && old_p[w] == j;
                    assert(p[w] == j);
                    assert(p.contains(j));
                } else {
                    assert(!old_p.contains(j));
                    if p.contains(j) {
                        let w = choose|w: int| 0 <= w < p.len() && p[w] == j;
                        assert(w < old_p.len());
                        assert(old_p[w] == j);
                        assert(old_p.contains(j));
                    }
                }
            }
            assert forall|k: int| 0 <= k < p.len() implies 0 <= #[trigger] p[k] < n && sel@[k]
                == candidates@[p[k]] by {
                if k < p.len() - 1 {
                    assert(p[k] == old_p[k]);
                }
            }
            assert forall|a: int, b: int| 0 <= a < b < p.len() implies #[trigger] p[a]
                != #[trigger] p[b] by {
                assert(p[a] == old_p[a]);
                if b == p.len() - 1 {
                    assert(old_p.contains(old_p[a]));
                    assert(old_taken[p[a]]);
                } else {
                    assert(p[b] == old_p[b]);
                }
            }
            assert forall|j: int, k: int|
                0 <= j < n && !p.contains(j) && 0 <= k < sel@.len() implies #[trigger] candidates@[j].value
                <= #[trigger] sel@[k].value by {
                assert(!taken@[j]);
                assert(j != best);
                assert(!old_taken[j]);
                assert(!old_p.contains(j));
                if k < sel@.len() - 1 {
                    assert(sel@[k] == old_sel[k]);
                }
            }
            assert forall|a: int, b: int| 0 <= a < b < sel@.len() implies #[trigger] sel@[a].value
                >= #[trigger] sel@[b].value by {
                assert(sel@[a] == old_sel[a]);
                if b == sel@.len() - 1 {
                    assert(!old_p.contains(best as int));
                } else {
                    assert(sel@[b] == old_sel[b]);
                }
            }
            lemma_total_nonneg(sel@);
            lemma_untaken_nonneg(candidates@, taken@, n as int);
        }
        acc = acc + chosen.value;
    }
    let total = acc;
    let change = acc - (target_amount + fee) as u64;
    proof {
        lemma_total_nonneg(sel@);
    }
    Ok(NoteSelectionResult { selected_notes: sel, total_selected: total, change_amount: change })
}

/// The unspent notes of a store as selection candidates, in store order,
/// each identified by its position in the store.
pub open spec fn spendable_spec(notes: Seq<ReceivedNote>) -> Seq<SelectedNote>
    decreases notes.len(),
{
    if notes.len() == 0 {
        Seq::empty()
    } else {
        let prev = spendable_spec(notes.drop_last());
        if notes.last().spent_in is None {
            prev.push(SelectedNote { value: notes.last().value, note_id: (notes.len() - 1) as u64 })
        } else {
            prev
        }
    }
}

/// The notes a payment can spend: those received and not marked spent.
pub fn spendable_notes(store: &WalletStore) -> (r: Vec<SelectedNote>)
    ensures
        r@ == spendable_spec(store.notes@),
{
    let mut out: Vec<SelectedNote> = Vec::new();
    let mut i: usize = 0;
    while i < store.notes.len()
        invariant
            0 <= i <= store.notes@.len(),
            out@ == spendable_spec(store.notes@.take(i as int)),
        decreases store.notes.len() - i,
    {
        let n = store.notes[i];
        assert(store.notes@.take(i + 1).drop_last() =~= store.notes@.take(i as int));
        if n.spent_in.is_none() {
            out.push(SelectedNote { value: n.value, note_id: i as u64 });
        }
        i = i + 1;
    }
    assert(store.notes@.take(i as int) =~= store.notes@);
    out
}

/// The spendable notes are worth exactly the balance: the unspent notes of
/// both pools, and nothing else.
pub proof fn lemma_spendable_total_is_balance(notes: Seq<ReceivedNote>)
    ensures
        total_value(spendable_spec(notes)) == unspent_total(notes),
    decreases notes.len(),
{
    if notes.len() > 0 {
        lemma_spendable_total_is_balance(notes.drop_last());
        let prev = spendable_spec(notes.drop_last());
        if notes.last().spent_in is None {
            let nn = SelectedNote { value: notes.last().value, note_id: (notes.len() - 1) as u64 };
            assert(prev.push(nn).drop_last() =~= prev);
        }
    }
}

} // verus!
