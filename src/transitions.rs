//! Drafting of new schema-compliant state transitions: secondary issuance
//! and transfer. Drafts are unsealed; sealing is left to the caller.

use vstd::prelude::*;

use crate::asset::Asset;
use crate::contract::{AssignedState, Assignment, Error, OutPoint, Seal};
use crate::schema::{OwnedRightType, TransitionType};

verus! {

/// An unsealed state transition.
#[derive(Clone, PartialEq, Eq, Hash, Debug)]
pub struct TransitionDraft {
    /// Type of the transition.
    pub transition_type: TransitionType,
    /// Value of the issued-supply metadata field, if the transition has one.
    pub issued_supply: Option<u64>,
    /// Rights consumed, each by its type and the output it sits on.
    pub closes: Vec<(OwnedRightType, OutPoint)>,
    /// Rights created, in order; the order fixes their positions once sealed.
    pub owned_rights: Vec<Assignment>,
}

/// Sum of the amounts that the intents `s` put on output `k`.
pub open spec fn amount_at(s: Seq<(OutPoint, u64)>, k: OutPoint) -> nat
    decreases s.len(),
{
    if s.len() == 0 {
        0
    } else {
        amount_at(s.drop_last(), k) + if s.last().0 == k {
            s.last().1 as nat
        } else {
            0
        }
    }
}

/// Output `k` is the output of some entry of `s`.
pub open spec fn names<V>(s: Seq<(OutPoint, V)>, k: OutPoint) -> bool {
    exists|j: int| 0 <= j < s.len() && (#[trigger] s[j]).0 == k
}

/// No two entries of `s` share an output.
pub open spec fn outputs_distinct<V>(s: Seq<(OutPoint, V)>) -> bool {
    forall|i: int, j: int| 0 <= i < j < s.len() ==> (#[trigger] s[i]).0 != (#[trigger] s[j]).0
}

/// `r` folds the intents `s`: one entry per output, holding the sum of the
/// amounts that `s` puts on it.
pub open spec fn is_fold_of(r: Seq<(OutPoint, u64)>, s: Seq<(OutPoint, u64)>) -> bool {
    &&& outputs_distinct(r)
    &&& forall|i: int| 0 <= i < r.len() ==> (#[trigger] r[i]).1 as nat == amount_at(s, r[i].0)
    &&& forall|k: OutPoint| names(s, k) <==> names(r, k)
}

/// A prefix of intents puts no more on an output than all of them.
proof fn lemma_amount_prefix(s: Seq<(OutPoint, u64)>, i: int, k: OutPoint)
    requires
        0 <= i <= s.len(),
    ensures
        amount_at(s.take(i), k) <= amount_at(s, k),
    decreases s.len() - i,
{
    if i < s.len() {
        assert(s.take(i + 1).drop_last() =~= s.take(i));
        lemma_amount_prefix(s, i + 1, k);
    } else {
        assert(s.take(i) =~= s);
    }
}

/// Intents that never name an output put nothing on it.
proof fn lemma_amount_absent(s: Seq<(OutPoint, u64)>, k: OutPoint)
    requires
        !names(s, k),
    ensures
        amount_at(s, k) == 0,
    decreases s.len(),
{
    if s.len() > 0 {
        let t = s.drop_last();
        assert(!names(t, k)) by {
            if names(t, k) {
                let j = choose|j: int| 0 <= j < t.len() && (#[trigger] t[j]).0 == k;
                assert(s[j].0 == k);
            }
        }
        assert(s[s.len() - 1].0 != k);
        lemma_amount_absent(t, k);
    }
}

/// Folds inflation intents by output: a transition closes at most one
/// inflation right per output, so the amounts of intents that name the same
/// output are summed.
pub fn fold_inflation(intents: &Vec<(OutPoint, u64)>) -> (r: Vec<(OutPoint, u64)>)
    requires
        forall|k: OutPoint| amount_at(intents@, k) <= u64::MAX,
    ensures
        is_fold_of(r@, intents@),
{
    let ghost s = intents@;
    let mut out: Vec<(OutPoint, u64)> = Vec::new();
    let mut i: usize = 0;
    assert(s.take(0) =~= Seq::<(OutPoint, u64)>::empty());
    while i < intents.len()
        invariant
            i <= s.len(),
            s == intents@,
            forall|k: OutPoint| amount_at(s, k) <= u64::MAX,
            is_fold_of(out@, s.take(i as int)),
        decreases s.len() - i,
    {
        let (k, v) = intents[i];
        let ghost p = s.take(i as int);
        let ghost q = s.take(i + 1);
        proof {
            assert(q.drop_last() =~= p);
            assert(q.last() == (k, v));
            lemma_amount_prefix(s, i + 1, k);
            assert forall|m: OutPoint| #[trigger] amount_at(q, m) == amount_at(p, m) + if m == k {
                v as nat
            } else {
                0
            } by {}
            assert forall|m: OutPoint| names(q, m) <==> names(p, m) || m == k by {
                if names(p, m) {
                    let j = choose|j: int| 0 <= j < p.len() && (#[trigger] p[j]).0 == m;
                    assert(q[j].0 == m);
                }
                if names(q, m) && m != k {
                    let j = choose|j: int| 0 <= j < q.len() && (#[trigger] q[j]).0 == m;
                    assert(p[j].0 == m);
                }
                if m == k {
                    assert(q[i as int].0 == m);
                }
            }
        }
        let mut j: usize = 0;
        while j < out.len() && out[j].0 != k
            invariant
                j <= out@.len(),
                forall|m: int| 0 <= m < j ==> (#[trigger] out@[m]).0 != k,
            decreases out@.len() - j,
        {
            j = j + 1;
        }
        if j < out.len() {
            let ghost before = out@;
            proof {
                assert(before[j as int].0 == k);
                assert(before[j as int].1 as nat == amount_at(p, k));
                assert(amount_at(q, k) == amount_at(p, k) + v);
            }
            let sum = out[j].1 + v;
            out.set(j, (k, sum));
            proof {
                assert forall|m: OutPoint| names(out@, m) <==> names(before, m) by {
                    if names(before, m) {
                        let x = choose|x: int| 0 <= x < before.len() && (#[trigger] before[x]).0 == m;
                        assert(out@[x].0 == m);
                    }
                    if names(out@, m) {
                        let x = choose|x: int| 0 <= x < out@.len() && (#[trigger] out@[x]).0 == m;
                        assert(before[x].0 == m);
                    }
                }
                assert forall|x: int| 0 <= x < out@.len() implies (#[trigger] out@[x]).0 == before[x].0 by {}
                assert(names(before, k)) by {
                    assert(before[j as int].0 == k);
                }
                assert(outputs_distinct(out@));
                assert forall|x: int| 0 <= x < out@.len() implies (#[trigger] out@[x]).1 as nat == amount_at(q, out@[x].0) by {
                    if x != j {
                        assert(out@[x] == before[x]);
                    }
                }
                assert(is_fold_of(out@, q));
            }
        } else {
            let ghost before = out@;
            proof {
                assert(!names(p, k)) by {
                    if names(p, k) {
                        assert(names(before, k));
                        let x = choose|x: int| 0 <= x < before.len() && (#[trigger] before[x]).0 == k;
                        assert(before[x].0 != k);
                    }
                }
                lemma_amount_absent(p, k);
            }
            out.push((k, v));
            proof {
                assert forall|m: OutPoint| names(out@, m) <==> names(before, m) || m == k by {
                    if names(before, m) {
                        let x = choose|x: int| 0 <= x < before.len() && (#[trigger] before[x]).0 == m;
                        assert(out@[x].0 == m);
                    }
                    if names(out@, m) && m != k {
                        let x = choose|x: int| 0 <= x < out@.len() && (#[trigger] out@[x]).0 == m;
                        assert(before[x].0 == m);
                    }
                    if m == k {
                        assert(out@[before.len() as int].0 == m);
                    }
                }
                assert forall|x: int| 0 <= x < before.len() implies (#[trigger] before[x]).0 != k by {
                    if before[x].0 == k {
                        assert(names(before, k));
                    }
                }
                assert(outputs_distinct(out@));
                assert forall|x: int| 0 <= x < out@.len() implies (#[trigger] out@[x]).1 as nat == amount_at(q, out@[x].0) by {
                    if x < before.len() {
                        assert(out@[x] == before[x]);
                    }
                }
                assert(is_fold_of(out@, q));
            }
        }
        i = i + 1;
    }
    assert(s.take(i as int) =~= s);
    out
}

/// The asset right that allocation `p` (a seal and an amount) creates.
pub open spec fn asset_assignment(p: (Seal, u64)) -> Assignment {
    Assignment { right: OwnedRightType::Assets, seal: p.0, state: AssignedState::Amount(p.1) }
}

/// The asset rights that the allocations `s` create, in order.
pub open spec fn asset_assignments(s: Seq<(Seal, u64)>) -> Seq<Assignment> {
    s.map_values(|p: (Seal, u64)| asset_assignment(p))
}

/// Closes of the asset rights on the outputs `s`, in order.
pub open spec fn asset_closes(s: Seq<OutPoint>) -> Seq<(OwnedRightType, OutPoint)> {
    s.map_values(|op: OutPoint| (OwnedRightType::Assets, op))
}

/// `c` closes one inflation right on each output that the intents `s` name,
/// and nothing else.
pub open spec fn closes_inflation(c: Seq<(OwnedRightType, OutPoint)>, s: Seq<(OutPoint, u64)>) -> bool {
    &&& forall|i: int| 0 <= i < c.len() ==> (#[trigger] c[i]).0 == OwnedRightType::Inflation
    &&& forall|i: int, j: int| 0 <= i < j < c.len() ==> (#[trigger] c[i]).1 != (#[trigger] c[j]).1
    &&& forall|k: OutPoint|
        names(s, k) <==> exists|i: int| 0 <= i < c.len() && (#[trigger] c[i]).1 == k
}

/// Output `op` holds a known allocation of `a`.
pub open spec fn allocated(a: Asset, op: OutPoint) -> bool {
    names(a.known_allocations@, op)
}

/// Appends the asset rights that the allocations `s` create.
fn push_assets(out: &mut Vec<Assignment>, s: &Vec<(Seal, u64)>)
    ensures
        final(out)@ == old(out)@ + asset_assignments(s@),
{
    let ghost start = out@;
    let mut i: usize = 0;
    while i < s.len()
        invariant
            i <= s@.len(),
            out@.len() == start.len() + i,
            forall|m: int| 0 <= m < start.len() ==> out@[m] == start[m],
            forall|m: int| 0 <= m < i ==> out@[start.len() + m] == asset_assignment(s@[m]),
        decreases s@.len() - i,
    {
        let (seal, v) = s[i];
        out.push(Assignment { right: OwnedRightType::Assets, seal, state: AssignedState::Amount(v) });
        i = i + 1;
    }
    assert(out@ =~= start + asset_assignments(s@));
}

/// Drafts a secondary issuance. Intents that name the same inflation right
/// are folded, so the draft closes each such right once; it creates the
/// asset `allocations`, followed by the `carried` inflation and epoch
/// rights passed on, and
/// declares `total_issued` as issued supply. That `total_issued` equals the
/// allocated amounts is for the sealing layer to check.
pub fn draft_issue(
    intents: &Vec<(OutPoint, u64)>,
    allocations: &Vec<(Seal, u64)>,
    carried: &Vec<Assignment>,
    total_issued: u64,
) -> (r: TransitionDraft)
    requires
        forall|k: OutPoint| amount_at(intents@, k) <= u64::MAX,
        forall|i: int|
            0 <= i < carried@.len() ==> (#[trigger] carried@[i]).right == OwnedRightType::Inflation
                || carried@[i].right == OwnedRightType::OpenEpoch,
    ensures
        r.transition_type == TransitionType::Issue,
        r.issued_supply == Some(total_issued),
        closes_inflation(r.closes@, intents@),
        r.owned_rights@ == asset_assignments(allocations@) + carried@,
{
    let folded = fold_inflation(intents);
    let mut closes: Vec<(OwnedRightType, OutPoint)> = Vec::new();
    let mut i: usize = 0;
    while i < folded.len()
        invariant
            i <= folded@.len(),
            closes@.len() == i,
            forall|m: int| 0 <= m < i ==> #[trigger] closes@[m] == (OwnedRightType::Inflation, folded@[m].0),
        decreases folded@.len() - i,
    {
        closes.push((OwnedRightType::Inflation, folded[i].0));
        i = i + 1;
    }
    proof {
        let f = folded@;
        let c = closes@;
        assert forall|k: OutPoint| names(intents@, k) <==> exists|x: int| 0 <= x < c.len() && (#[trigger] c[x]).1 == k by {
            if names(f, k) {
                let x = choose|x: int| 0 <= x < f.len() && (#[trigger] f[x]).0 == k;
                assert(c[x].1 == k);
            }
            if exists|x: int| 0 <= x < c.len() && (#[trigger] c[x]).1 == k {
                let x = choose|x: int| 0 <= x < c.len() && (#[trigger] c[x]).1 == k;
                assert(f[x].0 == k);
            }
        }
        assert forall|x: int, y: int| 0 <= x < y < c.len() implies (#[trigger] c[x]).1 != (#[trigger] c[y]).1 by {
            assert(f[x].0 != f[y].0);
        }
    }
    let mut owned: Vec<Assignment> = Vec::new();
    push_assets(&mut owned, allocations);
    let mut j: usize = 0;
    let ghost base = owned@;
    while j < carried.len()
        invariant
            j <= carried@.len(),
            owned@ == base + carried@.take(j as int),
        decreases carried@.len() - j,
    {
        owned.push(carried[j]);
        assert(owned@ =~= base + carried@.take(j + 1));
        j = j + 1;
    }
    assert(carried@.take(j as int) =~= carried@);
    assert(base =~= asset_assignments(allocations@));
    TransitionDraft {
        transition_type: TransitionType::Issue,
        issued_supply: Some(total_issued),
        closes,
        owned_rights: owned,
    }
}

/// Tells whether output `op` holds a known allocation of `asset`.
fn is_allocated(asset: &Asset, op: OutPoint) -> (r: bool)
    ensures
        r == allocated(*asset, op),
{
    let mut i: usize = 0;
    while i < asset.known_allocations.len()
        invariant
            i <= asset.known_allocations@.len(),
            forall|m: int| 0 <= m < i ==> (#[trigger] asset.known_allocations@[m]).0 != op,
        decreases asset.known_allocations@.len() - i,
    {
        if asset.known_allocations[i].0 == op {
            assert(asset.known_allocations@[i as int].0 == op);
            return true;
        }
        i = i + 1;
    }
    false
}

/// Drafts a transfer that spends the asset rights on the outputs `spend`
/// and creates the `beneficiaries` allocations followed by the `change`
/// allocations, in that order. Fails with `InsufficientRights` when an
/// output of `spend` holds no known allocation of `asset`.
pub fn draft_transfer(
    asset: &Asset,
    spend: &Vec<OutPoint>,
    beneficiaries: &Vec<(Seal, u64)>,
    change: &Vec<(Seal, u64)>,
) -> (r: Result<TransitionDraft, Error>)
    ensures
        r is Ok <==> forall|j: int| 0 <= j < spend@.len() ==> allocated(*asset, #[trigger] spend@[j]),
        r matches Err(e) ==> e == Error::InsufficientRights,
        r matches Ok(d) ==> {
            &&& d.transition_type == TransitionType::Transfer
            &&& d.issued_supply is None
            &&& d.closes@ == asset_closes(spend@)
            &&& d.owned_rights@ == asset_assignments(beneficiaries@ + change@)
        },
{
    let mut closes: Vec<(OwnedRightType, OutPoint)> = Vec::new();
    let mut i: usize = 0;
    while i < spend.len()
        invariant
            i <= spend@.len(),
            closes@.len() == i,
            forall|m: int| 0 <= m < i ==> allocated(*asset, #[trigger] spend@[m]),
            forall|m: int| 0 <= m < i ==> #[trigger] closes@[m] == (OwnedRightType::Assets, spend@[m]),
        decreases spend@.len() - i,
    {
        let op = spend[i];
        if !is_allocated(asset, op) {
            return Err(Error::InsufficientRights);
        }
        closes.push((OwnedRightType::Assets, op));
        i = i + 1;
    }
    assert(closes@ =~= asset_closes(spend@));
    let mut owned: Vec<Assignment> = Vec::new();
    push_assets(&mut owned, beneficiaries);
    push_assets(&mut owned, change);
    assert(asset_assignments(beneficiaries@ + change@) =~= asset_assignments(beneficiaries@)
        + asset_assignments(change@));
    assert(owned@ =~= asset_assignments(beneficiaries@ + change@));
    Ok(
        TransitionDraft {
            transition_type: TransitionType::Transfer,
            issued_supply: None,
            closes,
            owned_rights: owned,
        },
    )
}

/// Sum of the amounts of the allocations `s`.
pub open spec fn amounts_sum<S>(s: Seq<(S, u64)>) -> nat
    decreases s.len(),
{
    if s.len() == 0 {
        0
    } else {
        amounts_sum(s.drop_last()) + s.last().1 as nat
    }
}

/// Total amount of the allocations `s`, the supply they issue; `None` when
/// it does not fit in a `u64`.
pub fn total_amount<S: Copy>(s: &Vec<(S, u64)>) -> (r: Option<u64>)
    ensures
        r == if amounts_sum(s@) <= u64::MAX {
            Some(amounts_sum(s@) as u64)
        } else {
            None::<u64>
        },
{
    let mut acc: u64 = 0;
    let mut i: usize = 0;
    assert(s@.take(0) =~= Seq::<(S, u64)>::empty());
    while i < s.len()
        invariant
            i <= s@.len(),
            acc as nat == amounts_sum(s@.take(i as int)),
        decreases s@.len() - i,
    {
        proof {
            assert(s@.take(i + 1).drop_last() =~= s@.take(i as int));
        }
        let v = s[i].1;
        match acc.checked_add(v) {
            Some(x) => {
                acc = x;
            },
            None => {
                proof {
                    lemma_amounts_prefix(s@, i + 1);
                }
                return None;
            },
        }
        i = i + 1;
    }
    assert(s@.take(i as int) =~= s@);
    Some(acc)
}

/// A prefix of allocations sums to no more than all of them.
proof fn lemma_amounts_prefix<S>(s: Seq<(S, u64)>, i: int)
    requires
        0 <= i <= s.len(),
    ensures
        amounts_sum(s.take(i)) <= amounts_sum(s),
    decreases s.len() - i,
{
    if i < s.len() {
        assert(s.take(i + 1).drop_last() =~= s.take(i));
        lemma_amounts_prefix(s, i + 1);
    } else {
        assert(s.take(i) =~= s);
    }
}

} // verus!
