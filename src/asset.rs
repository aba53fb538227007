//! Projection of a cached asset view from genesis and the accepted
//! state transitions.

use vstd::prelude::*;

use crate::contract::{
    AssignedState, Assignment, Error, Genesis, OutPoint, Seal, Transition, field_i64, field_str,
    field_u64, field_u8, is_valid_ticker, read_i64, read_str, read_u64, read_u8, str_eq, is_ticker,
};
use crate::nomination::{NominationView, genesis_nomination, renomination_chain};
use crate::schema::{FieldType, OwnedRightType, Subschema, TransitionType};

verus! {

/// An owned right as tracked by the projection.
#[derive(Clone, Copy, PartialEq, Eq, Structural, Hash, Debug)]
pub struct Right {
    /// Type of the right.
    pub kind: OwnedRightType,
    /// Output the right sits on.
    pub outpoint: OutPoint,
    /// Amount it carries, when revealed.
    pub amount: Option<u64>,
}

/// The schema variant whose identifier is `id`.
pub open spec fn subschema_of(id: Seq<char>) -> Option<Subschema> {
    if id == Subschema::Full.id_spec()@ {
        Some(Subschema::Full)
    } else if id == Subschema::Inflationary.id_spec()@ {
        Some(Subschema::Inflationary)
    } else if id == Subschema::Simple.id_spec()@ {
        Some(Subschema::Simple)
    } else {
        None
    }
}

/// Finds the schema variant whose identifier is `id`.
pub fn subschema_from_id(id: &str) -> (r: Option<Subschema>)
    ensures
        r == subschema_of(id@),
{
    if str_eq(id, Subschema::Full.bech32()) {
        Some(Subschema::Full)
    } else if str_eq(id, Subschema::Inflationary.bech32()) {
        Some(Subschema::Inflationary)
    } else if str_eq(id, Subschema::Simple.bech32()) {
        Some(Subschema::Simple)
    } else {
        None
    }
}

/// The amount of a state, when revealed.
pub open spec fn amount_of(s: AssignedState) -> Option<u64> {
    match s {
        AssignedState::Amount(v) => Some(v),
        _ => None,
    }
}

/// The right that assignment `a` of node `node_id` creates; `witness` is the
/// node's witness transaction, absent for genesis. Assets on a concealed
/// seal are not tracked (they are not known allocations); a concealed
/// inflation, epoch, burn or renomination right makes the projection fail,
/// since the capabilities of the asset could not be told.
pub open spec fn assigned_right(a: Assignment, node_id: u64, witness: Option<u64>) -> Result<
    Option<Right>,
    Error,
> {
    let outpoint = match a.seal {
        Seal::Revealed(op) => Ok(Some(op)),
        Seal::WitnessVout(v) => match witness {
            Some(w) => Ok(Some(OutPoint { txid: w, vout: v })),
            None => Err(Error::GenesisSeal),
        },
        Seal::Concealed(_) => Ok(None),
    };
    match outpoint {
        Err(e) => Err(e),
        Ok(None) => match a.right {
            OwnedRightType::Inflation => Err(Error::InflationAssignmentConfidential(node_id)),
            OwnedRightType::OpenEpoch => Err(Error::EpochSealConfidential(node_id)),
            OwnedRightType::BurnReplace => Err(Error::BurnSealConfidential(node_id)),
            OwnedRightType::Renomination => Err(Error::EpochSealConfidential(node_id)),
            OwnedRightType::Assets => Ok(None),
        },
        Ok(Some(op)) => if a.right == OwnedRightType::Inflation && a.state == AssignedState::Concealed {
            Err(Error::InflationAssignmentConfidential(node_id))
        } else {
            Ok(Some(Right { kind: a.right, outpoint: op, amount: amount_of(a.state) }))
        },
    }
}

/// The rights that a node's assignments create, in order, or the error of
/// the first assignment that cannot be tracked.
pub open spec fn node_rights(assigns: Seq<Assignment>, node_id: u64, witness: Option<u64>) -> Result<
    Seq<Right>,
    Error,
>
    decreases assigns.len(),
{
    if assigns.len() == 0 {
        Ok(Seq::empty())
    } else {
        match node_rights(assigns.drop_last(), node_id, witness) {
            Err(e) => Err(e),
            Ok(rs) => match assigned_right(assigns.last(), node_id, witness) {
                Err(e) => Err(e),
                Ok(None) => Ok(rs),
                Ok(Some(r)) => Ok(rs.push(r)),
            },
        }
    }
}

/// Right `r` is the one that close `c` names.
pub open spec fn closed_by(r: Right, c: (OwnedRightType, OutPoint)) -> bool {
    r.kind == c.0 && r.outpoint == c.1
}

/// Some right of `u` is the one that close `c` names.
pub open spec fn holds(u: Seq<Right>, c: (OwnedRightType, OutPoint)) -> bool {
    exists|i: int| 0 <= i < u.len() && closed_by(#[trigger] u[i], c)
}

/// The rights of `u` that close `c` leaves in place, in order.
pub open spec fn without(u: Seq<Right>, c: (OwnedRightType, OutPoint)) -> Seq<Right>
    decreases u.len(),
{
    if u.len() == 0 {
        u
    } else if closed_by(u.last(), c) {
        without(u.drop_last(), c)
    } else {
        without(u.drop_last(), c).push(u.last())
    }
}

/// The output that seal `seal` of a node with witness `witness` designates,
/// when it is revealed.
pub open spec fn seal_outpoint(seal: Seal, witness: u64) -> Option<OutPoint> {
    match seal {
        Seal::Revealed(op) => Some(op),
        Seal::WitnessVout(v) => Some(OutPoint { txid: witness, vout: v }),
        Seal::Concealed(_) => None,
    }
}

/// Transition `t` creates the right that `c` names.
pub open spec fn creates(t: Transition, c: (OwnedRightType, OutPoint)) -> bool {
    exists|i: int|
        0 <= i < t.owned_rights@.len() && (#[trigger] t.owned_rights@[i]).right == c.0
            && seal_outpoint(t.owned_rights@[i].seal, t.witness) == Some(c.1)
}

/// Some transition of `all` creates the right that `c` names.
pub open spec fn created_in(all: Seq<Transition>, c: (OwnedRightType, OutPoint)) -> bool {
    exists|j: int| 0 <= j < all.len() && creates(#[trigger] all[j], c)
}

/// The error for a transition of type `tt`, among the transitions `all`,
/// that closes a right that is not unspent: a burn whose burn & replace
/// right no transition of `all` created (its epoch is not exposed), or a
/// plain lack of rights.
pub open spec fn missing_right_error(
    tt: TransitionType,
    c: (OwnedRightType, OutPoint),
    all: Seq<Transition>,
) -> Error {
    if (tt == TransitionType::Burn || tt == TransitionType::BurnAndReplace) && c.0
        == OwnedRightType::BurnReplace && !created_in(all, c) {
        Error::NotAllEpochsExposed
    } else {
        Error::InsufficientRights
    }
}

/// The unspent rights after closing each of `cs` in turn.
pub open spec fn apply_closes(
    u: Seq<Right>,
    cs: Seq<(OwnedRightType, OutPoint)>,
    tt: TransitionType,
    all: Seq<Transition>,
) -> Result<
    Seq<Right>,
    Error,
>
    decreases cs.len(),
{
    if cs.len() == 0 {
        Ok(u)
    } else {
        match apply_closes(u, cs.drop_last(), tt, all) {
            Err(e) => Err(e),
            Ok(v) => if holds(v, cs.last()) {
                Ok(without(v, cs.last()))
            } else {
                Err(missing_right_error(tt, cs.last(), all))
            },
        }
    }
}

/// The unspent rights after transition `t`: its closes are removed, then the
/// rights it creates are added; `all` are the transitions presented with it.
pub open spec fn apply_transition(u: Seq<Right>, t: Transition, all: Seq<Transition>) -> Result<
    Seq<Right>,
    Error,
> {
    match apply_closes(u, t.closes@, t.transition_type, all) {
        Err(e) => Err(e),
        Ok(v) => match node_rights(t.owned_rights@, t.node_id, Some(t.witness)) {
            Err(e) => Err(e),
            Ok(n) => Ok(v + n),
        },
    }
}

/// Genesis carries the metadata that every RGB20 variant requires.
pub open spec fn genesis_requirements(g: Genesis) -> bool {
    &&& field_str(g.metadata@, FieldType::Ticker) matches Some(t) && is_valid_ticker(t)
    &&& field_str(g.metadata@, FieldType::Name) is Some
    &&& field_u8(g.metadata@, FieldType::Precision) is Some
    &&& field_i64(g.metadata@, FieldType::Timestamp) is Some
    &&& field_u64(g.metadata@, FieldType::IssuedSupply) is Some
}

/// A value of a metadata field of `t` that counts only for transitions of
/// the given types.
pub open spec fn counted(t: Transition, ft: FieldType, counts: bool) -> nat {
    if counts {
        match field_u64(t.metadata@, ft) {
            Some(v) => v as nat,
            None => 0,
        }
    } else {
        0
    }
}

/// Supply issued by transition `t`.
pub open spec fn issued_by(t: Transition) -> nat {
    counted(
        t,
        FieldType::IssuedSupply,
        t.transition_type == TransitionType::Issue || t.transition_type
            == TransitionType::BurnAndReplace,
    )
}

/// Supply burned without replacement by transition `t`.
pub open spec fn burned_by(t: Transition) -> nat {
    counted(t, FieldType::BurnedSupply, t.transition_type == TransitionType::Burn)
}

/// Supply burned and replaced by transition `t`.
pub open spec fn replaced_by(t: Transition) -> nat {
    counted(
        t,
        FieldType::BurnedSupply,
        t.transition_type == TransitionType::BurnAndReplace,
    )
}

/// What the projection accumulates: the unspent rights, and the issued,
/// burned and replaced supply.
pub struct Tally {
    /// Unspent rights, in the order they were created.
    pub rights: Seq<Right>,
    /// Supply issued so far.
    pub known: nat,
    /// Supply burned without replacement so far.
    pub burned: nat,
    /// Supply burned and replaced so far.
    pub replaced: nat,
}

/// The tally after transition `t`, one of the transitions `all`. Its rights
/// change as `apply_transition` says and the supply it issues, burns or
/// replaces is added; the step fails with `InconsistentSupply` when the
/// issued supply no longer fits in a `u64`. Partial sums only grow, so
/// whether that happens does not depend on the order of the transitions.
pub open spec fn tally_step(st: Tally, t: Transition, all: Seq<Transition>) -> Result<Tally, Error> {
    match apply_transition(st.rights, t, all) {
        Err(e) => Err(e),
        Ok(v) => {
            let known = st.known + issued_by(t);
            let burned = st.burned + burned_by(t);
            let replaced = st.replaced + replaced_by(t);
            if known > u64::MAX {
                Err(Error::InconsistentSupply)
            } else {
                Ok(Tally { rights: v, known, burned, replaced })
            }
        },
    }
}

/// The tally after the transitions `ts`, taken in order, out of the
/// transitions `all`.
pub open spec fn tally_after(st: Tally, ts: Seq<Transition>, all: Seq<Transition>) -> Result<
    Tally,
    Error,
>
    decreases ts.len(),
{
    if ts.len() == 0 {
        Ok(st)
    } else {
        match tally_after(st, ts.drop_last(), all) {
            Err(e) => Err(e),
            Ok(v) => tally_step(v, ts.last(), all),
        }
    }
}

/// The supply that genesis declares as issued.
pub open spec fn genesis_supply(g: Genesis) -> nat {
    match field_u64(g.metadata@, FieldType::IssuedSupply) {
        Some(v) => v as nat,
        None => 0,
    }
}

/// The tally after genesis and the transitions `ts`, or the error that
/// stops it. Once all transitions are folded, the supply burned and replaced
/// must not exceed the supply issued, else the projection fails with
/// `InconsistentSupply`; checked on the totals, this does not depend on the
/// order of the transitions.
pub open spec fn projected_tally(g: Genesis, ts: Seq<Transition>) -> Result<Tally, Error> {
    if subschema_of(g.schema_id@) is None {
        Err(Error::WrongSchemaId)
    } else if !genesis_requirements(g) {
        Err(Error::UnsatisfiedSchemaRequirement)
    } else {
        match node_rights(g.owned_rights@, g.contract_id, None) {
            Err(e) => Err(e),
            Ok(u) => match tally_after(
                Tally { rights: u, known: genesis_supply(g), burned: 0, replaced: 0 },
                ts,
                ts,
            ) {
                Err(e) => Err(e),
                Ok(t) => if t.burned + t.replaced > t.known {
                    Err(Error::InconsistentSupply)
                } else {
                    Ok(t)
                },
            },
        }
    }
}

/// The nomination in force after the transitions `ts`: that of the last
/// accepted renomination, or that of genesis when there is none.
pub open spec fn current_nomination(g: Genesis, ts: Seq<Transition>) -> Result<NominationView, Error> {
    match renomination_chain(g, ts) {
        Err(e) => Err(e),
        Ok(epochs) => if epochs.len() == 0 {
            genesis_nomination(g)
        } else {
            Ok(epochs.last().nomination)
        },
    }
}

/// What the projection of genesis `g` and the transitions `ts` rests on: the
/// tally, then the nomination in force; or the first error of either.
pub open spec fn projection(g: Genesis, ts: Seq<Transition>) -> Result<(Tally, NominationView), Error> {
    match projected_tally(g, ts) {
        Err(e) => Err(e),
        Ok(t) => match current_nomination(g, ts) {
            Err(e) => Err(e),
            Ok(n) => Ok((t, n)),
        },
    }
}

/// `x`, or the largest `u64` where `x` does not fit.
pub open spec fn clip(x: nat) -> u64 {
    if x > u64::MAX {
        u64::MAX
    } else {
        x as u64
    }
}

/// Known allocations among the rights `u`: each revealed assets right, with
/// its output and amount, in order.
pub open spec fn allocations(u: Seq<Right>) -> Seq<(OutPoint, u64)>
    decreases u.len(),
{
    if u.len() == 0 {
        Seq::empty()
    } else {
        match (u.last().kind, u.last().amount) {
            (OwnedRightType::Assets, Some(v)) => allocations(u.drop_last()).push((u.last().outpoint, v)),
            _ => allocations(u.drop_last()),
        }
    }
}

/// Total amount of the revealed inflation rights among `u`.
pub open spec fn inflation_left(u: Seq<Right>) -> nat
    decreases u.len(),
{
    if u.len() == 0 {
        0
    } else {
        match (u.last().kind, u.last().amount) {
            (OwnedRightType::Inflation, Some(v)) => inflation_left(u.drop_last()) + v as nat,
            _ => inflation_left(u.drop_last()),
        }
    }
}

/// Some right of `u` has type `k`.
pub open spec fn has_kind(u: Seq<Right>, k: OwnedRightType) -> bool {
    exists|i: int| 0 <= i < u.len() && (#[trigger] u[i]).kind == k
}

/// Once the rights of a prefix of assignments fail, so do those of the whole.
proof fn lemma_node_rights_prefix_err(s: Seq<Assignment>, node_id: u64, witness: Option<u64>, k: int)
    requires
        0 <= k <= s.len(),
        node_rights(s.take(k), node_id, witness) is Err,
    ensures
        node_rights(s, node_id, witness) == node_rights(s.take(k), node_id, witness),
    decreases s.len() - k,
{
    if k < s.len() {
        assert(s.take(k + 1).drop_last() =~= s.take(k));
        lemma_node_rights_prefix_err(s, node_id, witness, k + 1);
    } else {
        assert(s.take(k) =~= s);
    }
}

/// Once closing a prefix of closes fails, so does closing them all.
proof fn lemma_closes_prefix_err(
    u: Seq<Right>,
    s: Seq<(OwnedRightType, OutPoint)>,
    tt: TransitionType,
    all: Seq<Transition>,
    k: int,
)
    requires
        0 <= k <= s.len(),
        apply_closes(u, s.take(k), tt, all) is Err,
    ensures
        apply_closes(u, s, tt, all) == apply_closes(u, s.take(k), tt, all),
    decreases s.len() - k,
{
    if k < s.len() {
        assert(s.take(k + 1).drop_last() =~= s.take(k));
        lemma_closes_prefix_err(u, s, tt, all, k + 1);
    } else {
        assert(s.take(k) =~= s);
    }
}

/// Once a prefix of transitions fails, so do all of them.
proof fn lemma_tally_prefix_err(u: Tally, s: Seq<Transition>, all: Seq<Transition>, k: int)
    requires
        0 <= k <= s.len(),
        tally_after(u, s.take(k), all) is Err,
    ensures
        tally_after(u, s, all) == tally_after(u, s.take(k), all),
    decreases s.len() - k,
{
    if k < s.len() {
        assert(s.take(k + 1).drop_last() =~= s.take(k));
        lemma_tally_prefix_err(u, s, all, k + 1);
    } else {
        assert(s.take(k) =~= s);
    }
}

/// The right that assignment `a` of node `node_id` creates.
fn assign(a: Assignment, node_id: u64, witness: Option<u64>) -> (r: Result<Option<Right>, Error>)
    ensures
        r == assigned_right(a, node_id, witness),
{
    let outpoint = match a.seal {
        Seal::Revealed(op) => Some(op),
        Seal::WitnessVout(v) => match witness {
            Some(w) => Some(OutPoint { txid: w, vout: v }),
            None => {
                return Err(Error::GenesisSeal);
            },
        },
        Seal::Concealed(_) => None,
    };
    match outpoint {
        None => match a.right {
            OwnedRightType::Inflation => Err(Error::InflationAssignmentConfidential(node_id)),
            OwnedRightType::OpenEpoch => Err(Error::EpochSealConfidential(node_id)),
            OwnedRightType::BurnReplace => Err(Error::BurnSealConfidential(node_id)),
            OwnedRightType::Renomination => Err(Error::EpochSealConfidential(node_id)),
            OwnedRightType::Assets => Ok(None),
        },
        Some(op) => {
            if a.right == OwnedRightType::Inflation && a.state == AssignedState::Concealed {
                Err(Error::InflationAssignmentConfidential(node_id))
            } else {
                let amount = match a.state {
                    AssignedState::Amount(v) => Some(v),
                    _ => None,
                };
                Ok(Some(Right { kind: a.right, outpoint: op, amount }))
            }
        },
    }
}

/// The rights that a node's assignments create.
fn rights_of(assigns: &Vec<Assignment>, node_id: u64, witness: Option<u64>) -> (r: Result<
    Vec<Right>,
    Error,
>)
    ensures
        match r {
            Ok(v) => node_rights(assigns@, node_id, witness) == Ok::<Seq<Right>, Error>(v@),
            Err(e) => node_rights(assigns@, node_id, witness) == Err::<Seq<Right>, Error>(e),
        },
{
    let mut out: Vec<Right> = Vec::new();
    let mut i: usize = 0;
    assert(assigns@.take(0) =~= Seq::<Assignment>::empty());
    while i < assigns.len()
        invariant
            i <= assigns@.len(),
            node_rights(assigns@.take(i as int), node_id, witness) == Ok::<Seq<Right>, Error>(out@),
        decreases assigns@.len() - i,
    {
        proof {
            assert(assigns@.take(i + 1).drop_last() =~= assigns@.take(i as int));
        }
        match assign(assigns[i], node_id, witness) {
            Err(e) => {
                proof {
                    lemma_node_rights_prefix_err(assigns@, node_id, witness, i + 1);
                }
                return Err(e);
            },
            Ok(None) => {},
            Ok(Some(right)) => {
                out.push(right);
            },
        }
        i = i + 1;
    }
    assert(assigns@.take(i as int) =~= assigns@);
    Ok(out)
}

/// Closes the right that `c` names among `u`, if `u` holds it.
fn close(u: &Vec<Right>, c: (OwnedRightType, OutPoint)) -> (r: Option<Vec<Right>>)
    ensures
        match r {
            Some(v) => holds(u@, c) && v@ == without(u@, c),
            None => !holds(u@, c),
        },
{
    let mut found = false;
    let mut out: Vec<Right> = Vec::new();
    let mut i: usize = 0;
    assert(u@.take(0) =~= Seq::<Right>::empty());
    while i < u.len()
        invariant
            i <= u@.len(),
            out@ == without(u@.take(i as int), c),
            found <==> exists|m: int| 0 <= m < i && closed_by(#[trigger] u@[m], c),
        decreases u@.len() - i,
    {
        proof {
            assert(u@.take(i + 1).drop_last() =~= u@.take(i as int));
        }
        let right = u[i];
        if right.kind == c.0 && right.outpoint == c.1 {
            found = true;
        } else {
            out.push(right);
        }
        i = i + 1;
    }
    assert(u@.take(i as int) =~= u@);
    if found {
        Some(out)
    } else {
        None
    }
}

/// Tells whether transition `t` creates the right that `c` names.
fn creates_right(t: &Transition, c: (OwnedRightType, OutPoint)) -> (r: bool)
    ensures
        r == creates(*t, c),
{
    let mut i: usize = 0;
    while i < t.owned_rights.len()
        invariant
            i <= t.owned_rights@.len(),
            forall|m: int|
                0 <= m < i ==> !((#[trigger] t.owned_rights@[m]).right == c.0 && seal_outpoint(
                    t.owned_rights@[m].seal,
                    t.witness,
                ) == Some(c.1)),
        decreases t.owned_rights@.len() - i,
    {
        let a = t.owned_rights[i];
        let op = match a.seal {
            Seal::Revealed(op) => Some(op),
            Seal::WitnessVout(v) => Some(OutPoint { txid: t.witness, vout: v }),
            Seal::Concealed(_) => None,
        };
        if a.right == c.0 && op == Some(c.1) {
            assert(t.owned_rights@[i as int].right == c.0);
            return true;
        }
        i = i + 1;
    }
    false
}

/// Tells whether some transition of `all` creates the right that `c` names.
fn created_anywhere(all: &Vec<Transition>, c: (OwnedRightType, OutPoint)) -> (r: bool)
    ensures
        r == created_in(all@, c),
{
    let mut j: usize = 0;
    while j < all.len()
        invariant
            j <= all@.len(),
            forall|m: int| 0 <= m < j ==> !creates(#[trigger] all@[m], c),
        decreases all@.len() - j,
    {
        if creates_right(&all[j], c) {
            assert(creates(all@[j as int], c));
            return true;
        }
        j = j + 1;
    }
    false
}

/// Closes each of `cs` in turn among the rights `u`.
fn close_all(
    u: Vec<Right>,
    cs: &Vec<(OwnedRightType, OutPoint)>,
    tt: TransitionType,
    all: &Vec<Transition>,
) -> (r: Result<Vec<Right>, Error>)
    ensures
        match r {
            Ok(v) => apply_closes(u@, cs@, tt, all@) == Ok::<Seq<Right>, Error>(v@),
            Err(e) => apply_closes(u@, cs@, tt, all@) == Err::<Seq<Right>, Error>(e),
        },
{
    let ghost u0 = u@;
    let mut cur = u;
    let mut i: usize = 0;
    assert(cs@.take(0) =~= Seq::<(OwnedRightType, OutPoint)>::empty());
    while i < cs.len()
        invariant
            i <= cs@.len(),
            u0 == u@,
            apply_closes(u0, cs@.take(i as int), tt, all@) == Ok::<Seq<Right>, Error>(cur@),
        decreases cs@.len() - i,
    {
        proof {
            assert(cs@.take(i + 1).drop_last() =~= cs@.take(i as int));
            assert(cs@.take(i + 1).last() == cs@[i as int]);
        }
        let c = cs[i];
        match close(&cur, c) {
            Some(next) => {
                cur = next;
            },
            None => {
                proof {
                    lemma_closes_prefix_err(u0, cs@, tt, all@, i + 1);
                }
                if (tt == TransitionType::Burn || tt == TransitionType::BurnAndReplace) && c.0
                    == OwnedRightType::BurnReplace && !created_anywhere(all, c) {
                    return Err(Error::NotAllEpochsExposed);
                } else {
                    return Err(Error::InsufficientRights);
                }
            },
        }
        i = i + 1;
    }
    assert(cs@.take(i as int) =~= cs@);
    Ok(cur)
}

/// The unspent rights after transition `t`.
fn transit(u: Vec<Right>, t: &Transition, all: &Vec<Transition>) -> (r: Result<Vec<Right>, Error>)
    ensures
        match r {
            Ok(v) => apply_transition(u@, *t, all@) == Ok::<Seq<Right>, Error>(v@),
            Err(e) => apply_transition(u@, *t, all@) == Err::<Seq<Right>, Error>(e),
        },
{
    let mut v = match close_all(u, &t.closes, t.transition_type, all) {
        Ok(v) => v,
        Err(e) => {
            return Err(e);
        },
    };
    let mut n = match rights_of(&t.owned_rights, t.node_id, Some(t.witness)) {
        Ok(n) => n,
        Err(e) => {
            return Err(e);
        },
    };
    v.append(&mut n);
    Ok(v)
}

/// The value of field `ft` of `t` when `counts` holds and it is present.
fn counted_amount(t: &Transition, ft: FieldType, counts: bool) -> (r: u64)
    ensures
        r as nat == counted(*t, ft, counts),
{
    if counts {
        match read_u64(&t.metadata, ft) {
            Some(v) => v,
            None => 0,
        }
    } else {
        0
    }
}

/// Collects the known allocations among the rights `u`.
fn allocations_of(u: &Vec<Right>) -> (r: Vec<(OutPoint, u64)>)
    ensures
        r@ == allocations(u@),
{
    let mut out: Vec<(OutPoint, u64)> = Vec::new();
    let mut i: usize = 0;
    assert(u@.take(0) =~= Seq::<Right>::empty());
    while i < u.len()
        invariant
            i <= u@.len(),
            out@ == allocations(u@.take(i as int)),
        decreases u@.len() - i,
    {
        proof {
            assert(u@.take(i + 1).drop_last() =~= u@.take(i as int));
        }
        let right = u[i];
        match (right.kind, right.amount) {
            (OwnedRightType::Assets, Some(v)) => {
                out.push((right.outpoint, v));
            },
            _ => {},
        }
        i = i + 1;
    }
    assert(u@.take(i as int) =~= u@);
    out
}

/// Sums the revealed inflation rights among `u`, saturating.
fn inflation_of(u: &Vec<Right>) -> (r: u64)
    ensures
        r == clip(inflation_left(u@)),
{
    let mut acc: u64 = 0;
    let mut i: usize = 0;
    assert(u@.take(0) =~= Seq::<Right>::empty());
    while i < u.len()
        invariant
            i <= u@.len(),
            acc == clip(inflation_left(u@.take(i as int))),
        decreases u@.len() - i,
    {
        proof {
            assert(u@.take(i + 1).drop_last() =~= u@.take(i as int));
        }
        let right = u[i];
        match (right.kind, right.amount) {
            (OwnedRightType::Inflation, Some(v)) => {
                acc = acc.saturating_add(v);
            },
            _ => {},
        }
        i = i + 1;
    }
    assert(u@.take(i as int) =~= u@);
    acc
}

/// Tells whether some right of `u` has type `k`.
fn any_of_kind(u: &Vec<Right>, k: OwnedRightType) -> (r: bool)
    ensures
        r == has_kind(u@, k),
{
    let mut i: usize = 0;
    while i < u.len()
        invariant
            i <= u@.len(),
            forall|m: int| 0 <= m < i ==> (#[trigger] u@[m]).kind != k,
        decreases u@.len() - i,
    {
        if u[i].kind == k {
            return true;
        }
        i = i + 1;
    }
    false
}

/// Closing a right leaves no right that the same close names.
proof fn lemma_without_removes(u: Seq<Right>, c: (OwnedRightType, OutPoint))
    ensures
        !holds(without(u, c), c),
    decreases u.len(),
{
    if u.len() > 0 {
        lemma_without_removes(u.drop_last(), c);
        let w = without(u.drop_last(), c);
        if !closed_by(u.last(), c) {
            assert forall|i: int| 0 <= i < w.push(u.last()).len() implies !closed_by(
                #[trigger] w.push(u.last())[i],
                c,
            ) by {
                if i < w.len() {
                    assert(w.push(u.last())[i] == w[i]);
                }
            }
        }
    }
}

/// Closing a right adds none: what remains was there before.
proof fn lemma_without_keeps_out(u: Seq<Right>, d: (OwnedRightType, OutPoint), c: (OwnedRightType, OutPoint))
    requires
        !holds(u, c),
    ensures
        !holds(without(u, d), c),
    decreases u.len(),
{
    if u.len() > 0 {
        let t = u.drop_last();
        assert(!holds(t, c)) by {
            if holds(t, c) {
                let i = choose|i: int| 0 <= i < t.len() && closed_by(#[trigger] t[i], c);
                assert(u[i] == t[i]);
            }
        }
        lemma_without_keeps_out(t, d, c);
        let w = without(t, d);
        assert(!closed_by(u[u.len() - 1], c));
        if !closed_by(u.last(), d) {
            assert forall|i: int| 0 <= i < w.push(u.last()).len() implies !closed_by(
                #[trigger] w.push(u.last())[i],
                c,
            ) by {
                if i < w.len() {
                    assert(w.push(u.last())[i] == w[i]);
                }
            }
        }
    }
}

/// After closes that include `c` succeed, no right that `c` names is left.
proof fn lemma_closes_remove(
    u: Seq<Right>,
    cs: Seq<(OwnedRightType, OutPoint)>,
    tt: TransitionType,
    all: Seq<Transition>,
    c: (OwnedRightType, OutPoint),
)
    requires
        cs.contains(c),
        apply_closes(u, cs, tt, all) is Ok,
    ensures
        !holds(apply_closes(u, cs, tt, all)->Ok_0, c),
    decreases cs.len(),
{
    let v = apply_closes(u, cs.drop_last(), tt, all)->Ok_0;
    if cs.last() == c {
        lemma_without_removes(v, c);
    } else {
        let j = choose|j: int| 0 <= j < cs.len() && cs[j] == c;
        assert(cs.drop_last()[j] == c);
        lemma_closes_remove(u, cs.drop_last(), tt, all, c);
        lemma_without_keeps_out(v, cs.last(), c);
    }
}

/// Closes only remove rights: a right absent before is absent after, and a
/// transfer whose closes include it fails with `InsufficientRights`.
proof fn lemma_closes_keep_out(
    u: Seq<Right>,
    cs: Seq<(OwnedRightType, OutPoint)>,
    tt: TransitionType,
    all: Seq<Transition>,
    c: (OwnedRightType, OutPoint),
)
    requires
        !holds(u, c),
    ensures
        apply_closes(u, cs, tt, all) matches Ok(v) ==> !holds(v, c),
        tt == TransitionType::Transfer ==> (apply_closes(u, cs, tt, all) matches Err(e) ==> e
            == Error::InsufficientRights),
        tt == TransitionType::Transfer && cs.contains(c) ==> apply_closes(u, cs, tt, all) == Err::<
            Seq<Right>,
            Error,
        >(Error::InsufficientRights),
    decreases cs.len(),
{
    if cs.len() > 0 {
        let p = cs.drop_last();
        lemma_closes_keep_out(u, p, tt, all, c);
        if let Ok(v) = apply_closes(u, p, tt, all) {
            lemma_without_keeps_out(v, cs.last(), c);
        }
        if cs.contains(c) && cs.last() != c {
            let j = choose|j: int| 0 <= j < cs.len() && cs[j] == c;
            assert(p[j] == c);
        }
    }
}

/// Whether closes succeed does not depend on the other transitions; only
/// the kind of error does.
proof fn lemma_closes_ok_any(
    u: Seq<Right>,
    cs: Seq<(OwnedRightType, OutPoint)>,
    tt: TransitionType,
    a1: Seq<Transition>,
    a2: Seq<Transition>,
)
    requires
        apply_closes(u, cs, tt, a1) is Ok,
    ensures
        apply_closes(u, cs, tt, a2) == apply_closes(u, cs, tt, a1),
    decreases cs.len(),
{
    if cs.len() > 0 {
        lemma_closes_ok_any(u, cs.drop_last(), tt, a1, a2);
    }
}

/// A successful fold does not depend on the other transitions presented.
proof fn lemma_tally_ok_any(st: Tally, ts: Seq<Transition>, a1: Seq<Transition>, a2: Seq<Transition>)
    requires
        tally_after(st, ts, a1) is Ok,
    ensures
        tally_after(st, ts, a2) == tally_after(st, ts, a1),
    decreases ts.len(),
{
    if ts.len() > 0 {
        lemma_tally_ok_any(st, ts.drop_last(), a1, a2);
        let v = tally_after(st, ts.drop_last(), a1)->Ok_0;
        lemma_closes_ok_any(v.rights, ts.last().closes@, ts.last().transition_type, a1, a2);
    }
}

/// A right among those that assignments create comes from one of them.
proof fn lemma_node_rights_source(s: Seq<Assignment>, node_id: u64, w: u64, c: (OwnedRightType, OutPoint))
    requires
        node_rights(s, node_id, Some(w)) matches Ok(n) && holds(n, c),
    ensures
        exists|i: int|
            0 <= i < s.len() && (#[trigger] s[i]).right == c.0 && seal_outpoint(s[i].seal, w) == Some(c.1),
    decreases s.len(),
{
    let n = node_rights(s, node_id, Some(w))->Ok_0;
    let p = s.drop_last();
    let rs = node_rights(p, node_id, Some(w))->Ok_0;
    let k = choose|k: int| 0 <= k < n.len() && closed_by(#[trigger] n[k], c);
    if k < rs.len() {
        assert(n[k] == rs[k]);
        assert(holds(rs, c));
        lemma_node_rights_source(p, node_id, w, c);
        let i = choose|i: int|
            0 <= i < p.len() && (#[trigger] p[i]).right == c.0 && seal_outpoint(p[i].seal, w) == Some(c.1);
        assert(s[i] == p[i]);
    } else {
        assert(s[s.len() - 1] == s.last());
    }
}

/// A transition that creates no right that `c` names leaves such a right
/// absent.
proof fn lemma_step_keeps_out(v: Seq<Right>, t: Transition, all: Seq<Transition>, c: (OwnedRightType, OutPoint))
    requires
        !holds(v, c),
        !creates(t, c),
        apply_transition(v, t, all) is Ok,
    ensures
        !holds(apply_transition(v, t, all)->Ok_0, c),
{
    lemma_closes_keep_out(v, t.closes@, t.transition_type, all, c);
    let n = node_rights(t.owned_rights@, t.node_id, Some(t.witness))->Ok_0;
    if holds(n, c) {
        lemma_node_rights_source(t.owned_rights@, t.node_id, t.witness, c);
    }
    lemma_holds_concat(apply_closes(v, t.closes@, t.transition_type, all)->Ok_0, n, c);
}

/// Rights of a concatenation that a close names come from one of its parts.
proof fn lemma_holds_concat(v: Seq<Right>, n: Seq<Right>, c: (OwnedRightType, OutPoint))
    requires
        !holds(v, c),
        !holds(n, c),
    ensures
        !holds(v + n, c),
{
    assert forall|i: int| 0 <= i < (v + n).len() implies !closed_by(#[trigger] (v + n)[i], c) by {
        if i < v.len() {
            assert((v + n)[i] == v[i]);
        } else {
            assert((v + n)[i] == n[i - v.len()]);
        }
    }
}

/// A transition that closes `c` and creates no right that `c` names leaves
/// no such right unspent.
proof fn lemma_closed_right_gone(u: Seq<Right>, t1: Transition, all: Seq<Transition>, c: (OwnedRightType, OutPoint))
    requires
        apply_transition(u, t1, all) is Ok,
        t1.closes@.contains(c),
        !creates(t1, c),
    ensures
        !holds(apply_transition(u, t1, all)->Ok_0, c),
{
    let v1 = apply_closes(u, t1.closes@, t1.transition_type, all)->Ok_0;
    let n = node_rights(t1.owned_rights@, t1.node_id, Some(t1.witness))->Ok_0;
    lemma_closes_remove(u, t1.closes@, t1.transition_type, all, c);
    if holds(n, c) {
        lemma_node_rights_source(t1.owned_rights@, t1.node_id, t1.witness, c);
    }
    lemma_holds_concat(v1, n, c);
}

/// Through transitions that create no right that `c` names, a right closed
/// by `t1` stays spent.
proof fn lemma_stays_spent(
    t0: Tally,
    p: Seq<Transition>,
    t1: Transition,
    mid: Seq<Transition>,
    all: Seq<Transition>,
    c: (OwnedRightType, OutPoint),
    k: int,
)
    requires
        0 <= k <= mid.len(),
        tally_after(t0, p.push(t1) + mid.take(k), all) is Ok,
        t1.closes@.contains(c),
        !creates(t1, c),
        forall|j: int| 0 <= j < mid.len() ==> !creates(#[trigger] mid[j], c),
    ensures
        !holds(tally_after(t0, p.push(t1) + mid.take(k), all)->Ok_0.rights, c),
    decreases k,
{
    let q = p.push(t1);
    if k == 0 {
        assert(q + mid.take(0) =~= q);
        assert(q.drop_last() =~= p);
        let s0 = tally_after(t0, p, all)->Ok_0;
        lemma_closed_right_gone(s0.rights, t1, all, c);
    } else {
        assert((q + mid.take(k)).drop_last() =~= q + mid.take(k - 1));
        assert((q + mid.take(k)).last() == mid[k - 1]);
        lemma_stays_spent(t0, p, t1, mid, all, c, k - 1);
        let s = tally_after(t0, q + mid.take(k - 1), all)->Ok_0;
        lemma_step_keeps_out(s.rights, mid[k - 1], all, c);
    }
}

/// A right cannot be spent twice. When the accepted transitions are `p`,
/// then `t1`, which closes right `c` and creates no right that `c` names,
/// then `mid`, none of which creates such a right anew, a transfer `t2`
/// presented after them that closes `c` again makes the whole projection
/// fail with `InsufficientRights`, so no asset is returned.
pub proof fn lemma_double_spend_rejected(
    g: Genesis,
    p: Seq<Transition>,
    t1: Transition,
    mid: Seq<Transition>,
    t2: Transition,
    c: (OwnedRightType, OutPoint),
)
    requires
        projected_tally(g, p.push(t1) + mid) is Ok,
        t1.closes@.contains(c),
        !creates(t1, c),
        forall|j: int| 0 <= j < mid.len() ==> !creates(#[trigger] mid[j], c),
        t2.transition_type == TransitionType::Transfer,
        t2.closes@.contains(c),
    ensures
        projection(g, p.push(t1) + mid.push(t2)) == Err::<(Tally, NominationView), Error>(
            Error::InsufficientRights,
        ),
{
    let a = p.push(t1) + mid;
    let f = p.push(t1) + mid.push(t2);
    assert(f =~= a.push(t2));
    assert(f.drop_last() =~= a);
    let u = node_rights(g.owned_rights@, g.contract_id, None)->Ok_0;
    let t0 = Tally { rights: u, known: genesis_supply(g), burned: 0, replaced: 0 };
    lemma_tally_ok_any(t0, a, a, f);
    assert(mid.take(mid.len() as int) =~= mid);
    lemma_stays_spent(t0, p, t1, mid, f, c, mid.len() as int);
    let s = tally_after(t0, a, f)->Ok_0;
    lemma_closes_keep_out(s.rights, t2.closes@, t2.transition_type, f, c);
}

/// Supply accounting: a genesis that issues 1000 and holds a burn & replace
/// right, followed by one burn of 100 that closes that right and creates
/// nothing, is accepted with known supply 1000, burned supply 100, replaced
/// supply 0, and so 900 left to spend.
pub proof fn lemma_burn_accounting(g: Genesis, t: Transition, c: (OwnedRightType, OutPoint))
    requires
        subschema_of(g.schema_id@) is Some,
        genesis_requirements(g),
        genesis_supply(g) == 1000,
        node_rights(g.owned_rights@, g.contract_id, None) matches Ok(u) && holds(u, c),
        c.0 == OwnedRightType::BurnReplace,
        t.transition_type == TransitionType::Burn,
        t.closes@ == seq![c],
        t.owned_rights@.len() == 0,
        field_u64(t.metadata@, FieldType::BurnedSupply) == Some(100u64),
    ensures
        projected_tally(g, seq![t]) matches Ok(r) && {
            &&& r.known == 1000
            &&& r.burned == 100
            &&& r.replaced == 0
            &&& r.known - r.burned - r.replaced == 900
        },
{
    let ts = seq![t];
    let u = node_rights(g.owned_rights@, g.contract_id, None)->Ok_0;
    let t0 = Tally { rights: u, known: genesis_supply(g), burned: 0, replaced: 0 };
    assert(ts.drop_last() =~= Seq::<Transition>::empty());
    assert(ts.last() == t);
    assert(tally_after(t0, ts.drop_last(), ts) == Ok::<Tally, Error>(t0));
    assert(t.closes@.drop_last() =~= Seq::<(OwnedRightType, OutPoint)>::empty());
    assert(t.closes@.last() == c);
    assert(apply_closes(u, t.closes@.drop_last(), t.transition_type, ts) == Ok::<Seq<Right>, Error>(u));
    assert(apply_closes(u, t.closes@, t.transition_type, ts) == Ok::<Seq<Right>, Error>(without(u, c)));
    assert(node_rights(t.owned_rights@, t.node_id, Some(t.witness)) == Ok::<Seq<Right>, Error>(
        Seq::empty(),
    ));
    assert(apply_transition(u, t, ts) is Ok);
    assert(issued_by(t) == 0);
    assert(burned_by(t) == 100);
    assert(replaced_by(t) == 0);
    assert(tally_step(t0, t, ts) is Ok);
    assert(tally_after(t0, ts, ts) == tally_step(t0, t, ts));
}

/// Allocation `a` comes no later than `b`: by transaction, then output,
/// then amount.
pub open spec fn alloc_le(a: (OutPoint, u64), b: (OutPoint, u64)) -> bool {
    ||| a.0.txid < b.0.txid
    ||| a.0.txid == b.0.txid && a.0.vout < b.0.vout
    ||| a.0.txid == b.0.txid && a.0.vout == b.0.vout && a.1 <= b.1
}

/// The allocations `s` are in ascending order.
pub open spec fn sorted_allocations(s: Seq<(OutPoint, u64)>) -> bool {
    forall|i: int, j: int| 0 <= i < j < s.len() ==> alloc_le(#[trigger] s[i], #[trigger] s[j])
}

/// Compares two allocations.
fn alloc_before(a: (OutPoint, u64), b: (OutPoint, u64)) -> (r: bool)
    ensures
        r == alloc_le(a, b),
{
    a.0.txid < b.0.txid || (a.0.txid == b.0.txid && (a.0.vout < b.0.vout || (a.0.vout == b.0.vout
        && a.1 <= b.1)))
}

/// The allocations `s` in ascending order.
fn sort_allocations(s: &Vec<(OutPoint, u64)>) -> (r: Vec<(OutPoint, u64)>)
    ensures
        sorted_allocations(r@),
        r@.to_multiset() == s@.to_multiset(),
{
    let mut out: Vec<(OutPoint, u64)> = Vec::new();
    let mut i: usize = 0;
    assert(s@.take(0) =~= Seq::<(OutPoint, u64)>::empty());
    while i < s.len()
        invariant
            i <= s@.len(),
            sorted_allocations(out@),
            out@.to_multiset() == s@.take(i as int).to_multiset(),
        decreases s@.len() - i,
    {
        let x = s[i];
        let mut p: usize = 0;
        while p < out.len() && alloc_before(out[p], x)
            invariant
                p <= out@.len(),
                forall|k: int| 0 <= k < p ==> alloc_le(#[trigger] out@[k], x),
            decreases out@.len() - p,
        {
            p = p + 1;
        }
        let ghost before = out@;
        out.insert(p, x);
        proof {
            assert(s@.take(i + 1) =~= s@.take(i as int).push(x));
            assert(out@.remove(p as int) =~= before);
            assert(out@[p as int] == x);
            let m = out@.to_multiset();
            out@.to_multiset_ensures();
            s@.take(i as int).to_multiset_ensures();
            assert(out@.remove(p as int).to_multiset() =~= m.remove(x));
            assert(out@.contains(x));
            assert(m.count(x) > 0);
            assert(m =~= m.remove(x).insert(x));
            assert(out@.to_multiset() =~= before.to_multiset().insert(x));
            assert forall|a: int, b: int| 0 <= a < b < out@.len() implies alloc_le(
                #[trigger] out@[a],
                #[trigger] out@[b],
            ) by {
                if p < before.len() {
                    assert(!alloc_le(before[p as int], x));
                }
                if a < p && b > p {
                    assert(alloc_le(before[a], x));
                    assert(alloc_le(before[a], before[b - 1]));
                } else if a == p && b > p {
                    assert(alloc_le(before[p as int], before[b - 1]));
                } else if b == p {
                    assert(alloc_le(before[a], x));
                } else if b < p {
                    assert(alloc_le(before[a], before[b]));
                } else {
                    assert(alloc_le(before[a - 1], before[b - 1]));
                }
            }
        }
        i = i + 1;
    }
    assert(s@.take(i as int) =~= s@);
    out
}

/// The ascending order is canonical: two sorted lists of allocations that
/// hold the same allocations, counted with multiplicity, are equal. So an
/// asset's known allocations depend only on which allocations are unspent,
/// not on the order in which they were created.
pub proof fn lemma_sorted_allocations_unique(a: Seq<(OutPoint, u64)>, b: Seq<(OutPoint, u64)>)
    requires
        sorted_allocations(a),
        sorted_allocations(b),
        a.to_multiset() == b.to_multiset(),
    ensures
        a == b,
    decreases a.len(),
{
    a.to_multiset_ensures();
    b.to_multiset_ensures();
    if a.len() == 0 {
        assert(b.len() == 0);
        assert(a =~= b);
    } else {
        assert(b.len() == a.len());
        assert(a.contains(a[0]));
        assert(b.to_multiset().count(a[0]) > 0);
        assert(b.contains(a[0]));
        let k = choose|k: int| 0 <= k < b.len() && b[k] == a[0];
        assert(b.contains(b[0]));
        assert(a.to_multiset().count(b[0]) > 0);
        assert(a.contains(b[0]));
        let m = choose|m: int| 0 <= m < a.len() && a[m] == b[0];
        if k > 0 {
            assert(alloc_le(b[0], b[k]));
        }
        if m > 0 {
            assert(alloc_le(a[0], a[m]));
        }
        assert(a[0] == b[0]);
        assert(a.remove(0) =~= a.drop_first());
        assert(b.remove(0) =~= b.drop_first());
        assert(a.drop_first().to_multiset() =~= b.drop_first().to_multiset());
        assert forall|i: int, j: int| 0 <= i < j < a.drop_first().len() implies alloc_le(
            #[trigger] a.drop_first()[i],
            #[trigger] a.drop_first()[j],
        ) by {
            assert(alloc_le(a[i + 1], a[j + 1]));
        }
        assert forall|i: int, j: int| 0 <= i < j < b.drop_first().len() implies alloc_le(
            #[trigger] b.drop_first()[i],
            #[trigger] b.drop_first()[j],
        ) by {
            assert(alloc_le(b[i + 1], b[j + 1]));
        }
        lemma_sorted_allocations_unique(a.drop_first(), b.drop_first());
        assert forall|i: int| 0 <= i < a.len() implies a[i] == b[i] by {
            if i > 0 {
                assert(a[i] == a.drop_first()[i - 1]);
                assert(b[i] == b.drop_first()[i - 1]);
            }
        }
        assert(a =~= b);
    }
}

/// Cached view of an RGB20 asset, projected from genesis and the accepted
/// transitions. It holds no truth of its own: it is rebuilt from the ledger
/// data whenever that data changes.
#[derive(Clone, PartialEq, Eq, Hash, Debug)]
pub struct Asset {
    /// Contract identifier.
    pub id: u64,
    /// Schema variant the asset is issued under.
    pub subschema: Subschema,
    /// Issuance time, as a UNIX timestamp.
    pub issued: i64,
    /// Asset ticker.
    pub ticker: String,
    /// Asset name.
    pub name: String,
    /// Ricardian contract text; empty when there is none.
    pub contract: String,
    /// Number of digits after the decimal point.
    pub precision: u8,
    /// Unspent revealed asset allocations: output and amount, in ascending
    /// order.
    pub known_allocations: Vec<(OutPoint, u64)>,
    /// Supply issued by genesis and every accepted issuance.
    pub known_supply: u64,
    /// Known supply plus what the unspent inflation rights may still issue,
    /// capped at the largest `u64`: an inflation right without a limit
    /// carries that largest amount.
    pub max_supply: u64,
    /// No inflation right is left unspent, so no more can be issued.
    pub is_total_supply_known: bool,
    /// Supply burned without replacement.
    pub burned_supply: u64,
    /// Supply burned and replaced.
    pub replaced_supply: u64,
    /// An unspent renomination right exists.
    pub can_be_renominated: bool,
    /// An unspent inflation right exists.
    pub can_be_inflated: bool,
    /// An unspent burn & replace right exists.
    pub can_be_burned: bool,
    /// The schema is the full one and an unspent burn & replace right exists.
    pub can_be_replaced: bool,
}

/// `a` is the asset whose genesis is `g`, whose tally is `t` and whose
/// nomination in force is `n`.
pub open spec fn asset_matches(a: Asset, g: Genesis, t: Tally, n: NominationView) -> bool {
    let u = t.rights;
    &&& subschema_of(g.schema_id@) == Some(a.subschema)
    &&& a.id == g.contract_id
    &&& field_i64(g.metadata@, FieldType::Timestamp) == Some(a.issued)
    &&& a.ticker@ == n.ticker
    &&& a.name@ == n.name
    &&& a.contract@ == match n.ricardian_contract {
        Some(c) => c,
        None => Seq::empty(),
    }
    &&& a.precision == n.decimal_precision
    &&& a.known_allocations@.to_multiset() == allocations(u).to_multiset()
    &&& sorted_allocations(a.known_allocations@)
    &&& a.known_supply == t.known
    &&& a.burned_supply == t.burned
    &&& a.replaced_supply == t.replaced
    &&& a.burned_supply + a.replaced_supply <= a.known_supply
    &&& a.max_supply == clip(t.known + inflation_left(u))
    &&& a.is_total_supply_known == !has_kind(u, OwnedRightType::Inflation)
    &&& a.can_be_inflated == has_kind(u, OwnedRightType::Inflation)
    &&& a.can_be_renominated == has_kind(u, OwnedRightType::Renomination)
    &&& a.can_be_burned == has_kind(u, OwnedRightType::BurnReplace)
    &&& a.can_be_replaced == (a.subschema == Subschema::Full && has_kind(
        u,
        OwnedRightType::BurnReplace,
    ))
}

impl Asset {
    /// Projects the asset from its genesis and the accepted transitions,
    /// taken in an order where each transition follows those whose rights it
    /// closes. Ticker, name, contract and precision are those of the last
    /// accepted renomination, or of genesis. Fails on the first
    /// inconsistency, returning no partial view.
    pub fn project(genesis: &Genesis, transitions: &Vec<Transition>) -> (r: Result<Asset, Error>)
        ensures
            match r {
                Err(e) => projection(*genesis, transitions@) == Err::<(Tally, NominationView), Error>(e),
                Ok(a) => projection(*genesis, transitions@) matches Ok((t, n)) && asset_matches(
                    a,
                    *genesis,
                    t,
                    n,
                ),
            },
    {
        let subschema = match subschema_from_id(genesis.schema_id.as_str()) {
            Some(s) => s,
            None => {
                return Err(Error::WrongSchemaId);
            },
        };
        let meta = &genesis.metadata;
        let ticker = match read_str(meta, FieldType::Ticker) {
            Some(t) => t,
            None => {
                return Err(Error::UnsatisfiedSchemaRequirement);
            },
        };
        if !is_ticker(ticker.as_str()) {
            return Err(Error::UnsatisfiedSchemaRequirement);
        }
        if read_str(meta, FieldType::Name).is_none() || read_u8(meta, FieldType::Precision).is_none() {
            return Err(Error::UnsatisfiedSchemaRequirement);
        }
        let issued = match read_i64(meta, FieldType::Timestamp) {
            Some(t) => t,
            None => {
                return Err(Error::UnsatisfiedSchemaRequirement);
            },
        };
        let supply = match read_u64(meta, FieldType::IssuedSupply) {
            Some(v) => v,
            None => {
                return Err(Error::UnsatisfiedSchemaRequirement);
            },
        };
        let mut u = match rights_of(&genesis.owned_rights, genesis.contract_id, None) {
            Ok(u) => u,
            Err(e) => {
                return Err(e);
            },
        };
        let ghost t0 = Tally { rights: u@, known: supply as nat, burned: 0, replaced: 0 };
        let ghost ts = transitions@;
        let mut known: u64 = supply;
        let mut burned: u64 = 0;
        let mut replaced: u64 = 0;
        let mut burned_over = false;
        let mut replaced_over = false;
        let mut i: usize = 0;
        assert(ts.take(0) =~= Seq::<Transition>::empty());
        while i < transitions.len()
            invariant
                i <= ts.len(),
                ts == transitions@,
                projected_tally(*genesis, ts) == match tally_after(t0, ts, ts) {
                    Err(e) => Err(e),
                    Ok(t) => if t.burned + t.replaced > t.known {
                        Err(Error::InconsistentSupply)
                    } else {
                        Ok(t)
                    },
                },
                tally_after(t0, ts.take(i as int), ts) matches Ok(t) && {
                    &&& t.rights == u@
                    &&& t.known == known as nat
                    &&& (burned_over ==> t.burned > u64::MAX)
                    &&& (!burned_over ==> t.burned == burned as nat)
                    &&& (replaced_over ==> t.replaced > u64::MAX)
                    &&& (!replaced_over ==> t.replaced == replaced as nat)
                },
            decreases ts.len() - i,
        {
            proof {
                assert(ts.take(i + 1).drop_last() =~= ts.take(i as int));
                assert(ts.take(i + 1).last() == ts[i as int]);
            }
            let t = &transitions[i];
            u = match transit(u, t, transitions) {
                Ok(v) => v,
                Err(e) => {
                    proof {
                        lemma_tally_prefix_err(t0, ts, ts, i + 1);
                    }
                    return Err(e);
                },
            };
            let tt = t.transition_type;
            let issue = counted_amount(
                t,
                FieldType::IssuedSupply,
                tt == TransitionType::Issue || tt == TransitionType::BurnAndReplace,
            );
            let burn = counted_amount(t, FieldType::BurnedSupply, tt == TransitionType::Burn);
            let replace = counted_amount(
                t,
                FieldType::BurnedSupply,
                tt == TransitionType::BurnAndReplace,
            );
            known = match known.checked_add(issue) {
                Some(k) => k,
                None => {
                    proof {
                        lemma_tally_prefix_err(t0, ts, ts, i + 1);
                    }
                    return Err(Error::InconsistentSupply);
                },
            };
            if !burned_over {
                match burned.checked_add(burn) {
                    Some(b) => {
                        burned = b;
                    },
                    None => {
                        burned_over = true;
                    },
                }
            }
            if !replaced_over {
                match replaced.checked_add(replace) {
                    Some(r) => {
                        replaced = r;
                    },
                    None => {
                        replaced_over = true;
                    },
                }
            }
            i = i + 1;
        }
        assert(ts.take(i as int) =~= ts);
        if burned_over || replaced_over {
            return Err(Error::InconsistentSupply);
        }
        match burned.checked_add(replaced) {
            Some(sum) => {
                if sum > known {
                    return Err(Error::InconsistentSupply);
                }
            },
            None => {
                return Err(Error::InconsistentSupply);
            },
        }
        let nomination = match crate::nomination::nomination_in_force(genesis, transitions) {
            Ok(n) => n,
            Err(e) => {
                return Err(e);
            },
        };
        let inflatable = any_of_kind(&u, OwnedRightType::Inflation);
        let burnable = any_of_kind(&u, OwnedRightType::BurnReplace);
        let max_supply = known.saturating_add(inflation_of(&u));
        let contract = match nomination.ricardian_contract {
            Some(c) => c,
            None => String::new(),
        };
        Ok(Asset {
            id: genesis.contract_id,
            subschema,
            issued,
            ticker: nomination.ticker,
            name: nomination.name,
            contract,
            precision: nomination.decimal_precision,
            known_allocations: sort_allocations(&allocations_of(&u)),
            known_supply: known,
            max_supply,
            is_total_supply_known: !inflatable,
            burned_supply: burned,
            replaced_supply: replaced,
            can_be_renominated: any_of_kind(&u, OwnedRightType::Renomination),
            can_be_inflated: inflatable,
            can_be_burned: burnable,
            can_be_replaced: subschema == Subschema::Full && burnable,
        })
    }

    /// Supply that holders can still spend: known supply less the burned and
    /// the replaced supply, never below zero. A projected asset never burns
    /// and replaces more than it issued, so there the difference is exact.
    pub fn spendable_supply(&self) -> (r: u64)
        ensures
            r as int == if self.known_supply >= self.burned_supply + self.replaced_supply {
                self.known_supply - self.burned_supply - self.replaced_supply
            } else {
                0
            },
    {
        self.known_supply.saturating_sub(self.burned_supply).saturating_sub(self.replaced_supply)
    }

    /// All known allocations: each output with the amount it holds; for a
    /// projected asset, in ascending order.
    pub fn known_coins(&self) -> (r: &Vec<(OutPoint, u64)>)
        ensures
            r@ == self.known_allocations@,
    {
        &self.known_allocations
    }

    /// The known allocations sitting on output `outpoint`.
    pub fn outpoint_coins(&self, outpoint: OutPoint) -> (r: Vec<u64>)
        ensures
            r@ == coins_at(self.known_allocations@, outpoint),
    {
        let mut out: Vec<u64> = Vec::new();
        let mut i: usize = 0;
        assert(self.known_allocations@.take(0) =~= Seq::<(OutPoint, u64)>::empty());
        while i < self.known_allocations.len()
            invariant
                i <= self.known_allocations@.len(),
                out@ == coins_at(self.known_allocations@.take(i as int), outpoint),
            decreases self.known_allocations@.len() - i,
        {
            proof {
                let s = self.known_allocations@;
                assert(s.take(i + 1).drop_last() =~= s.take(i as int));
            }
            let (op, v) = self.known_allocations[i];
            if op == outpoint {
                out.push(v);
            }
            i = i + 1;
        }
        assert(self.known_allocations@.take(i as int) =~= self.known_allocations@);
        out
    }
}

/// Amounts of the allocations of `s` that sit on `outpoint`, in order.
pub open spec fn coins_at(s: Seq<(OutPoint, u64)>, outpoint: OutPoint) -> Seq<u64>
    decreases s.len(),
{
    if s.len() == 0 {
        Seq::empty()
    } else if s.last().0 == outpoint {
        coins_at(s.drop_last(), outpoint).push(s.last().1)
    } else {
        coins_at(s.drop_last(), outpoint)
    }
}

} // verus!
