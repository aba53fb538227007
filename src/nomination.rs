//! Asset nomination (ticker, name, contract, precision) and the chain of
//! renominations that change it.

use vstd::prelude::*;

use crate::asset::subschema_of;
use crate::contract::{
    Assignment, Error, FieldValue, Genesis, OutPoint, Seal, Transition, field, field_str, field_u8,
    find_field, is_ticker, is_valid_ticker, read_str, read_u8,
};
use crate::schema::{FieldType, OwnedRightType, TransitionType};

verus! {

/// Model of a nomination.
pub struct NominationView {
    /// Asset ticker.
    pub ticker: Seq<char>,
    /// Full asset name.
    pub name: Seq<char>,
    /// Ricardian contract text, if any.
    pub ricardian_contract: Option<Seq<char>>,
    /// Number of digits after the decimal point.
    pub decimal_precision: u8,
}

/// Asset meta-information: ticker, name, Ricardian contract and decimal
/// precision, as set by genesis and changed by renominations.
#[derive(Clone, PartialEq, Eq, PartialOrd, Ord, Hash, Debug)]
pub struct Nomination {
    /// Asset ticker, three to eight upper-case letters.
    pub ticker: String,
    /// Full asset name.
    pub name: String,
    /// Ricardian contract text, if any.
    pub ricardian_contract: Option<String>,
    /// Number of digits after the decimal point.
    pub decimal_precision: u8,
}

impl View for Nomination {
    type V = NominationView;

    open spec fn view(&self) -> NominationView {
        NominationView {
            ticker: self.ticker@,
            name: self.name@,
            ricardian_contract: match self.ricardian_contract {
                Some(c) => Some(c@),
                None => None,
            },
            decimal_precision: self.decimal_precision,
        }
    }
}

/// Model of a renomination.
pub struct RenominationView {
    /// Identifier of the renomination transition.
    pub node_id: u64,
    /// Sequential number of the epoch, starting at one.
    pub no: usize,
    /// Contract the renomination belongs to.
    pub contract_id: u64,
    /// Output whose renomination right it closed.
    pub closes: OutPoint,
    /// Output controlling the next renomination; absent when the chain ends.
    pub seal: Option<OutPoint>,
    /// Witness transaction of the renomination.
    pub witness: u64,
    /// Nomination in force after it.
    pub nomination: NominationView,
}

/// A renomination: one epoch of the chain of changes to the nomination.
#[derive(Clone, PartialEq, Eq, PartialOrd, Ord, Hash, Debug)]
pub struct Renomination {
    /// Identifier of the renomination transition.
    pub node_id: u64,
    /// Sequential number of the epoch. There is no epoch zero: the first
    /// closes the renomination right that genesis assigned.
    pub no: usize,
    /// Contract the renomination belongs to.
    pub contract_id: u64,
    /// Output whose renomination right it closed.
    pub closes: OutPoint,
    /// Output controlling the next renomination; absent when no further
    /// renomination is allowed.
    pub seal: Option<OutPoint>,
    /// Witness transaction of the renomination.
    pub witness: u64,
    /// Nomination in force after it.
    pub nomination: Nomination,
}

impl View for Renomination {
    type V = RenominationView;

    open spec fn view(&self) -> RenominationView {
        RenominationView {
            node_id: self.node_id,
            no: self.no,
            contract_id: self.contract_id,
            closes: self.closes,
            seal: self.seal,
            witness: self.witness,
            nomination: self.nomination@,
        }
    }
}

/// The nomination that genesis `g` sets.
pub open spec fn genesis_nomination(g: Genesis) -> Result<NominationView, Error> {
    let meta = g.metadata@;
    if subschema_of(g.schema_id@) is None {
        Err(Error::WrongSchemaId)
    } else {
        match (
            field_str(meta, FieldType::Ticker),
            field_str(meta, FieldType::Name),
            field_u8(meta, FieldType::Precision),
        ) {
            (Some(t), Some(n), Some(p)) => if is_valid_ticker(t) {
                Ok(
                    NominationView {
                        ticker: t,
                        name: n,
                        ricardian_contract: field_str(meta, FieldType::Contract),
                        decimal_precision: p,
                    },
                )
            } else {
                Err(Error::UnsatisfiedSchemaRequirement)
            },
            _ => Err(Error::UnsatisfiedSchemaRequirement),
        }
    }
}

/// The output of the first renomination right among `assigns`, from index
/// `i`, made by node `node_id` with witness `witness` (absent for genesis).
pub open spec fn renomination_seal_from(
    assigns: Seq<Assignment>,
    node_id: u64,
    witness: Option<u64>,
    i: int,
) -> Result<Option<OutPoint>, Error>
    decreases assigns.len() - i,
{
    if 0 <= i < assigns.len() {
        if assigns[i].right == OwnedRightType::Renomination {
            match assigns[i].seal {
                Seal::Revealed(op) => Ok(Some(op)),
                Seal::WitnessVout(v) => match witness {
                    Some(w) => Ok(Some(OutPoint { txid: w, vout: v })),
                    None => Err(Error::GenesisSeal),
                },
                Seal::Concealed(_) => Err(Error::EpochSealConfidential(node_id)),
            }
        } else {
            renomination_seal_from(assigns, node_id, witness, i + 1)
        }
    } else {
        Ok(None)
    }
}

/// The output of the first renomination right among `assigns`.
pub open spec fn renomination_seal(assigns: Seq<Assignment>, node_id: u64, witness: Option<u64>) -> Result<
    Option<OutPoint>,
    Error,
> {
    renomination_seal_from(assigns, node_id, witness, 0)
}

/// The nomination after a renomination with metadata `meta`: each field it
/// carries replaces the previous value, each field it omits is inherited.
pub open spec fn renominated(prev: NominationView, meta: Seq<(FieldType, FieldValue)>) -> Result<
    NominationView,
    Error,
> {
    let ticker = match field(meta, FieldType::Ticker) {
        None => Some(prev.ticker),
        Some(FieldValue::AsciiString(t)) => if is_valid_ticker(t@) {
            Some(t@)
        } else {
            None
        },
        _ => None,
    };
    let name = match field(meta, FieldType::Name) {
        None => Some(prev.name),
        Some(FieldValue::AsciiString(n)) => Some(n@),
        _ => None,
    };
    let contract = match field(meta, FieldType::Contract) {
        None => Some(prev.ricardian_contract),
        Some(FieldValue::AsciiString(c)) => Some(Some(c@)),
        _ => None,
    };
    let precision = match field(meta, FieldType::Precision) {
        None => Some(prev.decimal_precision),
        Some(FieldValue::U8(p)) => Some(p),
        _ => None,
    };
    match (ticker, name, contract, precision) {
        (Some(t), Some(n), Some(c), Some(p)) => Ok(
            NominationView { ticker: t, name: n, ricardian_contract: c, decimal_precision: p },
        ),
        _ => Err(Error::UnsatisfiedSchemaRequirement),
    }
}

/// State of the renomination chain: the nomination in force, the seal of the
/// next renomination (absent once the chain has ended) and the epochs so far.
pub struct ChainState {
    /// Nomination in force.
    pub nomination: NominationView,
    /// Output controlling the next renomination.
    pub seal: Option<OutPoint>,
    /// Renominations so far, in order.
    pub epochs: Seq<RenominationView>,
}

/// The chain after transition `t` of contract `contract_id`. Transitions
/// other than renominations leave it as it is; a renomination must close the
/// seal that the chain designates.
pub open spec fn chain_step(st: ChainState, contract_id: u64, t: Transition) -> Result<ChainState, Error> {
    if t.transition_type != TransitionType::Renomination {
        Ok(st)
    } else {
        match st.seal {
            None => Err(Error::InsufficientRights),
            Some(s) => if !t.closes@.contains((OwnedRightType::Renomination, s)) {
                Err(Error::InsufficientRights)
            } else {
                match renominated(st.nomination, t.metadata@) {
                    Err(e) => Err(e),
                    Ok(n) => match renomination_seal(t.owned_rights@, t.node_id, Some(t.witness)) {
                        Err(e) => Err(e),
                        Ok(next) => Ok(
                            ChainState {
                                nomination: n,
                                seal: next,
                                epochs: st.epochs.push(
                                    RenominationView {
                                        node_id: t.node_id,
                                        no: (st.epochs.len() + 1) as usize,
                                        contract_id,
                                        closes: s,
                                        seal: next,
                                        witness: t.witness,
                                        nomination: n,
                                    },
                                ),
                            },
                        ),
                    },
                }
            },
        }
    }
}

/// The chain after the transitions `ts`, taken in order.
pub open spec fn chain_after(st: ChainState, contract_id: u64, ts: Seq<Transition>) -> Result<
    ChainState,
    Error,
>
    decreases ts.len(),
{
    if ts.len() == 0 {
        Ok(st)
    } else {
        match chain_after(st, contract_id, ts.drop_last()) {
            Err(e) => Err(e),
            Ok(s) => chain_step(s, contract_id, ts.last()),
        }
    }
}

/// The renominations of the contract founded by `g`, over the transitions `ts`.
pub open spec fn renomination_chain(g: Genesis, ts: Seq<Transition>) -> Result<
    Seq<RenominationView>,
    Error,
> {
    match genesis_nomination(g) {
        Err(e) => Err(e),
        Ok(n) => match renomination_seal(g.owned_rights@, g.contract_id, None) {
            Err(e) => Err(e),
            Ok(s) => match chain_after(
                ChainState { nomination: n, seal: s, epochs: Seq::empty() },
                g.contract_id,
                ts,
            ) {
                Err(e) => Err(e),
                Ok(st) => Ok(st.epochs),
            },
        },
    }
}

/// The chain of renominations is linear: a renomination is accepted only
/// when it closes the seal that the chain designates, and then becomes the
/// next epoch, numbered one above the last; once the chain has ended (no
/// seal designated), every further renomination is rejected with
/// `InsufficientRights`.
pub proof fn lemma_renomination_chain_linear(st: ChainState, contract_id: u64, t: Transition)
    requires
        t.transition_type == TransitionType::Renomination,
        st.epochs.len() < usize::MAX,
    ensures
        st.seal is None ==> chain_step(st, contract_id, t) == Err::<ChainState, Error>(
            Error::InsufficientRights,
        ),
        chain_step(st, contract_id, t) matches Ok(next) ==> {
            &&& st.seal matches Some(s) && t.closes@.contains((OwnedRightType::Renomination, s))
            &&& next.epochs.len() == st.epochs.len() + 1
            &&& next.epochs.drop_last() == st.epochs
            &&& next.epochs.last().no == st.epochs.len() + 1
            &&& Some(next.epochs.last().closes) == st.seal
            &&& next.epochs.last().seal == next.seal
        },
{
    if let Ok(next) = chain_step(st, contract_id, t) {
        assert(next.epochs.drop_last() =~= st.epochs);
    }
}

/// The seal that the chain designates is the one its last epoch declared.
proof fn lemma_chain_seal(st: ChainState, contract_id: u64, ts: Seq<Transition>)
    requires
        chain_after(st, contract_id, ts) is Ok,
    ensures
        chain_after(st, contract_id, ts)->Ok_0.epochs.len() >= st.epochs.len(),
        chain_after(st, contract_id, ts)->Ok_0.epochs.len() > st.epochs.len() ==> chain_after(
            st,
            contract_id,
            ts,
        )->Ok_0.seal == chain_after(st, contract_id, ts)->Ok_0.epochs.last().seal,
    decreases ts.len(),
{
    if ts.len() > 0 {
        lemma_chain_seal(st, contract_id, ts.drop_last());
    }
}

/// End to end, a chain that has ended stays ended: when the last accepted
/// renomination designates no next seal, a further renomination `r` is
/// rejected with `InsufficientRights`.
pub proof fn lemma_ended_chain_rejects(g: Genesis, ts: Seq<Transition>, r: Transition)
    requires
        renomination_chain(g, ts) matches Ok(epochs) && epochs.len() > 0 && epochs.last().seal is None,
        r.transition_type == TransitionType::Renomination,
    ensures
        renomination_chain(g, ts.push(r)) == Err::<Seq<RenominationView>, Error>(
            Error::InsufficientRights,
        ),
{
    let n = genesis_nomination(g)->Ok_0;
    let s = renomination_seal(g.owned_rights@, g.contract_id, None)->Ok_0;
    let st0 = ChainState { nomination: n, seal: s, epochs: Seq::empty() };
    assert(ts.push(r).drop_last() =~= ts);
    lemma_chain_seal(st0, g.contract_id, ts);
}

/// Models of a list of renominations.
pub open spec fn views(rs: Seq<Renomination>) -> Seq<RenominationView> {
    rs.map_values(|r: Renomination| r@)
}

/// A copy of an optional string.
fn copy_text(s: &Option<String>) -> (r: Option<String>)
    ensures
        match (r, *s) {
            (Some(a), Some(b)) => a@ == b@,
            (None, None) => true,
            _ => false,
        },
{
    match s {
        Some(c) => Some(c.clone()),
        None => None,
    }
}

/// A copy of a nomination.
fn copy_nomination(n: &Nomination) -> (r: Nomination)
    ensures
        r@ == n@,
{
    Nomination {
        ticker: n.ticker.clone(),
        name: n.name.clone(),
        ricardian_contract: copy_text(&n.ricardian_contract),
        decimal_precision: n.decimal_precision,
    }
}

impl Nomination {
    /// Reads the nomination that genesis sets: ticker, name and precision
    /// are required, the Ricardian contract is optional.
    pub fn from_genesis(genesis: &Genesis) -> (r: Result<Nomination, Error>)
        ensures
            match r {
                Ok(n) => genesis_nomination(*genesis) == Ok::<NominationView, Error>(n@),
                Err(e) => genesis_nomination(*genesis) == Err::<NominationView, Error>(e),
            },
    {
        if crate::asset::subschema_from_id(genesis.schema_id.as_str()).is_none() {
            return Err(Error::WrongSchemaId);
        }
        let meta = &genesis.metadata;
        let ticker = read_str(meta, FieldType::Ticker);
        let name = read_str(meta, FieldType::Name);
        let precision = read_u8(meta, FieldType::Precision);
        match (ticker, name, precision) {
            (Some(t), Some(n), Some(p)) => {
                if is_ticker(t.as_str()) {
                    Ok(
                        Nomination {
                            ticker: t,
                            name: n,
                            ricardian_contract: read_str(meta, FieldType::Contract),
                            decimal_precision: p,
                        },
                    )
                } else {
                    Err(Error::UnsatisfiedSchemaRequirement)
                }
            },
            _ => Err(Error::UnsatisfiedSchemaRequirement),
        }
    }
}

/// Finds the output of the first renomination right among `assigns`.
fn seal_of(assigns: &Vec<Assignment>, node_id: u64, witness: Option<u64>) -> (r: Result<
    Option<OutPoint>,
    Error,
>)
    ensures
        r == renomination_seal(assigns@, node_id, witness),
{
    let mut i: usize = 0;
    while i < assigns.len()
        invariant
            i <= assigns@.len(),
            renomination_seal(assigns@, node_id, witness) == renomination_seal_from(
                assigns@,
                node_id,
                witness,
                i as int,
            ),
        decreases assigns@.len() - i,
    {
        let a = assigns[i];
        if a.right == OwnedRightType::Renomination {
            return match a.seal {
                Seal::Revealed(op) => Ok(Some(op)),
                Seal::WitnessVout(v) => match witness {
                    Some(w) => Ok(Some(OutPoint { txid: w, vout: v })),
                    None => Err(Error::GenesisSeal),
                },
                Seal::Concealed(_) => Err(Error::EpochSealConfidential(node_id)),
            };
        }
        i = i + 1;
    }
    Ok(None)
}

/// The nomination after a renomination with metadata `meta`.
fn renominate(prev: &Nomination, meta: &Vec<(FieldType, FieldValue)>) -> (r: Result<
    Nomination,
    Error,
>)
    ensures
        match r {
            Ok(n) => renominated(prev@, meta@) == Ok::<NominationView, Error>(n@),
            Err(e) => renominated(prev@, meta@) == Err::<NominationView, Error>(e),
        },
{
    let ticker = match find_field(meta, FieldType::Ticker) {
        None => prev.ticker.clone(),
        Some(j) => match &meta[j].1 {
            FieldValue::AsciiString(t) => {
                if is_ticker(t.as_str()) {
                    t.clone()
                } else {
                    return Err(Error::UnsatisfiedSchemaRequirement);
                }
            },
            _ => {
                return Err(Error::UnsatisfiedSchemaRequirement);
            },
        },
    };
    let name = match find_field(meta, FieldType::Name) {
        None => prev.name.clone(),
        Some(j) => match &meta[j].1 {
            FieldValue::AsciiString(n) => n.clone(),
            _ => {
                return Err(Error::UnsatisfiedSchemaRequirement);
            },
        },
    };
    let contract = match find_field(meta, FieldType::Contract) {
        None => copy_text(&prev.ricardian_contract),
        Some(j) => match &meta[j].1 {
            FieldValue::AsciiString(c) => Some(c.clone()),
            _ => {
                return Err(Error::UnsatisfiedSchemaRequirement);
            },
        },
    };
    let precision = match find_field(meta, FieldType::Precision) {
        None => prev.decimal_precision,
        Some(j) => match &meta[j].1 {
            FieldValue::U8(p) => *p,
            _ => {
                return Err(Error::UnsatisfiedSchemaRequirement);
            },
        },
    };
    let r = Nomination { ticker, name, ricardian_contract: contract, decimal_precision: precision };
    proof {
        assert(r@.ricardian_contract == renominated(prev@, meta@)->Ok_0.ricardian_contract);
    }
    Ok(r)
}

/// Tells whether `t` closes the renomination right sitting on `seal`.
fn closes_renomination(t: &Transition, seal: OutPoint) -> (r: bool)
    ensures
        r == t.closes@.contains((OwnedRightType::Renomination, seal)),
{
    let mut i: usize = 0;
    while i < t.closes.len()
        invariant
            i <= t.closes@.len(),
            forall|m: int| 0 <= m < i ==> t.closes@[m] != (OwnedRightType::Renomination, seal),
        decreases t.closes@.len() - i,
    {
        let (kind, op) = t.closes[i];
        if kind == OwnedRightType::Renomination && op == seal {
            assert(t.closes@[i as int] == (OwnedRightType::Renomination, seal));
            return true;
        }
        i = i + 1;
    }
    false
}

/// Once a prefix of transitions breaks the chain, so do all of them.
proof fn lemma_chain_prefix_err(st: ChainState, contract_id: u64, s: Seq<Transition>, k: int)
    requires
        0 <= k <= s.len(),
        chain_after(st, contract_id, s.take(k)) is Err,
    ensures
        chain_after(st, contract_id, s) == chain_after(st, contract_id, s.take(k)),
    decreases s.len() - k,
{
    if k < s.len() {
        assert(s.take(k + 1).drop_last() =~= s.take(k));
        lemma_chain_prefix_err(st, contract_id, s, k + 1);
    } else {
        assert(s.take(k) =~= s);
    }
}

/// Tracks the renominations of the contract founded by `genesis` through
/// the accepted transitions, in order. The first closes the renomination
/// right of genesis, each later one the seal its predecessor designated; a
/// renomination after the chain has ended, or one that closes another seal,
/// fails with `InsufficientRights`.
pub fn renominations(genesis: &Genesis, transitions: &Vec<Transition>) -> (r: Result<
    Vec<Renomination>,
    Error,
>)
    ensures
        match r {
            Ok(v) => renomination_chain(*genesis, transitions@) == Ok::<
                Seq<RenominationView>,
                Error,
            >(views(v@)),
            Err(e) => renomination_chain(*genesis, transitions@) == Err::<
                Seq<RenominationView>,
                Error,
            >(e),
        },
{
    let mut cur = match Nomination::from_genesis(genesis) {
        Ok(n) => n,
        Err(e) => {
            return Err(e);
        },
    };
    let mut seal = match seal_of(&genesis.owned_rights, genesis.contract_id, None) {
        Ok(s) => s,
        Err(e) => {
            return Err(e);
        },
    };
    let ghost st0 = ChainState { nomination: cur@, seal, epochs: Seq::empty() };
    let ghost ts = transitions@;
    let cid = genesis.contract_id;
    let mut out: Vec<Renomination> = Vec::new();
    let mut i: usize = 0;
    assert(ts.take(0) =~= Seq::<Transition>::empty());
    assert(views(out@) =~= Seq::<RenominationView>::empty());
    while i < transitions.len()
        invariant
            i <= ts.len(),
            ts == transitions@,
            cid == genesis.contract_id,
            out@.len() <= i,
            renomination_chain(*genesis, ts) == match chain_after(st0, cid, ts) {
                Err(e) => Err(e),
                Ok(st) => Ok::<Seq<RenominationView>, Error>(st.epochs),
            },
            chain_after(st0, cid, ts.take(i as int)) == Ok::<ChainState, Error>(
                ChainState { nomination: cur@, seal, epochs: views(out@) },
            ),
        decreases ts.len() - i,
    {
        proof {
            assert(ts.take(i + 1).drop_last() =~= ts.take(i as int));
            assert(ts.take(i + 1).last() == ts[i as int]);
        }
        let t = &transitions[i];
        if t.transition_type == TransitionType::Renomination {
            let s = match seal {
                Some(s) => s,
                None => {
                    proof {
                        lemma_chain_prefix_err(st0, cid, ts, i + 1);
                    }
                    return Err(Error::InsufficientRights);
                },
            };
            if !closes_renomination(t, s) {
                proof {
                    lemma_chain_prefix_err(st0, cid, ts, i + 1);
                }
                return Err(Error::InsufficientRights);
            }
            let n = match renominate(&cur, &t.metadata) {
                Ok(n) => n,
                Err(e) => {
                    proof {
                        lemma_chain_prefix_err(st0, cid, ts, i + 1);
                    }
                    return Err(e);
                },
            };
            let next = match seal_of(&t.owned_rights, t.node_id, Some(t.witness)) {
                Ok(x) => x,
                Err(e) => {
                    proof {
                        lemma_chain_prefix_err(st0, cid, ts, i + 1);
                    }
                    return Err(e);
                },
            };
            let ghost before = out@;
            out.push(
                Renomination {
                    node_id: t.node_id,
                    no: out.len() + 1,
                    contract_id: cid,
                    closes: s,
                    seal: next,
                    witness: t.witness,
                    nomination: copy_nomination(&n),
                },
            );
            assert(views(out@) =~= views(before).push(out@.last()@));
            cur = n;
            seal = next;
        }
        i = i + 1;
    }
    assert(ts.take(i as int) =~= ts);
    Ok(out)
}

/// The nomination in force after the transitions: that of the last accepted
/// renomination, or that of genesis when there is none.
pub fn nomination_in_force(genesis: &Genesis, transitions: &Vec<Transition>) -> (r: Result<
    Nomination,
    Error,
>)
    ensures
        match r {
            Ok(n) => crate::asset::current_nomination(*genesis, transitions@) == Ok::<
                NominationView,
                Error,
            >(n@),
            Err(e) => crate::asset::current_nomination(*genesis, transitions@) == Err::<
                NominationView,
                Error,
            >(e),
        },
{
    let chain = match renominations(genesis, transitions) {
        Ok(c) => c,
        Err(e) => {
            return Err(e);
        },
    };
    if chain.len() == 0 {
        Nomination::from_genesis(genesis)
    } else {
        let last = chain.len() - 1;
        assert(views(chain@).last() == chain@[last as int]@);
        Ok(copy_nomination(&chain[last].nomination))
    }
}

} // verus!
