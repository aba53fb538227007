//! Ledger records that the projection, the renomination chain and the
//! drafter read: genesis, state transitions and the rights they assign.

use vstd::prelude::*;
use vstd::string::StringSliceAdditionalSpecFns;
use vstd::utf8::{encode_utf8, encode_utf8_decode_utf8, is_ascii_chars_encode_utf8};

use crate::schema::{FieldType, OwnedRightType, TransitionType};

verus! {

/// Reference to an output of a ledger transaction. Transactions are named by
/// their stable identifier in the caller's index of witness transactions.
#[derive(Clone, Copy, PartialEq, Eq, Structural, PartialOrd, Ord, Hash, Debug)]
pub struct OutPoint {
    /// Identifier of the transaction.
    pub txid: u64,
    /// Index of the output within the transaction.
    pub vout: u32,
}

/// The seal that binds an owned right to an output.
#[derive(Clone, Copy, PartialEq, Eq, Structural, Hash, Debug)]
pub enum Seal {
    /// A revealed output.
    Revealed(OutPoint),
    /// An output of the witness transaction of the node that assigns it.
    WitnessVout(u32),
    /// A blinded seal, known only by its commitment.
    Concealed(u64),
}

/// The state that an owned right carries.
#[derive(Clone, Copy, PartialEq, Eq, Structural, Hash, Debug)]
pub enum AssignedState {
    /// No state: a bare capability.
    Declarative,
    /// A revealed amount.
    Amount(u64),
    /// An amount hidden behind a commitment.
    Concealed,
}

/// An owned right assigned by a genesis or a transition.
#[derive(Clone, Copy, PartialEq, Eq, Structural, Hash, Debug)]
pub struct Assignment {
    /// Type of the right.
    pub right: OwnedRightType,
    /// Seal that controls the right.
    pub seal: Seal,
    /// State of the right.
    pub state: AssignedState,
}

/// Value of a metadata field.
#[derive(Clone, PartialEq, Eq, Hash, Debug)]
pub enum FieldValue {
    /// ASCII string.
    AsciiString(String),
    /// Unsigned 8-bit integer.
    U8(u8),
    /// Unsigned 64-bit integer.
    U64(u64),
    /// Signed 64-bit integer.
    I64(i64),
    /// Output reference.
    OutPoint(OutPoint),
    /// Raw data.
    Data(Vec<u8>),
}

/// The founding record of a contract.
#[derive(Clone, PartialEq, Eq, Hash, Debug)]
pub struct Genesis {
    /// Contract identifier.
    pub contract_id: u64,
    /// Bech32 identifier of the schema the contract is created under.
    pub schema_id: String,
    /// Metadata fields in the order they were given.
    pub metadata: Vec<(FieldType, FieldValue)>,
    /// Rights created by genesis.
    pub owned_rights: Vec<Assignment>,
}

/// A state transition, already committed by its witness transaction.
#[derive(Clone, PartialEq, Eq, Hash, Debug)]
pub struct Transition {
    /// Identifier of the transition.
    pub node_id: u64,
    /// Type of the transition.
    pub transition_type: TransitionType,
    /// Identifier of the witness transaction.
    pub witness: u64,
    /// Metadata fields in the order they were given.
    pub metadata: Vec<(FieldType, FieldValue)>,
    /// Rights consumed, each by its type and the output it sits on.
    pub closes: Vec<(OwnedRightType, OutPoint)>,
    /// Rights created.
    pub owned_rights: Vec<Assignment>,
}

/// Errors of asset projection, renomination tracking and drafting.
#[derive(Clone, Copy, PartialEq, Eq, Structural, Hash, Debug)]
pub enum Error {
    /// The genesis schema id matches none of the RGB20 schemata.
    WrongSchemaId,
    /// Required metadata is missing or malformed.
    UnsatisfiedSchemaRequirement,
    /// Genesis assigns a right to an output of a witness transaction, which
    /// genesis cannot have.
    GenesisSeal,
    /// An epoch seal of the given node is concealed.
    EpochSealConfidential(u64),
    /// A burn & replace seal of the given node is concealed.
    BurnSealConfidential(u64),
    /// An inflation assignment (seal or state) of the given node is concealed.
    InflationAssignmentConfidential(u64),
    /// A burn refers to an epoch whose opening is not among the transitions.
    NotAllEpochsExposed,
    /// A right to be consumed is not an unspent right.
    InsufficientRights,
    /// The issued supply overflows, or in total more is burned and replaced
    /// than was issued. This kind is the library's own: it guards the supply
    /// invariant of the projected asset, which the other kinds do not cover.
    InconsistentSupply,
}

/// The first value of field `ft` within `meta`, from index `i`.
pub open spec fn field_from(meta: Seq<(FieldType, FieldValue)>, ft: FieldType, i: int) -> Option<
    FieldValue,
>
    decreases meta.len() - i,
{
    if 0 <= i < meta.len() {
        if meta[i].0 == ft {
            Some(meta[i].1)
        } else {
            field_from(meta, ft, i + 1)
        }
    } else {
        None
    }
}

/// The first value of field `ft` within `meta`.
pub open spec fn field(meta: Seq<(FieldType, FieldValue)>, ft: FieldType) -> Option<FieldValue> {
    field_from(meta, ft, 0)
}

/// The first value of field `ft`, when it is an unsigned 64-bit integer.
pub open spec fn field_u64(meta: Seq<(FieldType, FieldValue)>, ft: FieldType) -> Option<u64> {
    match field(meta, ft) {
        Some(FieldValue::U64(v)) => Some(v),
        _ => None,
    }
}

/// The first value of field `ft`, when it is an unsigned 8-bit integer.
pub open spec fn field_u8(meta: Seq<(FieldType, FieldValue)>, ft: FieldType) -> Option<u8> {
    match field(meta, ft) {
        Some(FieldValue::U8(v)) => Some(v),
        _ => None,
    }
}

/// The first value of field `ft`, when it is a signed 64-bit integer.
pub open spec fn field_i64(meta: Seq<(FieldType, FieldValue)>, ft: FieldType) -> Option<i64> {
    match field(meta, ft) {
        Some(FieldValue::I64(v)) => Some(v),
        _ => None,
    }
}

/// The first value of field `ft`, when it is a string.
pub open spec fn field_str(meta: Seq<(FieldType, FieldValue)>, ft: FieldType) -> Option<Seq<char>> {
    match field(meta, ft) {
        Some(FieldValue::AsciiString(s)) => Some(s@),
        _ => None,
    }
}

/// Index of the first entry of field `ft` in `meta`.
pub fn find_field(meta: &Vec<(FieldType, FieldValue)>, ft: FieldType) -> (r: Option<usize>)
    ensures
        match r {
            Some(j) => j < meta@.len() && field(meta@, ft) == Some(meta@[j as int].1),
            None => field(meta@, ft) is None,
        },
{
    let mut i: usize = 0;
    while i < meta.len()
        invariant
            i <= meta@.len(),
            field(meta@, ft) == field_from(meta@, ft, i as int),
        decreases meta@.len() - i,
    {
        if meta[i].0 == ft {
            return Some(i);
        }
        i = i + 1;
    }
    None
}

/// Reads field `ft` of `meta` as an unsigned 64-bit integer.
pub fn read_u64(meta: &Vec<(FieldType, FieldValue)>, ft: FieldType) -> (r: Option<u64>)
    ensures
        r == field_u64(meta@, ft),
{
    match find_field(meta, ft) {
        Some(j) => match &meta[j].1 {
            FieldValue::U64(v) => Some(*v),
            _ => None,
        },
        None => None,
    }
}

/// Reads field `ft` of `meta` as an unsigned 8-bit integer.
pub fn read_u8(meta: &Vec<(FieldType, FieldValue)>, ft: FieldType) -> (r: Option<u8>)
    ensures
        r == field_u8(meta@, ft),
{
    match find_field(meta, ft) {
        Some(j) => match &meta[j].1 {
            FieldValue::U8(v) => Some(*v),
            _ => None,
        },
        None => None,
    }
}

/// Reads field `ft` of `meta` as a signed 64-bit integer.
pub fn read_i64(meta: &Vec<(FieldType, FieldValue)>, ft: FieldType) -> (r: Option<i64>)
    ensures
        r == field_i64(meta@, ft),
{
    match find_field(meta, ft) {
        Some(j) => match &meta[j].1 {
            FieldValue::I64(v) => Some(*v),
            _ => None,
        },
        None => None,
    }
}

/// Reads field `ft` of `meta` as a string.
pub fn read_str(meta: &Vec<(FieldType, FieldValue)>, ft: FieldType) -> (r: Option<String>)
    ensures
        match r {
            Some(s) => field_str(meta@, ft) == Some(s@),
            None => field_str(meta@, ft) is None,
        },
{
    match find_field(meta, ft) {
        Some(j) => match &meta[j].1 {
            FieldValue::AsciiString(s) => Some(s.clone()),
            _ => None,
        },
        None => None,
    }
}

/// Compares two strings character by character.
pub fn str_eq(a: &str, b: &str) -> (r: bool)
    ensures
        r == (a@ == b@),
{
    let x = a.as_bytes();
    let y = b.as_bytes();
    proof {
        encode_utf8_decode_utf8(a@);
        encode_utf8_decode_utf8(b@);
    }
    if x.len() != y.len() {
        assert(a.spec_bytes() == x@ && b.spec_bytes() == y@);
        return false;
    }
    let mut i: usize = 0;
    while i < x.len()
        invariant
            i <= x@.len(),
            x@.len() == y@.len(),
            x@ == a.spec_bytes(),
            y@ == b.spec_bytes(),
            forall|m: int| 0 <= m < i ==> x@[m] == y@[m],
        decreases x@.len() - i,
    {
        if x[i] != y[i] {
            assert(x@[i as int] != y@[i as int]);
            assert(x@ != y@);
            return false;
        }
        i = i + 1;
    }
    assert(x@ =~= y@);
    true
}

/// A ticker: three to eight upper-case ASCII letters.
pub open spec fn is_valid_ticker(s: Seq<char>) -> bool {
    &&& 3 <= s.len() <= 8
    &&& forall|i: int| 0 <= i < s.len() ==> 'A' <= #[trigger] s[i] <= 'Z'
}

/// Why a ticker was refused.
pub const TICKER_RULE: &'static str = "Ticker name must be between 3 and 8 chars, contain no spaces and consist only of capital letters";

/// Accepts a ticker of three to eight upper-case ASCII letters and refuses
/// anything else with an explanation.
pub fn ticker_validator(name: &str) -> (r: Result<(), String>)
    ensures
        r is Ok <==> is_valid_ticker(name@),
        r matches Err(m) ==> m@ == TICKER_RULE@,
{
    let ok = is_ticker(name);
    if ok {
        Ok(())
    } else {
        Err(TICKER_RULE.to_owned())
    }
}

/// Tells whether `name` is a valid ticker.
pub fn is_ticker(name: &str) -> (r: bool)
    ensures
        r == is_valid_ticker(name@),
{
    if !name.is_ascii() {
        assert(!is_valid_ticker(name@)) by {
            if is_valid_ticker(name@) {
                assert(vstd::utf8::is_ascii_chars(name@));
            }
        }
        return false;
    }
    let b = name.as_bytes();
    proof {
        is_ascii_chars_encode_utf8(name@);
    }
    if b.len() < 3 || b.len() > 8 {
        return false;
    }
    let mut i: usize = 0;
    while i < b.len()
        invariant
            i <= b@.len(),
            b@.len() == name@.len(),
            b@ == encode_utf8(name@),
            vstd::utf8::is_ascii_chars(name@),
            forall|m: int| 0 <= m < name@.len() ==> name@[m] as u8 == #[trigger] b@[m],
            forall|m: int| 0 <= m < i ==> 'A' <= #[trigger] name@[m] <= 'Z',
        decreases b@.len() - i,
    {
        let c = b[i];
        proof {
            let ch = name@[i as int];
            assert('\0' <= ch <= '\u{7f}');
        }
        if c < 65 || c > 90 {
            return false;
        }
        i = i + 1;
    }
    true
}

} // verus!
