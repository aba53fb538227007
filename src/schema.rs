//! Schema catalog: the closed type vocabulary, occurrence constraints and the
//! check that a restricted schema is a legal narrowing of its root.

use vstd::prelude::*;

verus! {

/// A closed enumeration bound to stable numeric wire codes.
pub trait TypeCode: Sized + Copy {
    /// The wire code of a variant.
    spec fn code_spec(self) -> u16;

    /// Returns the wire code of a variant.
    fn code(self) -> (r: u16)
        ensures
            r == self.code_spec(),
    ;

    /// Distinct variants have distinct codes.
    proof fn lemma_code_injective(a: Self, b: Self)
        ensures
            a.code_spec() == b.code_spec() ==> a == b,
    ;
}

/// Field types of RGB20 metadata.
#[derive(Clone, Copy, PartialEq, Eq, Structural, PartialOrd, Ord, Hash, Debug)]
pub enum FieldType {
    /// Asset ticker, used within genesis or a renomination.
    Ticker,
    /// Asset name, used within genesis or a renomination.
    Name,
    /// Decimal precision.
    Precision,
    /// Ricardian contract for the asset.
    Contract,
    /// Supply issued with genesis, secondary issuance or burn & replace.
    IssuedSupply,
    /// Supply burned with a burn or burn & replace transition.
    BurnedSupply,
    /// Timestamp of genesis.
    Timestamp,
    /// Output containing the burned asset.
    BurnUtxo,
    /// Proofs of the burned supply.
    HistoryProof,
}

impl TypeCode for FieldType {
    open spec fn code_spec(self) -> u16 {
        match self {
            FieldType::Ticker => 0x00,
            FieldType::Name => 0x01,
            FieldType::Contract => 0x02,
            FieldType::Precision => 0x03,
            FieldType::Timestamp => 0x04,
            FieldType::IssuedSupply => 0xA0,
            FieldType::BurnedSupply => 0xB0,
            FieldType::BurnUtxo => 0xB1,
            FieldType::HistoryProof => 0xB2,
        }
    }

    fn code(self) -> (r: u16) {
        match self {
            FieldType::Ticker => 0x00,
            FieldType::Name => 0x01,
            FieldType::Contract => 0x02,
            FieldType::Precision => 0x03,
            FieldType::Timestamp => 0x04,
            FieldType::IssuedSupply => 0xA0,
            FieldType::BurnedSupply => 0xB0,
            FieldType::BurnUtxo => 0xB1,
            FieldType::HistoryProof => 0xB2,
        }
    }

    proof fn lemma_code_injective(a: Self, b: Self) {
    }
}

/// Owned right types of RGB20 contracts.
#[derive(Clone, Copy, PartialEq, Eq, Structural, PartialOrd, Ord, Hash, Debug)]
pub enum OwnedRightType {
    /// Inflation control right (secondary issuance right).
    Inflation,
    /// Asset ownership right.
    Assets,
    /// Right to open a new burn & replace epoch.
    OpenEpoch,
    /// Right to perform a burn or a burn & replace operation.
    BurnReplace,
    /// Right to perform asset renomination.
    Renomination,
}

impl TypeCode for OwnedRightType {
    open spec fn code_spec(self) -> u16 {
        match self {
            OwnedRightType::Renomination => 0x01,
            OwnedRightType::Inflation => 0xA0,
            OwnedRightType::Assets => 0xA1,
            OwnedRightType::OpenEpoch => 0xAA,
            OwnedRightType::BurnReplace => 0xAB,
        }
    }

    fn code(self) -> (r: u16) {
        match self {
            OwnedRightType::Renomination => 0x01,
            OwnedRightType::Inflation => 0xA0,
            OwnedRightType::Assets => 0xA1,
            OwnedRightType::OpenEpoch => 0xAA,
            OwnedRightType::BurnReplace => 0xAB,
        }
    }

    proof fn lemma_code_injective(a: Self, b: Self) {
    }
}

/// State transition types of RGB20 contracts.
#[derive(Clone, Copy, PartialEq, Eq, Structural, PartialOrd, Ord, Hash, Debug)]
pub enum TransitionType {
    /// Secondary issuance.
    Issue,
    /// Asset transfer.
    Transfer,
    /// Opening of a new burn & replace epoch.
    Epoch,
    /// Asset burn.
    Burn,
    /// Burn and replacement (re-issuance) of the asset.
    BurnAndReplace,
    /// Change of the asset name, ticker, contract text or precision.
    Renomination,
    /// Split of rights assigned to the same output.
    RightsSplit,
}

impl TypeCode for TransitionType {
    open spec fn code_spec(self) -> u16 {
        match self {
            TransitionType::Transfer => 0x0000,
            TransitionType::Renomination => 0x1010,
            TransitionType::Issue => 0x10A0,
            TransitionType::Epoch => 0x10A1,
            TransitionType::Burn => 0x10A2,
            TransitionType::BurnAndReplace => 0x10A3,
            TransitionType::RightsSplit => 0x8000,
        }
    }

    fn code(self) -> (r: u16) {
        match self {
            TransitionType::Transfer => 0x0000,
            TransitionType::Renomination => 0x1010,
            TransitionType::Issue => 0x10A0,
            TransitionType::Epoch => 0x10A1,
            TransitionType::Burn => 0x10A2,
            TransitionType::BurnAndReplace => 0x10A3,
            TransitionType::RightsSplit => 0x8000,
        }
    }

    proof fn lemma_code_injective(a: Self, b: Self) {
    }
}

/// Range constraint on how many times a field or a right may occur.
#[derive(Clone, Copy, PartialEq, Eq, Structural, Debug, Hash)]
pub enum Occurrences {
    /// Exactly one.
    Once,
    /// Zero or one.
    NoneOrOnce,
    /// One or more.
    OnceOrMore,
    /// Any number.
    NoneOrMore,
}

impl Occurrences {
    /// Lower bound of the range.
    pub open spec fn min_spec(self) -> nat {
        match self {
            Occurrences::Once | Occurrences::OnceOrMore => 1,
            _ => 0,
        }
    }

    /// Upper bound of the range; `None` stands for unbounded.
    pub open spec fn max_spec(self) -> Option<nat> {
        match self {
            Occurrences::Once | Occurrences::NoneOrOnce => Some(1),
            _ => None,
        }
    }

    /// The range of `self` does not reach above the range of `root`.
    pub open spec fn within_spec(self, root: Occurrences) -> bool {
        match (self.max_spec(), root.max_spec()) {
            (_, None) => true,
            (None, Some(_)) => false,
            (Some(a), Some(b)) => a <= b,
        }
    }

    /// Checks that the range of `self` stays under the upper bound of `root`.
    pub fn within(self, root: Occurrences) -> (r: bool)
        ensures
            r == self.within_spec(root),
    {
        match root {
            Occurrences::OnceOrMore | Occurrences::NoneOrMore => true,
            _ => match self {
                Occurrences::Once | Occurrences::NoneOrOnce => true,
                _ => false,
            },
        }
    }
}

/// The value held by the first entry under key `k`, searching from index `i`.
pub open spec fn lookup_from<K, V>(s: Seq<(K, V)>, k: K, i: int) -> Option<V>
    decreases s.len() - i,
{
    if 0 <= i < s.len() {
        if s[i].0 == k {
            Some(s[i].1)
        } else {
            lookup_from(s, k, i + 1)
        }
    } else {
        None
    }
}

/// The value of key `k` in a sequence of entries read as a map.
pub open spec fn lookup<K, V>(s: Seq<(K, V)>, k: K) -> Option<V> {
    lookup_from(s, k, 0)
}

/// A search that skips entries under other keys keeps its result.
pub proof fn lemma_lookup_skip<K, V>(s: Seq<(K, V)>, k: K, i: int, j: int)
    requires
        0 <= i <= j <= s.len(),
        forall|m: int| i <= m < j ==> #[trigger] s[m].0 != k,
    ensures
        lookup_from(s, k, i) == lookup_from(s, k, j),
    decreases j - i,
{
    if i < j {
        lemma_lookup_skip(s, k, i + 1, j);
    }
}

/// Index of the first entry under key `k`.
pub fn position<K: TypeCode, V>(s: &Vec<(K, V)>, k: K) -> (r: Option<usize>)
    ensures
        match r {
            Some(j) => {
                &&& j < s@.len()
                &&& s@[j as int].0 == k
                &&& lookup(s@, k) == Some(s@[j as int].1)
                &&& forall|m: int| 0 <= m < j ==> #[trigger] s@[m].0 != k
            },
            None => lookup(s@, k) is None && forall|m: int|
                0 <= m < s@.len() ==> #[trigger] s@[m].0 != k,
        },
{
    let kc = k.code();
    let mut i: usize = 0;
    while i < s.len()
        invariant
            i <= s@.len(),
            kc == k.code_spec(),
            forall|m: int| 0 <= m < i ==> #[trigger] s@[m].0 != k,
        decreases s@.len() - i,
    {
        let c = s[i].0.code();
        proof {
            K::lemma_code_injective(s@[i as int].0, k);
        }
        if c == kc {
            proof {
                lemma_lookup_skip(s@, k, 0, i as int);
            }
            return Some(i);
        }
        i = i + 1;
    }
    proof {
        lemma_lookup_skip(s@, k, 0, i as int);
    }
    None
}

/// Descriptor of the values a metadata field holds.
#[derive(Clone, Copy, PartialEq, Eq, Structural, Debug, Hash)]
pub enum ValueType {
    /// ASCII string.
    AsciiString,
    /// Unsigned 8-bit integer.
    U8,
    /// Unsigned 64-bit integer.
    U64,
    /// Signed 64-bit integer.
    I64,
    /// A structure declared in the schema's type system.
    Named(TypeName),
}

/// Names of the structures declared in the RGB20 type system.
#[derive(Clone, Copy, PartialEq, Eq, Structural, Debug, Hash)]
pub enum TypeName {
    /// Transaction output reference.
    OutPoint,
    /// Transaction identifier.
    Txid,
    /// Proof of a burned supply.
    HistoryProof,
}

/// Primitive types of structure fields.
#[derive(Clone, Copy, PartialEq, Eq, Structural, Debug, Hash)]
pub enum PrimitiveType {
    /// Unsigned 8-bit integer.
    U8,
    /// Unsigned 16-bit integer.
    U16,
}

/// A field of a structure in the type system.
#[derive(Clone, Copy, PartialEq, Eq, Structural, Debug, Hash)]
pub enum StructField {
    /// A structure declared under the given name.
    Named(TypeName),
    /// A primitive value.
    Primitive(PrimitiveType),
    /// A fixed-size array of primitive values.
    Array(PrimitiveType, u16),
    /// An ASCII string.
    AsciiString,
    /// A byte string.
    Bytes,
}

/// A structure of the type system: its name and its fields in order.
#[derive(Clone, PartialEq, Eq, Debug, Hash)]
pub struct TypeDef {
    /// Name of the structure.
    pub name: TypeName,
    /// Fields of the structure.
    pub fields: Vec<StructField>,
}

impl View for TypeDef {
    type V = (TypeName, Seq<StructField>);

    open spec fn view(&self) -> (TypeName, Seq<StructField>) {
        (self.name, self.fields@)
    }
}

/// Encoding of the state that an owned right carries.
#[derive(Clone, Copy, PartialEq, Eq, Structural, Debug, Hash)]
pub enum StateSchema {
    /// No state: the right is a bare capability.
    Declarative,
    /// An unsigned 64-bit amount.
    DiscreteFiniteField,
    /// Attached data.
    DataContainer,
}

/// The RGB20 schema variants.
#[derive(Clone, Copy, PartialEq, Eq, Structural, PartialOrd, Ord, Hash, Debug)]
pub enum Subschema {
    /// Transfers only: no inflation, renomination, burn or replacement.
    Simple,
    /// Transfers and secondary issuance.
    Inflationary,
    /// The root schema, supporting every operation.
    Full,
}

/// Identifier of the root RGB20 schema.
pub const RGB20_ROOT_BECH32: &'static str = "rgbsh1hacf8gg863veu292hdnttynqzk5xdvyk5q2fxep3e85j4ttzd05s2j4ern";

/// Identifier of the RGB20 schema that allows only inflation.
pub const RGB20_INFLATIONARY_BECH32: &'static str = "rgbsh1qmts2pmfxt9e6tpuevk2v0dza30d9v4n0cq6vtm0jtppnyz5xrss4gj9wd";

/// Identifier of the RGB20 schema that allows only transfers.
pub const RGB20_SIMPLE_BECH32: &'static str = "rgbsh13c3e8ywrmsu9j0k3er0lgzp9memn5c55rw5svf0l9n3sfntv76zqehteur";

impl Subschema {
    /// The content-derived identifier of the variant's schema.
    pub open spec fn id_spec(self) -> &'static str {
        match self {
            Subschema::Simple => RGB20_SIMPLE_BECH32,
            Subschema::Inflationary => RGB20_INFLATIONARY_BECH32,
            Subschema::Full => RGB20_ROOT_BECH32,
        }
    }

    /// Returns the bech32 identifier of the variant's schema.
    pub fn bech32(self) -> (r: &'static str)
        ensures
            r@ == self.id_spec()@,
    {
        match self {
            Subschema::Simple => RGB20_SIMPLE_BECH32,
            Subschema::Inflationary => RGB20_INFLATIONARY_BECH32,
            Subschema::Full => RGB20_ROOT_BECH32,
        }
    }
}

/// Mathematical model of a genesis or transition schema.
pub struct NodeSchemaView {
    /// Metadata fields and how often each occurs.
    pub metadata: Seq<(FieldType, Occurrences)>,
    /// Rights consumed and how often each occurs (empty for genesis).
    pub closes: Seq<(OwnedRightType, Occurrences)>,
    /// Rights created and how often each occurs.
    pub owned_rights: Seq<(OwnedRightType, Occurrences)>,
    /// Publicly disclosable right types.
    pub public_rights: Seq<u16>,
}

/// Mathematical model of a schema.
pub struct SchemaView {
    /// The root schema that this one restricts, if any.
    pub root_id: Option<Subschema>,
    /// Requirements on genesis.
    pub genesis: NodeSchemaView,
    /// Requirements on each transition type.
    pub transitions: Seq<(TransitionType, NodeSchemaView)>,
    /// Value type of each field type.
    pub field_types: Seq<(FieldType, ValueType)>,
    /// State encoding of each owned right type.
    pub owned_right_types: Seq<(OwnedRightType, StateSchema)>,
}

/// Requirements that a genesis record must meet.
#[derive(Clone, PartialEq, Eq, Debug, Hash)]
pub struct GenesisSchema {
    /// Metadata fields and how often each occurs.
    pub metadata: Vec<(FieldType, Occurrences)>,
    /// Rights created and how often each occurs.
    pub owned_rights: Vec<(OwnedRightType, Occurrences)>,
    /// Publicly disclosable right types.
    pub public_rights: Vec<u16>,
}

impl View for GenesisSchema {
    type V = NodeSchemaView;

    open spec fn view(&self) -> NodeSchemaView {
        NodeSchemaView {
            metadata: self.metadata@,
            closes: Seq::empty(),
            owned_rights: self.owned_rights@,
            public_rights: self.public_rights@,
        }
    }
}

/// Requirements that a state transition of one type must meet.
#[derive(Clone, PartialEq, Eq, Debug, Hash)]
pub struct TransitionSchema {
    /// Metadata fields and how often each occurs.
    pub metadata: Vec<(FieldType, Occurrences)>,
    /// Rights consumed and how often each occurs.
    pub closes: Vec<(OwnedRightType, Occurrences)>,
    /// Rights created and how often each occurs.
    pub owned_rights: Vec<(OwnedRightType, Occurrences)>,
    /// Publicly disclosable right types.
    pub public_rights: Vec<u16>,
}

impl View for TransitionSchema {
    type V = NodeSchemaView;

    open spec fn view(&self) -> NodeSchemaView {
        NodeSchemaView {
            metadata: self.metadata@,
            closes: self.closes@,
            owned_rights: self.owned_rights@,
            public_rights: self.public_rights@,
        }
    }
}

/// A contract schema.
#[derive(Clone, PartialEq, Eq, Debug, Hash)]
pub struct Schema {
    /// The root schema that this one restricts, if any.
    pub root_id: Option<Subschema>,
    /// Requirements on genesis.
    pub genesis: GenesisSchema,
    /// Requirements on each transition type.
    pub transitions: Vec<(TransitionType, TransitionSchema)>,
    /// Value type of each field type.
    pub field_types: Vec<(FieldType, ValueType)>,
    /// State encoding of each owned right type.
    pub owned_right_types: Vec<(OwnedRightType, StateSchema)>,
    /// Structures that the value types refer to.
    pub type_system: Vec<TypeDef>,
}

/// Model of a list of transition schemas.
pub open spec fn transitions_view(s: Seq<(TransitionType, TransitionSchema)>) -> Seq<
    (TransitionType, NodeSchemaView),
> {
    s.map_values(|e: (TransitionType, TransitionSchema)| (e.0, e.1@))
}

impl View for Schema {
    type V = SchemaView;

    open spec fn view(&self) -> SchemaView {
        SchemaView {
            root_id: self.root_id,
            genesis: self.genesis@,
            transitions: transitions_view(self.transitions@),
            field_types: self.field_types@,
            owned_right_types: self.owned_right_types@,
        }
    }
}

/// A part of a node schema where a restriction went wrong, with the offending type.
#[derive(Clone, Copy, PartialEq, Eq, Structural, Debug, Hash)]
pub enum NodeMismatch {
    /// A metadata field unknown to the root or with a wider range.
    Metadata(FieldType),
    /// A consumed right unknown to the root or with a wider range.
    Closes(OwnedRightType),
    /// A created right unknown to the root or with a wider range.
    OwnedRight(OwnedRightType),
    /// A public right type unknown to the root.
    PublicRight(u16),
}

/// Why a schema is not a legal restriction of a root schema.
#[derive(Clone, Copy, PartialEq, Eq, Structural, Debug, Hash)]
pub enum SchemaMismatch {
    /// The schema given as root restricts another schema itself.
    RootHierarchy,
    /// A field type unknown to the root or with another value type.
    FieldType(FieldType),
    /// An owned right type unknown to the root or with another state encoding.
    OwnedRightType(OwnedRightType),
    /// Genesis requirements reach beyond the root's.
    Genesis(NodeMismatch),
    /// A transition type unknown to the root.
    TransitionType(TransitionType),
    /// Requirements on a transition type reach beyond the root's.
    Transition(TransitionType, NodeMismatch),
}

/// First entry of `sub`, from index `i`, whose key is absent from `root` or
/// whose range is wider there.
pub open spec fn first_wider_from<K>(
    sub: Seq<(K, Occurrences)>,
    root: Seq<(K, Occurrences)>,
    i: int,
) -> Option<K>
    decreases sub.len() - i,
{
    if 0 <= i < sub.len() {
        match lookup(root, sub[i].0) {
            Some(o) if sub[i].1.within_spec(o) => first_wider_from(sub, root, i + 1),
            _ => Some(sub[i].0),
        }
    } else {
        None
    }
}

/// First entry of `sub`, from index `i`, whose key `root` lacks or maps elsewhere.
pub open spec fn first_unmatched_from<K, V>(sub: Seq<(K, V)>, root: Seq<(K, V)>, i: int) -> Option<K>
    decreases sub.len() - i,
{
    if 0 <= i < sub.len() {
        if lookup(root, sub[i].0) == Some(sub[i].1) {
            first_unmatched_from(sub, root, i + 1)
        } else {
            Some(sub[i].0)
        }
    } else {
        None
    }
}

/// First element of `sub`, from index `i`, that `root` does not hold.
pub open spec fn first_unlisted_from(sub: Seq<u16>, root: Seq<u16>, i: int) -> Option<u16>
    decreases sub.len() - i,
{
    if 0 <= i < sub.len() {
        if root.contains(sub[i]) {
            first_unlisted_from(sub, root, i + 1)
        } else {
            Some(sub[i])
        }
    } else {
        None
    }
}

/// First way in which node schema `sub` reaches beyond `root`.
pub open spec fn node_mismatch(sub: NodeSchemaView, root: NodeSchemaView) -> Option<NodeMismatch> {
    match first_wider_from(sub.metadata, root.metadata, 0) {
        Some(f) => Some(NodeMismatch::Metadata(f)),
        None => match first_wider_from(sub.closes, root.closes, 0) {
            Some(t) => Some(NodeMismatch::Closes(t)),
            None => match first_wider_from(sub.owned_rights, root.owned_rights, 0) {
                Some(t) => Some(NodeMismatch::OwnedRight(t)),
                None => match first_unlisted_from(sub.public_rights, root.public_rights, 0) {
                    Some(p) => Some(NodeMismatch::PublicRight(p)),
                    None => None,
                },
            },
        },
    }
}

/// First transition schema of `sub`, from index `i`, that reaches beyond `root`.
pub open spec fn first_transition_mismatch_from(
    sub: Seq<(TransitionType, NodeSchemaView)>,
    root: Seq<(TransitionType, NodeSchemaView)>,
    i: int,
) -> Option<SchemaMismatch>
    decreases sub.len() - i,
{
    if 0 <= i < sub.len() {
        match lookup(root, sub[i].0) {
            None => Some(SchemaMismatch::TransitionType(sub[i].0)),
            Some(r) => match node_mismatch(sub[i].1, r) {
                Some(m) => Some(SchemaMismatch::Transition(sub[i].0, m)),
                None => first_transition_mismatch_from(sub, root, i + 1),
            },
        }
    } else {
        None
    }
}

/// First way in which `sub` fails to be a legal restriction of `root`.
pub open spec fn schema_mismatch(sub: SchemaView, root: SchemaView) -> Option<SchemaMismatch> {
    if root.root_id is Some {
        Some(SchemaMismatch::RootHierarchy)
    } else {
        match first_unmatched_from(sub.field_types, root.field_types, 0) {
            Some(f) => Some(SchemaMismatch::FieldType(f)),
            None => match first_unmatched_from(sub.owned_right_types, root.owned_right_types, 0) {
                Some(t) => Some(SchemaMismatch::OwnedRightType(t)),
                None => match node_mismatch(sub.genesis, root.genesis) {
                    Some(m) => Some(SchemaMismatch::Genesis(m)),
                    None => first_transition_mismatch_from(sub.transitions, root.transitions, 0),
                },
            },
        }
    }
}

/// `sub` is a legal restriction of `root`: every type it uses is known to
/// `root` and none of its occurrence ranges reaches above the root's.
pub open spec fn is_restriction(sub: SchemaView, root: SchemaView) -> bool {
    schema_mismatch(sub, root) is None
}

/// Finds the first entry of `sub` whose range is wider than in `root`.
fn check_within<K: TypeCode>(sub: &Vec<(K, Occurrences)>, root: &Vec<(K, Occurrences)>) -> (r:
    Option<K>)
    ensures
        r == first_wider_from(sub@, root@, 0),
{
    let mut i: usize = 0;
    while i < sub.len()
        invariant
            i <= sub@.len(),
            first_wider_from(sub@, root@, 0) == first_wider_from(sub@, root@, i as int),
        decreases sub@.len() - i,
    {
        let (k, occ) = sub[i];
        match position(root, k) {
            Some(j) => {
                if !occ.within(root[j].1) {
                    return Some(k);
                }
            },
            None => {
                return Some(k);
            },
        }
        i = i + 1;
    }
    None
}

/// Finds the first field type of `sub` that `root` lacks or types otherwise.
fn check_field_types(sub: &Vec<(FieldType, ValueType)>, root: &Vec<(FieldType, ValueType)>) -> (r:
    Option<FieldType>)
    ensures
        r == first_unmatched_from(sub@, root@, 0),
{
    let mut i: usize = 0;
    while i < sub.len()
        invariant
            i <= sub@.len(),
            first_unmatched_from(sub@, root@, 0) == first_unmatched_from(sub@, root@, i as int),
        decreases sub@.len() - i,
    {
        let (k, v) = sub[i];
        match position(root, k) {
            Some(j) => {
                if root[j].1 != v {
                    return Some(k);
                }
            },
            None => {
                return Some(k);
            },
        }
        i = i + 1;
    }
    None
}

/// Finds the first owned right type of `sub` that `root` lacks or encodes otherwise.
fn check_right_types(
    sub: &Vec<(OwnedRightType, StateSchema)>,
    root: &Vec<(OwnedRightType, StateSchema)>,
) -> (r: Option<OwnedRightType>)
    ensures
        r == first_unmatched_from(sub@, root@, 0),
{
    let mut i: usize = 0;
    while i < sub.len()
        invariant
            i <= sub@.len(),
            first_unmatched_from(sub@, root@, 0) == first_unmatched_from(sub@, root@, i as int),
        decreases sub@.len() - i,
    {
        let (k, v) = sub[i];
        match position(root, k) {
            Some(j) => {
                if root[j].1 != v {
                    return Some(k);
                }
            },
            None => {
                return Some(k);
            },
        }
        i = i + 1;
    }
    None
}

/// Finds the first public right type of `sub` that `root` does not list.
fn check_public_rights(sub: &Vec<u16>, root: &Vec<u16>) -> (r: Option<u16>)
    ensures
        r == first_unlisted_from(sub@, root@, 0),
{
    let mut i: usize = 0;
    while i < sub.len()
        invariant
            i <= sub@.len(),
            first_unlisted_from(sub@, root@, 0) == first_unlisted_from(sub@, root@, i as int),
        decreases sub@.len() - i,
    {
        let p = sub[i];
        let mut j: usize = 0;
        let mut found = false;
        while j < root.len() && !found
            invariant
                j <= root@.len(),
                found ==> root@.contains(p),
                !found ==> forall|m: int| 0 <= m < j ==> root@[m] != p,
            decreases root@.len() - j,
        {
            if root[j] == p {
                found = true;
            }
            j = j + 1;
        }
        if !found {
            return Some(p);
        }
        i = i + 1;
    }
    None
}

/// Finds the first way in which node schema `sub` reaches beyond `root`.
fn check_node(sub: NodeSchemaParts, root: NodeSchemaParts) -> (r: Option<NodeMismatch>)
    ensures
        r == node_mismatch(sub.view(), root.view()),
{
    match check_within(sub.metadata, root.metadata) {
        Some(f) => Some(NodeMismatch::Metadata(f)),
        None => match check_within(sub.closes, root.closes) {
            Some(t) => Some(NodeMismatch::Closes(t)),
            None => match check_within(sub.owned_rights, root.owned_rights) {
                Some(t) => Some(NodeMismatch::OwnedRight(t)),
                None => match check_public_rights(sub.public_rights, root.public_rights) {
                    Some(p) => Some(NodeMismatch::PublicRight(p)),
                    None => None,
                },
            },
        },
    }
}

/// Borrowed parts of a genesis or transition schema.
struct NodeSchemaParts<'a> {
    metadata: &'a Vec<(FieldType, Occurrences)>,
    closes: &'a Vec<(OwnedRightType, Occurrences)>,
    owned_rights: &'a Vec<(OwnedRightType, Occurrences)>,
    public_rights: &'a Vec<u16>,
}

impl<'a> NodeSchemaParts<'a> {
    spec fn view(self) -> NodeSchemaView {
        NodeSchemaView {
            metadata: self.metadata@,
            closes: self.closes@,
            owned_rights: self.owned_rights@,
            public_rights: self.public_rights@,
        }
    }
}

/// Looking a key up in the model of a transition list finds the model of
/// what the list holds under that key.
proof fn lemma_lookup_transitions(s: Seq<(TransitionType, TransitionSchema)>, k: TransitionType, i: int)
    requires
        0 <= i <= s.len(),
    ensures
        lookup_from(transitions_view(s), k, i) == match lookup_from(s, k, i) {
            Some(t) => Some(t@),
            None => None,
        },
    decreases s.len() - i,
{
    if i < s.len() {
        lemma_lookup_transitions(s, k, i + 1);
    }
}

/// The parts of a transition schema.
fn transition_parts(t: &TransitionSchema) -> (r: NodeSchemaParts)
    ensures
        r.view() == t@,
{
    NodeSchemaParts {
        metadata: &t.metadata,
        closes: &t.closes,
        owned_rights: &t.owned_rights,
        public_rights: &t.public_rights,
    }
}

/// Finds the first transition schema of `sub` that reaches beyond `root`.
fn check_transitions(
    sub: &Vec<(TransitionType, TransitionSchema)>,
    root: &Vec<(TransitionType, TransitionSchema)>,
) -> (r: Option<SchemaMismatch>)
    ensures
        r == first_transition_mismatch_from(transitions_view(sub@), transitions_view(root@), 0),
{
    let ghost sv = transitions_view(sub@);
    let ghost rv = transitions_view(root@);
    let mut i: usize = 0;
    while i < sub.len()
        invariant
            i <= sub@.len(),
            sv == transitions_view(sub@),
            rv == transitions_view(root@),
            first_transition_mismatch_from(sv, rv, 0) == first_transition_mismatch_from(
                sv,
                rv,
                i as int,
            ),
        decreases sub@.len() - i,
    {
        let t = sub[i].0;
        proof {
            lemma_lookup_transitions(root@, t, 0);
            assert(sv[i as int] == (sub@[i as int].0, sub@[i as int].1@));
        }
        match position(root, t) {
            None => {
                return Some(SchemaMismatch::TransitionType(t));
            },
            Some(j) => {
                match check_node(transition_parts(&sub[i].1), transition_parts(&root[j].1)) {
                    Some(m) => {
                        return Some(SchemaMismatch::Transition(t, m));
                    },
                    None => {},
                }
            },
        }
        i = i + 1;
    }
    None
}

/// Checks that `sub` is a legal restriction of the root schema `root`: every
/// field, right and transition type it uses exists in `root`, with the same
/// value type or state encoding, and none of its occurrence ranges reaches
/// above the root's. On failure reports the first offending type.
pub fn verify_restriction(sub: &Schema, root: &Schema) -> (r: Result<(), SchemaMismatch>)
    ensures
        r == match schema_mismatch(sub@, root@) {
            None => Ok(()),
            Some(m) => Err(m),
        },
{
    if root.root_id.is_some() {
        return Err(SchemaMismatch::RootHierarchy);
    }
    if let Some(f) = check_field_types(&sub.field_types, &root.field_types) {
        return Err(SchemaMismatch::FieldType(f));
    }
    if let Some(t) = check_right_types(&sub.owned_right_types, &root.owned_right_types) {
        return Err(SchemaMismatch::OwnedRightType(t));
    }
    let no_closes: Vec<(OwnedRightType, Occurrences)> = Vec::new();
    let no_root_closes: Vec<(OwnedRightType, Occurrences)> = Vec::new();
    let sub_genesis = NodeSchemaParts {
        metadata: &sub.genesis.metadata,
        closes: &no_closes,
        owned_rights: &sub.genesis.owned_rights,
        public_rights: &sub.genesis.public_rights,
    };
    let root_genesis = NodeSchemaParts {
        metadata: &root.genesis.metadata,
        closes: &no_root_closes,
        owned_rights: &root.genesis.owned_rights,
        public_rights: &root.genesis.public_rights,
    };
    proof {
        assert(sub_genesis.view() == sub.genesis@);
        assert(root_genesis.view() == root.genesis@);
    }
    if let Some(m) = check_node(sub_genesis, root_genesis) {
        return Err(SchemaMismatch::Genesis(m));
    }
    match check_transitions(&sub.transitions, &root.transitions) {
        Some(m) => Err(m),
        None => Ok(()),
    }
}

/// Entry `e` of a restriction stays within `root`: `root` knows its key and
/// the range there is at least as wide.
pub open spec fn entry_within<K>(root: Seq<(K, Occurrences)>, e: (K, Occurrences)) -> bool {
    match lookup(root, e.0) {
        Some(o) => e.1.within_spec(o),
        None => false,
    }
}

/// Some entry of `sub` reaches beyond `root`.
pub open spec fn some_wider<K>(sub: Seq<(K, Occurrences)>, root: Seq<(K, Occurrences)>) -> bool {
    exists|i: int| 0 <= i < sub.len() && !entry_within(root, #[trigger] sub[i])
}

/// Node schema `sub` declares a field or right unknown to `root`, or a range
/// wider than the root's.
pub open spec fn widens(sub: NodeSchemaView, root: NodeSchemaView) -> bool {
    ||| some_wider(sub.metadata, root.metadata)
    ||| some_wider(sub.closes, root.closes)
    ||| some_wider(sub.owned_rights, root.owned_rights)
}

/// A search from `i` finds an entry that reaches beyond the root when one
/// lies at or after `i`.
proof fn lemma_first_wider_found<K>(sub: Seq<(K, Occurrences)>, root: Seq<(K, Occurrences)>, i: int, j: int)
    requires
        0 <= i <= j < sub.len(),
        !entry_within(root, sub[j]),
    ensures
        first_wider_from(sub, root, i) is Some,
    decreases j - i,
{
    if i < j {
        lemma_first_wider_found(sub, root, i + 1, j);
    }
}

/// A node schema that widens its root's has a mismatch.
proof fn lemma_widens_mismatch(sub: NodeSchemaView, root: NodeSchemaView)
    requires
        widens(sub, root),
    ensures
        node_mismatch(sub, root) is Some,
{
    if some_wider(sub.metadata, root.metadata) {
        let i = choose|i: int| 0 <= i < sub.metadata.len() && !entry_within(root.metadata, #[trigger] sub.metadata[i]);
        lemma_first_wider_found(sub.metadata, root.metadata, 0, i);
    } else if some_wider(sub.closes, root.closes) {
        let i = choose|i: int| 0 <= i < sub.closes.len() && !entry_within(root.closes, #[trigger] sub.closes[i]);
        lemma_first_wider_found(sub.closes, root.closes, 0, i);
    } else {
        let i = choose|i: int| 0 <= i < sub.owned_rights.len() && !entry_within(root.owned_rights, #[trigger] sub.owned_rights[i]);
        lemma_first_wider_found(sub.owned_rights, root.owned_rights, 0, i);
    }
}

/// A search through transition schemas from `i` finds a mismatch when one
/// at or after `i` widens the root's schema of its type.
proof fn lemma_transition_mismatch_found(
    sub: Seq<(TransitionType, NodeSchemaView)>,
    root: Seq<(TransitionType, NodeSchemaView)>,
    i: int,
    j: int,
)
    requires
        0 <= i <= j < sub.len(),
        lookup(root, sub[j].0) matches Some(r) && widens(sub[j].1, r),
    ensures
        first_transition_mismatch_from(sub, root, i) is Some,
    decreases j - i,
{
    if i < j {
        lemma_transition_mismatch_found(sub, root, i + 1, j);
    } else {
        lemma_widens_mismatch(sub[j].1, lookup(root, sub[j].0)->Some_0);
    }
}

/// Restriction never widens: a schema whose genesis, or one of whose
/// transitions, declares a field or right that the root lacks there, or an
/// occurrence range reaching above the root's, is no legal restriction.
pub proof fn lemma_widened_schema_rejected(sub: SchemaView, root: SchemaView)
    requires
        widens(sub.genesis, root.genesis) || exists|j: int|
            0 <= j < sub.transitions.len() && (lookup(root.transitions, (#[trigger] sub.transitions[j]).0) matches Some(r)
                && widens(sub.transitions[j].1, r)),
    ensures
        !is_restriction(sub, root),
{
    if widens(sub.genesis, root.genesis) {
        lemma_widens_mismatch(sub.genesis, root.genesis);
    } else {
        let j = choose|j: int|
            0 <= j < sub.transitions.len() && (lookup(root.transitions, (#[trigger] sub.transitions[j]).0) matches Some(r)
                && widens(sub.transitions[j].1, r));
        lemma_transition_mismatch_found(sub.transitions, root.transitions, 0, j);
    }
}

/// The search names the first entry that reaches beyond the root.
proof fn lemma_first_wider_named<K>(sub: Seq<(K, Occurrences)>, root: Seq<(K, Occurrences)>, i: int, j: int)
    requires
        0 <= i <= j < sub.len(),
        forall|m: int| i <= m < j ==> entry_within(root, #[trigger] sub[m]),
        !entry_within(root, sub[j]),
    ensures
        first_wider_from(sub, root, i) == Some(sub[j].0),
    decreases j - i,
{
    if i < j {
        assert(entry_within(root, sub[i]));
        lemma_first_wider_named(sub, root, i + 1, j);
    }
}

/// A widened genesis field is named in the error. When the schema given as
/// root restricts nothing, the value types and state encodings agree, and
/// the genesis metadata entry at `j` is the first to reach beyond the root's
/// (its field unknown there, or its range wider), the restriction fails with
/// `Genesis(Metadata(k))` for the field `k` of that entry.
pub proof fn lemma_widened_genesis_field_named(sub: SchemaView, root: SchemaView, j: int)
    requires
        root.root_id is None,
        first_unmatched_from(sub.field_types, root.field_types, 0) is None,
        first_unmatched_from(sub.owned_right_types, root.owned_right_types, 0) is None,
        0 <= j < sub.genesis.metadata.len(),
        forall|m: int|
            0 <= m < j ==> entry_within(root.genesis.metadata, #[trigger] sub.genesis.metadata[m]),
        !entry_within(root.genesis.metadata, sub.genesis.metadata[j]),
    ensures
        schema_mismatch(sub, root) == Some(
            SchemaMismatch::Genesis(NodeMismatch::Metadata(sub.genesis.metadata[j].0)),
        ),
{
    lemma_first_wider_named(sub.genesis.metadata, root.genesis.metadata, 0, j);
}

} // verus!
