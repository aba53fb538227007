//! The three RGB20 schemata: the full root schema and its two restrictions.

use vstd::prelude::*;

use crate::schema::{
    first_transition_mismatch_from, first_unlisted_from, first_unmatched_from, first_wider_from,
    is_restriction, lookup_from,
    FieldType, GenesisSchema, NodeSchemaView, Occurrences, OwnedRightType, PrimitiveType, Schema,
    SchemaView, StateSchema, StructField, Subschema, TransitionSchema, TransitionType, TypeDef,
    TypeName, ValueType, transitions_view,
};

verus! {

/// Model of a node schema built from its parts.
pub open spec fn node(
    metadata: Seq<(FieldType, Occurrences)>,
    closes: Seq<(OwnedRightType, Occurrences)>,
    owned_rights: Seq<(OwnedRightType, Occurrences)>,
) -> NodeSchemaView {
    NodeSchemaView { metadata, closes, owned_rights, public_rights: Seq::empty() }
}

/// Genesis metadata that every variant requires.
pub open spec fn base_genesis_metadata() -> Seq<(FieldType, Occurrences)> {
    seq![
        (FieldType::Ticker, Occurrences::Once),
        (FieldType::Name, Occurrences::Once),
        (FieldType::Precision, Occurrences::Once),
        (FieldType::Timestamp, Occurrences::Once),
        (FieldType::IssuedSupply, Occurrences::Once),
    ]
}

/// Genesis requirements of the full schema.
pub open spec fn full_genesis_view() -> NodeSchemaView {
    node(
        seq![
            (FieldType::Ticker, Occurrences::Once),
            (FieldType::Name, Occurrences::Once),
            (FieldType::Contract, Occurrences::NoneOrOnce),
            (FieldType::Precision, Occurrences::Once),
            (FieldType::Timestamp, Occurrences::Once),
            (FieldType::IssuedSupply, Occurrences::Once),
        ],
        Seq::empty(),
        seq![
            (OwnedRightType::Inflation, Occurrences::NoneOrMore),
            (OwnedRightType::OpenEpoch, Occurrences::NoneOrOnce),
            (OwnedRightType::Assets, Occurrences::NoneOrMore),
            (OwnedRightType::Renomination, Occurrences::NoneOrOnce),
        ],
    )
}

/// Secondary issuance in the full schema.
pub open spec fn full_issue_view() -> NodeSchemaView {
    node(
        seq![(FieldType::IssuedSupply, Occurrences::Once)],
        seq![(OwnedRightType::Inflation, Occurrences::OnceOrMore)],
        seq![
            (OwnedRightType::Inflation, Occurrences::NoneOrMore),
            (OwnedRightType::OpenEpoch, Occurrences::NoneOrOnce),
            (OwnedRightType::Assets, Occurrences::NoneOrMore),
        ],
    )
}

/// Asset transfer, the same in every variant.
pub open spec fn transfer_view() -> NodeSchemaView {
    node(
        Seq::empty(),
        seq![(OwnedRightType::Assets, Occurrences::OnceOrMore)],
        seq![(OwnedRightType::Assets, Occurrences::NoneOrMore)],
    )
}

/// Opening of a burn & replace epoch.
pub open spec fn epoch_view() -> NodeSchemaView {
    node(
        Seq::empty(),
        seq![(OwnedRightType::OpenEpoch, Occurrences::Once)],
        seq![
            (OwnedRightType::OpenEpoch, Occurrences::NoneOrOnce),
            (OwnedRightType::BurnReplace, Occurrences::NoneOrOnce),
        ],
    )
}

/// Asset burn.
pub open spec fn burn_view() -> NodeSchemaView {
    node(
        seq![
            (FieldType::BurnedSupply, Occurrences::Once),
            (FieldType::BurnUtxo, Occurrences::OnceOrMore),
            (FieldType::HistoryProof, Occurrences::NoneOrMore),
        ],
        seq![(OwnedRightType::BurnReplace, Occurrences::Once)],
        seq![(OwnedRightType::BurnReplace, Occurrences::NoneOrOnce)],
    )
}

/// Burn and replacement of the asset.
pub open spec fn burn_replace_view() -> NodeSchemaView {
    node(
        seq![
            (FieldType::BurnedSupply, Occurrences::Once),
            (FieldType::BurnUtxo, Occurrences::OnceOrMore),
            (FieldType::IssuedSupply, Occurrences::Once),
            (FieldType::HistoryProof, Occurrences::NoneOrMore),
        ],
        seq![(OwnedRightType::BurnReplace, Occurrences::Once)],
        seq![
            (OwnedRightType::BurnReplace, Occurrences::NoneOrOnce),
            (OwnedRightType::Assets, Occurrences::OnceOrMore),
        ],
    )
}

/// Renomination.
pub open spec fn renomination_view() -> NodeSchemaView {
    node(
        seq![
            (FieldType::Ticker, Occurrences::NoneOrOnce),
            (FieldType::Name, Occurrences::NoneOrOnce),
            (FieldType::Contract, Occurrences::NoneOrOnce),
            (FieldType::Precision, Occurrences::NoneOrOnce),
        ],
        seq![(OwnedRightType::Renomination, Occurrences::Once)],
        seq![(OwnedRightType::Renomination, Occurrences::NoneOrOnce)],
    )
}

/// Rights that a split in the full schema consumes and creates.
pub open spec fn full_split_rights() -> Seq<(OwnedRightType, Occurrences)> {
    seq![
        (OwnedRightType::Inflation, Occurrences::NoneOrMore),
        (OwnedRightType::Assets, Occurrences::NoneOrMore),
        (OwnedRightType::OpenEpoch, Occurrences::NoneOrOnce),
        (OwnedRightType::BurnReplace, Occurrences::NoneOrMore),
        (OwnedRightType::Renomination, Occurrences::NoneOrOnce),
    ]
}

/// Value types of the fields of the full schema.
pub open spec fn full_field_types() -> Seq<(FieldType, ValueType)> {
    seq![
        (FieldType::Ticker, ValueType::AsciiString),
        (FieldType::Name, ValueType::AsciiString),
        (FieldType::Contract, ValueType::AsciiString),
        (FieldType::Precision, ValueType::U8),
        (FieldType::IssuedSupply, ValueType::U64),
        (FieldType::BurnedSupply, ValueType::U64),
        (FieldType::Timestamp, ValueType::I64),
        (FieldType::HistoryProof, ValueType::Named(TypeName::HistoryProof)),
        (FieldType::BurnUtxo, ValueType::Named(TypeName::OutPoint)),
    ]
}

/// Value types of the fields of the restricted schemata.
pub open spec fn sub_field_types() -> Seq<(FieldType, ValueType)> {
    seq![
        (FieldType::Ticker, ValueType::AsciiString),
        (FieldType::Name, ValueType::AsciiString),
        (FieldType::Precision, ValueType::U8),
        (FieldType::IssuedSupply, ValueType::U64),
        (FieldType::Timestamp, ValueType::I64),
    ]
}

/// The full (root) RGB20 schema.
pub open spec fn full_schema_view() -> SchemaView {
    SchemaView {
        root_id: None,
        genesis: full_genesis_view(),
        transitions: seq![
            (TransitionType::Issue, full_issue_view()),
            (TransitionType::Transfer, transfer_view()),
            (TransitionType::Epoch, epoch_view()),
            (TransitionType::Burn, burn_view()),
            (TransitionType::BurnAndReplace, burn_replace_view()),
            (TransitionType::Renomination, renomination_view()),
            (TransitionType::RightsSplit, node(Seq::empty(), full_split_rights(), full_split_rights())),
        ],
        field_types: full_field_types(),
        owned_right_types: seq![
            (OwnedRightType::Inflation, StateSchema::DiscreteFiniteField),
            (OwnedRightType::Assets, StateSchema::DiscreteFiniteField),
            (OwnedRightType::OpenEpoch, StateSchema::Declarative),
            (OwnedRightType::BurnReplace, StateSchema::Declarative),
            (OwnedRightType::Renomination, StateSchema::Declarative),
        ],
    }
}

/// Rights of the inflationary schema that issuance and splits create.
pub open spec fn inflationary_rights() -> Seq<(OwnedRightType, Occurrences)> {
    seq![
        (OwnedRightType::Inflation, Occurrences::NoneOrMore),
        (OwnedRightType::Assets, Occurrences::NoneOrMore),
    ]
}

/// The RGB20 schema that allows transfers and secondary issuance only.
pub open spec fn inflationary_schema_view() -> SchemaView {
    SchemaView {
        root_id: Some(Subschema::Full),
        genesis: node(base_genesis_metadata(), Seq::empty(), inflationary_rights()),
        transitions: seq![
            (
                TransitionType::Issue,
                node(
                    seq![(FieldType::IssuedSupply, Occurrences::Once)],
                    seq![(OwnedRightType::Inflation, Occurrences::OnceOrMore)],
                    inflationary_rights(),
                ),
            ),
            (TransitionType::Transfer, transfer_view()),
            (TransitionType::RightsSplit, node(Seq::empty(), inflationary_rights(), inflationary_rights())),
        ],
        field_types: sub_field_types(),
        owned_right_types: seq![
            (OwnedRightType::Inflation, StateSchema::DiscreteFiniteField),
            (OwnedRightType::Assets, StateSchema::DiscreteFiniteField),
        ],
    }
}

/// The RGB20 schema that allows asset transfers only.
pub open spec fn simple_schema_view() -> SchemaView {
    SchemaView {
        root_id: Some(Subschema::Full),
        genesis: node(
            base_genesis_metadata(),
            Seq::empty(),
            seq![(OwnedRightType::Assets, Occurrences::NoneOrMore)],
        ),
        transitions: seq![(TransitionType::Transfer, transfer_view())],
        field_types: sub_field_types(),
        owned_right_types: seq![(OwnedRightType::Assets, StateSchema::DiscreteFiniteField)],
    }
}

/// Model of the type system of the full schema.
pub open spec fn type_system_view() -> Seq<(TypeName, Seq<StructField>)> {
    seq![
        (TypeName::OutPoint, seq![StructField::Named(TypeName::Txid), StructField::Primitive(PrimitiveType::U16)]),
        (TypeName::Txid, seq![StructField::Array(PrimitiveType::U8, 32)]),
        (TypeName::HistoryProof, seq![StructField::AsciiString, StructField::Bytes]),
    ]
}

/// Structures that the full schema's value types refer to.
pub fn type_system() -> (r: Vec<TypeDef>)
    ensures
        r@.map_values(|t: TypeDef| t@) == type_system_view(),
{
    let r = vec![
        TypeDef {
            name: TypeName::OutPoint,
            fields: vec![StructField::Named(TypeName::Txid), StructField::Primitive(PrimitiveType::U16)],
        },
        TypeDef { name: TypeName::Txid, fields: vec![StructField::Array(PrimitiveType::U8, 32)] },
        TypeDef {
            name: TypeName::HistoryProof,
            fields: vec![StructField::AsciiString, StructField::Bytes],
        },
    ];
    assert(r@[0].fields@ =~= type_system_view()[0].1);
    assert(r@[1].fields@ =~= type_system_view()[1].1);
    assert(r@[2].fields@ =~= type_system_view()[2].1);
    assert(r@.map_values(|t: TypeDef| t@) =~= type_system_view());
    r
}

/// Schema of the burn transition.
fn burn() -> (r: TransitionSchema)
    ensures
        r@ == burn_view(),
{
    let r = TransitionSchema {
        metadata: vec![
            (FieldType::BurnedSupply, Occurrences::Once),
            // Burned assets normally sit in a single output; a burn made by
            // mistake may need several, so more than one is allowed.
            (FieldType::BurnUtxo, Occurrences::OnceOrMore),
            (FieldType::HistoryProof, Occurrences::NoneOrMore),
        ],
        closes: vec![(OwnedRightType::BurnReplace, Occurrences::Once)],
        owned_rights: vec![(OwnedRightType::BurnReplace, Occurrences::NoneOrOnce)],
        public_rights: Vec::new(),
    };
    proof {
        lemma_node_eq(r, burn_view());
    }
    r
}

/// Schema of the renomination transition.
fn renomination() -> (r: TransitionSchema)
    ensures
        r@ == renomination_view(),
{
    let r = TransitionSchema {
        metadata: vec![
            (FieldType::Ticker, Occurrences::NoneOrOnce),
            (FieldType::Name, Occurrences::NoneOrOnce),
            (FieldType::Contract, Occurrences::NoneOrOnce),
            (FieldType::Precision, Occurrences::NoneOrOnce),
        ],
        closes: vec![(OwnedRightType::Renomination, Occurrences::Once)],
        owned_rights: vec![(OwnedRightType::Renomination, Occurrences::NoneOrOnce)],
        public_rights: Vec::new(),
    };
    proof {
        lemma_node_eq(r, renomination_view());
    }
    r
}

/// A transition schema whose parts have the contents of a model equals it.
proof fn lemma_node_eq(t: TransitionSchema, v: NodeSchemaView)
    requires
        t.metadata@ =~= v.metadata,
        t.closes@ =~= v.closes,
        t.owned_rights@ =~= v.owned_rights,
        t.public_rights@ =~= v.public_rights,
    ensures
        t@ == v,
{
}

/// Schema of secondary issuance in the full schema.
fn full_issue() -> (r: TransitionSchema)
    ensures
        r@ == full_issue_view(),
{
    let r = TransitionSchema {
        metadata: vec![(FieldType::IssuedSupply, Occurrences::Once)],
        closes: vec![(OwnedRightType::Inflation, Occurrences::OnceOrMore)],
        owned_rights: vec![(OwnedRightType::Inflation, Occurrences::NoneOrMore), (OwnedRightType::OpenEpoch, Occurrences::NoneOrOnce), (OwnedRightType::Assets, Occurrences::NoneOrMore)],
        public_rights: Vec::new(),
    };
    proof {
        lemma_node_eq(r, full_issue_view());
    }
    r
}

/// Schema of asset transfer.
fn transfer() -> (r: TransitionSchema)
    ensures
        r@ == transfer_view(),
{
    let r = TransitionSchema {
        metadata: Vec::new(),
        closes: vec![(OwnedRightType::Assets, Occurrences::OnceOrMore)],
        owned_rights: vec![(OwnedRightType::Assets, Occurrences::NoneOrMore)],
        public_rights: Vec::new(),
    };
    proof {
        lemma_node_eq(r, transfer_view());
    }
    r
}

/// Schema of the opening of a burn & replace epoch.
fn epoch() -> (r: TransitionSchema)
    ensures
        r@ == epoch_view(),
{
    let r = TransitionSchema {
        metadata: Vec::new(),
        closes: vec![(OwnedRightType::OpenEpoch, Occurrences::Once)],
        owned_rights: vec![(OwnedRightType::OpenEpoch, Occurrences::NoneOrOnce), (OwnedRightType::BurnReplace, Occurrences::NoneOrOnce)],
        public_rights: Vec::new(),
    };
    proof {
        lemma_node_eq(r, epoch_view());
    }
    r
}

/// Schema of burn and replacement.
fn burn_replace() -> (r: TransitionSchema)
    ensures
        r@ == burn_replace_view(),
{
    let r = TransitionSchema {
        metadata: vec![(FieldType::BurnedSupply, Occurrences::Once), (FieldType::BurnUtxo, Occurrences::OnceOrMore), (FieldType::IssuedSupply, Occurrences::Once), (FieldType::HistoryProof, Occurrences::NoneOrMore)],
        closes: vec![(OwnedRightType::BurnReplace, Occurrences::Once)],
        owned_rights: vec![(OwnedRightType::BurnReplace, Occurrences::NoneOrOnce), (OwnedRightType::Assets, Occurrences::OnceOrMore)],
        public_rights: Vec::new(),
    };
    proof {
        lemma_node_eq(r, burn_replace_view());
    }
    r
}

/// Schema of a rights split in the full schema.
fn full_split() -> (r: TransitionSchema)
    ensures
        r@ == node(Seq::empty(), full_split_rights(), full_split_rights()),
{
    let r = TransitionSchema {
        metadata: Vec::new(),
        closes: vec![(OwnedRightType::Inflation, Occurrences::NoneOrMore), (OwnedRightType::Assets, Occurrences::NoneOrMore), (OwnedRightType::OpenEpoch, Occurrences::NoneOrOnce), (OwnedRightType::BurnReplace, Occurrences::NoneOrMore), (OwnedRightType::Renomination, Occurrences::NoneOrOnce)],
        owned_rights: vec![(OwnedRightType::Inflation, Occurrences::NoneOrMore), (OwnedRightType::Assets, Occurrences::NoneOrMore), (OwnedRightType::OpenEpoch, Occurrences::NoneOrOnce), (OwnedRightType::BurnReplace, Occurrences::NoneOrMore), (OwnedRightType::Renomination, Occurrences::NoneOrOnce)],
        public_rights: Vec::new(),
    };
    proof {
        lemma_node_eq(r, node(Seq::empty(), full_split_rights(), full_split_rights()));
    }
    r
}

/// Schema of secondary issuance in the inflationary schema.
fn inflationary_issue() -> (r: TransitionSchema)
    ensures
        r@ == node(seq![(FieldType::IssuedSupply, Occurrences::Once)], seq![(OwnedRightType::Inflation, Occurrences::OnceOrMore)], inflationary_rights()),
{
    let r = TransitionSchema {
        metadata: vec![(FieldType::IssuedSupply, Occurrences::Once)],
        closes: vec![(OwnedRightType::Inflation, Occurrences::OnceOrMore)],
        owned_rights: vec![(OwnedRightType::Inflation, Occurrences::NoneOrMore), (OwnedRightType::Assets, Occurrences::NoneOrMore)],
        public_rights: Vec::new(),
    };
    proof {
        lemma_node_eq(r, node(seq![(FieldType::IssuedSupply, Occurrences::Once)], seq![(OwnedRightType::Inflation, Occurrences::OnceOrMore)], inflationary_rights()));
    }
    r
}

/// Schema of a rights split in the inflationary schema.
fn inflationary_split() -> (r: TransitionSchema)
    ensures
        r@ == node(Seq::empty(), inflationary_rights(), inflationary_rights()),
{
    let r = TransitionSchema {
        metadata: Vec::new(),
        closes: vec![(OwnedRightType::Inflation, Occurrences::NoneOrMore), (OwnedRightType::Assets, Occurrences::NoneOrMore)],
        owned_rights: vec![(OwnedRightType::Inflation, Occurrences::NoneOrMore), (OwnedRightType::Assets, Occurrences::NoneOrMore)],
        public_rights: Vec::new(),
    };
    proof {
        lemma_node_eq(r, node(Seq::empty(), inflationary_rights(), inflationary_rights()));
    }
    r
}

/// A genesis schema whose parts have the contents of a model equals it.
proof fn lemma_genesis_eq(g: GenesisSchema, v: NodeSchemaView)
    requires
        g.metadata@ =~= v.metadata,
        v.closes =~= Seq::empty(),
        g.owned_rights@ =~= v.owned_rights,
        g.public_rights@ =~= v.public_rights,
    ensures
        g@ == v,
{
}

/// Genesis requirements shared by the restricted schemata, creating `rights`.
fn sub_genesis(rights: Vec<(OwnedRightType, Occurrences)>) -> (r: GenesisSchema)
    ensures
        r@ == node(base_genesis_metadata(), Seq::empty(), rights@),
{
    let r = GenesisSchema {
        metadata: vec![
            (FieldType::Ticker, Occurrences::Once),
            (FieldType::Name, Occurrences::Once),
            (FieldType::Precision, Occurrences::Once),
            (FieldType::Timestamp, Occurrences::Once),
            // Needed to verify the commitments to hidden amounts.
            (FieldType::IssuedSupply, Occurrences::Once),
        ],
        owned_rights: rights,
        public_rights: Vec::new(),
    };
    proof {
        lemma_genesis_eq(r, node(base_genesis_metadata(), Seq::empty(), r.owned_rights@));
    }
    r
}

/// Value types of the fields of the restricted schemata.
fn sub_field_types_vec() -> (r: Vec<(FieldType, ValueType)>)
    ensures
        r@ == sub_field_types(),
{
    let r = vec![
        (FieldType::Ticker, ValueType::AsciiString),
        (FieldType::Name, ValueType::AsciiString),
        (FieldType::Precision, ValueType::U8),
        (FieldType::IssuedSupply, ValueType::U64),
        (FieldType::Timestamp, ValueType::I64),
    ];
    assert(r@ =~= sub_field_types());
    r
}

impl Schema {
    /// Builds the complete RGB20 schema, the root of the other two.
    pub fn rgb20_root() -> (r: Schema)
        ensures
            r@ == full_schema_view(),
            r.type_system@.map_values(|t: TypeDef| t@) == type_system_view(),
    {
        let genesis = GenesisSchema {
            metadata: vec![
                (FieldType::Ticker, Occurrences::Once),
                (FieldType::Name, Occurrences::Once),
                (FieldType::Contract, Occurrences::NoneOrOnce),
                (FieldType::Precision, Occurrences::Once),
                (FieldType::Timestamp, Occurrences::Once),
                // Needed to verify the commitments to hidden amounts.
                (FieldType::IssuedSupply, Occurrences::Once),
            ],
            owned_rights: vec![
                (OwnedRightType::Inflation, Occurrences::NoneOrMore),
                (OwnedRightType::OpenEpoch, Occurrences::NoneOrOnce),
                (OwnedRightType::Assets, Occurrences::NoneOrMore),
                (OwnedRightType::Renomination, Occurrences::NoneOrOnce),
            ],
            public_rights: Vec::new(),
        };
        proof {
            lemma_genesis_eq(genesis, full_genesis_view());
        }
        let transitions = vec![
            (TransitionType::Issue, full_issue()),
            (TransitionType::Transfer, transfer()),
            (TransitionType::Epoch, epoch()),
            (TransitionType::Burn, burn()),
            (TransitionType::BurnAndReplace, burn_replace()),
            (TransitionType::Renomination, renomination()),
            // Splits rights that happen to sit on the same output, such as
            // assets and an inflation right; without it one of them is lost.
            (TransitionType::RightsSplit, full_split()),
        ];
        assert(transitions_view(transitions@) =~= full_schema_view().transitions);
        let field_types = vec![
            (FieldType::Ticker, ValueType::AsciiString),
            (FieldType::Name, ValueType::AsciiString),
            // A contract that does not fit is given as its hash and a URL.
            (FieldType::Contract, ValueType::AsciiString),
            (FieldType::Precision, ValueType::U8),
            (FieldType::IssuedSupply, ValueType::U64),
            (FieldType::BurnedSupply, ValueType::U64),
            (FieldType::Timestamp, ValueType::I64),
            (FieldType::HistoryProof, ValueType::Named(TypeName::HistoryProof)),
            (FieldType::BurnUtxo, ValueType::Named(TypeName::OutPoint)),
        ];
        assert(field_types@ =~= full_field_types());
        let owned_right_types = vec![
            // The amount an issuer may still issue on this path.
            (OwnedRightType::Inflation, StateSchema::DiscreteFiniteField),
            (OwnedRightType::Assets, StateSchema::DiscreteFiniteField),
            (OwnedRightType::OpenEpoch, StateSchema::Declarative),
            (OwnedRightType::BurnReplace, StateSchema::Declarative),
            (OwnedRightType::Renomination, StateSchema::Declarative),
        ];
        assert(owned_right_types@ =~= full_schema_view().owned_right_types);
        Schema {
            root_id: None,
            genesis,
            transitions,
            field_types,
            owned_right_types,
            type_system: type_system(),
        }
    }

    /// Builds the RGB20 schema that allows only transfers and secondary issuance.
    pub fn rgb20_inflationary() -> (r: Schema)
        ensures
            r@ == inflationary_schema_view(),
            r.type_system@.len() == 0,
    {
        let genesis = sub_genesis(
            vec![
                (OwnedRightType::Inflation, Occurrences::NoneOrMore),
                (OwnedRightType::Assets, Occurrences::NoneOrMore),
            ],
        );
        assert(genesis@.owned_rights =~= inflationary_rights());
        let transitions = vec![
            (TransitionType::Issue, inflationary_issue()),
            (TransitionType::Transfer, transfer()),
            (TransitionType::RightsSplit, inflationary_split()),
        ];
        assert(transitions_view(transitions@) =~= inflationary_schema_view().transitions);
        let owned_right_types = vec![
            (OwnedRightType::Inflation, StateSchema::DiscreteFiniteField),
            (OwnedRightType::Assets, StateSchema::DiscreteFiniteField),
        ];
        assert(owned_right_types@ =~= inflationary_schema_view().owned_right_types);
        let r = Schema {
            root_id: Some(Subschema::Full),
            genesis,
            transitions,
            field_types: sub_field_types_vec(),
            owned_right_types,
            type_system: Vec::new(),
        };
        assert(r@.genesis == inflationary_schema_view().genesis);
        r
    }

    /// Builds the RGB20 schema that allows only asset transfers.
    pub fn rgb20_simple() -> (r: Schema)
        ensures
            r@ == simple_schema_view(),
            r.type_system@.len() == 0,
    {
        let genesis = sub_genesis(vec![(OwnedRightType::Assets, Occurrences::NoneOrMore)]);
        assert(genesis@.owned_rights =~= simple_schema_view().genesis.owned_rights);
        let transitions = vec![(TransitionType::Transfer, transfer())];
        assert(transitions_view(transitions@) =~= simple_schema_view().transitions);
        let owned_right_types = vec![(OwnedRightType::Assets, StateSchema::DiscreteFiniteField)];
        assert(owned_right_types@ =~= simple_schema_view().owned_right_types);
        let r = Schema {
            root_id: Some(Subschema::Full),
            genesis,
            transitions,
            field_types: sub_field_types_vec(),
            owned_right_types,
            type_system: Vec::new(),
        };
        assert(r@.genesis == simple_schema_view().genesis);
        r
    }
}

/// Every RGB20 variant is a legal restriction of the full schema: each type
/// it uses is known to the full schema, and none of its occurrence ranges
/// reaches above the full schema's.
pub proof fn lemma_variants_restrict_full()
    ensures
        is_restriction(simple_schema_view(), full_schema_view()),
        is_restriction(inflationary_schema_view(), full_schema_view()),
        is_restriction(full_schema_view(), full_schema_view()),
{
    reveal_with_fuel(lookup_from, 10);
    reveal_with_fuel(first_wider_from, 7);
    reveal_with_fuel(first_unmatched_from, 10);
    reveal_with_fuel(first_unlisted_from, 2);
    reveal_with_fuel(first_transition_mismatch_from, 8);
}

} // verus!
