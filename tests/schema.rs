use rgb20::catalog::type_system;
use rgb20::schema::{
    verify_restriction, FieldType, NodeMismatch, Occurrences, OwnedRightType, Schema,
    SchemaMismatch, Subschema, TransitionType, TypeCode, ValueType, RGB20_INFLATIONARY_BECH32,
    RGB20_ROOT_BECH32, RGB20_SIMPLE_BECH32,
};

#[test]
fn subschema_verify() {
    let status = verify_restriction(&Schema::rgb20_inflationary(), &Schema::rgb20_root());
    assert_eq!(status, Ok(()));

    let status = verify_restriction(&Schema::rgb20_simple(), &Schema::rgb20_root());
    assert_eq!(status, Ok(()));
}

#[test]
fn full_schema_restricts_itself() {
    assert_eq!(verify_restriction(&Schema::rgb20_root(), &Schema::rgb20_root()), Ok(()));
}

#[test]
fn widened_genesis_range_is_rejected() {
    let mut simple = Schema::rgb20_simple();
    simple.genesis.metadata[0] = (FieldType::Ticker, Occurrences::OnceOrMore);
    assert_eq!(
        verify_restriction(&simple, &Schema::rgb20_root()),
        Err(SchemaMismatch::Genesis(NodeMismatch::Metadata(FieldType::Ticker)))
    );
}

#[test]
fn widened_transition_range_is_rejected() {
    let mut simple = Schema::rgb20_simple();
    let mut transfer = simple.transitions[0].1.clone();
    transfer.metadata.push((FieldType::IssuedSupply, Occurrences::NoneOrOnce));
    simple.transitions[0] = (TransitionType::Transfer, transfer);
    assert_eq!(
        verify_restriction(&simple, &Schema::rgb20_root()),
        Err(SchemaMismatch::Transition(
            TransitionType::Transfer,
            NodeMismatch::Metadata(FieldType::IssuedSupply)
        ))
    );
}

#[test]
fn narrowed_range_is_accepted() {
    let mut inflationary = Schema::rgb20_inflationary();
    inflationary.genesis.owned_rights[0] = (OwnedRightType::Inflation, Occurrences::NoneOrOnce);
    assert_eq!(verify_restriction(&inflationary, &Schema::rgb20_root()), Ok(()));
}

#[test]
fn retyped_field_is_rejected() {
    let mut simple = Schema::rgb20_simple();
    simple.field_types[2] = (FieldType::Precision, ValueType::U64);
    assert_eq!(
        verify_restriction(&simple, &Schema::rgb20_root()),
        Err(SchemaMismatch::FieldType(FieldType::Precision))
    );
}

#[test]
fn restricted_root_is_rejected() {
    assert_eq!(
        verify_restriction(&Schema::rgb20_simple(), &Schema::rgb20_inflationary()),
        Err(SchemaMismatch::RootHierarchy)
    );
}

#[test]
fn transition_unknown_to_root_is_rejected() {
    let mut root = Schema::rgb20_root();
    root.transitions.retain(|(t, _)| *t != TransitionType::Transfer);
    assert_eq!(
        verify_restriction(&Schema::rgb20_simple(), &root),
        Err(SchemaMismatch::TransitionType(TransitionType::Transfer))
    );
}

#[test]
fn wire_codes() {
    assert_eq!(FieldType::Ticker.code(), 0x00);
    assert_eq!(FieldType::Name.code(), 0x01);
    assert_eq!(FieldType::IssuedSupply.code(), 0xA0);
    assert_eq!(FieldType::HistoryProof.code(), 0xB2);
    assert_eq!(OwnedRightType::Renomination.code(), 0x01);
    assert_eq!(OwnedRightType::Assets.code(), 0xA1);
    assert_eq!(OwnedRightType::BurnReplace.code(), 0xAB);
    assert_eq!(TransitionType::Transfer.code(), 0x0000);
    assert_eq!(TransitionType::Issue.code(), 0x10A0);
    assert_eq!(TransitionType::RightsSplit.code(), 0x8000);
}

#[test]
fn schema_identifiers() {
    assert_eq!(Subschema::Full.bech32(), RGB20_ROOT_BECH32);
    assert_eq!(Subschema::Inflationary.bech32(), RGB20_INFLATIONARY_BECH32);
    assert_eq!(
        Subschema::Simple.bech32(),
        "rgbsh13c3e8ywrmsu9j0k3er0lgzp9memn5c55rw5svf0l9n3sfntv76zqehteur"
    );
}

#[test]
fn schema_shapes() {
    let root = Schema::rgb20_root();
    assert_eq!(root.root_id, None);
    assert_eq!(root.transitions.len(), 7);
    assert_eq!(root.genesis.metadata.len(), 6);
    assert_eq!(root.type_system.len(), 3);
    assert_eq!(type_system(), root.type_system);
    let simple = Schema::rgb20_simple();
    assert_eq!(simple.root_id, Some(Subschema::Full));
    assert_eq!(simple.transitions.len(), 1);
    assert_eq!(simple.transitions[0].0, TransitionType::Transfer);
    assert_eq!(Schema::rgb20_inflationary().transitions.len(), 3);
}

#[test]
fn occurrence_bounds() {
    assert!(Occurrences::Once.within(Occurrences::NoneOrOnce));
    assert!(Occurrences::NoneOrOnce.within(Occurrences::Once));
    assert!(Occurrences::OnceOrMore.within(Occurrences::NoneOrMore));
    assert!(!Occurrences::NoneOrMore.within(Occurrences::Once));
    assert!(!Occurrences::OnceOrMore.within(Occurrences::NoneOrOnce));
}
