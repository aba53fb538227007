use rgb20::asset::Asset;
use rgb20::contract::{
    AssignedState, Assignment, Error, FieldValue, Genesis, OutPoint, Seal, Transition,
};
use rgb20::schema::{
    FieldType, OwnedRightType, Subschema, TransitionType, RGB20_ROOT_BECH32, RGB20_SIMPLE_BECH32,
};

fn op(txid: u64, vout: u32) -> OutPoint {
    OutPoint { txid, vout }
}

fn right(kind: OwnedRightType, seal: Seal, state: AssignedState) -> Assignment {
    Assignment { right: kind, seal, state }
}

fn genesis(schema_id: &str, rights: Vec<Assignment>) -> Genesis {
    Genesis {
        contract_id: 7,
        schema_id: schema_id.to_string(),
        metadata: vec![
            (FieldType::Ticker, FieldValue::AsciiString("ABC".to_string())),
            (FieldType::Name, FieldValue::AsciiString("Alpha coin".to_string())),
            (FieldType::Precision, FieldValue::U8(8)),
            (FieldType::Timestamp, FieldValue::I64(1_602_340_620)),
            (FieldType::IssuedSupply, FieldValue::U64(1000)),
        ],
        owned_rights: rights,
    }
}

fn transition(
    node_id: u64,
    kind: TransitionType,
    metadata: Vec<(FieldType, FieldValue)>,
    closes: Vec<(OwnedRightType, OutPoint)>,
    rights: Vec<Assignment>,
) -> Transition {
    Transition { node_id, transition_type: kind, witness: node_id, metadata, closes, owned_rights: rights }
}

fn full_genesis() -> Genesis {
    genesis(
        RGB20_ROOT_BECH32,
        vec![
            right(OwnedRightType::Assets, Seal::Revealed(op(1, 0)), AssignedState::Amount(1000)),
            right(OwnedRightType::Inflation, Seal::Revealed(op(1, 1)), AssignedState::Amount(500)),
            right(OwnedRightType::Renomination, Seal::Revealed(op(1, 2)), AssignedState::Declarative),
            right(OwnedRightType::OpenEpoch, Seal::Revealed(op(1, 3)), AssignedState::Declarative),
        ],
    )
}

#[test]
fn genesis_projection() {
    let asset = Asset::project(&full_genesis(), &vec![]).unwrap();
    assert_eq!(asset.id, 7);
    assert_eq!(asset.subschema, Subschema::Full);
    assert_eq!(asset.issued, 1_602_340_620);
    assert_eq!(asset.ticker, "ABC");
    assert_eq!(asset.name, "Alpha coin");
    assert_eq!(asset.contract, "");
    assert_eq!(asset.precision, 8);
    assert_eq!(asset.known_allocations, vec![(op(1, 0), 1000)]);
    assert_eq!(asset.known_supply, 1000);
    assert_eq!(asset.max_supply, 1500);
    assert!(!asset.is_total_supply_known);
    assert!(asset.can_be_inflated);
    assert!(asset.can_be_renominated);
    assert!(!asset.can_be_burned);
    assert!(!asset.can_be_replaced);
    assert_eq!(asset.outpoint_coins(op(1, 0)), vec![1000]);
    assert_eq!(asset.outpoint_coins(op(9, 9)), Vec::<u64>::new());
}

fn epoch_and_burn() -> Vec<Transition> {
    vec![
        transition(
            2,
            TransitionType::Epoch,
            vec![],
            vec![(OwnedRightType::OpenEpoch, op(1, 3))],
            vec![right(OwnedRightType::BurnReplace, Seal::WitnessVout(0), AssignedState::Declarative)],
        ),
        transition(
            3,
            TransitionType::Burn,
            vec![
                (FieldType::BurnedSupply, FieldValue::U64(100)),
                (FieldType::BurnUtxo, FieldValue::OutPoint(op(1, 0))),
            ],
            vec![(OwnedRightType::BurnReplace, op(2, 0))],
            vec![],
        ),
    ]
}

#[test]
fn supply_accounting() {
    let asset = Asset::project(&full_genesis(), &epoch_and_burn()).unwrap();
    assert_eq!(asset.known_supply, 1000);
    assert_eq!(asset.burned_supply, 100);
    assert_eq!(asset.replaced_supply, 0);
    assert_eq!(asset.spendable_supply(), 900);
    assert!(!asset.can_be_burned);
}

#[test]
fn epoch_grants_burn_right() {
    let ts = vec![epoch_and_burn()[0].clone()];
    let asset = Asset::project(&full_genesis(), &ts).unwrap();
    assert!(asset.can_be_burned);
    assert!(asset.can_be_replaced);
}

#[test]
fn burn_and_replace_accounting() {
    let mut ts = vec![epoch_and_burn()[0].clone()];
    ts.push(transition(
        3,
        TransitionType::BurnAndReplace,
        vec![
            (FieldType::BurnedSupply, FieldValue::U64(300)),
            (FieldType::BurnUtxo, FieldValue::OutPoint(op(1, 0))),
            (FieldType::IssuedSupply, FieldValue::U64(300)),
        ],
        vec![(OwnedRightType::BurnReplace, op(2, 0))],
        vec![
            right(OwnedRightType::BurnReplace, Seal::WitnessVout(1), AssignedState::Declarative),
            right(OwnedRightType::Assets, Seal::WitnessVout(0), AssignedState::Amount(300)),
        ],
    ));
    let asset = Asset::project(&full_genesis(), &ts).unwrap();
    assert_eq!(asset.known_supply, 1300);
    assert_eq!(asset.replaced_supply, 300);
    assert_eq!(asset.burned_supply, 0);
    assert_eq!(asset.spendable_supply(), 1000);
    assert_eq!(asset.known_allocations, vec![(op(1, 0), 1000), (op(3, 0), 300)]);
    assert!(asset.can_be_replaced);
}

#[test]
fn secondary_issuance() {
    let ts = vec![transition(
        4,
        TransitionType::Issue,
        vec![(FieldType::IssuedSupply, FieldValue::U64(200))],
        vec![(OwnedRightType::Inflation, op(1, 1))],
        vec![right(OwnedRightType::Assets, Seal::WitnessVout(0), AssignedState::Amount(200))],
    )];
    let asset = Asset::project(&full_genesis(), &ts).unwrap();
    assert_eq!(asset.known_supply, 1200);
    assert_eq!(asset.max_supply, 1200);
    assert!(asset.is_total_supply_known);
    assert!(!asset.can_be_inflated);
    assert_eq!(asset.known_allocations, vec![(op(1, 0), 1000), (op(4, 0), 200)]);
}

#[test]
fn double_spend_is_rejected() {
    let spend = |id: u64| {
        transition(
            id,
            TransitionType::Transfer,
            vec![],
            vec![(OwnedRightType::Assets, op(1, 0))],
            vec![right(OwnedRightType::Assets, Seal::Concealed(id), AssignedState::Amount(1000))],
        )
    };
    let asset = Asset::project(&full_genesis(), &vec![spend(5)]).unwrap();
    assert!(asset.known_allocations.is_empty());
    assert_eq!(
        Asset::project(&full_genesis(), &vec![spend(5), spend(6)]),
        Err(Error::InsufficientRights)
    );
}

#[test]
fn wrong_schema_id() {
    assert_eq!(
        Asset::project(&genesis("rgbsh1xyz", vec![]), &vec![]),
        Err(Error::WrongSchemaId)
    );
}

#[test]
fn missing_metadata() {
    let mut g = full_genesis();
    g.metadata.remove(1);
    assert_eq!(Asset::project(&g, &vec![]), Err(Error::UnsatisfiedSchemaRequirement));
    let mut g = full_genesis();
    g.metadata[0] = (FieldType::Ticker, FieldValue::AsciiString("abc".to_string()));
    assert_eq!(Asset::project(&g, &vec![]), Err(Error::UnsatisfiedSchemaRequirement));
}

#[test]
fn genesis_witness_seal() {
    let g = genesis(
        RGB20_ROOT_BECH32,
        vec![right(OwnedRightType::Assets, Seal::WitnessVout(0), AssignedState::Amount(1))],
    );
    assert_eq!(Asset::project(&g, &vec![]), Err(Error::GenesisSeal));
}

#[test]
fn concealed_rights() {
    let g = genesis(
        RGB20_ROOT_BECH32,
        vec![right(OwnedRightType::Inflation, Seal::Revealed(op(1, 1)), AssignedState::Concealed)],
    );
    assert_eq!(Asset::project(&g, &vec![]), Err(Error::InflationAssignmentConfidential(7)));
    let g = genesis(
        RGB20_ROOT_BECH32,
        vec![right(OwnedRightType::OpenEpoch, Seal::Concealed(3), AssignedState::Declarative)],
    );
    assert_eq!(Asset::project(&g, &vec![]), Err(Error::EpochSealConfidential(7)));
    let ts = vec![transition(
        2,
        TransitionType::Epoch,
        vec![],
        vec![(OwnedRightType::OpenEpoch, op(1, 3))],
        vec![right(OwnedRightType::BurnReplace, Seal::Concealed(1), AssignedState::Declarative)],
    )];
    assert_eq!(Asset::project(&full_genesis(), &ts), Err(Error::BurnSealConfidential(2)));
    let g = genesis(
        RGB20_ROOT_BECH32,
        vec![right(OwnedRightType::Assets, Seal::Concealed(3), AssignedState::Amount(5))],
    );
    assert!(Asset::project(&g, &vec![]).unwrap().known_allocations.is_empty());
}

#[test]
fn burn_without_epoch() {
    let ts = vec![epoch_and_burn()[1].clone()];
    assert_eq!(Asset::project(&full_genesis(), &ts), Err(Error::NotAllEpochsExposed));
}

#[test]
fn simple_schema_cannot_replace() {
    let g = genesis(
        RGB20_SIMPLE_BECH32,
        vec![right(OwnedRightType::BurnReplace, Seal::Revealed(op(1, 5)), AssignedState::Declarative)],
    );
    let asset = Asset::project(&g, &vec![]).unwrap();
    assert_eq!(asset.subschema, Subschema::Simple);
    assert!(asset.can_be_burned);
    assert!(!asset.can_be_replaced);
}

#[test]
fn contract_text() {
    let mut g = full_genesis();
    g.metadata.push((FieldType::Contract, FieldValue::AsciiString("terms".to_string())));
    assert_eq!(Asset::project(&g, &vec![]).unwrap().contract, "terms");
}

#[test]
fn saturating_supply() {
    let mut g = full_genesis();
    g.metadata[4] = (FieldType::IssuedSupply, FieldValue::U64(u64::MAX));
    let asset = Asset::project(&g, &vec![]).unwrap();
    assert_eq!(asset.known_supply, u64::MAX);
    assert_eq!(asset.max_supply, u64::MAX);
}

#[test]
fn concealed_renomination_right() {
    let g = genesis(
        RGB20_ROOT_BECH32,
        vec![right(OwnedRightType::Renomination, Seal::Concealed(3), AssignedState::Declarative)],
    );
    assert_eq!(Asset::project(&g, &vec![]), Err(Error::EpochSealConfidential(7)));
}

#[test]
fn burn_above_supply_is_rejected() {
    let mut ts = epoch_and_burn();
    ts[1].metadata[0] = (FieldType::BurnedSupply, FieldValue::U64(5000));
    assert_eq!(Asset::project(&full_genesis(), &ts), Err(Error::InconsistentSupply));
    ts[1].metadata[0] = (FieldType::BurnedSupply, FieldValue::U64(1000));
    let asset = Asset::project(&full_genesis(), &ts).unwrap();
    assert_eq!(asset.burned_supply, 1000);
    assert_eq!(asset.spendable_supply(), 0);
}

#[test]
fn issuance_overflow_is_rejected() {
    let mut g = full_genesis();
    g.metadata[4] = (FieldType::IssuedSupply, FieldValue::U64(u64::MAX));
    let ts = vec![transition(
        4,
        TransitionType::Issue,
        vec![(FieldType::IssuedSupply, FieldValue::U64(1))],
        vec![(OwnedRightType::Inflation, op(1, 1))],
        vec![],
    )];
    assert_eq!(Asset::project(&g, &ts), Err(Error::InconsistentSupply));
}

fn renominate(id: u64, closes: OutPoint, ticker: &str, next: bool) -> Transition {
    transition(
        id,
        TransitionType::Renomination,
        vec![(FieldType::Ticker, FieldValue::AsciiString(ticker.to_string()))],
        vec![(OwnedRightType::Renomination, closes)],
        if next {
            vec![right(OwnedRightType::Renomination, Seal::WitnessVout(0), AssignedState::Declarative)]
        } else {
            vec![]
        },
    )
}

#[test]
fn projection_follows_renominations() {
    let r1 = renominate(5, op(1, 2), "NEW", true);
    let asset = Asset::project(&full_genesis(), &vec![r1.clone()]).unwrap();
    assert_eq!(asset.ticker, "NEW");
    assert_eq!(asset.name, "Alpha coin");
    assert_eq!(asset.contract, "");
    assert_eq!(asset.precision, 8);
    assert!(asset.can_be_renominated);

    let r2 = renominate(6, op(5, 0), "NEWER", false);
    let asset = Asset::project(&full_genesis(), &vec![r1.clone(), r2.clone()]).unwrap();
    assert_eq!(asset.ticker, "NEWER");
    assert!(!asset.can_be_renominated);

    let r3 = renominate(7, op(6, 0), "LAST", false);
    assert_eq!(
        Asset::project(&full_genesis(), &vec![r1, r2, r3]),
        Err(Error::InsufficientRights)
    );
}

#[test]
fn allocations_do_not_depend_on_order() {
    let g = genesis(
        RGB20_ROOT_BECH32,
        vec![
            right(OwnedRightType::Assets, Seal::Revealed(op(1, 0)), AssignedState::Amount(600)),
            right(OwnedRightType::Assets, Seal::Revealed(op(1, 1)), AssignedState::Amount(400)),
        ],
    );
    let a = transition(
        9,
        TransitionType::Transfer,
        vec![],
        vec![(OwnedRightType::Assets, op(1, 0))],
        vec![right(OwnedRightType::Assets, Seal::WitnessVout(0), AssignedState::Amount(600))],
    );
    let b = transition(
        3,
        TransitionType::Transfer,
        vec![],
        vec![(OwnedRightType::Assets, op(1, 1))],
        vec![right(OwnedRightType::Assets, Seal::WitnessVout(0), AssignedState::Amount(400))],
    );
    let ab = Asset::project(&g, &vec![a.clone(), b.clone()]).unwrap();
    let ba = Asset::project(&g, &vec![b, a]).unwrap();
    assert_eq!(ab, ba);
    assert_eq!(ab.known_allocations, vec![(op(3, 0), 400), (op(9, 0), 600)]);
    assert_eq!(ab.known_coins(), &vec![(op(3, 0), 400), (op(9, 0), 600)]);
}

fn supply_case() -> (Genesis, Transition, Transition, Transition) {
    let mut g = genesis(
        RGB20_ROOT_BECH32,
        vec![
            right(OwnedRightType::Inflation, Seal::Revealed(op(1, 1)), AssignedState::Amount(500)),
            right(OwnedRightType::OpenEpoch, Seal::Revealed(op(1, 3)), AssignedState::Declarative),
        ],
    );
    g.metadata[4] = (FieldType::IssuedSupply, FieldValue::U64(100));
    let epoch = epoch_and_burn()[0].clone();
    let issue = transition(
        4,
        TransitionType::Issue,
        vec![(FieldType::IssuedSupply, FieldValue::U64(50))],
        vec![(OwnedRightType::Inflation, op(1, 1))],
        vec![right(OwnedRightType::Assets, Seal::WitnessVout(0), AssignedState::Amount(50))],
    );
    let mut burn = epoch_and_burn()[1].clone();
    burn.metadata[0] = (FieldType::BurnedSupply, FieldValue::U64(120));
    (g, epoch, issue, burn)
}

#[test]
fn supply_check_does_not_depend_on_order() {
    let (g, epoch, issue, burn) = supply_case();
    let a = Asset::project(&g, &vec![epoch.clone(), issue.clone(), burn.clone()]).unwrap();
    let b = Asset::project(&g, &vec![epoch, burn, issue]).unwrap();
    assert_eq!(a, b);
    assert_eq!(a.known_supply, 150);
    assert_eq!(a.burned_supply, 120);
    assert_eq!(a.spendable_supply(), 30);
}

#[test]
fn supply_check_on_totals() {
    let (g, epoch, _, burn) = supply_case();
    assert_eq!(Asset::project(&g, &vec![epoch, burn]), Err(Error::InconsistentSupply));
}

#[test]
fn burn_right_spent_twice() {
    let mut ts = epoch_and_burn();
    let mut again = ts[1].clone();
    again.node_id = 8;
    again.witness = 8;
    ts.push(again);
    assert_eq!(Asset::project(&full_genesis(), &ts), Err(Error::InsufficientRights));
}

#[test]
fn double_spend_after_other_transfers() {
    let g = genesis(
        RGB20_ROOT_BECH32,
        vec![
            right(OwnedRightType::Assets, Seal::Revealed(op(1, 0)), AssignedState::Amount(600)),
            right(OwnedRightType::Assets, Seal::Revealed(op(1, 1)), AssignedState::Amount(400)),
        ],
    );
    let spend = |id: u64, out: OutPoint| {
        transition(
            id,
            TransitionType::Transfer,
            vec![],
            vec![(OwnedRightType::Assets, out)],
            vec![right(OwnedRightType::Assets, Seal::WitnessVout(0), AssignedState::Amount(1))],
        )
    };
    assert!(Asset::project(&g, &vec![spend(5, op(1, 0)), spend(6, op(1, 1))]).is_ok());
    assert_eq!(
        Asset::project(&g, &vec![spend(5, op(1, 0)), spend(6, op(1, 1)), spend(7, op(1, 0))]),
        Err(Error::InsufficientRights)
    );
}
