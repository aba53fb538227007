use rgb20::contract::{
    AssignedState, Assignment, Error, FieldValue, Genesis, OutPoint, Seal, Transition,
};
use rgb20::nomination::{renominations, Nomination};
use rgb20::schema::{FieldType, OwnedRightType, TransitionType, RGB20_ROOT_BECH32};

fn op(txid: u64, vout: u32) -> OutPoint {
    OutPoint { txid, vout }
}

fn genesis() -> Genesis {
    Genesis {
        contract_id: 7,
        schema_id: RGB20_ROOT_BECH32.to_string(),
        metadata: vec![
            (FieldType::Ticker, FieldValue::AsciiString("ABC".to_string())),
            (FieldType::Name, FieldValue::AsciiString("Alpha coin".to_string())),
            (FieldType::Precision, FieldValue::U8(8)),
            (FieldType::Timestamp, FieldValue::I64(1_602_340_620)),
            (FieldType::IssuedSupply, FieldValue::U64(1000)),
        ],
        owned_rights: vec![Assignment {
            right: OwnedRightType::Renomination,
            seal: Seal::Revealed(op(1, 0)),
            state: AssignedState::Declarative,
        }],
    }
}

fn renomination(id: u64, closes: OutPoint, meta: Vec<(FieldType, FieldValue)>, next: Option<Seal>) -> Transition {
    Transition {
        node_id: id,
        transition_type: TransitionType::Renomination,
        witness: id,
        metadata: meta,
        closes: vec![(OwnedRightType::Renomination, closes)],
        owned_rights: next
            .into_iter()
            .map(|seal| Assignment {
                right: OwnedRightType::Renomination,
                seal,
                state: AssignedState::Declarative,
            })
            .collect(),
    }
}

#[test]
fn genesis_nomination() {
    let n = Nomination::from_genesis(&genesis()).unwrap();
    assert_eq!(n.ticker, "ABC");
    assert_eq!(n.name, "Alpha coin");
    assert_eq!(n.ricardian_contract, None);
    assert_eq!(n.decimal_precision, 8);
    let mut g = genesis();
    g.metadata.push((FieldType::Contract, FieldValue::AsciiString("terms".to_string())));
    assert_eq!(Nomination::from_genesis(&g).unwrap().ricardian_contract, Some("terms".to_string()));
    let mut g = genesis();
    g.metadata.remove(2);
    assert_eq!(Nomination::from_genesis(&g), Err(Error::UnsatisfiedSchemaRequirement));
    let mut g = genesis();
    g.schema_id = "rgbsh1none".to_string();
    assert_eq!(Nomination::from_genesis(&g), Err(Error::WrongSchemaId));
}

#[test]
fn renomination_chain() {
    let s0 = op(1, 0);
    let s1 = op(5, 0);
    let epoch1 = renomination(
        5,
        s0,
        vec![(FieldType::Ticker, FieldValue::AsciiString("NEW".to_string()))],
        Some(Seal::WitnessVout(0)),
    );
    let epoch2 = renomination(6, s1, vec![(FieldType::Precision, FieldValue::U8(2))], None);
    let chain = renominations(&genesis(), &vec![epoch1.clone(), epoch2.clone()]).unwrap();
    assert_eq!(chain.len(), 2);
    assert_eq!(chain[0].no, 1);
    assert_eq!(chain[0].node_id, 5);
    assert_eq!(chain[0].contract_id, 7);
    assert_eq!(chain[0].closes, s0);
    assert_eq!(chain[0].seal, Some(s1));
    assert_eq!(chain[0].witness, 5);
    assert_eq!(chain[0].nomination.ticker, "NEW");
    assert_eq!(chain[0].nomination.name, "Alpha coin");
    assert_eq!(chain[0].nomination.decimal_precision, 8);
    assert_eq!(chain[1].no, 2);
    assert_eq!(chain[1].closes, s1);
    assert_eq!(chain[1].seal, None);
    assert_eq!(chain[1].nomination.ticker, "NEW");
    assert_eq!(chain[1].nomination.decimal_precision, 2);

    let epoch3 = renomination(7, s1, vec![], Some(Seal::WitnessVout(0)));
    assert_eq!(
        renominations(&genesis(), &vec![epoch1, epoch2, epoch3]),
        Err(Error::InsufficientRights)
    );
}

#[test]
fn renomination_of_wrong_seal() {
    let t = renomination(5, op(9, 9), vec![], None);
    assert_eq!(renominations(&genesis(), &vec![t]), Err(Error::InsufficientRights));
}

#[test]
fn renomination_without_genesis_right() {
    let mut g = genesis();
    g.owned_rights.clear();
    let t = renomination(5, op(1, 0), vec![], None);
    assert_eq!(renominations(&g, &vec![]), Ok(vec![]));
    assert_eq!(renominations(&g, &vec![t]), Err(Error::InsufficientRights));
}

#[test]
fn renomination_with_bad_ticker() {
    let t = renomination(
        5,
        op(1, 0),
        vec![(FieldType::Ticker, FieldValue::AsciiString("no".to_string()))],
        None,
    );
    assert_eq!(renominations(&genesis(), &vec![t]), Err(Error::UnsatisfiedSchemaRequirement));
}

#[test]
fn concealed_next_seal() {
    let t = renomination(5, op(1, 0), vec![], Some(Seal::Concealed(4)));
    assert_eq!(renominations(&genesis(), &vec![t]), Err(Error::EpochSealConfidential(5)));
}
