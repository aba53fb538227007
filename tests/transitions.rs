use rgb20::asset::Asset;
use rgb20::contract::{
    AssignedState, Assignment, Error, FieldValue, Genesis, OutPoint, Seal,
};
use rgb20::schema::{FieldType, OwnedRightType, TransitionType, RGB20_ROOT_BECH32};
use rgb20::transitions::{draft_issue, draft_transfer, fold_inflation};

fn op(txid: u64, vout: u32) -> OutPoint {
    OutPoint { txid, vout }
}

fn asset() -> Asset {
    let g = Genesis {
        contract_id: 7,
        schema_id: RGB20_ROOT_BECH32.to_string(),
        metadata: vec![
            (FieldType::Ticker, FieldValue::AsciiString("ABC".to_string())),
            (FieldType::Name, FieldValue::AsciiString("Alpha coin".to_string())),
            (FieldType::Precision, FieldValue::U8(8)),
            (FieldType::Timestamp, FieldValue::I64(1_602_340_620)),
            (FieldType::IssuedSupply, FieldValue::U64(1000)),
        ],
        owned_rights: vec![
            Assignment {
                right: OwnedRightType::Assets,
                seal: Seal::Revealed(op(1, 0)),
                state: AssignedState::Amount(600),
            },
            Assignment {
                right: OwnedRightType::Assets,
                seal: Seal::Revealed(op(1, 1)),
                state: AssignedState::Amount(400),
            },
        ],
    };
    Asset::project(&g, &vec![]).unwrap()
}

#[test]
fn inflation_folding() {
    let a = op(1, 0);
    let b = op(2, 0);
    let mut folded = fold_inflation(&vec![(a, 5), (a, 7), (b, 3)]);
    folded.sort();
    assert_eq!(folded, vec![(a, 12), (b, 3)]);
    assert_eq!(fold_inflation(&vec![]), vec![]);
}

#[test]
fn issue_draft() {
    let a = op(1, 0);
    let b = op(2, 0);
    let carried = vec![Assignment {
        right: OwnedRightType::Inflation,
        seal: Seal::Revealed(op(3, 0)),
        state: AssignedState::Amount(50),
    }];
    let d = draft_issue(&vec![(a, 5), (b, 3), (a, 7)], &vec![(Seal::Concealed(9), 15)], &carried, 15);
    assert_eq!(d.transition_type, TransitionType::Issue);
    assert_eq!(d.issued_supply, Some(15));
    let mut closes = d.closes.clone();
    closes.sort();
    assert_eq!(closes, vec![(OwnedRightType::Inflation, a), (OwnedRightType::Inflation, b)]);
    assert_eq!(
        d.owned_rights,
        vec![
            Assignment {
                right: OwnedRightType::Assets,
                seal: Seal::Concealed(9),
                state: AssignedState::Amount(15),
            },
            carried[0],
        ]
    );
}

#[test]
fn transfer_draft() {
    let d = draft_transfer(
        &asset(),
        &vec![op(1, 1), op(1, 0)],
        &vec![(Seal::Concealed(1), 700)],
        &vec![(Seal::Revealed(op(8, 0)), 300)],
    )
    .unwrap();
    assert_eq!(d.transition_type, TransitionType::Transfer);
    assert_eq!(d.issued_supply, None);
    assert_eq!(
        d.closes,
        vec![(OwnedRightType::Assets, op(1, 1)), (OwnedRightType::Assets, op(1, 0))]
    );
    assert_eq!(
        d.owned_rights,
        vec![
            Assignment {
                right: OwnedRightType::Assets,
                seal: Seal::Concealed(1),
                state: AssignedState::Amount(700),
            },
            Assignment {
                right: OwnedRightType::Assets,
                seal: Seal::Revealed(op(8, 0)),
                state: AssignedState::Amount(300),
            },
        ]
    );
}

#[test]
fn transfer_of_unknown_output() {
    assert_eq!(
        draft_transfer(&asset(), &vec![op(1, 0), op(4, 4)], &vec![], &vec![]),
        Err(Error::InsufficientRights)
    );
}

#[test]
fn allocation_totals() {
    assert_eq!(rgb20::transitions::total_amount(&vec![(op(1, 0), 5), (op(2, 0), 7)]), Some(12));
    assert_eq!(rgb20::transitions::total_amount::<OutPoint>(&vec![]), Some(0));
    assert_eq!(rgb20::transitions::total_amount(&vec![(op(1, 0), u64::MAX), (op(2, 0), 1)]), None);
}
