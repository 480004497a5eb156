use ream::beacon::{PQSignature, PublicKey, SyncAggregatorSelectionData, ValidatorLivenessData};

#[test]
fn liveness_data_keeps_its_fields() {
    let d = ValidatorLivenessData::new(100, true);
    assert_eq!(d.index, 100);
    assert!(d.is_live);
    assert_eq!(d, ValidatorLivenessData { index: 100, is_live: true });
}

#[test]
fn plain_records_compare_by_value() {
    let a = SyncAggregatorSelectionData { slot: 5, subcommittee_index: 2 };
    assert_eq!(a.clone(), a);
    assert_ne!(a, SyncAggregatorSelectionData { slot: 5, subcommittee_index: 3 });
    assert_eq!(PQSignature {}, PQSignature {});
    assert_eq!(PublicKey {}, PublicKey {});
}
