//! History parsing and revision resolution.

use gocd_notify::gocd::{parse_history_response, resolve_revision, HistoryRecord, LookupError};

#[test]
fn resolves_revision_of_matching_counter() {
    let records = vec![
        HistoryRecord { counter: 3, id: Some(30) },
        HistoryRecord { counter: 2, id: Some(20) },
        HistoryRecord { counter: 1, id: None },
    ];
    let item = resolve_revision(&records, 2).expect("counter 2 is present");
    assert_eq!(item.counter, 2);
    assert_eq!(item.id, 20);
}

#[test]
fn reports_build_not_found() {
    let records = vec![HistoryRecord { counter: 3, id: Some(30) }];
    assert!(matches!(
        resolve_revision(&records, 4),
        Err(LookupError::BuildNotFound)
    ));
    let empty: Vec<HistoryRecord> = vec![];
    assert!(matches!(
        resolve_revision(&empty, 1),
        Err(LookupError::BuildNotFound)
    ));
}

#[test]
fn reports_missing_revision_data() {
    let records = vec![HistoryRecord { counter: 5, id: None }];
    assert!(matches!(
        resolve_revision(&records, 5),
        Err(LookupError::NoRevisionData)
    ));
}

#[test]
fn first_matching_record_wins() {
    let records = vec![
        HistoryRecord { counter: 5, id: Some(50) },
        HistoryRecord { counter: 5, id: Some(51) },
    ];
    let item = resolve_revision(&records, 5).unwrap();
    assert_eq!(item.id, 50);
}

#[test]
fn parses_history_response_records() {
    let text = r#"{
        "pipelines": [
            {
                "counter": 20,
                "build_cause": {
                    "material_revisions": [
                        { "modifications": [ { "id": 777 } ] }
                    ]
                }
            },
            { "counter": 19 },
            { "label": "no counter here" }
        ]
    }"#;
    let response: serde_json::Value = serde_json::from_str(text).unwrap();
    let records = parse_history_response(&response).expect("the response is well-formed");
    assert_eq!(records.len(), 2);
    assert_eq!(records[0].counter, 20);
    assert_eq!(records[0].id, Some(777));
    assert_eq!(records[1].counter, 19);
    assert_eq!(records[1].id, None);
}

#[test]
fn rejects_response_without_pipelines_array() {
    let response: serde_json::Value = serde_json::from_str(r#"{"pipelines": 5}"#).unwrap();
    assert!(parse_history_response(&response).is_err());
    let response: serde_json::Value = serde_json::from_str(r#"{"paused": true}"#).unwrap();
    assert!(parse_history_response(&response).is_err());
}
