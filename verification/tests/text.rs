use merge_insert::error::{ControlColumn, ErrorKind, MergeError};
use merge_insert::params::{
    DatasetField, DatasetInfo, MergeInsertParams, WhenMatched, WhenNotMatchedBySource,
};
use merge_insert::merge_state::SourceDedupeBehavior;
use merge_insert::text::{append_decimal, append_quoted, join};

fn message(e: MergeError) -> String {
    assert_eq!(e.kind(), ErrorKind::Internal);
    assert_eq!(e.row_idx(), None);
    e.message("not shown")
}

#[test]
fn messages_say_what_is_wrong() {
    assert_eq!(
        message(MergeError::RowNotTaken { row_addr: 1203 }),
        "Row address 1203 matched by the merge join was not returned by take"
    );
    assert_eq!(
        message(MergeError::MissingInputColumn { column: ControlColumn::RowAddr }),
        "Expected _rowaddr column in merge insert input"
    );
    assert_eq!(
        message(MergeError::MissingInputColumn { column: ControlColumn::RowId }),
        "Expected _rowid column in merge insert input"
    );
    assert_eq!(
        message(MergeError::MissingInputColumn { column: ControlColumn::Action }),
        "Expected __action column in merge insert input"
    );
    assert_eq!(
        message(MergeError::WrongColumnType { column: ControlColumn::RowAddr }),
        "Expected UInt64Array for _rowaddr column"
    );
    assert_eq!(
        message(MergeError::WrongColumnType { column: ControlColumn::RowId }),
        "Expected UInt64Array for _rowid column"
    );
    assert_eq!(
        message(MergeError::WrongColumnType { column: ControlColumn::Action }),
        "Expected UInt8Array for __action column"
    );
    assert_eq!(
        message(MergeError::NoDataColumns),
        "No data columns found in merge insert input"
    );
    assert_eq!(
        message(MergeError::TakeMissingRowAddr),
        "take result is missing the _rowaddr column"
    );
    assert_eq!(
        message(MergeError::TakeMissingColumn { name: "a \"b\"".to_string() }),
        "take result is missing the \"a \\\"b\\\"\" column"
    );
    assert_eq!(
        message(MergeError::ChildCount),
        "FullSchemaMergeInsertExec requires exactly one child"
    );
    assert_eq!(
        message(MergeError::RowIdCount { reason: "2 rows, 1 id".to_string() }),
        "Captured row ids not equal to number of rows written: 2 rows, 1 id"
    );
}

#[test]
fn numbers_are_written_in_decimal() {
    for n in [0, 7, 10, 1203, u64::MAX] {
        let mut out = "n=".to_string();
        append_decimal(&mut out, n);
        assert_eq!(out, format!("n={}", n));
    }
}

#[test]
fn quoted_text_is_escaped() {
    let mut out = "x".to_string();
    append_quoted(&mut out, "a\n");
    assert_eq!(out, "x\"a\\n\"");
}

#[test]
fn parts_are_joined() {
    assert_eq!(join(&vec![], ", "), "");
    assert_eq!(join(&vec!["a".to_string()], ", "), "a");
    assert_eq!(join(&vec!["a".to_string(), "b".to_string()], ", "), "a, b");
}

fn params(when_matched: WhenMatched, insert: bool, by_source: WhenNotMatchedBySource) -> String {
    MergeInsertParams {
        on: vec!["id".to_string(), "day".to_string()],
        when_matched,
        insert_not_matched: insert,
        delete_not_matched_by_source: by_source,
        source_dedupe_behavior: SourceDedupeBehavior::Fail,
    }
    .describe()
}

#[test]
fn params_are_shown_in_one_line() {
    assert_eq!(
        params(WhenMatched::UpdateAll, true, WhenNotMatchedBySource::Keep),
        "MergeInsert: on=[id, day], when_matched=UpdateAll, when_not_matched=InsertAll, \
         when_not_matched_by_source=Keep"
    );
    assert_eq!(
        params(
            WhenMatched::UpdateIf("source.x > 1".to_string()),
            false,
            WhenNotMatchedBySource::Delete,
        ),
        "MergeInsert: on=[id, day], when_matched=UpdateIf(source.x > 1), \
         when_not_matched=DoNothing, when_not_matched_by_source=Delete"
    );
    assert_eq!(
        params(
            WhenMatched::UpdateIfExpr("x > 1".to_string()),
            false,
            WhenNotMatchedBySource::DeleteIf,
        ),
        "MergeInsert: on=[id, day], when_matched=UpdateIf(x > 1), \
         when_not_matched=DoNothing, when_not_matched_by_source=DeleteIf"
    );
    assert!(params(WhenMatched::Fail, true, WhenNotMatchedBySource::Keep)
        .contains("when_matched=Fail,"));
    assert!(params(WhenMatched::Delete, true, WhenNotMatchedBySource::Keep)
        .contains("when_matched=Delete,"));
    assert!(params(WhenMatched::DoNothing, true, WhenNotMatchedBySource::Keep)
        .contains("when_matched=DoNothing,"));
}

fn dataset(primary_key: Vec<i32>) -> DatasetInfo {
    DatasetInfo {
        uri: "mem://t".to_string(),
        version: 4,
        stable_row_ids: true,
        fields: vec![
            DatasetField { path: "id".to_string(), id: 0 },
            DatasetField { path: "s".to_string(), id: 1 },
            DatasetField { path: "s.x".to_string(), id: 2 },
        ],
        primary_key,
    }
}

#[test]
fn unknown_names_have_no_field_id() {
    let d = dataset(vec![]);
    let names = vec!["s.x".to_string(), "nope".to_string(), "id".to_string()];
    assert_eq!(d.field_ids(&names), vec![2, 0]);
    assert_eq!(d.field_id(&"nope".to_string()), None);
    assert_eq!(d.preserved_field_ids(), vec![0, 1, 2]);
}

#[test]
fn primary_key_has_to_match_in_order() {
    let both = vec!["id".to_string(), "s.x".to_string()];
    let turned = vec!["s.x".to_string(), "id".to_string()];
    assert!(dataset(vec![0, 2]).matches_primary_key(&both));
    assert!(!dataset(vec![0, 2]).matches_primary_key(&turned));
    assert!(!dataset(vec![0]).matches_primary_key(&both));
    assert!(!dataset(vec![0, 2, 1]).matches_primary_key(&both));
    // Without a primary key nothing matches, not even nothing.
    assert!(!dataset(vec![]).matches_primary_key(&vec![]));
    // Names of no field are left out.
    let extra = vec!["id".to_string(), "nope".to_string()];
    assert!(dataset(vec![0]).matches_primary_key(&extra));
}
