use std::collections::HashMap;

use arrow_schema::{DataType, Field, Schema};
use merge_insert::error::{ControlColumn, MergeError};
use merge_insert::layout::{prepare_stream_schema, WriteColumnSource, WriteStreamContext};

const SENTINEL: &str = "__source";

fn number(name: &str) -> Field {
    Field::new(name, DataType::Int32, false)
}

fn control() -> Vec<Field> {
    vec![
        Field::new("_rowaddr", DataType::UInt64, true),
        Field::new("_rowid", DataType::UInt64, true),
        Field::new("__action", DataType::UInt8, false),
    ]
}

fn layout(input: Vec<Field>, dataset: Vec<Field>) -> Result<WriteStreamContext, MergeError> {
    prepare_stream_schema(&Schema::new(input), &Schema::new(dataset), SENTINEL)
}

fn error(input: Vec<Field>, dataset: Vec<Field>) -> MergeError {
    match layout(input, dataset) {
        Ok(_) => panic!("a layout was found"),
        Err(e) => e,
    }
}

#[test]
fn columns_follow_the_dataset() {
    let mut input = control();
    input.push(number("b"));
    input.push(number("a"));
    let ctx = layout(input, vec![number("a"), number("b")]).unwrap();
    assert_eq!((ctx.rowaddr_idx, ctx.rowid_idx, ctx.action_idx), (0, 1, 2));
    assert_eq!(
        ctx.column_sources,
        vec![WriteColumnSource::Input(4), WriteColumnSource::Input(3)]
    );
    assert_eq!(ctx.output_schema, Schema::new(vec![number("a"), number("b")]));
    assert!(ctx.filler.is_none());
}

#[test]
fn missing_columns_are_filled_and_nullable() {
    let metadata = HashMap::from([("k".to_string(), "v".to_string())]);
    let mut input = control();
    input.push(number("b"));
    let dataset = vec![
        number("a").with_metadata(metadata.clone()),
        number("b"),
        Field::new("c", DataType::Utf8, false),
    ];
    let ctx = layout(input, dataset).unwrap();
    assert_eq!(
        ctx.column_sources,
        vec![
            WriteColumnSource::FillFromTarget(0),
            WriteColumnSource::Input(3),
            WriteColumnSource::FillFromTarget(1),
        ]
    );
    let a = number("a").with_metadata(metadata).with_nullable(true);
    let c = Field::new("c", DataType::Utf8, true);
    assert_eq!(
        ctx.output_schema,
        Schema::new(vec![a.clone(), number("b"), c.clone()])
    );
    let filler = ctx.filler.unwrap();
    assert_eq!(filler.fields, vec![a, c]);
    assert_eq!(filler.column_names(), vec!["a".to_string(), "c".to_string()]);
}

#[test]
fn written_fields_are_those_of_the_input() {
    let mut input = control();
    input.push(Field::new("a", DataType::Int64, true));
    let ctx = layout(input, vec![number("a")]).unwrap();
    assert_eq!(
        ctx.output_schema,
        Schema::new(vec![Field::new("a", DataType::Int64, true)])
    );
}

#[test]
fn last_column_of_a_name_provides() {
    let mut input = control();
    input.push(number("a"));
    input.push(Field::new("a", DataType::Int64, false));
    let ctx = layout(input, vec![number("a")]).unwrap();
    assert_eq!(ctx.column_sources, vec![WriteColumnSource::Input(4)]);
}

#[test]
fn first_control_column_of_a_name_counts() {
    let mut input = vec![number("a")];
    input.extend(control());
    input.extend(control());
    let ctx = layout(input, vec![number("a")]).unwrap();
    assert_eq!((ctx.rowaddr_idx, ctx.rowid_idx, ctx.action_idx), (1, 2, 3));
    assert_eq!(ctx.column_sources, vec![WriteColumnSource::Input(0)]);
}

#[test]
fn control_columns_are_never_written_from_the_input() {
    let mut input = control();
    input.push(number("a"));
    input.push(number(SENTINEL));
    let dataset = vec![
        number("a"),
        number(SENTINEL),
        Field::new("_rowid", DataType::UInt64, false),
        Field::new("_rowaddr", DataType::UInt64, false),
        Field::new("__action", DataType::UInt8, false),
    ];
    let ctx = layout(input, dataset).unwrap();
    assert_eq!(
        ctx.column_sources,
        vec![
            WriteColumnSource::Input(3),
            WriteColumnSource::FillFromTarget(0),
            WriteColumnSource::FillFromTarget(1),
            WriteColumnSource::FillFromTarget(2),
            WriteColumnSource::FillFromTarget(3),
        ]
    );
}

#[test]
fn control_columns_have_to_be_there() {
    for (missing, column) in [
        (0, ControlColumn::RowAddr),
        (1, ControlColumn::RowId),
        (2, ControlColumn::Action),
    ] {
        let mut input = control();
        input.remove(missing);
        input.push(number("a"));
        let e = error(input, vec![number("a")]);
        match e {
            MergeError::MissingInputColumn { column: c } => assert_eq!(c, column),
            other => panic!("{:?}", other),
        }
    }
}

#[test]
fn some_data_column_has_to_be_there() {
    let mut input = control();
    input.push(number("x"));
    assert!(matches!(
        error(input, vec![number("a")]),
        MergeError::NoDataColumns
    ));
    let mut input = control();
    input.push(number("a"));
    assert!(matches!(error(input, vec![]), MergeError::NoDataColumns));
}
