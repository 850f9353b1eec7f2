use std::cell::Cell;
use std::sync::Arc;

use arrow::datatypes::{DataType, Field, Schema, TimeUnit};
use comet_parquet::access_plan::ParquetAccessPlan;
use comet_parquet::bloom::{add_bloom_filter, judge_bloom_filters, no_bloom_filters};
use comet_parquet::constants::{
    constant_columns_from_stats, constant_value_from_stats, literal_columns, ColumnField,
    ColumnStatistics, LiteralColumns, Precision, Statistics,
};
use comet_parquet::filters::{
    fit_scan, footer_options, has_schema_of, keeps_page_filters, must_read_page_index,
    takes_virtual_columns, with_page_index, Int96Options,
};
use comet_parquet::metadata::{ColumnChunkMetaData, RowGroupMetaData};
use comet_parquet::opener::{
    bloom_columns, can_decide_page_index, find_bloom_columns, plan_bloom_reads,
    prune_bloom_filters, should_load_page_index, PruningOptions,
};
use comet_parquet::row_group_filter::RowGroupAccessPlanFilter;
use comet_parquet::values::{cast_or, null_or};
use comet_parquet::virtual_columns::{
    append_fields, build_virtual_columns_state, reference_message,
    validate_predicate_does_not_reference_virtual_columns, VirtualColumnError, VirtualColumnsState,
};
use datafusion_common::{DataFusionError, ScalarValue};
use datafusion_datasource_parquet::BloomFilterStatistics;
use datafusion_expr::Operator;
use datafusion_physical_expr::expressions::{lit, BinaryExpr, Column};
use datafusion_physical_expr_common::physical_expr::PhysicalExpr;
use datafusion_pruning::{PruningPredicate, PruningPredicateBuilder};
use parquet::arrow::arrow_reader::{ArrowReaderMetadata, ArrowReaderOptions};
use parquet::arrow::{ArrowSchemaConverter, RowNumber};
use parquet::bloom_filter::Sbbf;
use parquet::errors::ParquetError;
use parquet::file::metadata::{FileMetaData, PageIndexPolicy, ParquetMetaData};
use parquet::schema::types::{SchemaDescriptor, Type};

fn exact(value: i64) -> Precision<ScalarValue> {
    Precision::Exact(ScalarValue::Int64(Some(value)))
}

fn stats(
    min: Precision<ScalarValue>,
    max: Precision<ScalarValue>,
    nulls: Precision<usize>,
) -> ColumnStatistics {
    ColumnStatistics {
        null_count: nulls,
        max_value: max,
        min_value: min,
    }
}

fn cast(value: &ScalarValue, data_type: &DataType) -> Result<ScalarValue, DataFusionError> {
    value.cast_to(data_type)
}

fn null(data_type: &DataType) -> Result<ScalarValue, DataFusionError> {
    ScalarValue::try_new_null(data_type)
}

fn constant(
    stats: &ColumnStatistics,
    num_rows: Option<usize>,
    data_type: &DataType,
) -> Option<ScalarValue> {
    constant_value_from_stats(stats, num_rows, data_type, &cast, &null)
}

#[test]
fn a_column_of_one_value_is_constant() {
    let one = stats(exact(5), exact(5), Precision::Exact(0));
    assert_eq!(
        constant(&one, Some(10), &DataType::Int64),
        Some(ScalarValue::Int64(Some(5)))
    );
    // It is cast to the type of the column.
    assert_eq!(
        constant(&one, None, &DataType::Int32),
        Some(ScalarValue::Int32(Some(5)))
    );
    // Two values, or values that are not sure, are not constant.
    for other in [
        stats(exact(5), exact(6), Precision::Exact(0)),
        stats(exact(5), exact(5), Precision::Exact(1)),
        stats(exact(5), exact(5), Precision::Inexact(0)),
        stats(exact(5), exact(5), Precision::Absent),
        stats(
            exact(5),
            Precision::Inexact(ScalarValue::Int64(Some(5))),
            Precision::Exact(0),
        ),
        stats(
            Precision::Exact(ScalarValue::Int64(None)),
            Precision::Exact(ScalarValue::Int64(None)),
            Precision::Exact(0),
        ),
    ] {
        assert_eq!(constant(&other, Some(10), &DataType::Int64), None);
    }
}

#[test]
fn a_column_of_nulls_is_constant() {
    let nulls = stats(Precision::Absent, Precision::Absent, Precision::Exact(10));
    assert_eq!(
        constant(&nulls, Some(10), &DataType::Int64),
        Some(ScalarValue::Int64(None))
    );
    assert_eq!(constant(&nulls, Some(11), &DataType::Int64), None);
    assert_eq!(constant(&nulls, None, &DataType::Int64), None);
}

#[test]
fn a_value_that_cannot_be_cast_is_not_constant() {
    let text = || Precision::Exact(ScalarValue::Utf8(Some("x".to_string())));
    let one = stats(text(), text(), Precision::Exact(0));
    assert_eq!(constant(&one, None, &DataType::Int64), None);
}

fn field(name: &str) -> ColumnField {
    ColumnField {
        name: name.to_string(),
        data_type: DataType::Int64,
    }
}

fn value(literals: &LiteralColumns, name: &str) -> Option<ScalarValue> {
    literals.get(&name.to_string()).cloned()
}

fn file_stats(columns: Vec<ColumnStatistics>) -> Statistics {
    Statistics {
        num_rows: Precision::Exact(10),
        column_statistics: columns,
    }
}

#[test]
fn constants_are_found_by_schema_order() {
    let statistics = file_stats(vec![
        stats(exact(1), exact(2), Precision::Exact(0)),
        stats(exact(5), exact(5), Precision::Exact(0)),
        stats(exact(7), exact(7), Precision::Exact(0)),
    ]);
    // The statistics of columns that the schema does not have do not count.
    let constants =
        constant_columns_from_stats(Some(&statistics), &vec![field("a"), field("b")], &cast, &null);
    assert_eq!(constants.names(), &vec!["b".to_string()]);
    assert_eq!(value(&constants, "b"), Some(ScalarValue::Int64(Some(5))));
    assert_eq!(value(&constants, "a"), None);
    let none = constant_columns_from_stats(None, &vec![field("a")], &cast, &null);
    assert!(none.names().is_empty());
}

#[test]
fn statistics_go_before_partition_values() {
    let statistics = file_stats(vec![stats(exact(5), exact(5), Precision::Exact(0))]);
    let literals = literal_columns(
        &vec!["p".to_string(), "a".to_string(), "q".to_string()],
        &vec![ScalarValue::Int64(Some(1)), ScalarValue::Int64(Some(2))],
        Some(&statistics),
        &vec![field("a")],
        &cast,
        &null,
    );
    assert_eq!(value(&literals, "p"), Some(ScalarValue::Int64(Some(1))));
    assert_eq!(value(&literals, "a"), Some(ScalarValue::Int64(Some(5))));
    assert_eq!(value(&literals, "q"), None);
}

fn row_number(name: &str) -> Arc<Field> {
    Arc::new(Field::new(name, DataType::Int64, false).with_extension_type(RowNumber))
}

fn plain(name: &str) -> Arc<Field> {
    Arc::new(Field::new(name, DataType::Int64, true))
}

fn schema(fields: Vec<Arc<Field>>) -> Arc<Schema> {
    Arc::new(Schema::new(fields))
}

#[test]
fn virtual_columns_follow_those_of_the_file() {
    let base = schema(vec![plain("a")]);
    let columns = vec![row_number("n")];
    let state = build_virtual_columns_state(&columns, &base, None, true, &null)
        .ok()
        .unwrap()
        .unwrap();
    assert_eq!(state.virtual_columns(), &columns);
    let names: Vec<&String> = state
        .logical_schema_with_virtual()
        .fields()
        .iter()
        .map(|field| field.name())
        .collect();
    assert_eq!(names, vec!["a", "n"]);
    assert_eq!(
        value(state.null_replacements(), "n"),
        Some(ScalarValue::Int64(None))
    );
    assert!(build_virtual_columns_state(&vec![], &base, None, true, &null)
        .ok()
        .unwrap()
        .is_none());
    assert_eq!(append_fields(&base, &vec![]), base);
}

#[test]
fn a_predicate_must_not_refer_to_a_virtual_column() {
    let base = schema(vec![plain("a")]);
    let columns = vec![row_number("m"), row_number("n")];
    let used = vec!["a".to_string(), "n".to_string(), "m".to_string()];
    match validate_predicate_does_not_reference_virtual_columns(&used, &columns) {
        Err(VirtualColumnError::InPredicate(name)) => {
            assert_eq!(name, "n");
            assert_eq!(
                reference_message(&name),
                "Predicate references virtual column 'n'; route via \
                 ParquetSource::try_pushdown_filters."
            );
        }
        _ => panic!("accepted"),
    }
    assert!(matches!(
        build_virtual_columns_state(&columns, &base, Some(&used), true, &null),
        Err(VirtualColumnError::InPredicate(_))
    ));
    // Where filters are not evaluated while decoding it may.
    assert!(build_virtual_columns_state(&columns, &base, Some(&used), false, &null).is_ok());
    assert!(validate_predicate_does_not_reference_virtual_columns(
        &vec!["a".to_string()],
        &columns
    )
    .is_ok());
}

#[test]
fn a_column_that_cannot_be_made_up_is_refused() {
    let base = schema(vec![plain("a")]);
    assert!(matches!(
        build_virtual_columns_state(&vec![row_number("n"), plain("b")], &base, None, true, &null),
        Err(VirtualColumnError::Unsupported(_))
    ));
}

fn metadata_of(schema: &Schema) -> (ArrowReaderMetadata, Arc<ParquetMetaData>) {
    let descriptor = ArrowSchemaConverter::new().convert(schema).unwrap();
    metadata_with_descriptor(Arc::new(descriptor))
}

fn metadata_with_descriptor(
    descriptor: Arc<SchemaDescriptor>,
) -> (ArrowReaderMetadata, Arc<ParquetMetaData>) {
    let file = FileMetaData::new(2, 0, None, None, descriptor, None);
    let metadata = Arc::new(ParquetMetaData::new(file, vec![]));
    let reader =
        ArrowReaderMetadata::try_new(Arc::clone(&metadata), ArrowReaderOptions::new()).unwrap();
    (reader, metadata)
}

fn no_int96() -> Int96Options {
    Int96Options {
        coerce_int96: None,
        coerce_int96_tz: None,
    }
}

fn unused(
    _: Arc<ParquetMetaData>,
    _: ArrowReaderOptions,
) -> Result<ArrowReaderMetadata, ParquetError> {
    panic!("made anew")
}

#[test]
fn a_file_that_fits_is_left_as_it_is() {
    let own = schema(vec![plain("a")]);
    let (reader, _) = metadata_of(&own);
    let own = Arc::clone(reader.schema());
    let fitted =
        fit_scan(reader.clone(), ArrowReaderOptions::new(), &own, &no_int96(), None, false, unused)
            .unwrap();
    assert_eq!(fitted.physical_file_schema, own);
    assert!(fitted.rewrite.is_none());
    // With a predicate expressions are rewritten all the same.
    let fitted =
        fit_scan(reader, ArrowReaderOptions::new(), &own, &no_int96(), None, true, unused).unwrap();
    let rewrite = fitted.rewrite.unwrap();
    assert_eq!(rewrite.logical, own);
    assert_eq!(rewrite.physical, own);
}

#[test]
fn a_file_is_read_with_the_types_of_the_table() {
    let own = schema(vec![Arc::new(Field::new("a", DataType::Utf8, true))]);
    let table = schema(vec![Arc::new(Field::new("a", DataType::Utf8View, true))]);
    let (reader, _) = metadata_of(&own);
    let fitted =
        fit_scan(reader, ArrowReaderOptions::new(), &table, &no_int96(), None, false, unused).unwrap();
    assert_eq!(fitted.physical_file_schema.field(0).data_type(), &DataType::Utf8View);
    assert_eq!(
        fitted.reader_metadata.schema().field(0).data_type(),
        &DataType::Utf8View
    );
}

#[test]
fn old_timestamps_are_read_with_the_given_unit() {
    let leaf = Type::primitive_type_builder("t", parquet::basic::Type::INT96)
        .build()
        .unwrap();
    let root = Type::group_type_builder("schema")
        .with_fields(vec![Arc::new(leaf)])
        .build()
        .unwrap();
    let (reader, _) = metadata_with_descriptor(Arc::new(SchemaDescriptor::new(Arc::new(root))));
    let table = Arc::clone(reader.schema());
    assert_eq!(
        table.field(0).data_type(),
        &DataType::Timestamp(TimeUnit::Nanosecond, None)
    );
    for tz in [None, Some("UTC".to_string())] {
        let fitted = fit_scan(
            reader.clone(),
            ArrowReaderOptions::new(),
            &table,
            &Int96Options {
                coerce_int96: Some(TimeUnit::Microsecond),
                coerce_int96_tz: tz.clone(),
            },
            None,
            false,
            unused,
        )
        .unwrap();
        assert_eq!(
            fitted.physical_file_schema.field(0).data_type(),
            &DataType::Timestamp(TimeUnit::Microsecond, tz.map(Arc::from))
        );
        assert!(fitted.rewrite.is_some());
    }
    let kept = fit_scan(
        reader,
        ArrowReaderOptions::new(),
        &table,
        &Int96Options {
            coerce_int96: None,
            coerce_int96_tz: Some("UTC".to_string()),
        },
        None,
        false,
        unused,
    )
    .unwrap();
    assert_eq!(kept.physical_file_schema, table);
}

#[test]
fn virtual_columns_are_read_after_those_of_the_file() {
    let (reader, _) = metadata_of(&schema(vec![plain("a")]));
    let own = Arc::clone(reader.schema());
    let state = build_virtual_columns_state(&vec![row_number("n")], &own, None, true, &null)
        .ok()
        .unwrap()
        .unwrap();
    let fitted = fit_scan(
        reader,
        ArrowReaderOptions::new(),
        &own,
        &no_int96(),
        Some(&state),
        true,
        ArrowReaderMetadata::try_new,
    )
    .unwrap();
    assert_eq!(fitted.physical_file_schema, own);
    assert_eq!(fitted.reader_metadata.schema().fields().len(), 2);
    let rewrite = fitted.rewrite.unwrap();
    assert_eq!(rewrite.logical.field(1).name(), "n");
    assert_eq!(rewrite.physical.field(1).name(), "n");
}

fn reader_and_state(data_type: DataType) -> (ArrowReaderMetadata, VirtualColumnsState) {
    let (reader, _) = metadata_of(&schema(vec![Arc::new(Field::new("a", data_type, true))]));
    let state =
        build_virtual_columns_state(&vec![row_number("n")], reader.schema(), None, true, &null)
            .ok()
            .unwrap()
            .unwrap();
    (reader, state)
}

#[test]
fn a_schema_is_given_only_where_types_change() {
    let fit = |own: DataType, table: DataType, has_virtual: bool| {
        let (reader, state) = reader_and_state(own);
        let made = Cell::new(false);
        let fitted = fit_scan(
            reader,
            ArrowReaderOptions::new(),
            &schema(vec![Arc::new(Field::new("a", table, true))]),
            &no_int96(),
            has_virtual.then_some(&state),
            false,
            |footer, options| {
                made.set(true);
                ArrowReaderMetadata::try_new(footer, options)
            },
        )
        .unwrap();
        let types: Vec<DataType> = fitted
            .reader_metadata
            .schema()
            .fields()
            .iter()
            .map(|field| field.data_type().clone())
            .collect();
        (made.get(), fitted.schema_given, types)
    };
    let (number, text, view) = (DataType::Int64, DataType::Utf8, DataType::Utf8View);
    assert_eq!(
        fit(number.clone(), number.clone(), false),
        (false, false, vec![number.clone()])
    );
    assert_eq!(fit(text.clone(), view.clone(), false), (false, true, vec![view.clone()]));
    assert_eq!(
        fit(number.clone(), number.clone(), true),
        (true, false, vec![number.clone(), number.clone()])
    );
    assert_eq!(fit(text, view.clone(), true), (true, false, vec![view, number]));
}

#[test]
fn without_a_change_of_types_the_options_stay_as_they_are() {
    let (reader, state) = reader_and_state(DataType::Int64);
    let own = Arc::clone(reader.schema());
    // They give a schema that is not that of the file.
    let other = schema(vec![plain("a"), plain("b")]);
    let options = ArrowReaderOptions::new().with_schema(other);
    assert!(fit_scan(
        reader,
        options,
        &own,
        &no_int96(),
        Some(&state),
        false,
        ArrowReaderMetadata::try_new,
    )
    .is_err());
}

#[test]
fn a_scan_that_cannot_be_fitted_fails() {
    let (reader, state) = reader_and_state(DataType::Int64);
    let own = Arc::clone(reader.schema());
    let failed = fit_scan(
        reader,
        ArrowReaderOptions::new(),
        &own,
        &no_int96(),
        Some(&state),
        false,
        |_, _| Err(ParquetError::General("lost".to_string())),
    );
    assert!(matches!(failed, Err(ParquetError::General(message)) if message == "lost"));
}

#[test]
fn page_filters_need_the_page_index() {
    assert!(keeps_page_filters(true, Some(1)));
    assert!(!keeps_page_filters(true, Some(0)));
    assert!(!keeps_page_filters(true, None));
    assert!(!keeps_page_filters(false, Some(1)));
}

#[test]
fn the_footer_is_loaded_without_the_page_index() {
    let options = footer_options(None);
    assert_eq!(options.column_index_policy(), PageIndexPolicy::Skip);
    assert_eq!(options.offset_index_policy(), PageIndexPolicy::Skip);

    // A schema that is known of the file is used in place of its own.
    let (reader, _) = metadata_of(&schema(vec![plain("a")]));
    let known = Arc::new(Schema::new(vec![Field::new("other", DataType::Utf8, true)]));
    let own = ArrowReaderMetadata::try_new(Arc::clone(reader.metadata()), options).unwrap();
    assert_eq!(own.schema().field(0).data_type(), reader.schema().field(0).data_type());
    let options = footer_options(Some(&known));
    assert_eq!(options.column_index_policy(), PageIndexPolicy::Skip);
    assert!(ArrowReaderMetadata::try_new(Arc::clone(reader.metadata()), options).is_err());
}

#[test]
fn the_page_index_is_loaded_unless_it_is_there() {
    assert!(!must_read_page_index(true, true));
    assert!(must_read_page_index(true, false));
    assert!(must_read_page_index(false, true));
    assert!(must_read_page_index(false, false));
    let (reader, metadata) = metadata_of(&schema(vec![plain("a")]));
    let indexed = with_page_index(
        &reader,
        Arc::clone(&metadata),
        footer_options(None),
        false,
        ArrowReaderMetadata::try_new,
    )
    .unwrap();
    assert_eq!(indexed.schema(), reader.schema());
    assert!(Arc::ptr_eq(indexed.metadata(), &metadata));
    // With a schema the file is read with it, or not at all.
    assert!(has_schema_of(&reader, &metadata));
    let given = |schema: &Arc<Schema>| {
        with_page_index(
            &reader,
            Arc::clone(&metadata),
            footer_options(Some(schema)),
            true,
            unused,
        )
    };
    assert_eq!(given(reader.schema()).unwrap().schema(), reader.schema());
    let other = schema(vec![Arc::new(Field::new("a", DataType::Utf8, true))]);
    assert!(given(&other).is_err());
    let (_, foreign) = metadata_of(&schema(vec![plain("b")]));
    assert!(!has_schema_of(&reader, &foreign));
}

#[test]
fn the_page_index_is_asked_for_when_the_footer_is_read_again() {
    let (reader, metadata) = metadata_of(&schema(vec![plain("a")]));
    let made = with_page_index(&reader, metadata, footer_options(None), false, |footer, options| {
        assert_eq!(options.column_index_policy(), PageIndexPolicy::Optional);
        assert_eq!(options.offset_index_policy(), PageIndexPolicy::Optional);
        ArrowReaderMetadata::try_new(footer, options)
    });
    assert!(made.is_ok());
}

fn chunk(indexed: bool) -> ColumnChunkMetaData {
    ColumnChunkMetaData {
        dictionary_page_offset: None,
        data_page_offset: 4,
        compressed_size: 10,
        column_index_offset: indexed.then_some(100),
        offset_index_offset: indexed.then_some(200),
    }
}

#[test]
fn the_page_index_is_loaded_only_where_it_may_help() {
    let arrow = schema(vec![plain("a"), plain("b")]);
    let (_, metadata) = metadata_of(&arrow);
    let descriptor = metadata.file_metadata().schema_descr();
    let groups = vec![RowGroupMetaData {
        num_rows: 10,
        columns: vec![chunk(false), chunk(true)],
    }];
    let filter = RowGroupAccessPlanFilter::new(ParquetAccessPlan::new_all(1));
    let load = |filter: &RowGroupAccessPlanFilter, names: Option<Vec<&str>>| {
        let names = names.map(|names| names.iter().map(|name| name.to_string()).collect());
        should_load_page_index(filter, &groups, &names, descriptor, &arrow)
    };
    assert!(load(&filter, Some(vec!["a", "b"])));
    assert!(!load(&filter, Some(vec!["a"])));
    assert!(!load(&filter, Some(vec!["missing"])));
    assert!(!load(&filter, None));
    let mut matched = ParquetAccessPlan::new_all(1);
    matched.mark_fully_matched(0);
    assert!(!load(&RowGroupAccessPlanFilter::new(matched), Some(vec!["b"])));
}

#[test]
fn column_chunks_are_looked_up_only_in_row_groups_that_are_read() {
    let arrow = schema(vec![plain("a"), plain("b")]);
    let (_, metadata) = metadata_of(&arrow);
    let descriptor = metadata.file_metadata().schema_descr();
    let group = |columns| RowGroupMetaData {
        num_rows: 10,
        columns,
    };
    let groups = vec![group(vec![chunk(false)]), group(vec![chunk(false), chunk(true)])];
    let names = Some(vec!["b".to_string()]);
    let all = RowGroupAccessPlanFilter::new(ParquetAccessPlan::new_all(2));
    assert!(!can_decide_page_index(&all, &groups, &names, descriptor));
    // Without predicates on pages none is looked up.
    assert!(can_decide_page_index(&all, &groups, &None, descriptor));
    assert!(!should_load_page_index(&all, &groups, &None, descriptor, &arrow));
    let mut plan = ParquetAccessPlan::new_all(2);
    plan.skip(0);
    let second = RowGroupAccessPlanFilter::new(plan);
    assert!(can_decide_page_index(&second, &groups, &names, descriptor));
    assert!(should_load_page_index(&second, &groups, &names, descriptor, &arrow));
    // Nor where all that is read is fully matched.
    let mut matched = ParquetAccessPlan::new_all(2);
    matched.mark_fully_matched(0);
    matched.mark_fully_matched(1);
    let matched = RowGroupAccessPlanFilter::new(matched);
    assert!(can_decide_page_index(&matched, &groups, &names, descriptor));
    assert!(!should_load_page_index(&matched, &groups, &names, descriptor, &arrow));
}

fn equals(column: &str, index: usize, value: i64, arrow: &Arc<Schema>) -> Arc<PruningPredicate> {
    let expr: Arc<dyn PhysicalExpr> = Arc::new(BinaryExpr::new(
        Arc::new(Column::new(column, index)),
        Operator::Eq,
        lit(value),
    ));
    PruningPredicateBuilder::new()
        .with_file_schema(Arc::clone(arrow))
        .build(expr)
        .unwrap()
}

fn filters_with(column: &str, value: i64) -> BloomFilterStatistics {
    let mut sbbf = Sbbf::new_with_ndv_fpp(10, 0.001).unwrap();
    sbbf.insert(&value);
    let (_, metadata) = metadata_of(&schema(vec![plain("a"), plain("b")]));
    let mut filters = no_bloom_filters(1).remove(0);
    let descriptor = metadata.file_metadata().schema_descr();
    assert!(add_bloom_filter(&mut filters, column, 1, sbbf, descriptor));
    filters
}

fn may_match(predicate: &PruningPredicate, filters: &BloomFilterStatistics) -> Option<bool> {
    judge_bloom_filters(&predicate.prune(filters).ok())
}

#[test]
fn a_bloom_filter_without_blocks_is_left_out() {
    let arrow = schema(vec![plain("a"), plain("b")]);
    let (_, metadata) = metadata_of(&arrow);
    let descriptor = metadata.file_metadata().schema_descr();
    let mut filters = no_bloom_filters(3);
    assert_eq!(filters.len(), 3);
    let empty = Sbbf::new(&[0; 16]);
    assert!(!add_bloom_filter(&mut filters[1], "b", 1, empty, descriptor));
    assert_eq!(
        may_match(&equals("b", 1, 5, &arrow), &filters[1]),
        Some(true)
    );
    // With a block it is held against the predicate.
    let zeros = Sbbf::new(&[0; 32]);
    assert!(add_bloom_filter(&mut filters[1], "b", 1, zeros, descriptor));
    assert_eq!(
        may_match(&equals("b", 1, 5, &arrow), &filters[1]),
        Some(false)
    );
}

const BLOOM: PruningOptions = PruningOptions {
    enable_row_group_stats_pruning: true,
    enable_bloom_filter: true,
};

#[test]
fn bloom_filters_rule_out_row_groups() {
    let arrow = schema(vec![plain("a"), plain("b")]);
    let predicate = equals("b", 1, 5, &arrow);
    assert_eq!(may_match(&predicate, &filters_with("b", 7)), Some(false));
    assert_eq!(may_match(&predicate, &filters_with("b", 5)), Some(true));
    let loaded = || vec![filters_with("b", 7), filters_with("b", 5), BloomFilterStatistics::new()];
    let all = || RowGroupAccessPlanFilter::new(ParquetAccessPlan::new_all(3));

    let mut filter = all();
    let evaluate = |filters: &BloomFilterStatistics| predicate.prune(filters).ok();
    let metrics = prune_bloom_filters(&mut filter, true, BLOOM, &loaded(), &evaluate);
    assert_eq!(filter.row_group_indexes(), vec![1, 2]);
    assert_eq!((metrics.pruned, metrics.matched, metrics.evaluation_errors), (1, 2, 0));

    // Where evaluating fails nothing is ruled out.
    let mut filter = all();
    let metrics = prune_bloom_filters(&mut filter, true, BLOOM, &loaded(), &|_| None);
    assert_eq!(filter.row_group_indexes(), vec![0, 1, 2]);
    assert_eq!((metrics.pruned, metrics.matched, metrics.evaluation_errors), (0, 3, 3));

    for (has_predicate, options) in [
        (false, BLOOM),
        (
            true,
            PruningOptions {
                enable_bloom_filter: false,
                ..BLOOM
            },
        ),
    ] {
        let mut filter = all();
        let metrics = prune_bloom_filters(&mut filter, has_predicate, options, &loaded(), &evaluate);
        assert_eq!(filter.row_group_indexes(), vec![0, 1, 2]);
        assert_eq!((metrics.pruned, metrics.matched), (0, 0));
    }
}

#[test]
fn bloom_filters_are_loaded_for_the_columns_of_a_predicate() {
    let arrow = schema(vec![plain("a"), plain("b")]);
    let (_, metadata) = metadata_of(&arrow);
    let descriptor = metadata.file_metadata().schema_descr();
    let columns = bloom_columns(&equals("b", 1, 5, &arrow), descriptor, &arrow);
    assert_eq!(columns.len(), 1);
    assert_eq!((columns[0].name.as_str(), columns[0].leaf), ("b", 1));
    let names = vec!["b".to_string(), "missing".to_string(), "a".to_string()];
    let columns = find_bloom_columns(&names, descriptor, &arrow);
    assert_eq!(
        columns.iter().map(|column| column.leaf).collect::<Vec<_>>(),
        vec![1, 0]
    );

    let mut plan = ParquetAccessPlan::new_all(3);
    plan.skip(1);
    let filter = RowGroupAccessPlanFilter::new(plan);
    assert_eq!(
        plan_bloom_reads(&filter, true, BLOOM, &columns),
        vec![(0, 0), (0, 1), (2, 0), (2, 1)]
    );
    assert!(plan_bloom_reads(&filter, false, BLOOM, &columns).is_empty());
}

fn dictionary(key: DataType, value: DataType) -> DataType {
    DataType::Dictionary(Box::new(key), Box::new(value))
}

#[test]
fn numbers_and_strings_are_cast_by_the_query_engine() {
    let uncalled = |_: &ScalarValue, _: &DataType| -> Result<ScalarValue, DataFusionError> {
        panic!("asked")
    };
    for value in [
        ScalarValue::Int64(Some(-5)),
        ScalarValue::Int64(None),
        ScalarValue::UInt8(Some(200)),
        ScalarValue::Float64(Some(1.5)),
        ScalarValue::Utf8(Some("12".to_string())),
        ScalarValue::LargeUtf8(Some("x".to_string())),
        ScalarValue::Utf8View(None),
    ] {
        for target in [
            DataType::Int8,
            DataType::UInt64,
            DataType::Float32,
            DataType::Utf8,
            DataType::LargeUtf8,
            DataType::Utf8View,
            dictionary(DataType::UInt8, DataType::Utf8),
            dictionary(DataType::Int32, DataType::Int64),
        ] {
            let made = cast_or(&value, &target, &uncalled);
            assert_eq!(made.ok(), value.cast_to(&target).ok(), "{value} to {target}");
        }
    }
}

#[test]
fn other_values_are_cast_as_the_caller_says() {
    let answer = ScalarValue::Int8(Some(42));
    let said = |_: &ScalarValue, _: &DataType| Ok(answer.clone());
    for (value, target) in [
        (ScalarValue::Date64(Some(0)), DataType::Utf8),
        (ScalarValue::Int64(Some(1)), DataType::Decimal256(40, 2)),
        (ScalarValue::Int64(Some(1)), dictionary(DataType::Utf8, DataType::Int64)),
        (ScalarValue::Decimal128(Some(1), 3, -1), DataType::Int64),
        (ScalarValue::FixedSizeBinary(4, Some(vec![0; 3])), DataType::Binary),
    ] {
        assert_eq!(cast_or(&value, &target, &said).ok(), Some(answer.clone()));
        let one = stats(
            Precision::Exact(value.clone()),
            Precision::Exact(value.clone()),
            Precision::Exact(0),
        );
        let made = constant_value_from_stats(&one, None, &target, &said, &null);
        assert_eq!(made, Some(answer.clone()));
    }
    // Where that fails the column is not constant.
    let day = || Precision::Exact(ScalarValue::Date64(Some(0)));
    let one = stats(day(), day(), Precision::Exact(0));
    let fails = |_: &ScalarValue, _: &DataType| -> Result<ScalarValue, DataFusionError> {
        Err(DataFusionError::Internal("no".to_string()))
    };
    assert_eq!(constant_value_from_stats(&one, None, &DataType::Utf8, &fails, &null), None);
    // A value of the right type is not cast.
    assert_eq!(
        constant_value_from_stats(&one, None, &DataType::Date64, &fails, &null),
        Some(ScalarValue::Date64(Some(0)))
    );
}

#[test]
fn constants_of_every_type_are_found() {
    let day = || Precision::Exact(ScalarValue::Date64(Some(86_400_000)));
    let one = stats(day(), day(), Precision::Exact(0));
    assert_eq!(
        constant(&one, None, &DataType::Date32),
        Some(ScalarValue::Date32(Some(1)))
    );
    let price = || Precision::Exact(ScalarValue::Decimal128(Some(125), 5, 2));
    let one = stats(price(), price(), Precision::Exact(0));
    assert_eq!(
        constant(&one, None, &DataType::Decimal128(7, 3)),
        Some(ScalarValue::Decimal128(Some(1250), 7, 3))
    );
}

#[test]
fn nulls_of_every_type_are_made() {
    let uncalled = |_: &DataType| -> Result<ScalarValue, DataFusionError> { panic!("asked") };
    for data_type in [
        DataType::Int64,
        DataType::Utf8,
        DataType::Date64,
        DataType::Null,
        DataType::FixedSizeBinary(-1),
        DataType::Time32(TimeUnit::Nanosecond),
        dictionary(DataType::Utf8, DataType::Utf8),
    ] {
        let made = null_or(&data_type, &uncalled).ok();
        assert_eq!(made, ScalarValue::try_new_null(&data_type).ok(), "{data_type}");
    }
    let item = |data_type: DataType| Arc::new(Field::new("item", data_type, true));
    let nulls = stats(Precision::Absent, Precision::Absent, Precision::Exact(3));
    for data_type in [
        DataType::List(item(DataType::Null)),
        DataType::Struct(vec![item(DataType::Null)].into()),
        DataType::FixedSizeList(item(DataType::Int64), 3),
    ] {
        let made = constant(&nulls, Some(3), &data_type);
        assert_eq!(made, ScalarValue::try_new_null(&data_type).ok());
        assert!(made.is_some());
        let fails = |_: &DataType| -> Result<ScalarValue, DataFusionError> {
            Err(DataFusionError::Internal("no".to_string()))
        };
        let made = constant_value_from_stats(&nulls, Some(3), &data_type, &cast, &fails);
        assert_eq!(made, None);
    }
}

#[test]
fn a_virtual_column_without_a_null_is_refused() {
    let base = schema(vec![plain("a")]);
    let nested = DataType::List(plain("item"));
    let column =
        Field::new("n", nested, false).with_metadata(row_number("n").metadata().clone());
    let fails = |_: &DataType| -> Result<ScalarValue, DataFusionError> {
        Err(DataFusionError::Internal("no".to_string()))
    };
    assert!(matches!(
        build_virtual_columns_state(&vec![Arc::new(column.clone())], &base, None, true, &fails),
        Err(VirtualColumnError::NoNull(_))
    ));
    let built = build_virtual_columns_state(&vec![Arc::new(column)], &base, None, true, &null);
    assert!(matches!(built, Ok(Some(_))));
    // The null of a number is made without the caller.
    assert!(build_virtual_columns_state(&vec![row_number("n")], &base, None, true, &fails).is_ok());
}

#[test]
fn virtual_columns_need_a_required_root() {
    let (reader, _) = metadata_of(&schema(vec![plain("a")]));
    assert!(takes_virtual_columns(&reader));
}
