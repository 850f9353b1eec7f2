//! What the calls that make up a scan come to, whatever they are made with.
//!
//! `call_ensures(function, arguments, result)` says that a call of `function` with
//! `arguments` may return `result`.

use crate::access_plan::{
    count_rows, law_split_reads_the_selection, law_what_is_read_is_listed_in_file_order,
    lemma_scanned, reads_row, scanned, ParquetAccessPlan, PlanModel,
};
use crate::bloom::judge_bloom_filters;
use crate::columns::{found_leaf, leaf_count, texts};
use crate::constants::{
    are_constants, constant_value_from_stats, given, last_values,
    law_constant_columns_get_their_only_value, law_constants_are_sure,
    law_partition_columns_get_their_own_values, literal_columns, named_values, partition_pairs,
    types_equal, value_is_null, value_type, values_equal, ColumnField, ColumnStatistics,
    LiteralColumns, Precision, Statistics,
};
use crate::decoder::{bytes_len, check_ranges, decoder_settings};
use crate::decoder_config::{
    attach_row_filter, builder_settings, footer_group_count, footer_group_rows, footer_of,
    has_row_groups, DecoderBuilderConfig,
};
use crate::decoding::{law_a_decoder_reads_the_rows_of_its_plan, settings_read};
use crate::error::{
    decimal, law_decimal_text_stands_for_its_number, law_messages_tell_what_differs, number_of,
    to_decimal, PlanError,
};
use crate::filters::{
    fit_scan, fits_file, fitted_options, footer_descriptor, footer_options, int96_types,
    keeps_page_filters, law_a_file_is_read_with_the_types_that_are_asked_for,
    law_expressions_are_rewritten_from_the_table_to_the_file, made_up, metadata_schema,
    metadata_with, must_read_page_index, options_index, options_schema, options_virtual,
    options_with_index, scan_fitted, schemas_equal, table_types, with_page_index, FittedScan,
    IndexPolicy, Int96Options,
};
use crate::inversion::{
    column_models, invert, keeps_row, law_the_inverse_keeps_what_the_predicate_does_not,
    ColumnModel, InvertedPredicate, PredicateColumn,
};
use crate::metadata::{row_offset, total_rows, FileRange, RowGroupMetaData};
use crate::open_state::{OpenPlan, ParquetOpenState, StepFindings};
use crate::opener::{
    bloom_models, can_decide_page_index, count_needless_page_index, create_initial_plan,
    find_bloom_columns, law_a_page_index_is_decided_where_chunks_are_there,
    law_a_page_index_that_can_help_is_loaded, law_a_page_index_that_cannot_help_is_not_loaded,
    law_a_plan_keeps_to_its_range, law_bloom_columns_keep_their_order,
    law_bloom_filters_are_loaded_in_order, law_bloom_filters_are_loaded_of_what_is_read,
    law_the_first_plan_reads_what_is_asked_for, plan_bloom_reads, prune_row_groups, ranged,
    should_load_page_index, AccessExtensions, BloomColumn, FooterMetrics, PruningOptions,
};
use crate::prefetch::{
    law_a_row_group_within_the_budget_is_read_ahead, law_what_is_read_ahead_keeps_the_column_order,
    plan_prefetch, projection_leaves, total_len, PrefetchDecision,
};
use crate::prepared::{prepared_model, PreparedAccessPlan, PreparedModel};
use crate::pruner::{judge, PruneOutcome};
use crate::push_decoder::PushDecoderStreamState;
use crate::row_group_filter::{MissingNullCount, RowGroupAccessPlanFilter};
use crate::rows::{
    law_prepared_plans_keep_the_file_order, law_prepared_plans_read_as_planned,
    law_reorder_reads_the_same_rows, law_reverse_reads_from_the_last,
    law_reverse_reads_the_same_rows, plan_reads, reads_as_planned,
};
use crate::scan::{
    groups_ordered, limited, pages_pruned, plan_scan, start_scan, ScanOptions, ScanPlan,
};
use crate::selection::{covered_rows, selected_rows, selection_mask};
use crate::soundness::{
    inverse_rules_out_rightly, law_selected_rows_are_the_set_flags,
    law_statistics_lose_no_matching_row, nulls_come_from_columns, rules_out_rightly,
};
use crate::values::nulls_to;
use crate::virtual_columns::{
    append_fields, build_virtual_columns_state, field_name, fields_of, first_virtual,
    law_a_predicate_is_refused_for_its_first_virtual_column, schema_fields,
    validate_predicate_does_not_reference_virtual_columns, VirtualColumnError, VirtualColumnsState,
};
use arrow::datatypes::{DataType, Field, Schema};
use bytes::Bytes;
use datafusion_common::{DataFusionError, ScalarValue};
use parquet::arrow::arrow_reader::{
    ArrowReaderBuilder, ArrowReaderMetadata, ArrowReaderOptions, RowFilter, RowSelection,
};
use parquet::arrow::push_decoder::PushDecoderInput;
use parquet::arrow::ProjectionMask;
use parquet::errors::ParquetError;
use parquet::file::metadata::ParquetMetaData;
use parquet::schema::types::SchemaDescriptor;
use std::ops::Range;
use std::sync::Arc;
use vstd::prelude::*;

verus! {

/// A scan that was started reads exactly the rows of its plan, and in the order of its row
/// groups, as long as no limit stops it and no filter drops a row. Row groups are pruned
/// while it runs wherever the predicate may change and there is more than one, but never
/// under a selection, which would come to lie over the wrong rows.
pub proof fn law_a_started_scan_reads_its_plan<'a, P, R, T, M>(
    config: DecoderBuilderConfig<'a>,
    prepared: PreparedAccessPlan,
    metadata: ArrowReaderMetadata,
    row_filter: Option<RowFilter>,
    max_predicate_cache_size: Option<usize>,
    groups: Vec<RowGroupMetaData>,
    projection: ProjectionMask,
    row_group_prefetch: Option<usize>,
    watching: bool,
    state: Result<PushDecoderStreamState<P, R, T, M>, ParquetError>,
    index: int,
    row: int,
)
    requires
        call_ensures(
            start_scan::<P, R, T, M>,
            (
                &config,
                prepared,
                metadata,
                row_filter,
                max_predicate_cache_size,
                groups,
                projection,
                row_group_prefetch,
                watching,
            ),
            state,
        ),
    ensures
        state is Ok,
        ({
            let scan = state->Ok_0;
            let settings = decoder_settings(scan.decoder->0);
            &&& settings_read(settings, groups@, index, row) == plan_reads(
                prepared@,
                groups@,
                index,
                row,
            )
            &&& settings.row_groups == Some(prepared.row_group_indexes@)
            &&& settings.file == metadata
            &&& settings.limit == config.decoder_limit
            &&& settings.filter == row_filter
            &&& scan.plan() == prepared.row_group_indexes@
            &&& prepared.row_selection is Some ==> scan.row_group_pruner is None
            &&& prepared.row_selection is None && watching && prepared.row_group_indexes@.len() > 1
                ==> scan.row_group_pruner is Some && scan.row_group_pruner->0.needs_initial_build
            &&& !watching ==> scan.row_group_pruner is None
            &&& prepared.row_group_indexes@.len() <= 1 ==> scan.row_group_pruner is None
        }),
{
    law_a_decoder_reads_the_rows_of_its_plan(
        config,
        prepared@,
        metadata,
        row_filter,
        max_predicate_cache_size,
        groups@,
        index,
        row,
    );
}

/// A builder for a plan is set up for exactly its rows and its row groups, in their order,
/// also where there is a limit, and stops at that.
pub proof fn law_a_builder_is_set_up_for_its_plan<'a>(
    config: DecoderBuilderConfig<'a>,
    prepared: PreparedAccessPlan,
    metadata: ArrowReaderMetadata,
    builder: ArrowReaderBuilder<PushDecoderInput>,
    groups: Seq<RowGroupMetaData>,
    index: int,
    row: int,
)
    requires
        call_ensures(DecoderBuilderConfig::<'a>::build, (&config, prepared, metadata), builder),
    ensures
        ({
            let settings = builder_settings(builder);
            &&& settings_read(settings, groups, index, row) == plan_reads(
                prepared@,
                groups,
                index,
                row,
            )
            &&& settings.row_groups == Some(prepared.row_group_indexes@)
            &&& prepared.row_selection is None ==> settings.selection is None
            &&& prepared.row_selection is Some ==> settings.selection == Some(
                selection_mask(prepared.row_selection->0),
            )
            &&& settings.limit == config.decoder_limit
            &&& settings.file == metadata
            &&& settings.filter is None
            &&& settings.batch_size <= config.batch_size
        }),
{
    law_a_decoder_reads_the_rows_of_its_plan(
        config,
        prepared@,
        metadata,
        None,
        None,
        groups,
        index,
        row,
    );
}

/// Attaching a filter changes nothing of what a builder is set up for but the filter, and
/// the size of its cache where one is given.
pub proof fn law_attaching_a_filter_changes_nothing_else(
    builder: ArrowReaderBuilder<PushDecoderInput>,
    row_filter: Option<RowFilter>,
    max_predicate_cache_size: Option<usize>,
    changed: ArrowReaderBuilder<PushDecoderInput>,
)
    requires
        call_ensures(attach_row_filter, (builder, row_filter, max_predicate_cache_size), changed),
    ensures
        ({
            let before = builder_settings(builder);
            let after = builder_settings(changed);
            &&& after.row_groups == before.row_groups
            &&& after.selection == before.selection
            &&& after.limit == before.limit
            &&& after.leaves == before.leaves
            &&& after.batch_size == before.batch_size
            &&& after.file == before.file
            &&& row_filter is Some ==> after.filter == row_filter
            &&& row_filter is None ==> after == before
            &&& row_filter is Some && max_predicate_cache_size is Some
                ==> after.predicate_cache_size == max_predicate_cache_size->0
            &&& max_predicate_cache_size is None ==> after.predicate_cache_size
                == before.predicate_cache_size
        }),
{
}

/// Every partition column is replaced by the value that stands at its own place, where no
/// later partition column and no column of the file has its name.
pub proof fn law_each_partition_column_is_its_own_value<C, N>(
    partition_columns: Vec<String>,
    partition_values: Vec<ScalarValue>,
    statistics: Option<&Statistics>,
    file_schema: Vec<ColumnField>,
    cast: C,
    null: N,
    literals: LiteralColumns,
    i: int,
) where
    C: Fn(&ScalarValue, &DataType) -> Result<ScalarValue, DataFusionError>,
    N: Fn(&DataType) -> Result<ScalarValue, DataFusionError>,

    requires
        call_ensures(
            literal_columns::<C, N>,
            (&partition_columns, &partition_values, statistics, &file_schema, &cast, &null),
            literals,
        ),
        0 <= i < partition_columns@.len(),
        i < partition_values@.len(),
        forall|j: int|
            i < j < partition_columns@.len() ==> (#[trigger] partition_columns@[j])@
                != partition_columns@[i]@,
        forall|f: int|
            0 <= f < file_schema@.len() ==> (#[trigger] file_schema@[f]).name@
                != partition_columns@[i]@,
    ensures
        literals@.contains_key(partition_columns@[i]@),
        literals@[partition_columns@[i]@] == partition_values@[i],
{
    let constants = choose|values: Seq<Option<ScalarValue>>|
        {
            &&& #[trigger] are_constants(cast, null, given(statistics), file_schema@, values)
            &&& literals@ == last_values(
                partition_pairs(partition_columns@, partition_values@),
            ).union_prefer_right(last_values(named_values(values, file_schema@)))
        };
    law_partition_columns_get_their_own_values(
        partition_columns@,
        partition_values@,
        given(statistics),
        file_schema@,
        cast,
        null,
        constants,
        literals@,
        i,
    );
}

/// Without statistics no column is replaced but the partition columns.
pub proof fn law_without_statistics_only_partition_columns_are_replaced<C, N>(
    partition_columns: Vec<String>,
    partition_values: Vec<ScalarValue>,
    file_schema: Vec<ColumnField>,
    cast: C,
    null: N,
    literals: LiteralColumns,
    i: int,
) where
    C: Fn(&ScalarValue, &DataType) -> Result<ScalarValue, DataFusionError>,
    N: Fn(&DataType) -> Result<ScalarValue, DataFusionError>,

    requires
        call_ensures(
            literal_columns::<C, N>,
            (
                &partition_columns,
                &partition_values,
                None::<&Statistics>,
                &file_schema,
                &cast,
                &null,
            ),
            literals,
        ),
        0 <= i < file_schema@.len(),
        forall|j: int, k: int|
            0 <= j < k < file_schema@.len() ==> (#[trigger] file_schema@[j]).name@ != (
            #[trigger] file_schema@[k]).name@,
        forall|p: int|
            0 <= p < partition_columns@.len() ==> (#[trigger] partition_columns@[p])@
                != file_schema@[i].name@,
    ensures
        !literals@.contains_key(file_schema@[i].name@),
{
    let constants = choose|values: Seq<Option<ScalarValue>>|
        {
            &&& #[trigger] are_constants(
                cast,
                null,
                given(None::<&Statistics>),
                file_schema@,
                values,
            )
            &&& literals@ == last_values(
                partition_pairs(partition_columns@, partition_values@),
            ).union_prefer_right(last_values(named_values(values, file_schema@)))
        };
    law_constant_columns_get_their_only_value(
        partition_columns@,
        partition_values@,
        given(None::<&Statistics>),
        file_schema@,
        cast,
        null,
        constants,
        literals@,
        i,
    );
}

/// The inverse of a predicate keeps exactly the rows of which it is false, and those in
/// which a column of it that can be null is null.
pub proof fn law_an_inverse_keeps_false_and_null_rows(
    columns: Vec<PredicateColumn>,
    nullable: &[bool],
    inverse: InvertedPredicate,
    outcome: Option<bool>,
    is_null: spec_fn(ColumnModel) -> bool,
)
    requires
        call_ensures(invert, (&columns, nullable), inverse),
    ensures
        keeps_row(inverse.model(), outcome, is_null) <==> outcome == Some(false) || exists|i: int|
            0 <= i < column_models(columns@).len() && nullable@[(
            #[trigger] column_models(columns@)[i]).index as int] && is_null(
                column_models(columns@)[i],
            ),
{
    law_the_inverse_keeps_what_the_predicate_does_not(
        column_models(columns@),
        nullable@,
        inverse.model(),
        outcome,
        is_null,
    );
}

/// Expressions of a scan that was fitted to a file are rewritten from the columns of the
/// table to those of the file as it is read, each with the virtual columns after them, and
/// are left alone only where there is no predicate and nothing differs.
pub proof fn law_a_fitted_scan_rewrites_from_the_table_to_the_file<F>(
    reader_metadata: ArrowReaderMetadata,
    options: ArrowReaderOptions,
    logical_file_schema: Arc<Schema>,
    int96: Int96Options,
    virtual_state: Option<&VirtualColumnsState>,
    has_predicate: bool,
    rebuild: F,
    scan: FittedScan,
) where
    F: FnOnce(Arc<ParquetMetaData>, ArrowReaderOptions) -> Result<
        ArrowReaderMetadata,
        ParquetError,
    >,

    requires
        call_ensures(
            fit_scan::<F>,
            (
                reader_metadata,
                options,
                &logical_file_schema,
                &int96,
                virtual_state,
                has_predicate,
                rebuild,
            ),
            Ok::<FittedScan, ParquetError>(scan),
        ),
        virtual_state matches Some(state) ==> schema_fields(state.schema_with_virtual())
            == schema_fields(*logical_file_schema) + state.columns(),
    ensures
        scan.rewrite matches Some(schemas) ==> {
            &&& schema_fields(*schemas.logical) == schema_fields(*logical_file_schema) + made_up(
                virtual_state,
            )
            &&& schema_fields(*schemas.physical) == schema_fields(*scan.physical_file_schema)
                + made_up(virtual_state)
        },
        scan.rewrite is None <==> !has_predicate && schemas_equal(
            *logical_file_schema,
            *scan.physical_file_schema,
        ),
        footer_of(scan.reader_metadata) == footer_of(reader_metadata),
        ({
            let file = metadata_schema(reader_metadata);
            let typed = match table_types(*logical_file_schema, file) {
                Some(typed) => typed,
                None => file,
            };
            let zone = match int96.coerce_int96_tz {
                Some(zone) => Some(zone@),
                None => None,
            };
            &&& int96.coerce_int96 is None ==> *scan.physical_file_schema == typed
            &&& int96.coerce_int96 matches Some(unit) ==> *scan.physical_file_schema
                == match int96_types(
                footer_descriptor(footer_of(reader_metadata)),
                typed,
                unit,
                zone,
            ) {
                Some(timed) => timed,
                None => typed,
            }
            &&& *scan.physical_file_schema != file ==> options_schema(scan.options) == Some(
                *scan.physical_file_schema,
            )
            &&& options_index(scan.options) == options_index(options)
            &&& virtual_state is Some ==> options_virtual(scan.options) == made_up(virtual_state)
        }),
{
    let table = *logical_file_schema;
    let changed = fitted_options(options, table, reader_metadata, int96, virtual_state)->0;
    let made = choose|made: Result<ArrowReaderMetadata, ParquetError>|
        {
            &&& #[trigger] fits_file(
                rebuild,
                table,
                reader_metadata,
                int96,
                virtual_state,
                changed,
                made,
            )
            &&& scan_fitted(
                options,
                table,
                reader_metadata,
                int96,
                virtual_state,
                has_predicate,
                changed,
                made,
                Ok(scan),
            )
        };
    law_expressions_are_rewritten_from_the_table_to_the_file(
        options,
        table,
        reader_metadata,
        int96,
        virtual_state,
        has_predicate,
        changed,
        made,
        scan,
    );
    law_a_file_is_read_with_the_types_that_are_asked_for(
        options,
        table,
        reader_metadata,
        int96,
        virtual_state,
        has_predicate,
        changed,
        made,
        scan,
    );
}

/// A scan plan reads exactly the rows that were left by pruning, where no limit and no page
/// takes any away, and then counts none as taken away. Without an order of its own it reads
/// the row groups in file order, or from the last to the first where that is asked for.
pub proof fn law_a_scan_plan_reads_what_is_left<F, O>(
    row_groups: RowGroupAccessPlanFilter,
    groups: Vec<RowGroupMetaData>,
    options: ScanOptions,
    prune_pages: Option<F>,
    order: Option<O>,
    scan: ScanPlan,
    index: int,
    row: int,
) where
    F: FnOnce(ParquetAccessPlan) -> (ParquetAccessPlan, usize),
    O: FnOnce(&Vec<usize>) -> Option<Vec<usize>>,

    requires
        row_groups@.groups.len() == groups@.len(),
        groups@.len() <= usize::MAX,
        prune_pages is Some ==> forall|
            before: ParquetAccessPlan,
            after: ParquetAccessPlan,
            pages: usize,
        | #[trigger]
            call_ensures(prune_pages->0, (before,), (after, pages)) ==> after@.groups.len()
                == before@.groups.len(),
        call_ensures(
            plan_scan::<F, O>,
            (row_groups, &groups, options, prune_pages, order),
            Ok::<ScanPlan, PlanError>(scan),
        ),
        0 <= index < groups@.len(),
        0 <= row < groups@[index].num_rows,
    ensures
        (options.limit is None || options.preserve_order) && (prune_pages is None
            || !options.enable_page_index) ==> {
            &&& plan_reads(scan.prepared@, groups@, index, row) == reads_row(
                row_groups@.groups[index],
                row,
            )
            &&& scan.limit_pruned == 0
            &&& scan.pages_skipped == 0
        },
        order is None && !options.reverse_row_groups ==> forall|j: int, k: int|
            0 <= j < k < scan.prepared@.indexes.len() ==> (#[trigger] scan.prepared@.indexes[j]) < (
            #[trigger] scan.prepared@.indexes[k]),
        order is None && options.reverse_row_groups ==> forall|j: int, k: int|
            0 <= j < k < scan.prepared@.indexes.len() ==> (#[trigger] scan.prepared@.indexes[j]) > (
            #[trigger] scan.prepared@.indexes[k]),
{
    let (paged, skipped) = choose|paged: PlanModel, skipped: int|
        {
            &&& #[trigger] pages_pruned(
                limited(row_groups@, groups@, options),
                options.enable_page_index,
                prune_pages,
                paged,
                skipped,
            )
            &&& reads_as_planned(paged.groups, groups@, scan.prepared@)
            &&& scan.pages_skipped == skipped
            &&& exists|ordered: PreparedModel|
                {
                    &&& #[trigger] groups_ordered(
                        prepared_model(paged.groups, groups@),
                        order,
                        ordered,
                    )
                    &&& scan.prepared@ == if options.reverse_row_groups {
                        ordered.reversed(groups@)
                    } else {
                        ordered
                    }
                }
        };
    if order is None {
        let ordered = prepared_model(paged.groups, groups@);
        lemma_scanned(paged.groups);
        assert(groups_ordered(ordered, order, ordered));
        if options.reverse_row_groups {
            law_reverse_reads_from_the_last(ordered, groups@);
        }
    }
}

/// The first plan of a file reads a row exactly where its user asks for it: by a plan, by a
/// list of accesses, or by a selection of rows, and every row where nothing is asked for.
pub proof fn law_the_first_plan_reads_the_rows_that_are_asked_for(
    extensions: AccessExtensions,
    groups: Vec<RowGroupMetaData>,
    plan: ParquetAccessPlan,
    index: int,
    row: int,
)
    requires
        call_ensures(
            create_initial_plan,
            (&extensions, &groups),
            Ok::<ParquetAccessPlan, PlanError>(plan),
        ),
        groups@.len() <= usize::MAX,
        extensions.access_plan is Some ==> (extensions.access_plan->0).wf(),
        0 <= index < groups@.len(),
        0 <= row < groups@[index].num_rows,
    ensures
        extensions.access_plan is Some || extensions.external_plan is Some
            ==> extensions.row_selection is None,
        plan@.groups.len() == groups@.len(),
        reads_row(plan@.groups[index], row) == match (
            extensions.access_plan,
            extensions.external_plan,
            extensions.row_selection,
        ) {
            (Some(asked), _, _) => reads_row(asked@.groups[index], row),
            (None, Some(list), _) => reads_row(list@[index]@, row),
            (None, None, Some(selection)) => selection_mask(selection)[row_offset(groups@, index)
                + row],
            (None, None, None) => true,
        },
{
    law_the_first_plan_reads_what_is_asked_for(extensions, groups@, index, row);
}

/// Pruning by the footer of a file keeps every row that matches, is asked for and lies in a
/// row group that starts in the range. It takes no row in that is not asked for, and none
/// away but by the range and the predicate. A row group counts as fully matched only where
/// every row of it matches.
pub proof fn law_pruning_by_the_footer_loses_no_matching_row<F, G>(
    extensions: AccessExtensions,
    groups: Vec<RowGroupMetaData>,
    range: Option<FileRange>,
    has_predicate: bool,
    options: PruningOptions,
    columns: Vec<PredicateColumn>,
    nullable: &[bool],
    evaluate: F,
    evaluate_inverse: G,
    first: ParquetAccessPlan,
    filter: RowGroupAccessPlanFilter,
    metrics: FooterMetrics,
    outcome: spec_fn(int, int) -> Option<bool>,
    is_null: spec_fn(int, int, ColumnModel) -> bool,
    index: int,
    row: int,
) where
    F: FnOnce(&Vec<usize>, MissingNullCount) -> Option<Vec<bool>>,
    G: FnOnce(&InvertedPredicate, &Vec<usize>, MissingNullCount) -> Option<Vec<bool>>,

    requires
        call_ensures(
            create_initial_plan,
            (&extensions, &groups),
            Ok::<ParquetAccessPlan, PlanError>(first),
        ),
        first@.wf(),
        call_ensures(
            prune_row_groups::<F, G>,
            (
                &extensions,
                &groups,
                &range,
                has_predicate,
                options,
                &columns,
                nullable,
                evaluate,
                evaluate_inverse,
            ),
            Ok::<(RowGroupAccessPlanFilter, FooterMetrics), PlanError>((filter, metrics)),
        ),
        rules_out_rightly(evaluate, groups@, outcome),
        inverse_rules_out_rightly(evaluate_inverse, groups@, outcome, is_null),
        0 <= index < groups@.len(),
        0 <= row < groups@[index].num_rows,
        nulls_come_from_columns(
            column_models(columns@),
            nullable@,
            outcome(index, row),
            |column: ColumnModel| is_null(index, row, column),
        ),
    ensures
        ({
            let start = groups@[index].columns@[0];
            let offset = match start.dictionary_page_offset {
                Some(dictionary) => dictionary,
                None => start.data_page_offset,
            };
            let within = range is None || range->0.start <= offset && offset < range->0.end;
            let asked = reads_row(first@.groups[index], row);
            let read = reads_row(filter@.groups[index], row);
            let pruned = has_predicate && options.enable_row_group_stats_pruning;
            &&& within && asked && (!pruned || outcome(index, row) == Some(true)) ==> read
            &&& read ==> within && asked
            &&& filter@.fully_matched[index] && !first@.fully_matched[index] ==> outcome(index, row)
                == Some(true)
            &&& !pruned ==> metrics.statistics.pruned == 0
            &&& !has_predicate || !options.enable_bloom_filter ==> metrics.bloom_matched == scanned(
                filter@.groups,
            ).len()
        }),
{
    let before = ranged(first@, groups@, range);
    law_a_plan_keeps_to_its_range(first@, groups@, range, index);
    if has_predicate && options.enable_row_group_stats_pruning {
        assert(before.wf()) by {
            assert forall|i: int| 0 <= i < before.groups.len() && before.groups[i] is Skip implies
                !#[trigger] before.fully_matched[i] by {
                law_a_plan_keeps_to_its_range(first@, groups@, range, i);
            }
        }
        law_statistics_lose_no_matching_row(
            columns@,
            nullable@,
            evaluate,
            evaluate_inverse,
            before,
            filter@,
            metrics.statistics,
            groups@,
            outcome,
            is_null,
            index,
            row,
        );
    }
}

/// A plan that was prepared for a decoder reads exactly the rows that it says, its row
/// groups in file order and each once.
pub proof fn law_a_prepared_plan_reads_the_rows_of_its_plan(
    plan: ParquetAccessPlan,
    groups: Vec<RowGroupMetaData>,
    prepared: PreparedAccessPlan,
    index: int,
    row: int,
)
    requires
        call_ensures(
            ParquetAccessPlan::prepare,
            (plan, &groups),
            Ok::<PreparedAccessPlan, PlanError>(prepared),
        ),
        plan@.groups.len() == groups@.len(),
        groups@.len() <= usize::MAX,
        0 <= index < groups@.len(),
        0 <= row < groups@[index].num_rows,
    ensures
        plan_reads(prepared@, groups@, index, row) == reads_row(plan@.groups[index], row),
        forall|j: int, k: int|
            0 <= j < k < prepared.row_group_indexes@.len() ==> (
            #[trigger] prepared.row_group_indexes@[j]) < (#[trigger] prepared.row_group_indexes@[k]),
        prepared.row_group_indexes@.contains(index as usize) <==> !(plan@.groups[index] is Skip),
        prepared.row_selection is None <==> forall|i: int|
            0 <= i < plan@.groups.len() ==> !(#[trigger] plan@.groups[i] is Selection),
{
    law_prepared_plans_read_as_planned(plan@.groups, groups@);
    law_prepared_plans_keep_the_file_order(plan@.groups, groups@);
    let accesses = plan@.groups;
    assert(prepared@ == prepared_model(accesses, groups@));
    assert(prepared@.indexes.contains(index as usize) <==> !(accesses[index as usize as int]
        is Skip));
}

/// Reversed or reordered, a plan reads the same rows as before: from the last row group to
/// the first, or in the order that is given, where no selection forbids it.
pub proof fn law_order_changes_no_rows(
    plan: PreparedAccessPlan,
    groups: Vec<RowGroupMetaData>,
    order: Vec<usize>,
    reversed: PreparedAccessPlan,
    reordered: PreparedAccessPlan,
    index: int,
    row: int,
)
    requires
        plan@.wf(groups@),
        order@.len() == plan@.indexes.len(),
        order@.no_duplicates(),
        forall|k: int| 0 <= k < order@.len() ==> (#[trigger] order@[k]) < plan@.indexes.len(),
        call_ensures(PreparedAccessPlan::reverse, (plan, &groups), reversed),
        call_ensures(PreparedAccessPlan::reorder, (plan, &Some(order), &groups), reordered),
        0 <= index < groups@.len(),
        0 <= row < groups@[index].num_rows,
    ensures
        plan_reads(reversed@, groups@, index, row) == plan_reads(plan@, groups@, index, row),
        plan_reads(reordered@, groups@, index, row) == plan_reads(plan@, groups@, index, row),
        reversed.row_group_indexes@.len() == plan.row_group_indexes@.len(),
        forall|k: int|
            0 <= k < plan.row_group_indexes@.len() ==> #[trigger] reversed.row_group_indexes@[k]
                == plan.row_group_indexes@[plan.row_group_indexes@.len() - 1 - k],
        plan.row_selection is None && plan.row_group_indexes@.len() > 1
            ==> reordered.row_group_indexes@.len() == plan.row_group_indexes@.len() && forall|k: int|
            0 <= k < order@.len() ==> #[trigger] reordered.row_group_indexes@[k]
                == plan.row_group_indexes@[order@[k] as int],
{
    law_reverse_reads_the_same_rows(plan@, groups@);
    law_reverse_reads_from_the_last(plan@, groups@);
    law_reorder_reads_the_same_rows(plan@, order@, groups@);
    let one = reversed@.indexes;
    assert forall|k: int| 0 <= k < plan@.indexes.len() implies #[trigger] reversed.row_group_indexes@[k]
        == plan.row_group_indexes@[plan.row_group_indexes@.len() - 1 - k] by {
        assert(one[k] == plan@.indexes[plan@.indexes.len() - 1 - k]);
    }
    let other = reordered@.indexes;
    if plan.row_selection is None && plan.row_group_indexes@.len() > 1 {
        assert forall|k: int| 0 <= k < order@.len() implies #[trigger] reordered.row_group_indexes@[k]
            == plan.row_group_indexes@[order@[k] as int] by {
            assert(other[k] == plan@.indexes[order@[k] as int]);
        }
    }
}

/// A plan for a selection of rows of the whole file reads exactly these.
pub proof fn law_a_plan_for_a_selection_reads_its_rows(
    selection: RowSelection,
    groups: Vec<RowGroupMetaData>,
    plan: ParquetAccessPlan,
    index: int,
    row: int,
)
    requires
        call_ensures(
            ParquetAccessPlan::try_new_from_overall_row_selection,
            (&selection, &groups),
            Ok::<ParquetAccessPlan, PlanError>(plan),
        ),
        0 <= index < groups@.len(),
        0 <= row < groups@[index].num_rows,
    ensures
        selection_mask(selection).len() == total_rows(groups@),
        reads_row(plan@.groups[index], row) == selection_mask(selection)[row_offset(groups@, index)
            + row],
        !plan@.fully_matched[index],
{
    law_split_reads_the_selection(selection_mask(selection), groups@, index, row);
}

/// A row group is read ahead exactly where its column chunks that are read are something and
/// together no longer than the budget. What is read are these chunks, from the first page
/// of each to its end, in the order of the columns.
pub proof fn law_a_read_ahead_is_of_the_chunks_within_the_budget(
    row_group: usize,
    group: RowGroupMetaData,
    projection: ProjectionMask,
    max_bytes: usize,
    decision: PrefetchDecision,
) -> (places: Seq<int>)
    requires
        call_ensures(plan_prefetch, (row_group, &group, &projection, max_bytes), decision),
    ensures
        decision matches PrefetchDecision::Fetch(plan) ==> {
            &&& plan.row_group == row_group
            &&& plan.bytes == total_len(plan.ranges@)
            &&& 0 < plan.bytes <= max_bytes
            &&& places.len() == plan.ranges@.len()
            &&& forall|j: int, k: int|
                0 <= j < k < places.len() ==> #[trigger] places[j] < #[trigger] places[k]
            &&& forall|k: int|
                0 <= k < places.len() ==> {
                    &&& 0 <= #[trigger] places[k] < group.columns@.len()
                    &&& plan.ranges@[k].start == match group.columns@[places[k]].dictionary_page_offset {
                        Some(dictionary) => dictionary,
                        None => group.columns@[places[k]].data_page_offset,
                    }
                    &&& plan.ranges@[k].end == plan.ranges@[k].start
                        + group.columns@[places[k]].compressed_size
                }
            &&& forall|i: int|
                0 <= i < group.columns@.len() ==> (#[trigger] places.contains(i)
                    <==> match projection_leaves(projection) {
                    Some(flags) => flags[i],
                    None => true,
                })
        },
{
    law_a_row_group_within_the_budget_is_read_ahead(
        row_group,
        group,
        projection,
        max_bytes,
        decision,
    );
    if decision is Fetch {
        law_what_is_read_ahead_keeps_the_column_order(group.columns@, projection)
    } else {
        Seq::empty()
    }
}

/// Loading the page index is found to be useful only where there are predicates on pages
/// and a row group is read of which not every row is known to match, and one of their
/// columns has both parts of an index in a row group that is read.
pub proof fn law_a_page_index_is_loaded_only_where_it_can_help(
    row_groups: RowGroupAccessPlanFilter,
    groups: Vec<RowGroupMetaData>,
    page_columns: Option<Vec<String>>,
    parquet_schema: SchemaDescriptor,
    arrow_schema: Schema,
    useful: bool,
)
    requires
        call_ensures(
            should_load_page_index,
            (&row_groups, &groups, &page_columns, &parquet_schema, &arrow_schema),
            useful,
        ),
        row_groups@.wf(),
    ensures
        page_columns is None ==> !useful,
        (forall|i: int|
            0 <= i < row_groups@.groups.len() && !(row_groups@.groups[i] is Skip)
                ==> #[trigger] row_groups@.fully_matched[i]) ==> !useful,
        (forall|i: int, c: int|
            0 <= i < row_groups@.groups.len() && !(#[trigger] row_groups@.groups[i] is Skip) ==> {
                let chunk = #[trigger] groups@[i].columns@[c];
                chunk.column_index_offset is None || chunk.offset_index_offset is None
            }) ==> !useful,
{
    let names = match page_columns {
        Some(names) => Some(texts(names@)),
        None => None,
    };
    if page_columns is None || (forall|i: int|
        0 <= i < row_groups@.groups.len() && !(row_groups@.groups[i] is Skip)
            ==> #[trigger] row_groups@.fully_matched[i]) || (forall|i: int, c: int|
        0 <= i < row_groups@.groups.len() && !(#[trigger] row_groups@.groups[i] is Skip) ==> {
            let chunk = #[trigger] groups@[i].columns@[c];
            chunk.column_index_offset is None || chunk.offset_index_offset is None
        }) {
        law_a_page_index_that_cannot_help_is_not_loaded(
            row_groups@,
            groups@,
            names,
            parquet_schema,
            arrow_schema,
        );
    }
}

/// Loading the page index is found to be useful wherever it can help: `n` is the place of a
/// column of the predicates on pages, `leaf` where the file holds it, `indexed` a row group
/// with both parts of its index, and `open` one that is not fully matched. Both are read.
pub proof fn law_a_page_index_is_loaded_wherever_it_can_help(
    row_groups: RowGroupAccessPlanFilter,
    groups: Vec<RowGroupMetaData>,
    page_columns: Vec<String>,
    parquet_schema: SchemaDescriptor,
    arrow_schema: Schema,
    useful: bool,
    n: int,
    leaf: usize,
    indexed: int,
    open: int,
)
    requires
        call_ensures(
            should_load_page_index,
            (&row_groups, &groups, &Some(page_columns), &parquet_schema, &arrow_schema),
            useful,
        ),
        row_groups@.wf(),
        0 <= n < page_columns@.len(),
        found_leaf(parquet_schema, arrow_schema, page_columns@[n]@) == Some(leaf),
        0 <= indexed < row_groups@.groups.len(),
        !(row_groups@.groups[indexed] is Skip),
        groups@[indexed].columns@[leaf as int].column_index_offset is Some,
        groups@[indexed].columns@[leaf as int].offset_index_offset is Some,
        0 <= open < row_groups@.groups.len(),
        !(row_groups@.groups[open] is Skip),
        !row_groups@.fully_matched[open],
    ensures
        useful,
{
    law_a_page_index_that_can_help_is_loaded(
        row_groups@,
        groups@,
        texts(page_columns@),
        parquet_schema,
        arrow_schema,
        n,
        leaf,
        indexed,
        open,
    );
}

/// Where bloom filters are used one is loaded for each column of each row group that is
/// read, row group by row group, and where they are not used none is.
pub proof fn law_bloom_filters_are_read_of_every_row_group_that_is_read(
    row_groups: RowGroupAccessPlanFilter,
    has_predicate: bool,
    options: PruningOptions,
    columns: Vec<BloomColumn>,
    reads: Vec<(usize, usize)>,
    row_group: usize,
    column: usize,
)
    requires
        call_ensures(plan_bloom_reads, (&row_groups, has_predicate, options, &columns), reads),
        row_groups@.groups.len() <= usize::MAX,
        columns@.len() <= usize::MAX,
    ensures
        reads@.contains((row_group, column)) <==> has_predicate && options.enable_bloom_filter
            && row_group < row_groups@.groups.len() && !(row_groups@.groups[row_group as int]
            is Skip) && column < columns@.len(),
        forall|j: int, k: int|
            0 <= j < k < reads@.len() ==> {
                ||| (#[trigger] reads@[j]).0 < (#[trigger] reads@[k]).0
                ||| reads@[j].0 == reads@[k].0 && reads@[j].1 < reads@[k].1
            },
{
    let indexes = scanned(row_groups@.groups);
    lemma_scanned(row_groups@.groups);
    law_what_is_read_is_listed_in_file_order(row_groups@.groups, row_group);
    law_bloom_filters_are_loaded_of_what_is_read(indexes, columns@.len(), row_group, column);
    law_bloom_filters_are_loaded_in_order(indexes, columns@.len());
}

/// A bloom filter is looked for of exactly those columns of a predicate that the file has,
/// in the leaf column that holds them.
pub proof fn law_bloom_filters_are_looked_for_where_the_column_is(
    names: Vec<String>,
    parquet_schema: SchemaDescriptor,
    arrow_schema: Schema,
    columns: Vec<BloomColumn>,
    k: int,
)
    requires
        call_ensures(find_bloom_columns, (&names, &parquet_schema, &arrow_schema), columns),
        0 <= k < columns@.len(),
    ensures
        found_leaf(parquet_schema, arrow_schema, columns@[k].name@) == Some(columns@[k].leaf),
        exists|n: int| 0 <= n < names@.len() && (#[trigger] names@[n])@ == columns@[k].name@,
{
    let wanted = texts(names@);
    let places = law_bloom_columns_keep_their_order(wanted, parquet_schema, arrow_schema);
    assert(bloom_models(columns@)[k] == (columns@[k].name@, columns@[k].leaf));
    let n = places[k];
    assert(wanted[n] == names@[n]@);
}

/// Row groups are skipped only where the predicate could be evaluated and says of none that
/// a row may match, and by bloom filters only where they say that none can.
pub proof fn law_only_verdicts_against_a_row_group_skip_it(
    verdicts: Option<Vec<bool>>,
    outcome: PruneOutcome,
    containers: Option<Vec<bool>>,
    verdict: Option<bool>,
)
    requires
        call_ensures(judge, (&verdicts,), outcome),
        call_ensures(judge_bloom_filters, (&containers,), verdict),
    ensures
        outcome.prune <==> verdicts is Some && forall|i: int|
            0 <= i < verdicts->0@.len() ==> !#[trigger] verdicts->0@[i],
        outcome.evaluation_errors == if verdicts is None {
            1int
        } else {
            0
        },
        verdict is None <==> containers is None,
        verdict == Some(false) <==> containers is Some && !containers->0@[0],
{
}

/// Statistics show a value of a column only where they are sure that it is the only one.
pub proof fn law_a_value_is_taken_from_statistics_only_where_they_are_sure<C, N>(
    column_stats: ColumnStatistics,
    num_rows: Option<usize>,
    data_type: DataType,
    cast: C,
    null: N,
    value: Option<ScalarValue>,
) where
    C: Fn(&ScalarValue, &DataType) -> Result<ScalarValue, DataFusionError>,
    N: Fn(&DataType) -> Result<ScalarValue, DataFusionError>,

    requires
        call_ensures(
            constant_value_from_stats::<C, N>,
            (&column_stats, num_rows, &data_type, &cast, &null),
            value,
        ),
    ensures
        value is Some ==> {
            ||| column_stats.min_value is Exact && column_stats.max_value is Exact && values_equal(
                column_stats.min_value->Exact_0,
                column_stats.max_value->Exact_0,
            ) && !value_is_null(column_stats.min_value->Exact_0) && column_stats.null_count
                == Precision::Exact(0usize)
            ||| num_rows is Some && column_stats.null_count == Precision::Exact(num_rows->0)
        },
        column_stats.min_value is Exact && column_stats.max_value is Exact && values_equal(
            column_stats.min_value->Exact_0,
            column_stats.max_value->Exact_0,
        ) && !value_is_null(column_stats.min_value->Exact_0) && column_stats.null_count
            == Precision::Exact(0usize) && types_equal(
            value_type(column_stats.min_value->Exact_0),
            data_type,
        ) ==> value == Some(column_stats.min_value->Exact_0),
        num_rows is Some && num_rows->0 > 0 && column_stats.null_count == Precision::Exact(
            num_rows->0,
        ) ==> nulls_to(null, data_type, value),
{
    law_constants_are_sure(cast, null, column_stats, num_rows, data_type, value);
}

/// Filters that are evaluated while rows are decoded may not refer to a virtual column, and
/// other predicates may. Without virtual columns there is nothing to keep of them.
pub proof fn law_virtual_columns_are_refused_only_to_filters_on_rows<N>(
    virtual_columns: Vec<Arc<Field>>,
    logical_file_schema: Arc<Schema>,
    predicate_columns: Option<&Vec<String>>,
    pushdown_filters: bool,
    null: N,
    built: Result<Option<VirtualColumnsState>, VirtualColumnError>,
) where N: Fn(&DataType) -> Result<ScalarValue, DataFusionError>
    requires
        call_ensures(
            build_virtual_columns_state::<N>,
            (&virtual_columns, &logical_file_schema, predicate_columns, pushdown_filters, &null),
            built,
        ),
    ensures
        virtual_columns@.len() == 0 ==> built is Ok && built->Ok_0 is None,
        built is Err && built->Err_0 is InPredicate <==> pushdown_filters && predicate_columns
            is Some && exists|c: int, v: int|
            {
                &&& 0 <= c < (predicate_columns->0)@.len()
                &&& 0 <= v < virtual_columns@.len()
                &&& (#[trigger] (predicate_columns->0)@[c])@ == field_name(
                    *#[trigger] virtual_columns@[v],
                )
            },
        built is Ok && virtual_columns@.len() > 0 ==> {
            &&& built->Ok_0 is Some
            &&& (built->Ok_0->0).columns() == fields_of(virtual_columns@)
            &&& schema_fields((built->Ok_0->0).schema_with_virtual()) == schema_fields(
                *logical_file_schema,
            ) + fields_of(virtual_columns@)
        },
{
    let fields = fields_of(virtual_columns@);
    if predicate_columns is Some {
        let columns = texts((predicate_columns->0)@);
        law_a_predicate_is_refused_for_its_first_virtual_column(columns, fields);
        if exists|c: int, v: int|
            {
                &&& 0 <= c < (predicate_columns->0)@.len()
                &&& 0 <= v < virtual_columns@.len()
                &&& (#[trigger] (predicate_columns->0)@[c])@ == field_name(
                    *#[trigger] virtual_columns@[v],
                )
            } {
            let (c, v) = choose|c: int, v: int|
                {
                    &&& 0 <= c < (predicate_columns->0)@.len()
                    &&& 0 <= v < virtual_columns@.len()
                    &&& (#[trigger] (predicate_columns->0)@[c])@ == field_name(
                        *#[trigger] virtual_columns@[v],
                    )
                };
            assert(columns[c] == field_name(fields[v]));
        }
        match first_virtual(columns, fields) {
            Some(name) => {
                let (c, v) = choose|c: int, v: int|
                    {
                        &&& 0 <= c < columns.len()
                        &&& 0 <= v < fields.len()
                        &&& #[trigger] columns[c] == name
                        &&& field_name(#[trigger] fields[v]) == name
                    };
                assert((predicate_columns->0)@[c]@ == field_name(*virtual_columns@[v]));
            },
            None => {},
        }
    }
}

/// What a step finds out decides which step comes next, and nothing else does. Steps that
/// wait for I/O are planned as such.
pub proof fn law_a_step_goes_by_its_findings(
    state: ParquetOpenState,
    findings: StepFindings,
    next: ParquetOpenState,
    plan: OpenPlan,
)
    requires
        call_ensures(ParquetOpenState::transition, (state, findings), next),
        call_ensures(ParquetOpenState::plan, (state, findings), plan),
    ensures
        state == ParquetOpenState::Start ==> next == if findings.encryption {
            ParquetOpenState::LoadEncryption
        } else {
            ParquetOpenState::PruneFile
        },
        state == ParquetOpenState::PruneFile ==> next == if findings.file_pruned {
            ParquetOpenState::Done
        } else {
            ParquetOpenState::LoadMetadata
        },
        state == ParquetOpenState::PruneWithStatistics ==> next == if findings.page_index_useful {
            ParquetOpenState::LoadPageIndex
        } else {
            ParquetOpenState::LoadBloomFilters
        },
        state == ParquetOpenState::PrepareFilters ==> next
            == ParquetOpenState::PruneWithStatistics,
        state == ParquetOpenState::PruneWithBloomFilters ==> next == ParquetOpenState::BuildStream,
        state == ParquetOpenState::BuildStream ==> next == ParquetOpenState::Ready,
        next == ParquetOpenState::LoadEncryption || next == ParquetOpenState::LoadMetadata || next
            == ParquetOpenState::LoadPageIndex || next == ParquetOpenState::LoadBloomFilters
            ==> plan is Io && plan->Io_0 == next,
        plan == OpenPlan::Stream <==> next == ParquetOpenState::Ready,
        plan == OpenPlan::Nothing <==> next == ParquetOpenState::Done,
        plan matches OpenPlan::Cpu(planned) ==> planned == next,
{
}

/// Pages are pruned only where that is enabled and a predicate gives a filter on them, and
/// the page index is read unless both parts of it are already there. The footer is read
/// without it, with the schema that is known.
pub proof fn law_the_page_index_is_read_only_on_demand(
    enable_page_index: bool,
    filter_count: Option<usize>,
    keeps: bool,
    has_column_index: bool,
    has_offset_index: bool,
    must: bool,
    arrow_schema: Option<&Arc<Schema>>,
    options: ArrowReaderOptions,
)
    requires
        call_ensures(keeps_page_filters, (enable_page_index, filter_count), keeps),
        call_ensures(must_read_page_index, (has_column_index, has_offset_index), must),
        call_ensures(footer_options, (arrow_schema,), options),
    ensures
        !enable_page_index ==> !keeps,
        filter_count is None ==> !keeps,
        filter_count == Some(0usize) ==> !keeps,
        enable_page_index && filter_count is Some && filter_count->0 > 0 ==> keeps,
        !must ==> has_column_index && has_offset_index,
        has_column_index && has_offset_index ==> !must,
        options_index(options).0 == IndexPolicy::Skip,
        options_index(options).1 == IndexPolicy::Skip,
        options_virtual(options).len() == 0,
        arrow_schema is Some ==> options_schema(options) == Some(**arrow_schema->0),
        arrow_schema is None ==> options_schema(options) is None,
{
}

/// The rows that a selection reads are those that are flagged in it, and those that it
/// covers are all of them. The rows of a file are those of its row groups, one after the
/// other.
pub proof fn law_rows_are_counted_one_by_one(
    selection: RowSelection,
    selected: usize,
    covered: u128,
    groups: Vec<RowGroupMetaData>,
    rows: u128,
)
    requires
        call_ensures(selected_rows, (&selection,), selected),
        call_ensures(covered_rows, (&selection,), covered),
        call_ensures(count_rows, (&groups,), rows),
    ensures
        selection_mask(selection).filter(|flag: bool| flag).len() <= usize::MAX ==> selected
            == selection_mask(selection).filter(|flag: bool| flag).len(),
        selection_mask(selection).filter(|flag: bool| flag).len() > usize::MAX ==> selected
            == usize::MAX,
        covered == selection_mask(selection).len(),
        rows == row_offset(groups@, groups@.len() as int),
{
    law_selected_rows_are_the_set_flags(selection_mask(selection));
    assert(groups@.take(groups@.len() as int) =~= groups@);
}

/// A plan for all row groups reads every row of each, and one for none reads no row. None is
/// taken to be fully matched.
pub proof fn law_a_plan_for_all_reads_everything_and_one_for_none_nothing(
    count: usize,
    all: ParquetAccessPlan,
    none: ParquetAccessPlan,
    index: int,
    row: int,
)
    requires
        call_ensures(ParquetAccessPlan::new_all, (count,), all),
        call_ensures(ParquetAccessPlan::new_none, (count,), none),
        0 <= index < count,
    ensures
        all@.groups.len() == count,
        none@.groups.len() == count,
        reads_row(all@.groups[index], row),
        !reads_row(none@.groups[index], row),
        !all@.fully_matched[index],
        !none@.fully_matched[index],
{
}

/// Bytes belong to ranges exactly where there is a stretch for each range, and of its length.
pub proof fn law_bytes_belong_to_ranges_of_their_length(
    ranges: Vec<Range<u64>>,
    data: Vec<Bytes>,
    matched: bool,
)
    requires
        call_ensures(check_ranges, (&ranges, &data), matched),
    ensures
        matched <==> ranges@.len() == data@.len() && forall|i: int|
            0 <= i < ranges@.len() ==> (#[trigger] ranges@[i]).end - ranges@[i].start == bytes_len(
                data@[i],
            ),
{
}

/// Row groups are those of a file exactly where there are as many, each with the number of
/// rows that its footer gives.
pub proof fn law_row_groups_are_those_of_their_file(
    metadata: ArrowReaderMetadata,
    groups: Vec<RowGroupMetaData>,
    same: bool,
)
    requires
        call_ensures(has_row_groups, (&metadata, &groups), same),
    ensures
        same <==> groups@.len() == footer_group_count(footer_of(metadata)) && forall|i: int|
            0 <= i < groups@.len() ==> (#[trigger] groups@[i]).num_rows == footer_group_rows(
                footer_of(metadata),
                i as usize,
            ) as usize,
{
}

/// Loading the page index counts as needless at most once, and only where it was asked for,
/// there is a row group, and it was not loaded. Whether it is useful can be told wherever
/// every row group that is read has a column chunk for each leaf column.
pub proof fn law_a_needless_page_index_is_counted(
    row_groups: RowGroupAccessPlanFilter,
    groups: Vec<RowGroupMetaData>,
    page_columns: Option<Vec<String>>,
    parquet_schema: SchemaDescriptor,
    loaded: bool,
    count: usize,
    decidable: bool,
)
    requires
        row_groups@.wf(),
        call_ensures(count_needless_page_index, (&row_groups, &page_columns, loaded), count),
        call_ensures(
            can_decide_page_index,
            (&row_groups, &groups, &page_columns, &parquet_schema),
            decidable,
        ),
    ensures
        loaded ==> count == 0,
        page_columns is None ==> count == 0 && decidable,
        row_groups@.groups.len() == 0 ==> count == 0,
        page_columns is Some && row_groups@.groups.len() > 0 && !loaded ==> count == 1,
        (forall|i: int|
            0 <= i < row_groups@.groups.len() && !(#[trigger] row_groups@.groups[i] is Skip)
                ==> groups@[i].columns@.len() >= leaf_count(parquet_schema)) ==> decidable,
{
    law_a_page_index_is_decided_where_chunks_are_there(
        row_groups@,
        groups@,
        page_columns is Some,
        parquet_schema,
    );
}

/// Columns are appended to a schema in their order and after its own.
pub proof fn law_columns_are_appended_after_those_of_the_schema(
    base: Arc<Schema>,
    extra: Vec<Arc<Field>>,
    schema: Arc<Schema>,
    i: int,
)
    requires
        call_ensures(append_fields, (&base, &extra), schema),
        0 <= i < schema_fields(*schema).len(),
    ensures
        schema_fields(*schema).len() == schema_fields(*base).len() + extra@.len(),
        i < schema_fields(*base).len() ==> schema_fields(*schema)[i] == schema_fields(*base)[i],
        i >= schema_fields(*base).len() ==> schema_fields(*schema)[i] == *extra@[i - schema_fields(
            *base,
        ).len()],
        extra@.len() == 0 ==> schema == base,
{
}

/// A predicate is refused exactly where one of its columns has the name of a virtual column,
/// and then with such a name.
pub proof fn law_a_predicate_on_virtual_columns_is_refused(
    predicate_columns: Vec<String>,
    virtual_columns: Vec<Arc<Field>>,
    valid: Result<(), VirtualColumnError>,
)
    requires
        call_ensures(
            validate_predicate_does_not_reference_virtual_columns,
            (&predicate_columns, &virtual_columns),
            valid,
        ),
    ensures
        valid is Ok <==> forall|c: int, v: int|
            0 <= c < predicate_columns@.len() && 0 <= v < virtual_columns@.len() ==> (
            #[trigger] predicate_columns@[c])@ != field_name(*#[trigger] virtual_columns@[v]),
        valid is Err ==> valid->Err_0 is InPredicate && exists|c: int|
            0 <= c < predicate_columns@.len() && (#[trigger] predicate_columns@[c])@
                == (valid->Err_0->InPredicate_0)@,
{
    let columns = texts(predicate_columns@);
    let fields = fields_of(virtual_columns@);
    law_a_predicate_is_refused_for_its_first_virtual_column(columns, fields);
    match first_virtual(columns, fields) {
        Some(name) => {
            let (c, v) = choose|c: int, v: int|
                {
                    &&& 0 <= c < columns.len()
                    &&& 0 <= v < fields.len()
                    &&& #[trigger] columns[c] == name
                    &&& field_name(#[trigger] fields[v]) == name
                };
            assert(predicate_columns@[c]@ == field_name(*virtual_columns@[v]));
        },
        None => {
            assert forall|c: int, v: int|
                0 <= c < predicate_columns@.len() && 0 <= v < virtual_columns@.len() implies (
            #[trigger] predicate_columns@[c])@ != field_name(*#[trigger] virtual_columns@[v]) by {
                assert(columns[c] != field_name(fields[v]));
            }
        },
    }
}

/// Metadata with the page index are those of the footer that holds it, read with the same
/// options but for the index.
pub proof fn law_metadata_with_the_page_index_are_those_of_its_footer<F>(
    reader_metadata: ArrowReaderMetadata,
    indexed: Arc<ParquetMetaData>,
    options: ArrowReaderOptions,
    schema_given: bool,
    rebuild: F,
    made: Result<ArrowReaderMetadata, ParquetError>,
) where
    F: FnOnce(Arc<ParquetMetaData>, ArrowReaderOptions) -> Result<
        ArrowReaderMetadata,
        ParquetError,
    >,

    requires
        call_ensures(
            with_page_index::<F>,
            (&reader_metadata, indexed, options, schema_given, rebuild),
            made,
        ),
    ensures
        made is Ok ==> footer_of(made->Ok_0) == *indexed,
        ({
            let changed = options_with_index(options, IndexPolicy::Optional);
            &&& schema_given ==> match metadata_with(*indexed, changed) {
                Some(metadata) => made == Ok::<ArrowReaderMetadata, ParquetError>(metadata),
                None => made is Err,
            }
            &&& !schema_given ==> exists|footer: Arc<ParquetMetaData>|
                *footer == *indexed && #[trigger] call_ensures(rebuild, (footer, changed), made)
        }),
{
}

/// A number is told by its decimal digits. The text of an error for lengths that differ
/// starts with the first of its numbers and ends with the other.
pub proof fn law_an_error_is_told_with_its_numbers(
    error: PlanError,
    file_name: &str,
    message: String,
    number: u128,
    text: String,
)
    requires
        call_ensures(PlanError::message, (&error, file_name), message),
        call_ensures(to_decimal, (number,), text),
    ensures
        number_of(text@) == number,
        error matches PlanError::AccessPlanLength { plan_len, row_group_count } ==> {
            let start = "Invalid ParquetAccessPlan for "@ + file_name@ + ". Specified "@ + decimal(
                plan_len as nat,
            );
            let end = decimal(row_group_count as nat);
            &&& message@.take(start.len() as int) == start
            &&& message@.skip(message@.len() - end.len()) == end
        },
        error matches PlanError::RowSelectionLength { file_rows, selection_rows } ==> {
            let start = "Invalid Parquet RowSelection. File has "@ + decimal(file_rows as nat)
                + " rows"@;
            let end = decimal(selection_rows as nat) + " rows."@;
            &&& message@.take(start.len() as int) == start
            &&& message@.skip(message@.len() - end.len()) == end
        },
{
    law_messages_tell_what_differs(error, file_name@);
    law_decimal_text_stands_for_its_number(number as nat);
}

} // verus!
