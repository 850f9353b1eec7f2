use std::cell::{Cell, RefCell};
use std::collections::VecDeque;
use std::ops::Range;
use std::sync::Arc;

use arrow::array::{ArrayRef, BooleanArray, Int64Array, RecordBatch, UInt64Array};
use arrow::datatypes::{DataType, Field, Schema, SchemaRef};
use bytes::Bytes;
use comet_parquet::access_plan::{ParquetAccessPlan, RowGroupAccess};
use comet_parquet::decoder::check_ranges;
use comet_parquet::decoder_config::{attach_row_filter, has_row_groups, DecoderBuilderConfig};
use comet_parquet::error::PlanError;
use comet_parquet::metadata::{ColumnChunkMetaData, RowGroupMetaData};
use comet_parquet::opener::{create_initial_plan, AccessExtensions};
use comet_parquet::prefetch::PrefetchDecision;
use comet_parquet::prepared::PreparedAccessPlan;
use comet_parquet::pruner::RowGroupPruner;
use comet_parquet::push_decoder::{
    advance_rg_plan_to, Adoption, BoundaryOutcome, PollStep, Polled, PrefetchResult,
    PushDecoderStreamState, RgPlanEntry, ScanStage, SettledPrefetch,
};
use comet_parquet::row_group_filter::{MissingNullCount, RowGroupAccessPlanFilter};
use comet_parquet::scan::{plan_scan, start_scan, ScanOptions};
use datafusion_common::{Column as LogicalColumn, ScalarValue};
use datafusion_datasource_parquet::{build_row_filter, ParquetFileMetrics};
use datafusion_expr::Operator;
use datafusion_physical_expr::expressions::{
    lit, BinaryExpr, Column, DynamicFilterPhysicalExpr, DynamicFilterTracking,
};
use datafusion_physical_expr_common::physical_expr::PhysicalExpr;
use datafusion_physical_plan::metrics::ExecutionPlanMetricsSet;
use datafusion_pruning::{
    PruningPredicate, PruningPredicateBuilder, PruningStatistics, MAX_IN_LIST_SIZE,
};
use parquet::arrow::arrow_reader::metrics::ArrowReaderMetrics;
use parquet::arrow::arrow_reader::statistics::StatisticsConverter;
use parquet::arrow::arrow_reader::{
    ArrowReaderMetadata, ArrowReaderOptions, ParquetRecordBatchReader, RowSelection, RowSelector,
};
use parquet::arrow::{ArrowWriter, ProjectionMask};
use parquet::file::metadata::{ParquetMetaData, ParquetMetaDataPushDecoder};
use parquet::file::properties::WriterProperties;
use parquet::DecodeResult;

/// A file of three row groups whose only column `v` holds 0..1000, 1000..2000 and
/// 2000..3000.
fn build_three_rg_file_data() -> (Bytes, Arc<ParquetMetaData>, SchemaRef) {
    let schema = Arc::new(Schema::new(vec![Field::new("v", DataType::Int64, false)]));
    let mut buf = Vec::new();
    let props = WriterProperties::builder()
        .set_max_row_group_row_count(Some(1000))
        .build();
    let mut writer = ArrowWriter::try_new(&mut buf, Arc::clone(&schema), Some(props)).unwrap();
    for rg in 0..3i64 {
        let base = rg * 1000;
        let vals: Vec<i64> = (base..base + 1000).collect();
        let batch =
            RecordBatch::try_new(Arc::clone(&schema), vec![Arc::new(Int64Array::from(vals))])
                .unwrap();
        writer.write(&batch).unwrap();
        writer.flush().unwrap();
    }
    writer.close().unwrap();
    let file = Bytes::from(buf);
    let len = file.len() as u64;
    let mut md = ParquetMetaDataPushDecoder::try_new(len).unwrap();
    md.push_range(0..len, file.clone()).unwrap();
    let meta = match md.try_decode().unwrap() {
        DecodeResult::Data(meta) => meta,
        _ => panic!("decoding metadata"),
    };
    assert_eq!(meta.num_row_groups(), 3, "test fixture must have 3 RGs");
    (file, Arc::new(meta), schema)
}

fn build_three_rg_file() -> (Arc<ParquetMetaData>, SchemaRef) {
    let (_, metadata, schema) = build_three_rg_file_data();
    (metadata, schema)
}

/// The statistics of some row groups.
struct TestStatistics<'a> {
    metadata: &'a ParquetMetaData,
    row_groups: Vec<usize>,
    schema: &'a Schema,
}

impl TestStatistics<'_> {
    fn converter(&self, column: &LogicalColumn) -> Option<StatisticsConverter<'_>> {
        StatisticsConverter::try_new(
            &column.name,
            self.schema,
            self.metadata.file_metadata().schema_descr(),
        )
        .ok()
    }

    fn groups(&self) -> Vec<&parquet::file::metadata::RowGroupMetaData> {
        self.row_groups
            .iter()
            .map(|&i| self.metadata.row_group(i))
            .collect()
    }
}

impl PruningStatistics for TestStatistics<'_> {
    fn min_values(&self, column: &LogicalColumn) -> Option<ArrayRef> {
        self.converter(column)?.row_group_mins(self.groups()).ok()
    }

    fn max_values(&self, column: &LogicalColumn) -> Option<ArrayRef> {
        self.converter(column)?.row_group_maxes(self.groups()).ok()
    }

    fn num_containers(&self) -> usize {
        self.row_groups.len()
    }

    fn null_counts(&self, column: &LogicalColumn) -> Option<ArrayRef> {
        let counts = self.converter(column)?.row_group_null_counts(self.groups());
        counts.ok().map(|counts| Arc::new(counts) as ArrayRef)
    }

    fn row_counts(&self) -> Option<ArrayRef> {
        let counts: UInt64Array = self
            .groups()
            .iter()
            .map(|rg| Some(rg.num_rows() as u64))
            .collect();
        Some(Arc::new(counts) as ArrayRef)
    }

    fn contained(
        &self,
        _column: &LogicalColumn,
        _values: &std::collections::HashSet<ScalarValue>,
    ) -> Option<BooleanArray> {
        None
    }
}

/// What a pruner asks about a predicate and a file.
struct Watched {
    predicate: Arc<dyn PhysicalExpr>,
    tracking: RefCell<DynamicFilterTracking>,
    schema: SchemaRef,
    metadata: Arc<ParquetMetaData>,
    builds: Cell<usize>,
}

impl Watched {
    fn new(
        predicate: Arc<dyn PhysicalExpr>,
        schema: &SchemaRef,
        metadata: &Arc<ParquetMetaData>,
    ) -> Self {
        Watched {
            tracking: RefCell::new(DynamicFilterTracking::classify(&predicate)),
            predicate,
            schema: Arc::clone(schema),
            metadata: Arc::clone(metadata),
            builds: Cell::new(0),
        }
    }

    fn changed(&self) -> bool {
        self.tracking
            .borrow_mut()
            .watcher()
            .is_some_and(|tracker| tracker.changed())
    }

    fn build(&self) -> Option<Arc<PruningPredicate>> {
        self.builds.set(self.builds.get() + 1);
        PruningPredicateBuilder::new()
            .with_file_schema(Arc::clone(&self.schema))
            .with_max_in_list_size(MAX_IN_LIST_SIZE)
            .build(Arc::clone(&self.predicate))
    }

    fn evaluate(&self, predicate: &Arc<PruningPredicate>, indexes: &[usize]) -> Option<Vec<bool>> {
        predicate
            .prune(&TestStatistics {
                metadata: &self.metadata,
                row_groups: indexes.to_vec(),
                schema: &self.schema,
            })
            .ok()
    }

    fn should_prune(
        &self,
        pruner: &mut RowGroupPruner<Arc<PruningPredicate>>,
        indexes: &[usize],
    ) -> bool {
        let outcome = pruner.should_prune(
            indexes,
            &|| self.changed(),
            &|| self.build(),
            &|predicate: &Arc<PruningPredicate>, indexes: &[usize], missing: MissingNullCount| {
                assert_eq!(missing, MissingNullCount::Zero);
                self.evaluate(predicate, indexes)
            },
        );
        assert_eq!(outcome.evaluation_errors, 0);
        outcome.prune
    }
}

/// `v > threshold`.
fn gt_predicate(threshold: i64) -> Arc<dyn PhysicalExpr> {
    Arc::new(BinaryExpr::new(
        Arc::new(Column::new("v", 0)),
        Operator::Gt,
        lit(ScalarValue::Int64(Some(threshold))),
    ))
}

#[test]
fn row_group_pruner_skips_only_disqualified_row_groups() {
    let (meta, schema) = build_three_rg_file();
    let watched = Watched::new(gt_predicate(1500), &schema, &meta);
    let mut pruner = RowGroupPruner::new();

    assert!(watched.should_prune(&mut pruner, &[0]), "RG0 should be pruned");
    assert!(!watched.should_prune(&mut pruner, &[1]), "RG1 must NOT be pruned");
    assert!(!watched.should_prune(&mut pruner, &[2]), "RG2 must NOT be pruned");
    assert!(
        !watched.should_prune(&mut pruner, &[0, 1]),
        "mixed run with a live RG must NOT be pruned"
    );
    assert!(!watched.should_prune(&mut pruner, &[]));
    assert_eq!(watched.builds.get(), 1, "a predicate that does not change is built once");
}

#[test]
fn row_group_pruner_tracks_dynamic_filter_updates() {
    let (meta, schema) = build_three_rg_file();
    let dynamic = Arc::new(DynamicFilterPhysicalExpr::new(
        vec![Arc::new(Column::new("v", 0))],
        gt_predicate(500),
    ));
    let watched = Watched::new(Arc::clone(&dynamic) as Arc<dyn PhysicalExpr>, &schema, &meta);
    let mut pruner = RowGroupPruner::new();

    assert!(!watched.should_prune(&mut pruner, &[0]));
    assert!(!watched.should_prune(&mut pruner, &[1]));

    dynamic.update(gt_predicate(2500)).expect("update threshold");

    assert!(
        watched.should_prune(&mut pruner, &[0]),
        "RG0 must be pruned after threshold tightens to 2500"
    );
    assert!(
        watched.should_prune(&mut pruner, &[1]),
        "RG1 must be pruned after threshold tightens to 2500"
    );
    assert!(
        !watched.should_prune(&mut pruner, &[2]),
        "RG2 (2000..3000) still straddles 2500"
    );
    assert_eq!(watched.builds.get(), 2);
}

#[test]
fn row_group_pruner_falls_back_to_conservative_when_predicate_has_no_bounds() {
    let (meta, schema) = build_three_rg_file();
    let watched = Watched::new(lit(true), &schema, &meta);
    let mut pruner = RowGroupPruner::new();
    assert!(!watched.should_prune(&mut pruner, &[0]));
    assert!(!watched.should_prune(&mut pruner, &[1]));
    assert!(!watched.should_prune(&mut pruner, &[2]));
}

#[test]
fn failed_evaluation_is_counted_and_prunes_nothing() {
    let mut pruner: RowGroupPruner<u8> = RowGroupPruner::new();
    let outcome =
        pruner.should_prune(&[0], &|| false, &|| Some(7), &|_: &u8, _: &[usize], _: MissingNullCount| None);
    assert!(!outcome.prune);
    assert_eq!(outcome.evaluation_errors, 1);
}

fn rg_plan(indexes: &[usize]) -> VecDeque<RgPlanEntry> {
    indexes
        .iter()
        .map(|&rg_index| RgPlanEntry { rg_index })
        .collect()
}

#[test]
fn advance_rg_plan_to_pops_up_to_target() {
    let mut plan = rg_plan(&[0, 1, 2, 3]);
    advance_rg_plan_to(&mut plan, 2).unwrap();
    assert_eq!(
        plan.iter().map(|e| e.rg_index).collect::<Vec<_>>(),
        vec![2, 3],
        "must pop the entries before `target` and stop at it",
    );
}

#[test]
fn advance_rg_plan_to_errors_when_target_absent() {
    let mut plan = rg_plan(&[0, 1, 2]);
    let err = advance_rg_plan_to(&mut plan, 5)
        .expect_err("a target absent from the plan must be an internal error");
    assert_eq!(err, PlanError::Diverged { target: 5 });
    let message = err.message("f");
    assert!(
        message.contains("diverged"),
        "expected a divergence internal error, got: {message}",
    );
    assert_eq!(
        message,
        "push decoder frontier RG 5 is not in rg_plan; decoder and plan have diverged"
    );
}

fn convert(metadata: &ParquetMetaData) -> Vec<RowGroupMetaData> {
    metadata
        .row_groups()
        .iter()
        .map(|group| RowGroupMetaData {
            num_rows: group.num_rows() as usize,
            columns: group
                .columns()
                .iter()
                .map(|column| ColumnChunkMetaData {
                    dictionary_page_offset: column.dictionary_page_offset(),
                    data_page_offset: column.data_page_offset(),
                    compressed_size: column.compressed_size(),
                    column_index_offset: column.column_index_offset(),
                    offset_index_offset: column.offset_index_offset(),
                })
                .collect(),
        })
        .collect()
}

/// What a scan in a test is set to.
struct TestScan {
    budget: Option<usize>,
    /// Whether memory can be reserved for what is read ahead.
    pool: bool,
    /// The background read that fails, counted from one.
    failing_read: Option<usize>,
    limit: Option<usize>,
    predicate: Option<Arc<dyn PhysicalExpr>>,
    /// Set to this predicate after the first batch.
    update: Option<(Arc<DynamicFilterPhysicalExpr>, Arc<dyn PhysicalExpr>)>,
    access: AccessExtensions,
    reverse: bool,
}

fn plain_scan() -> TestScan {
    TestScan {
        budget: Some(1 << 20),
        pool: true,
        failing_read: None,
        limit: None,
        predicate: None,
        update: None,
        access: AccessExtensions {
            access_plan: None,
            external_plan: None,
            row_selection: None,
        },
        reverse: false,
    }
}

/// What came of a scan.
#[derive(Default)]
struct TestOutcome {
    values: Vec<i64>,
    demand_reads: usize,
    prefetch_reads: usize,
    adopted: usize,
    discarded: usize,
    budget_skips: usize,
    pruned: usize,
    requested: Vec<Range<u64>>,
}

type TestState =
    PushDecoderStreamState<Arc<PruningPredicate>, ParquetRecordBatchReader, Vec<Bytes>, usize>;

/// Runs a scan on a file in memory. Background reads run at once.
fn run(scan: TestScan) -> Result<TestOutcome, PlanError> {
    run_logged(scan, &RefCell::new(vec![]))
}

/// Runs a scan, and logs the ranges that are read.
fn run_logged(
    scan: TestScan,
    log: &RefCell<Vec<Range<u64>>>,
) -> Result<TestOutcome, PlanError> {
    let (data, metadata, schema) = build_three_rg_file_data();
    let groups = convert(&metadata);
    let mut outcome = TestOutcome::default();
    let plan = create_initial_plan(&scan.access, &groups)?;
    let options = ScanOptions {
        limit: scan.limit,
        preserve_order: false,
        enable_page_index: false,
        reverse_row_groups: scan.reverse,
    };
    type Pages = fn(ParquetAccessPlan) -> (ParquetAccessPlan, usize);
    type Order = fn(&Vec<usize>) -> Option<Vec<usize>>;
    let planned = plan_scan::<Pages, Order>(
        RowGroupAccessPlanFilter::new(plan),
        &groups,
        options,
        None,
        None,
    )?;
    let reader_metadata =
        ArrowReaderMetadata::try_new(Arc::clone(&metadata), ArrowReaderOptions::new()).unwrap();
    assert!(has_row_groups(&reader_metadata, &groups));
    let projection = ProjectionMask::all();
    let counters = ArrowReaderMetrics::enabled();
    let file_metrics = ParquetFileMetrics::new(0, "f", &ExecutionPlanMetricsSet::new());
    let row_filter = scan.predicate.as_ref().and_then(|predicate| {
        build_row_filter(predicate, &schema, &metadata, false, &file_metrics).unwrap()
    });
    let watched = Watched::new(
        scan.predicate.clone().unwrap_or_else(|| lit(true)),
        &schema,
        &metadata,
    );
    let watching = matches!(&*watched.tracking.borrow(), DynamicFilterTracking::Watching(_));
    let mut state: TestState = start_scan(
        &DecoderBuilderConfig {
            projection_mask: &projection,
            batch_size: 100,
            arrow_reader_metrics: &counters,
            force_filter_selections: false,
            decoder_limit: scan.limit,
        },
        planned.prepared,
        reader_metadata,
        row_filter,
        None,
        groups,
        ProjectionMask::all(),
        scan.budget,
        watching,
    )
    .unwrap();
    let mut update = scan.update;
    let fetch = |ranges: &Vec<Range<u64>>| -> Vec<Bytes> {
        log.borrow_mut().extend(ranges.iter().cloned());
        ranges
            .iter()
            .map(|range| data.slice(range.start as usize..range.end as usize))
            .collect()
    };
    loop {
        if state.stage == ScanStage::Decoding {
            let next = state.next_batch(|mut reader: ParquetRecordBatchReader| {
                let batch = reader.next();
                (reader, batch)
            });
            match next {
                Some(batch) => {
                    let batch = batch.unwrap();
                    let column = batch.column(0).as_any().downcast_ref::<Int64Array>().unwrap();
                    outcome.values.extend_from_slice(column.values());
                    if let Some((dynamic, predicate)) = update.take() {
                        dynamic.update(predicate).unwrap();
                    }
                    continue;
                }
                None => assert_eq!(state.stage, ScanStage::Boundary),
            }
        }
        let report = state.prune_at_boundary(
            &|| watched.changed(),
            &|| watched.build(),
            &|predicate: &Arc<PruningPredicate>, indexes: &[usize], _: MissingNullCount| {
                watched.evaluate(predicate, indexes)
            },
        );
        outcome.pruned += report.pruned;
        match report.outcome {
            BoundaryOutcome::Continue => {}
            BoundaryOutcome::Finished => return Ok(outcome),
            BoundaryOutcome::Failed(_) => panic!("boundary"),
        }
        let was_pending = state.pending_prefetch.is_some();
        match state.settle_prefetch() {
            SettledPrefetch::Proceed => {
                if was_pending {
                    outcome.discarded += 1;
                }
            }
            SettledPrefetch::Await(prefetch) => {
                assert!(state.rg_plan.iter().any(|entry| entry.rg_index == prefetch.row_group));
                let result = if scan.failing_read == Some(outcome.prefetch_reads) {
                    PrefetchResult::Failed
                } else {
                    assert!(check_ranges(&prefetch.ranges, &prefetch.task));
                    outcome.adopted += 1;
                    PrefetchResult::Read(prefetch.task, 1)
                };
                assert!(matches!(
                    state.adopt_prefetch(prefetch.ranges, result),
                    Adoption::Proceed
                ));
            }
            SettledPrefetch::Failed(error) => panic!("{error}"),
        }
        let step = state.poll_decoder(|mut decoder| {
            let polled = match decoder.try_next_reader() {
                Ok(DecodeResult::NeedsData(ranges)) => Polled::NeedsData(ranges),
                Ok(DecodeResult::Data(reader)) => Polled::Data(reader),
                Ok(DecodeResult::Finished) => Polled::Finished,
                Err(error) => Polled::Failed(error),
            };
            (decoder, polled)
        });
        match step {
            PollStep::Fetch(ranges) => {
                outcome.demand_reads += 1;
                outcome.requested.extend(ranges.clone());
                let bytes = fetch(&ranges);
                assert!(check_ranges(&ranges, &bytes));
                state.supply(ranges, Some(bytes)).unwrap();
            }
            PollStep::Decode(decision) => {
                assert!(state.prefetch_reservation.is_none());
                match decision {
                    Some(PrefetchDecision::Fetch(plan)) => {
                        if scan.pool {
                            outcome.prefetch_reads += 1;
                            outcome.requested.extend(plan.ranges.clone());
                            let bytes = fetch(&plan.ranges);
                            state.prefetch_started(plan, bytes);
                        } else {
                            outcome.budget_skips += 1;
                        }
                    }
                    Some(PrefetchDecision::OverBudget) => outcome.budget_skips += 1,
                    Some(PrefetchDecision::Unplanned | PrefetchDecision::Misplaced) => {
                        panic!("unplanned")
                    }
                    None => {}
                }
            }
            PollStep::Finished => return Ok(outcome),
            PollStep::Failed(error) => panic!("{error}"),
        }
    }
}

#[test]
fn row_groups_must_be_those_of_the_file() {
    let (metadata, _) = build_three_rg_file();
    let reader =
        ArrowReaderMetadata::try_new(Arc::clone(&metadata), ArrowReaderOptions::new()).unwrap();
    assert!(has_row_groups(&reader, &convert(&metadata)));
    let mut other = convert(&metadata);
    other[1].num_rows += 1;
    assert!(!has_row_groups(&reader, &other));
    let mut fewer = convert(&metadata);
    fewer.pop();
    assert!(!has_row_groups(&reader, &fewer));
}

#[test]
fn prefetch_preserves_order() {
    let outcome = run(plain_scan()).unwrap();
    assert_eq!(outcome.values, (0..3000).collect::<Vec<_>>());
    assert_eq!(outcome.demand_reads, 1, "only the first row group is read on demand");
    assert_eq!(outcome.prefetch_reads, 2);
    assert_eq!(outcome.adopted, 2);
}

#[test]
fn without_a_budget_or_memory_everything_is_read_on_demand() {
    for (budget, pool, skips) in [
        (None, true, 0),
        (Some(0), true, 2),
        (Some(1), true, 2),
        (Some(1 << 20), false, 2),
    ] {
        let outcome = run(TestScan { budget, pool, ..plain_scan() }).unwrap();
        assert_eq!(outcome.values, (0..3000).collect::<Vec<_>>());
        assert_eq!(outcome.demand_reads, 3);
        assert_eq!(outcome.prefetch_reads, 0);
        assert_eq!(outcome.budget_skips, skips);
    }
}

#[test]
fn a_limit_stops_reading_ahead() {
    let outcome = run(TestScan { limit: Some(100), ..plain_scan() }).unwrap();
    assert_eq!(outcome.values, (0..100).collect::<Vec<_>>());
    assert_eq!(outcome.demand_reads, 1);
    assert_eq!(outcome.prefetch_reads, 0);
}

#[test]
fn prefetch_failure_retries_on_demand() {
    let outcome = run(TestScan { failing_read: Some(1), ..plain_scan() }).unwrap();
    assert_eq!(outcome.values.len(), 3000);
    assert_eq!(outcome.demand_reads + outcome.prefetch_reads, 4);
}

#[test]
fn prefetch_cancels_a_row_group_pruned_while_decoding() {
    let dynamic = Arc::new(DynamicFilterPhysicalExpr::new(
        vec![Arc::new(Column::new("v", 0))],
        gt_predicate(-1),
    ));
    let outcome = run(TestScan {
        predicate: Some(Arc::clone(&dynamic) as Arc<dyn PhysicalExpr>),
        update: Some((dynamic, gt_predicate(2500))),
        ..plain_scan()
    })
    .unwrap();
    assert_eq!(outcome.values.len(), 1499);
    assert_eq!(outcome.pruned, 1);
    assert_eq!(outcome.discarded, 1);
}

#[test]
fn prefetch_with_row_filter_matches_demand_reads() {
    let modulo = Arc::new(BinaryExpr::new(
        Arc::new(BinaryExpr::new(
            Arc::new(Column::new("v", 0)),
            Operator::Modulo,
            lit(2000i64),
        )),
        Operator::Lt,
        lit(1000i64),
    )) as Arc<dyn PhysicalExpr>;
    for (predicate, expected) in [
        (gt_predicate(1500), (1501..3000).collect::<Vec<i64>>()),
        (modulo, (0..1000).chain(2000..3000).collect()),
    ] {
        for budget in [Some(0), Some(1 << 20)] {
            let outcome = run(TestScan {
                budget,
                predicate: Some(Arc::clone(&predicate)),
                ..plain_scan()
            })
            .unwrap();
            assert_eq!(outcome.values, expected);
        }
    }
}

/// A filter that leaves nothing of a row group makes the decoder pass over it; the
/// plan must follow, or a rebuild would read a row group twice.
#[test]
fn the_plan_follows_a_decoder_that_passes_over_row_groups() {
    let modulo = Arc::new(BinaryExpr::new(
        Arc::new(BinaryExpr::new(
            Arc::new(Column::new("v", 0)),
            Operator::Modulo,
            lit(2000i64),
        )),
        Operator::Lt,
        lit(1000i64),
    )) as Arc<dyn PhysicalExpr>;
    let dynamic = Arc::new(DynamicFilterPhysicalExpr::new(
        vec![Arc::new(Column::new("v", 0))],
        modulo,
    ));
    let outcome = run(TestScan {
        predicate: Some(dynamic as Arc<dyn PhysicalExpr>),
        ..plain_scan()
    })
    .unwrap();
    assert_eq!(outcome.values, (0..1000).chain(2000..3000).collect::<Vec<i64>>());
}

#[test]
fn prefetch_honors_external_access_plans_and_row_selections() {
    for budget in [Some(0), Some(1 << 20)] {
        let by_rows = run(TestScan {
            budget,
            access: AccessExtensions {
                access_plan: None,
                external_plan: None,
                row_selection: Some(RowSelection::from(vec![
                    RowSelector::skip(500),
                    RowSelector::select(1700),
                    RowSelector::skip(800),
                ])),
            },
            ..plain_scan()
        })
        .unwrap();
        assert_eq!(by_rows.values, (500..2200).collect::<Vec<i64>>());

        let by_group = run(TestScan {
            budget,
            access: AccessExtensions {
                access_plan: None,
                external_plan: Some(vec![
                    RowGroupAccess::Scan,
                    RowGroupAccess::Skip,
                    RowGroupAccess::Scan,
                ]),
                row_selection: None,
            },
            ..plain_scan()
        })
        .unwrap();
        assert_eq!(by_group.values, (0..1000).chain(2000..3000).collect::<Vec<i64>>());
        let (_, metadata, _) = build_three_rg_file_data();
        let (start, len) = metadata.row_group(1).column(0).byte_range();
        assert!(
            by_group
                .requested
                .iter()
                .all(|r| r.end <= start || r.start >= start + len),
            "Neither demand nor background I/O may read an excluded row group"
        );
    }
}

#[test]
fn a_reversed_selection_reads_the_same_rows() {
    let outcome = run(TestScan {
        reverse: true,
        access: AccessExtensions {
            access_plan: None,
            external_plan: None,
            row_selection: Some(RowSelection::from(vec![
                RowSelector::skip(500),
                RowSelector::select(1700),
                RowSelector::skip(800),
            ])),
        },
        ..plain_scan()
    })
    .unwrap();
    let expected: Vec<i64> = (2000..2200).chain(1000..2000).chain(500..1000).collect();
    assert_eq!(outcome.values, expected);
}

#[test]
fn invalid_external_access_fails_before_data_io() {
    let log = RefCell::new(vec![]);
    let error = run_logged(
        TestScan {
            access: AccessExtensions {
                access_plan: None,
                external_plan: Some(vec![RowGroupAccess::Scan, RowGroupAccess::Scan]),
                row_selection: None,
            },
            ..plain_scan()
        },
        &log,
    )
    .err()
    .unwrap();
    assert!(log.borrow().is_empty(), "no data is read");
    assert!(error
        .message("prefetch.parquet")
        .contains("Specified 2 row groups, but file has 3"));
}

#[test]
fn bytes_must_fit_their_ranges() {
    let ranges = vec![0..4, 10..12];
    let fits = vec![Bytes::from_static(b"abcd"), Bytes::from_static(b"xy")];
    assert!(check_ranges(&ranges, &fits));
    let short = vec![Bytes::from_static(b"abcd"), Bytes::from_static(b"x")];
    assert!(!check_ranges(&ranges, &short));
    assert!(!check_ranges(&ranges, &vec![Bytes::from_static(b"abcd")]));
}

/// A file of two row groups of ten rows: column `a` holds 0..20, column `b` the same
/// from 100 on.
fn build_two_column_file() -> (Bytes, ArrowReaderMetadata) {
    let schema = Arc::new(Schema::new(vec![
        Field::new("a", DataType::Int64, false),
        Field::new("b", DataType::Int64, false),
    ]));
    let mut buf = Vec::new();
    let mut writer = ArrowWriter::try_new(&mut buf, Arc::clone(&schema), None).unwrap();
    for base in [0i64, 10] {
        let a: Vec<i64> = (base..base + 10).collect();
        let b: Vec<i64> = a.iter().map(|value| value + 100).collect();
        let batch = RecordBatch::try_new(
            Arc::clone(&schema),
            vec![Arc::new(Int64Array::from(a)), Arc::new(Int64Array::from(b))],
        )
        .unwrap();
        writer.write(&batch).unwrap();
        writer.flush().unwrap();
    }
    writer.close().unwrap();
    let file = Bytes::from(buf);
    let metadata = ArrowReaderMetadata::load(&file, ArrowReaderOptions::new()).unwrap();
    (file, metadata)
}

/// The batches of the whole file by a builder.
fn read_all(
    builder: parquet::arrow::push_decoder::ParquetPushDecoderBuilder,
    file: &Bytes,
) -> Vec<RecordBatch> {
    let mut decoder = builder.build().unwrap();
    let len = file.len() as u64;
    decoder.push_ranges(vec![0..len], vec![file.clone()]).unwrap();
    let mut batches = Vec::new();
    loop {
        match decoder.try_next_reader().unwrap() {
            DecodeResult::Data(reader) => batches.extend(reader.map(|batch| batch.unwrap())),
            DecodeResult::Finished => return batches,
            DecodeResult::NeedsData(ranges) => panic!("unexpected request for {ranges:?}"),
        }
    }
}

fn values(batches: &[RecordBatch]) -> Vec<Vec<i64>> {
    batches
        .iter()
        .map(|batch| {
            batch
                .column(0)
                .as_any()
                .downcast_ref::<Int64Array>()
                .unwrap()
                .values()
                .to_vec()
        })
        .collect()
}

#[test]
fn the_decoder_is_set_up_as_configured() {
    let (file, metadata) = build_two_column_file();
    let projection = ProjectionMask::leaves(metadata.parquet_schema(), [1]);
    let counters = ArrowReaderMetrics::enabled();
    let mut config = DecoderBuilderConfig {
        projection_mask: &projection,
        batch_size: 4,
        arrow_reader_metrics: &counters,
        force_filter_selections: false,
        decoder_limit: Some(13),
    };
    let all = || PreparedAccessPlan {
        row_group_indexes: vec![1, 0],
        row_selection: None,
    };
    let batches = read_all(config.build(all(), metadata.clone()), &file);
    assert!(batches.iter().all(|batch| batch.num_columns() == 1));
    assert_eq!(
        values(&batches),
        vec![
            vec![110, 111, 112, 113],
            vec![114, 115, 116, 117],
            vec![118, 119],
            vec![100, 101, 102],
        ]
    );

    // A selection is applied in either way.
    config.decoder_limit = None;
    config.batch_size = 1000;
    for force_filter_selections in [false, true] {
        config.force_filter_selections = force_filter_selections;
        let some = PreparedAccessPlan {
            row_group_indexes: vec![1],
            row_selection: Some(RowSelection::from(vec![
                RowSelector::skip(7),
                RowSelector::select(3),
            ])),
        };
        let batches = read_all(config.build(some, metadata.clone()), &file);
        assert_eq!(values(&batches), vec![vec![117, 118, 119]]);
    }
}

#[test]
fn a_row_filter_is_attached_to_the_decoder() {
    let (file, metadata) = build_two_column_file();
    let projection = ProjectionMask::leaves(metadata.parquet_schema(), [1]);
    let counters = ArrowReaderMetrics::enabled();
    let config = DecoderBuilderConfig {
        projection_mask: &projection,
        batch_size: 1000,
        arrow_reader_metrics: &counters,
        force_filter_selections: false,
        decoder_limit: None,
    };
    let predicate: Arc<dyn PhysicalExpr> = Arc::new(BinaryExpr::new(
        Arc::new(Column::new("a", 0)),
        Operator::Gt,
        lit(ScalarValue::Int64(Some(16))),
    ));
    let file_metrics = ParquetFileMetrics::new(0, "f", &ExecutionPlanMetricsSet::new());
    for cache in [None, Some(0)] {
        let filter = build_row_filter(
            &predicate,
            metadata.schema(),
            metadata.metadata(),
            false,
            &file_metrics,
        )
        .unwrap();
        let plan = PreparedAccessPlan {
            row_group_indexes: vec![0, 1],
            row_selection: None,
        };
        let builder = attach_row_filter(config.build(plan, metadata.clone()), filter, cache);
        assert_eq!(values(&read_all(builder, &file)), vec![vec![117, 118, 119]]);
    }
    // The decoder counts in what it was given.
    assert!(counters.records_read_from_inner().is_some());
}

#[test]
fn a_list_of_row_groups_is_pruned_by_its_parts() {
    let (meta, schema) = build_three_rg_file();
    let watched = Watched::new(gt_predicate(2100), &schema, &meta);
    let mut pruner = RowGroupPruner::new();
    assert!(watched.should_prune(&mut pruner, &[0]));
    assert!(watched.should_prune(&mut pruner, &[1]));
    assert!(watched.should_prune(&mut pruner, &[0, 1]));
    assert!(watched.should_prune(&mut pruner, &[1, 0]));
    assert!(!watched.should_prune(&mut pruner, &[2]));
    assert!(!watched.should_prune(&mut pruner, &[0, 2]));
    assert!(!watched.should_prune(&mut pruner, &[2, 0]));
}

#[test]
fn reading_ahead_changes_no_output() {
    let demand = run(TestScan { budget: None, ..plain_scan() }).unwrap();
    for budget in [0, 1, 100, 10_000, 1 << 20] {
        for failing_read in [None, Some(1), Some(2)] {
            let ahead = run(TestScan {
                budget: Some(budget),
                failing_read,
                ..plain_scan()
            })
            .unwrap();
            assert_eq!(ahead.values, demand.values);
        }
    }
}
