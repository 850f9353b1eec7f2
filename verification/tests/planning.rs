use comet_parquet::access_plan::{ParquetAccessPlan, RowGroupAccess};
use comet_parquet::error::{to_decimal, PlanError};
use comet_parquet::inversion::{invert, null_checked_columns, InvertedPredicate, PredicateColumn};
use comet_parquet::metadata::{ColumnChunkMetaData, FileRange, RowGroupMetaData};
use comet_parquet::open_state::{OpenPlan, ParquetOpenState, StepFindings};
use comet_parquet::opener::{
    count_needless_page_index, create_initial_plan, has_leaf_index, prune_row_groups,
    AccessExtensions, PruningOptions,
};
use comet_parquet::prefetch::{plan_prefetch, PrefetchDecision};
use comet_parquet::prepared::PreparedAccessPlan;
use comet_parquet::row_filter::RowFilterGenerator;
use comet_parquet::row_group_filter::{MissingNullCount, RowGroupAccessPlanFilter};
use comet_parquet::scan::{count_rows, plan_scan, ScanOptions};
use comet_parquet::selection::{covered_rows, selected_rows};
use parquet::arrow::arrow_reader::{RowSelection, RowSelector};
use parquet::arrow::ProjectionMask;
use parquet::schema::types::{SchemaDescriptor, Type};
use std::cell::Cell;
use std::sync::Arc;

fn chunk(offset: i64, size: i64) -> ColumnChunkMetaData {
    ColumnChunkMetaData {
        dictionary_page_offset: None,
        data_page_offset: offset,
        compressed_size: size,
        column_index_offset: None,
        offset_index_offset: None,
    }
}

/// Row groups of the given numbers of rows, each of one column chunk of a hundred
/// bytes, one after another.
fn groups(rows: &[usize]) -> Vec<RowGroupMetaData> {
    rows.iter()
        .enumerate()
        .map(|(i, &num_rows)| RowGroupMetaData {
            num_rows,
            columns: vec![chunk(4 + 100 * i as i64, 100)],
        })
        .collect()
}

fn selection(runs: &[(usize, bool)]) -> RowSelection {
    runs.iter()
        .map(|&(row_count, skip)| RowSelector { row_count, skip })
        .collect::<Vec<_>>()
        .into()
}

fn runs(selection: &RowSelection) -> Vec<(usize, bool)> {
    selection.iter().map(|run| (run.row_count, run.skip)).collect()
}

fn no_access() -> AccessExtensions {
    AccessExtensions {
        access_plan: None,
        external_plan: None,
        row_selection: None,
    }
}

fn matched_filter(count: usize, matched: &[usize]) -> RowGroupAccessPlanFilter {
    let mut plan = ParquetAccessPlan::new_all(count);
    for &idx in matched {
        plan.mark_fully_matched(idx);
    }
    RowGroupAccessPlanFilter::new(plan)
}

#[test]
fn a_fresh_plan_reads_everything() {
    let filter = RowGroupAccessPlanFilter::new(ParquetAccessPlan::new_all(3));
    assert_eq!(filter.row_group_indexes(), vec![0, 1, 2]);
    assert_eq!(filter.remaining_row_group_count(), 3);
    assert!(!filter.is_empty());
    assert_eq!(filter.is_fully_matched(), &vec![false; 3]);
    assert!(RowGroupAccessPlanFilter::new(ParquetAccessPlan::new_none(0)).is_empty());
    let none = RowGroupAccessPlanFilter::new(ParquetAccessPlan::new_none(3));
    assert!(!none.is_empty());
    assert_eq!(none.remaining_row_group_count(), 0);
}

#[test]
fn a_skipped_row_group_is_not_fully_matched() {
    let mut plan = ParquetAccessPlan::new_all(2);
    plan.mark_fully_matched(0);
    assert!(plan.is_fully_matched(0));
    plan.skip(0);
    assert!(!plan.is_fully_matched(0));
    plan.mark_fully_matched(0);
    assert!(!plan.is_fully_matched(0));
}

#[test]
fn a_limit_keeps_the_first_fully_matched_row_groups() {
    let meta = groups(&[10, 10, 10, 10]);
    let mut filter = matched_filter(4, &[1, 2, 3]);
    assert_eq!(filter.prune_by_limit(15, &meta), 2);
    assert_eq!(filter.row_group_indexes(), vec![1, 2]);
    assert_eq!(filter.is_fully_matched(), &vec![false, true, true, false]);
    // Once more nothing changes.
    assert_eq!(filter.prune_by_limit(15, &meta), 0);
    assert_eq!(filter.row_group_indexes(), vec![1, 2]);
}

#[test]
fn a_limit_that_is_not_met_changes_nothing() {
    let meta = groups(&[10, 10, 10, 10]);
    let mut filter = matched_filter(4, &[1]);
    assert_eq!(filter.prune_by_limit(11, &meta), 0);
    assert_eq!(filter.row_group_indexes(), vec![0, 1, 2, 3]);
}

#[test]
fn a_limit_of_zero_keeps_at_most_one_row_group() {
    let meta = groups(&[10, 10]);
    let mut filter = matched_filter(2, &[1]);
    assert_eq!(filter.prune_by_limit(0, &meta), 1);
    assert_eq!(filter.row_group_indexes(), vec![1]);
    let mut unmatched = matched_filter(2, &[]);
    assert_eq!(unmatched.prune_by_limit(0, &meta), 2);
    assert_eq!(unmatched.row_group_indexes(), Vec::<usize>::new());
}

#[test]
fn a_limit_counts_only_selected_rows() {
    let meta = groups(&[10, 10]);
    let mut plan = ParquetAccessPlan::new(vec![
        RowGroupAccess::Selection(selection(&[(4, false), (6, true)])),
        RowGroupAccess::Scan,
    ]);
    plan.mark_fully_matched(0);
    plan.mark_fully_matched(1);
    let mut filter = RowGroupAccessPlanFilter::new(plan);
    assert_eq!(filter.prune_by_limit(5, &meta), 0);
    assert_eq!(filter.row_group_indexes(), vec![0, 1]);
    assert_eq!(filter.prune_by_limit(4, &meta), 1);
    assert_eq!(filter.row_group_indexes(), vec![0]);
}

#[test]
fn neighbouring_ranges_share_no_row_group() {
    let mut meta = groups(&[1, 1, 1]);
    meta[1].columns[0].dictionary_page_offset = Some(90);
    let read = |start: i64, end: i64| {
        let mut filter = matched_filter(3, &[]);
        filter.prune_by_range(&meta, &FileRange { start, end });
        filter.row_group_indexes()
    };
    // The row groups start at 4, 90 and 204.
    assert_eq!(read(0, 90), vec![0]);
    assert_eq!(read(90, 204), vec![1]);
    assert_eq!(read(204, 300), vec![2]);
    assert_eq!(read(0, 300), vec![0, 1, 2]);
}

#[test]
fn statistics_prune_and_mark_row_groups() {
    let mut filter = RowGroupAccessPlanFilter::new(ParquetAccessPlan::new(vec![
        RowGroupAccess::Scan,
        RowGroupAccess::Skip,
        RowGroupAccess::Scan,
        RowGroupAccess::Scan,
    ]));
    let metrics = filter.prune_by_statistics(
        &vec![],
        &[],
        |indexes: &Vec<usize>, missing: MissingNullCount| {
            assert_eq!(missing, MissingNullCount::Zero);
            assert_eq!(indexes, &vec![0, 2, 3]);
            Some(vec![false, true, true])
        },
        |inverse: &InvertedPredicate, candidates: &Vec<usize>, missing: MissingNullCount| {
            assert_eq!(missing, MissingNullCount::Unknown);
            assert!(matches!(inverse, InvertedPredicate::Not));
            assert_eq!(candidates, &vec![2, 3]);
            Some(vec![true, false])
        },
    );
    assert_eq!(filter.row_group_indexes(), vec![2, 3]);
    assert_eq!(filter.is_fully_matched(), &vec![false, false, false, true]);
    assert_eq!((metrics.pruned, metrics.matched, metrics.fully_matched), (1, 2, 1));
    assert_eq!(metrics.evaluation_errors, 0);
}

#[test]
fn statistics_that_cannot_be_evaluated_prune_nothing() {
    let mut filter = matched_filter(2, &[]);
    let metrics = filter.prune_by_statistics(
        &vec![],
        &[],
        |_: &Vec<usize>, _: MissingNullCount| None,
        |_: &InvertedPredicate, _: &Vec<usize>, _: MissingNullCount| panic!("not asked"),
    );
    assert_eq!(metrics.evaluation_errors, 1);
    assert_eq!(metrics.matched, 0);
    assert_eq!(filter.row_group_indexes(), vec![0, 1]);
    // An inverse that cannot be evaluated marks nothing.
    let metrics = filter.prune_by_statistics(
        &vec![],
        &[],
        |_: &Vec<usize>, _: MissingNullCount| Some(vec![true, true]),
        |_: &InvertedPredicate, _: &Vec<usize>, _: MissingNullCount| None,
    );
    assert_eq!((metrics.matched, metrics.fully_matched), (2, 0));
    assert_eq!(filter.is_fully_matched(), &vec![false, false]);
}

fn column(index: usize, name: &str) -> PredicateColumn {
    PredicateColumn {
        index,
        name: name.to_string(),
    }
}

#[test]
fn the_inverse_checks_nullable_columns_in_order() {
    let columns = vec![column(2, "c"), column(0, "a"), column(1, "b"), column(2, "ba")];
    let nullable = [true, false, true];
    let names: Vec<String> = null_checked_columns(&columns, &nullable)
        .into_iter()
        .map(|column| column.name)
        .collect();
    assert_eq!(names, vec!["a", "ba", "c"]);
    let mut seen = Vec::new();
    let mut inverse = invert(&columns, &nullable);
    while let InvertedPredicate::OrIsNull(inner, column) = inverse {
        seen.push(column.name);
        inverse = *inner;
    }
    assert_eq!(seen, vec!["c", "ba", "a"]);
}

#[test]
fn a_verdict_of_bloom_filters_skips_only_a_sure_miss() {
    let mut filter = matched_filter(3, &[0]);
    assert!(filter.apply_bloom_verdict(0, Some(false)));
    assert!(!filter.apply_bloom_verdict(1, Some(true)));
    assert!(!filter.apply_bloom_verdict(2, None));
    assert_eq!(filter.row_group_indexes(), vec![1, 2]);
    assert_eq!(filter.is_fully_matched(), &vec![false; 3]);
}

#[test]
fn a_file_level_selection_is_split_by_row_group() {
    let meta = groups(&[10, 10, 10, 10]);
    let overall = selection(&[(10, true), (12, false), (3, true), (5, false), (10, true)]);
    assert_eq!(covered_rows(&overall), 40);
    assert_eq!(selected_rows(&overall), 17);
    let plan = ParquetAccessPlan::try_new_from_overall_row_selection(&overall, &meta).unwrap();
    assert!(matches!(plan.inner()[0], RowGroupAccess::Skip));
    assert!(matches!(plan.inner()[1], RowGroupAccess::Scan));
    match &plan.inner()[2] {
        RowGroupAccess::Selection(rows) => {
            assert_eq!(runs(rows), vec![(2, false), (3, true), (5, false)]);
        }
        other => panic!("{other:?}"),
    }
    assert!(matches!(plan.inner()[3], RowGroupAccess::Skip));

    let prepared = plan.prepare(&meta).unwrap();
    assert_eq!(prepared.row_group_indexes, vec![1, 2]);
    assert_eq!(
        runs(prepared.row_selection.as_ref().unwrap()),
        vec![(12, false), (3, true), (5, false)]
    );
}

#[test]
fn a_selection_must_cover_the_file() {
    let meta = groups(&[10, 10]);
    let error =
        ParquetAccessPlan::try_new_from_overall_row_selection(&selection(&[(19, false)]), &meta)
            .unwrap_err();
    assert_eq!(error, PlanError::RowSelectionLength { file_rows: 20, selection_rows: 19 });
    assert_eq!(
        error.message("f"),
        "Invalid Parquet RowSelection. File has 20 rows, but selection specifies 19 rows."
    );
}

#[test]
fn a_selection_must_cover_its_row_group() {
    let meta = groups(&[10, 10]);
    let plan = ParquetAccessPlan::new(vec![
        RowGroupAccess::Scan,
        RowGroupAccess::Selection(selection(&[(3, true), (8, false)])),
    ]);
    let error = plan.prepare(&meta).unwrap_err();
    assert_eq!(
        error,
        PlanError::RowGroupSelectionLength {
            row_group: 1,
            row_group_rows: 10,
            selection_rows: 11,
        }
    );
    assert_eq!(
        error.message("f"),
        "Invalid ParquetAccessPlan Selection. Row group 1 has 10 rows but selection only \
         specifies 11 rows"
    );
}

#[test]
fn only_selections_need_a_mask() {
    let meta = groups(&[10, 10, 10]);
    let plan = ParquetAccessPlan::new(vec![
        RowGroupAccess::Scan,
        RowGroupAccess::Skip,
        RowGroupAccess::Scan,
    ]);
    let prepared = plan.prepare(&meta).unwrap();
    assert_eq!(prepared.row_group_indexes, vec![0, 2]);
    assert!(prepared.row_selection.is_none());
}

#[test]
fn reversing_twice_changes_nothing() {
    let meta = groups(&[5, 3, 4]);
    let prepared = || PreparedAccessPlan {
        row_group_indexes: vec![0, 2],
        row_selection: Some(selection(&[(2, true), (5, false), (2, true)])),
    };
    let once = prepared().reverse(&meta);
    assert_eq!(once.row_group_indexes, vec![2, 0]);
    assert_eq!(
        runs(once.row_selection.as_ref().unwrap()),
        vec![(2, false), (4, true), (3, false)]
    );
    let twice = once.reverse(&meta);
    assert_eq!(twice.row_group_indexes, vec![0, 2]);
    assert_eq!(
        runs(twice.row_selection.as_ref().unwrap()),
        runs(prepared().row_selection.as_ref().unwrap())
    );
}

#[test]
fn reordering_needs_several_row_groups_and_no_selection() {
    let meta = groups(&[5, 3, 4]);
    let plan = |row_group_indexes: Vec<usize>, row_selection: Option<RowSelection>| {
        PreparedAccessPlan {
            row_group_indexes,
            row_selection,
        }
    };
    let order = Some(vec![2, 0, 1]);
    assert_eq!(plan(vec![0, 1, 2], None).reorder(&order, &meta).row_group_indexes, vec![2, 0, 1]);
    assert_eq!(plan(vec![0, 1, 2], None).reorder(&None, &meta).row_group_indexes, vec![0, 1, 2]);
    let selected = plan(vec![0, 1, 2], Some(selection(&[(12, false)])));
    assert_eq!(selected.reorder(&order, &meta).row_group_indexes, vec![0, 1, 2]);
    assert_eq!(plan(vec![1], None).reorder(&Some(vec![0]), &meta).row_group_indexes, vec![1]);
}

#[test]
fn the_initial_plan_is_what_was_asked_for() {
    let meta = groups(&[10, 10]);
    let all = create_initial_plan(&no_access(), &meta).unwrap();
    assert_eq!(all.row_group_indexes(), vec![0, 1]);
    // A plan goes before a list.
    let both = AccessExtensions {
        access_plan: Some(ParquetAccessPlan::new(vec![
            RowGroupAccess::Skip,
            RowGroupAccess::Scan,
        ])),
        external_plan: Some(vec![RowGroupAccess::Scan, RowGroupAccess::Skip]),
        row_selection: None,
    };
    assert_eq!(create_initial_plan(&both, &meta).unwrap().row_group_indexes(), vec![1]);
    let listed = AccessExtensions {
        access_plan: None,
        ..both
    };
    assert_eq!(create_initial_plan(&listed, &meta).unwrap().row_group_indexes(), vec![0]);
    let conflict = AccessExtensions {
        row_selection: Some(selection(&[(20, false)])),
        ..listed
    };
    let error = create_initial_plan(&conflict, &meta).unwrap_err();
    assert_eq!(error, PlanError::ConflictingAccess);
    assert_eq!(
        error.message("a.parquet"),
        "Invalid parquet access extensions for a.parquet. Specify either ParquetAccessPlan or \
         ParquetRowSelection, not both"
    );
    let long = AccessExtensions {
        access_plan: Some(ParquetAccessPlan::new_all(3)),
        ..no_access()
    };
    assert_eq!(
        create_initial_plan(&long, &meta).unwrap_err().message("a.parquet"),
        "Invalid ParquetAccessPlan for a.parquet. Specified 3 row groups, but file has 2"
    );
}

#[test]
fn row_groups_that_are_not_pruned_count_as_matched() {
    let meta = groups(&[10, 10, 10]);
    let prune = |has_predicate: bool, stats: bool, bloom: bool| {
        let (filter, metrics) = prune_row_groups(
            &no_access(),
            &meta,
            &Some(FileRange { start: 0, end: 200 }),
            has_predicate,
            PruningOptions {
                enable_row_group_stats_pruning: stats,
                enable_bloom_filter: bloom,
            },
            &vec![],
            &[],
            |indexes: &Vec<usize>, _: MissingNullCount| {
                Some(indexes.iter().map(|&i| i != 0).collect())
            },
            |_: &InvertedPredicate, candidates: &Vec<usize>, _: MissingNullCount| {
                Some(vec![false; candidates.len()])
            },
        )
        .unwrap();
        (
            filter.row_group_indexes(),
            metrics.statistics.pruned,
            metrics.statistics.matched,
            metrics.statistics.fully_matched,
            metrics.bloom_matched,
        )
    };
    assert_eq!(prune(false, true, true), (vec![0, 1], 0, 2, 0, 2));
    assert_eq!(prune(true, false, true), (vec![0, 1], 0, 2, 0, 0));
    assert_eq!(prune(true, true, true), (vec![1], 1, 1, 1, 0));
    assert_eq!(prune(true, true, false), (vec![1], 1, 1, 1, 1));
}

#[test]
fn a_leaf_is_indexed_where_a_read_row_group_has_both_parts() {
    let mut meta = groups(&[10, 10]);
    meta[1].columns[0].column_index_offset = Some(500);
    let filter = matched_filter(2, &[]);
    assert!(!has_leaf_index(&filter, &meta, 0));
    meta[1].columns[0].offset_index_offset = Some(600);
    assert!(has_leaf_index(&filter, &meta, 0));
    let mut narrowed = ParquetAccessPlan::new_all(2);
    narrowed.skip(1);
    assert!(!has_leaf_index(&RowGroupAccessPlanFilter::new(narrowed), &meta, 0));
    let columns = Some(vec!["v".to_string()]);
    assert_eq!(count_needless_page_index(&filter, &columns, false), 1);
    assert_eq!(count_needless_page_index(&filter, &columns, true), 0);
    assert_eq!(count_needless_page_index(&filter, &None, false), 0);
}

#[test]
fn a_scan_is_limited_paged_ordered_and_reversed() {
    let meta = groups(&[10, 10, 10]);
    let options = ScanOptions {
        limit: Some(20),
        preserve_order: false,
        enable_page_index: true,
        reverse_row_groups: true,
    };
    let pages = |plan: ParquetAccessPlan| (plan, 7);
    let order = |indexes: &Vec<usize>| {
        assert_eq!(indexes, &vec![0, 2]);
        Some(vec![1, 0])
    };
    let scan =
        plan_scan(matched_filter(3, &[0, 2]), &meta, options, Some(pages), Some(order)).unwrap();
    assert_eq!(scan.limit_pruned, 1);
    assert_eq!(scan.pages_skipped, 7);
    assert_eq!(scan.prepared.row_group_indexes, vec![0, 2]);

    let kept = ScanOptions {
        preserve_order: true,
        enable_page_index: false,
        reverse_row_groups: false,
        ..options
    };
    let all = |_: &Vec<usize>| Some(vec![1, 2, 0]);
    let scan = plan_scan(matched_filter(3, &[0, 2]), &meta, kept, Some(pages), Some(all)).unwrap();
    assert_eq!(scan.limit_pruned, 0);
    assert_eq!(scan.pages_skipped, 0);
    assert_eq!(scan.prepared.row_group_indexes, vec![1, 2, 0]);
}

#[test]
fn only_rows_that_are_read_are_counted() {
    let meta = groups(&[10, usize::MAX, 20]);
    assert_eq!(count_rows(&matched_filter(3, &[]), &meta), None);
    let plan = ParquetAccessPlan::new(vec![
        RowGroupAccess::Selection(selection(&[(4, false), (6, true)])),
        RowGroupAccess::Skip,
        RowGroupAccess::Scan,
    ]);
    let filter = RowGroupAccessPlanFilter::new(plan);
    assert_eq!(count_rows(&filter, &meta), Some(30));
    type Pages = fn(ParquetAccessPlan) -> (ParquetAccessPlan, usize);
    type Order = fn(&Vec<usize>) -> Option<Vec<usize>>;
    let options = ScanOptions {
        limit: None,
        preserve_order: false,
        enable_page_index: false,
        reverse_row_groups: true,
    };
    let scan = plan_scan::<Pages, Order>(filter, &meta, options, None, None).unwrap();
    assert_eq!(scan.prepared.row_group_indexes, vec![2, 0]);
    assert_eq!(
        runs(&scan.prepared.row_selection.unwrap()),
        vec![(24, false), (6, true)]
    );
}

fn two_columns() -> SchemaDescriptor {
    let leaf = |name: &str| {
        Arc::new(
            Type::primitive_type_builder(name, parquet::basic::Type::INT64)
                .build()
                .unwrap(),
        )
    };
    let root = Type::group_type_builder("schema")
        .with_fields(vec![leaf("a"), leaf("b")])
        .build()
        .unwrap();
    SchemaDescriptor::new(Arc::new(root))
}

#[test]
fn only_projected_chunks_within_the_budget_are_read_ahead() {
    let group = RowGroupMetaData {
        num_rows: 10,
        columns: vec![chunk(4, 100), chunk(104, 50)],
    };
    let all = ProjectionMask::all();
    match plan_prefetch(3, &group, &all, 150) {
        PrefetchDecision::Fetch(plan) => {
            assert_eq!(plan.row_group, 3);
            assert_eq!(plan.ranges, vec![4..104, 104..154]);
            assert_eq!(plan.bytes, 150);
        }
        other => panic!("{other:?}"),
    }
    assert!(matches!(plan_prefetch(3, &group, &all, 149), PrefetchDecision::OverBudget));
    assert!(matches!(plan_prefetch(3, &group, &all, 0), PrefetchDecision::OverBudget));
    let second = ProjectionMask::leaves(&two_columns(), [1]);
    match plan_prefetch(3, &group, &second, 149) {
        PrefetchDecision::Fetch(plan) => assert_eq!(plan.ranges, vec![104..154]),
        other => panic!("{other:?}"),
    }
    let none = ProjectionMask::leaves(&two_columns(), []);
    assert!(matches!(plan_prefetch(3, &group, &none, 149), PrefetchDecision::OverBudget));
    let huge = RowGroupMetaData {
        num_rows: 10,
        columns: vec![chunk(4, i64::MAX), chunk(4, i64::MAX), chunk(4, i64::MAX)],
    };
    assert!(matches!(plan_prefetch(3, &huge, &all, usize::MAX), PrefetchDecision::Unplanned));
}

#[test]
fn nothing_is_planned_of_a_chunk_that_cannot_be_there() {
    let all = ProjectionMask::all();
    for misplaced in [chunk(-4, 100), chunk(4, -100)] {
        let group = RowGroupMetaData {
            num_rows: 10,
            columns: vec![misplaced, chunk(104, 50)],
        };
        assert!(matches!(plan_prefetch(0, &group, &all, 1000), PrefetchDecision::Misplaced));
        // It does not matter where it is not read.
        let second = ProjectionMask::leaves(&two_columns(), [1]);
        match plan_prefetch(0, &group, &second, 1000) {
            PrefetchDecision::Fetch(plan) => assert_eq!(plan.ranges, vec![104..154]),
            other => panic!("{other:?}"),
        }
    }
}

#[test]
fn opening_a_file_takes_its_steps_in_order() {
    let findings = |file_pruned: bool, page_index_useful: bool| StepFindings {
        encryption: false,
        file_pruned,
        page_index_useful,
    };
    let walk = |findings: StepFindings| {
        let mut state = ParquetOpenState::Start;
        let mut io = Vec::new();
        for _ in 0..20 {
            match state.plan(findings) {
                OpenPlan::Nothing => return (io, false),
                OpenPlan::Stream => return (io, true),
                OpenPlan::Io(step, next) => {
                    io.push(step);
                    state = next;
                }
                OpenPlan::Cpu(next) => state = next,
            }
        }
        panic!("no end")
    };
    assert_eq!(
        walk(findings(false, false)),
        (vec![ParquetOpenState::LoadMetadata, ParquetOpenState::LoadBloomFilters], true)
    );
    assert_eq!(
        walk(findings(false, true)),
        (
            vec![
                ParquetOpenState::LoadMetadata,
                ParquetOpenState::LoadPageIndex,
                ParquetOpenState::LoadBloomFilters,
            ],
            true
        )
    );
    assert_eq!(walk(findings(true, true)), (vec![], false));
    let encrypted = StepFindings {
        encryption: true,
        ..findings(true, false)
    };
    assert_eq!(walk(encrypted), (vec![ParquetOpenState::LoadEncryption], false));
    assert_eq!(ParquetOpenState::Done.plan(encrypted), OpenPlan::Nothing);
}

#[test]
fn the_first_row_filter_is_built_once() {
    let builds = Cell::new(0);
    let build = || -> Result<Option<i32>, String> {
        builds.set(builds.get() + 1);
        Ok(Some(builds.get()))
    };
    let mut generator = RowFilterGenerator::new(Some(build));
    assert_eq!(builds.get(), 1);
    assert_eq!(generator.next_filter(), Some(1));
    assert_eq!(builds.get(), 1);
    assert_eq!(generator.next_filter(), Some(2));
    let broken = || -> Result<Option<i32>, String> { Err("no".to_string()) };
    assert_eq!(RowFilterGenerator::new(Some(broken)).next_filter(), None);
}

#[test]
fn numbers_are_written_in_decimal() {
    assert_eq!(to_decimal(0), "0");
    assert_eq!(to_decimal(1234567890), "1234567890");
    assert_eq!(to_decimal(u128::MAX), u128::MAX.to_string());
}

#[test]
fn a_predicate_that_keeps_nothing_needs_no_schema() {
    // The columns are looked up in the schema only where a row group is left.
    let mut filter = matched_filter(2, &[]);
    let metrics = filter.prune_by_statistics(
        &vec![column(7, "gone")],
        &[],
        |_: &Vec<usize>, _: MissingNullCount| Some(vec![false, false]),
        |_: &InvertedPredicate, _: &Vec<usize>, _: MissingNullCount| panic!("not asked"),
    );
    assert_eq!((metrics.pruned, metrics.matched), (2, 0));
    assert!(filter.row_group_indexes().is_empty());
}
