//! Deciding what is read of a file, from its footer to the decoder.

use crate::access_plan::{
    law_split_reads_the_selection, lemma_scanned, reads_row, scanned, split_mask, AccessModel,
    ParquetAccessPlan, PlanModel, RowGroupAccess,
};
use crate::bloom::all_filled;
use crate::columns::{
    find_leaf, found_leaf, leaf_count, literal_columns, literal_names, num_leaves, texts,
};
use crate::error::PlanError;
use crate::inversion::{
    column_models, columns_known, is_inverse, InvertedPredicate, PredicateColumn,
};
use crate::metadata::{row_offset, total_rows, FileRange, RowGroupMetaData};
use crate::row_group_filter::{
    bloom_applied, bloom_evaluated, evaluates_filters, in_range, may_keep, statistics_evaluated,
    BloomMetrics, MissingNullCount, RowGroupAccessPlanFilter, StatisticsMetrics,
};
use crate::selection::selection_mask;
use crate::soundness::law_a_range_reads_what_starts_in_it;
use arrow::datatypes::Schema;
use datafusion_datasource_parquet::BloomFilterStatistics;
use datafusion_pruning::PruningPredicate;
use parquet::arrow::arrow_reader::RowSelection;
use parquet::schema::types::SchemaDescriptor;
use vstd::prelude::*;

verus! {

/// What the user of a scan asks to be read of a file.
pub struct AccessExtensions {
    /// How each row group is read, as a plan of this library.
    pub access_plan: Option<ParquetAccessPlan>,
    /// How each row group is read, as a list. A plan goes before it.
    pub external_plan: Option<Vec<RowGroupAccess>>,
    /// The rows of the file that are read.
    pub row_selection: Option<RowSelection>,
}

/// The plan that the user asks for, where one does.
pub open spec fn requested_plan(extensions: AccessExtensions) -> Option<PlanModel> {
    match extensions.access_plan {
        Some(plan) => Some(plan@),
        None => match extensions.external_plan {
            Some(accesses) => Some(
                PlanModel::unmatched(accesses@.map_values(|access: RowGroupAccess| access@)),
            ),
            None => None,
        },
    }
}

/// What is first planned to be read, or why nothing can be.
pub open spec fn initial_plan(
    extensions: AccessExtensions,
    groups: Seq<RowGroupMetaData>,
) -> Result<PlanModel, PlanError> {
    match (requested_plan(extensions), extensions.row_selection) {
        (Some(_), Some(_)) => Err(PlanError::ConflictingAccess),
        (Some(plan), None) => if plan.groups.len() == groups.len() {
            Ok(plan)
        } else {
            Err(
                PlanError::AccessPlanLength {
                    plan_len: plan.groups.len() as usize,
                    row_group_count: groups.len() as usize,
                },
            )
        },
        (None, Some(selection)) => if selection_mask(selection).len() == total_rows(groups) {
            Ok(PlanModel::unmatched(split_mask(selection_mask(selection), groups)))
        } else {
            Err(
                PlanError::RowSelectionLength {
                    file_rows: total_rows(groups) as u128,
                    selection_rows: selection_mask(selection).len() as u128,
                },
            )
        },
        (None, None) => Ok(
            PlanModel::unmatched(Seq::new(groups.len(), |i: int| AccessModel::Scan)),
        ),
    }
}

/// A list of accesses as another list.
fn clone_accesses(accesses: &Vec<RowGroupAccess>) -> (copy: Vec<RowGroupAccess>)
    ensures
        copy@.map_values(|access: RowGroupAccess| access@) == accesses@.map_values(
            |access: RowGroupAccess| access@,
        ),
{
    let mut copy: Vec<RowGroupAccess> = Vec::new();
    let mut i: usize = 0;
    while i < accesses.len()
        invariant
            i <= accesses@.len(),
            copy@.len() == i,
            forall|j: int| 0 <= j < i ==> (#[trigger] copy@[j])@ == accesses@[j]@,
        decreases accesses@.len() - i,
    {
        copy.push(accesses[i].clone());
        i += 1;
    }
    assert(copy@.map_values(|access: RowGroupAccess| access@) =~= accesses@.map_values(
        |access: RowGroupAccess| access@,
    ));
    copy
}

/// The first plan for a file: what its user asks for, or else every row group.
///
/// Fails where a plan and a selection are asked for, and where one of them is not
/// for this file.
pub fn create_initial_plan(extensions: &AccessExtensions, groups: &Vec<RowGroupMetaData>) -> (plan:
    Result<ParquetAccessPlan, PlanError>)
    ensures
        match plan {
            Ok(plan) => {
                &&& initial_plan(*extensions, groups@) == Ok::<PlanModel, PlanError>(plan@)
                &&& plan.wf()
                &&& plan@.groups.len() == groups@.len()
            },
            Err(error) => initial_plan(*extensions, groups@) == Err::<PlanModel, PlanError>(error),
        },
{
    let requested = match &extensions.access_plan {
        Some(plan) => {
            proof {
                use_type_invariant(plan);
            }
            Some(plan.clone())
        },
        None => match &extensions.external_plan {
            Some(accesses) => Some(ParquetAccessPlan::new(clone_accesses(accesses))),
            None => None,
        },
    };
    match (requested, &extensions.row_selection) {
        (Some(_), Some(_)) => Err(PlanError::ConflictingAccess),
        (Some(plan), None) => {
            let plan_len = plan.len();
            if plan_len != groups.len() {
                return Err(
                    PlanError::AccessPlanLength { plan_len, row_group_count: groups.len() },
                );
            }
            Ok(plan)
        },
        (None, Some(selection)) => ParquetAccessPlan::try_new_from_overall_row_selection(
            selection,
            groups,
        ),
        (None, None) => Ok(ParquetAccessPlan::new_all(groups.len())),
    }
}

/// Which kinds of pruning a scan is to do.
#[derive(Debug, Clone, Copy)]
pub struct PruningOptions {
    /// Whether row groups are pruned by their statistics.
    pub enable_row_group_stats_pruning: bool,
    /// Whether row groups are pruned by their bloom filters.
    pub enable_bloom_filter: bool,
}

/// What pruning by the footer did to the row groups.
#[derive(Debug, Clone, Copy, PartialEq, Eq, Structural)]
pub struct FooterMetrics {
    /// What pruning by statistics did.
    pub statistics: StatisticsMetrics,
    /// Row groups that bloom filters will not be held against.
    pub bloom_matched: usize,
}

/// The metrics of row groups that are all kept.
pub open spec fn all_matched(count: nat) -> StatisticsMetrics {
    StatisticsMetrics {
        pruned: 0,
        matched: count as usize,
        fully_matched: 0,
        evaluation_errors: 0,
    }
}

/// A plan within a range of the file, where there is one.
pub open spec fn ranged(
    plan: PlanModel,
    groups: Seq<RowGroupMetaData>,
    range: Option<FileRange>,
) -> PlanModel {
    match range {
        Some(range) => in_range(plan, groups, range),
        None => plan,
    }
}

/// Plans what is read of a file from its footer: what its user asks for, within
/// `range`, without the row groups that statistics rule out.
///
/// `columns`, `nullable`, `evaluate` and `evaluate_inverse` are those of
/// [`RowGroupAccessPlanFilter::prune_by_statistics`]; they are used where there is
/// a predicate and its pruning is enabled. Where row groups are not held against
/// statistics or bloom filters they count as matched there.
pub fn prune_row_groups<F, G>(
    extensions: &AccessExtensions,
    groups: &Vec<RowGroupMetaData>,
    range: &Option<FileRange>,
    has_predicate: bool,
    options: PruningOptions,
    columns: &Vec<PredicateColumn>,
    nullable: &[bool],
    evaluate: F,
    evaluate_inverse: G,
) -> (pruned: Result<(RowGroupAccessPlanFilter, FooterMetrics), PlanError>) where
    F: FnOnce(&Vec<usize>, MissingNullCount) -> Option<Vec<bool>>,
    G: FnOnce(&InvertedPredicate, &Vec<usize>, MissingNullCount) -> Option<Vec<bool>>,

    requires
        range is Some ==> (initial_plan(*extensions, groups@) matches Ok(initial) ==> forall|i: int|
            0 <= i < groups@.len() && !(initial.groups[i] is Skip) ==> (
            #[trigger] groups@[i]).columns@.len() > 0),
        has_predicate && options.enable_row_group_stats_pruning && may_keep(evaluate)
            ==> columns_known(columns@, nullable@),
        forall|indexes: &Vec<usize>|
            (forall|k: int| 0 <= k < indexes@.len() ==> (#[trigger] indexes@[k]) < groups@.len())
                ==> #[trigger] call_requires(evaluate, (indexes, MissingNullCount::Zero)),
        forall|indexes: &Vec<usize>, verdicts: Vec<bool>|
            #[trigger] call_ensures(evaluate, (indexes, MissingNullCount::Zero), Some(verdicts)) ==> verdicts@.len()
                == indexes@.len(),
        forall|inverse: &InvertedPredicate, indexes: &Vec<usize>|
            is_inverse(column_models(columns@), nullable@, inverse.model()) && (forall|k: int|
                0 <= k < indexes@.len() ==> (#[trigger] indexes@[k]) < groups@.len())
                ==> #[trigger] call_requires(evaluate_inverse, (inverse, indexes, MissingNullCount::Unknown)),
        forall|inverse: &InvertedPredicate, indexes: &Vec<usize>, verdicts: Vec<bool>|
            #[trigger] call_ensures(evaluate_inverse, (inverse, indexes, MissingNullCount::Unknown), Some(verdicts))
                ==> verdicts@.len() == indexes@.len(),
    ensures
        match initial_plan(*extensions, groups@) {
            Err(error) => pruned == Err::<(RowGroupAccessPlanFilter, FooterMetrics), PlanError>(
                error,
            ),
            Ok(initial) => pruned matches Ok((filter, metrics)) && {
                let before = ranged(initial, groups@, *range);
                let left = scanned(filter@.groups).len();
                &&& filter.wf()
                &&& filter@.groups.len() == groups@.len()
                &&& if has_predicate && options.enable_row_group_stats_pruning {
                    statistics_evaluated(
                        columns@,
                        nullable@,
                        evaluate,
                        evaluate_inverse,
                        before,
                        filter@,
                        metrics.statistics,
                    )
                } else {
                    filter@ == before && metrics.statistics == all_matched(left)
                }
                &&& metrics.bloom_matched == if has_predicate && options.enable_bloom_filter
                    && groups@.len() > 0 {
                    0
                } else {
                    left as int
                }
            },
        },
{
    let plan = match create_initial_plan(extensions, groups) {
        Ok(plan) => plan,
        Err(error) => {
            return Err(error);
        },
    };
    let mut row_groups = RowGroupAccessPlanFilter::new(plan);
    match range {
        Some(range) => row_groups.prune_by_range(groups.as_slice(), range),
        None => {},
    }
    if has_predicate {
        let statistics = if options.enable_row_group_stats_pruning {
            proof {
                lemma_scanned(row_groups@.groups);
            }
            row_groups.prune_by_statistics(columns, nullable, evaluate, evaluate_inverse)
        } else {
            StatisticsMetrics {
                pruned: 0,
                matched: row_groups.remaining_row_group_count(),
                fully_matched: 0,
                evaluation_errors: 0,
            }
        };
        let bloom_matched = if !options.enable_bloom_filter || row_groups.is_empty() {
            row_groups.remaining_row_group_count()
        } else {
            0
        };
        Ok((row_groups, FooterMetrics { statistics, bloom_matched }))
    } else {
        let remaining = row_groups.remaining_row_group_count();
        Ok(
            (
                row_groups,
                FooterMetrics {
                    statistics: StatisticsMetrics {
                        pruned: 0,
                        matched: remaining,
                        fully_matched: 0,
                        evaluation_errors: 0,
                    },
                    bloom_matched: remaining,
                },
            ),
        )
    }
}

/// Whether all row groups that are read are fully matched.
pub open spec fn all_fully_matched(plan: PlanModel) -> bool {
    forall|k: int|
        0 <= k < scanned(plan.groups).len() ==> plan.fully_matched[(#[trigger] scanned(
            plan.groups,
        )[k]) as int]
}

/// Whether a row group that is read has a page index for the leaf column at `leaf`.
pub open spec fn leaf_indexed(
    plan: PlanModel,
    groups: Seq<RowGroupMetaData>,
    leaf: usize,
) -> bool {
    exists|k: int|
        0 <= k < scanned(plan.groups).len() && groups[(#[trigger] scanned(
            plan.groups,
        )[k]) as int].columns@[leaf as int].has_page_index()
}

/// Whether loading the page index may let a scan skip pages: there are predicates
/// on pages, a row group that is read is not fully matched, and one of the columns
/// of these predicates has a page index in a row group that is read.
pub open spec fn page_index_useful(
    plan: PlanModel,
    groups: Seq<RowGroupMetaData>,
    page_columns: Option<Seq<Seq<char>>>,
    parquet_schema: SchemaDescriptor,
    arrow_schema: Schema,
) -> bool {
    page_columns matches Some(names) && !all_fully_matched(plan) && exists|n: int|
        {
            &&& 0 <= n < names.len()
            &&& found_leaf(parquet_schema, arrow_schema, #[trigger] names[n]) matches Some(leaf)
            &&& leaf_indexed(plan, groups, leaf)
        }
}

/// Whether all row groups that are read are fully matched.
fn matches_fully(row_groups: &RowGroupAccessPlanFilter) -> (all: bool)
    ensures
        all == all_fully_matched(row_groups@),
{
    let indexes = row_groups.row_group_indexes();
    let matched = row_groups.is_fully_matched();
    let mut k: usize = 0;
    proof {
        use_type_invariant(row_groups);
        lemma_scanned(row_groups@.groups);
    }
    while k < indexes.len()
        invariant
            k <= indexes@.len(),
            indexes@ == scanned(row_groups@.groups),
            matched@ == row_groups@.fully_matched,
            forall|j: int| 0 <= j < indexes@.len() ==> (#[trigger] indexes@[j]) < matched@.len(),
            forall|j: int| 0 <= j < k ==> matched@[(#[trigger] indexes@[j]) as int],
        decreases indexes@.len() - k,
    {
        if !matched[indexes[k]] {
            assert(!matched@[scanned(row_groups@.groups)[k as int] as int]);
            return false;
        }
        k += 1;
    }
    true
}

/// Whether every row group that is read has a column chunk for each of the first `leaves`
/// leaf columns of the file.
pub open spec fn read_chunks_reach(
    plan: PlanModel,
    groups: Seq<RowGroupMetaData>,
    leaves: nat,
) -> bool {
    forall|k: int|
        0 <= k < scanned(plan.groups).len() ==> groups[(#[trigger] scanned(
            plan.groups,
        )[k]) as int].columns@.len() >= leaves
}

/// Whether it can be told if loading the page index is useful: no column chunk is looked
/// up that a row group lacks. `on_pages` says whether there are predicates on pages.
pub open spec fn page_index_decidable(
    plan: PlanModel,
    groups: Seq<RowGroupMetaData>,
    on_pages: bool,
    parquet_schema: SchemaDescriptor,
) -> bool {
    on_pages && !all_fully_matched(plan) ==> read_chunks_reach(
        plan,
        groups,
        leaf_count(parquet_schema),
    )
}

/// Whether it can be told by [`should_load_page_index`] if loading the page index is
/// useful.
pub fn can_decide_page_index(
    row_groups: &RowGroupAccessPlanFilter,
    groups: &Vec<RowGroupMetaData>,
    page_columns: &Option<Vec<String>>,
    parquet_schema: &SchemaDescriptor,
) -> (decidable: bool)
    requires
        row_groups@.groups.len() == groups@.len(),
    ensures
        decidable == page_index_decidable(
            row_groups@,
            groups@,
            *page_columns is Some,
            *parquet_schema,
        ),
{
    if page_columns.is_none() || matches_fully(row_groups) {
        return true;
    }
    let leaves = num_leaves(parquet_schema);
    let indexes = row_groups.row_group_indexes();
    let mut k: usize = 0;
    proof {
        use_type_invariant(row_groups);
        lemma_scanned(row_groups@.groups);
    }
    while k < indexes.len()
        invariant
            k <= indexes@.len(),
            indexes@ == scanned(row_groups@.groups),
            leaves == leaf_count(*parquet_schema),
            *page_columns is Some,
            !all_fully_matched(row_groups@),
            forall|j: int| 0 <= j < indexes@.len() ==> (#[trigger] indexes@[j]) < groups@.len(),
            forall|j: int|
                0 <= j < k ==> groups@[(#[trigger] indexes@[j]) as int].columns@.len() >= leaves,
        decreases indexes@.len() - k,
    {
        if groups[indexes[k]].columns.len() < leaves {
            assert(groups@[scanned(row_groups@.groups)[k as int] as int].columns@.len() < leaves);
            return false;
        }
        k += 1;
    }
    true
}

/// Whether a row group that is read has a page index for the leaf column at `leaf`.
pub fn has_leaf_index(
    row_groups: &RowGroupAccessPlanFilter,
    groups: &Vec<RowGroupMetaData>,
    leaf: usize,
) -> (indexed: bool)
    requires
        row_groups@.groups.len() == groups@.len(),
        read_chunks_reach(row_groups@, groups@, leaf as nat + 1),
    ensures
        indexed == leaf_indexed(row_groups@, groups@, leaf),
{
    let indexes = row_groups.row_group_indexes();
    let mut k: usize = 0;
    proof {
        use_type_invariant(row_groups);
        lemma_scanned(row_groups@.groups);
    }
    while k < indexes.len()
        invariant
            k <= indexes@.len(),
            indexes@ == scanned(row_groups@.groups),
            read_chunks_reach(row_groups@, groups@, leaf as nat + 1),
            forall|j: int| 0 <= j < indexes@.len() ==> (#[trigger] indexes@[j]) < groups@.len(),
            forall|j: int|
                0 <= j < k ==> !groups@[(#[trigger] indexes@[j]) as int].columns@[leaf as int].has_page_index(),
        decreases indexes@.len() - k,
    {
        assert(leaf < groups@[scanned(row_groups@.groups)[k as int] as int].columns@.len());
        if groups[indexes[k]].columns[leaf].has_page_index() {
            assert(groups@[scanned(row_groups@.groups)[k as int] as int].columns@[leaf as int].has_page_index());
            return true;
        }
        k += 1;
    }
    false
}

/// Whether loading the page index may let a scan skip pages. `page_columns` are the
/// columns of the predicates that are evaluated on pages, where there are any.
pub fn should_load_page_index(
    row_groups: &RowGroupAccessPlanFilter,
    groups: &Vec<RowGroupMetaData>,
    page_columns: &Option<Vec<String>>,
    parquet_schema: &SchemaDescriptor,
    arrow_schema: &Schema,
) -> (useful: bool)
    requires
        row_groups@.groups.len() == groups@.len(),
        page_index_decidable(row_groups@, groups@, *page_columns is Some, *parquet_schema),
    ensures
        useful == page_index_useful(
            row_groups@,
            groups@,
            match *page_columns {
                Some(names) => Some(texts(names@)),
                None => None,
            },
            *parquet_schema,
            *arrow_schema,
        ),
{
    match page_columns {
        None => false,
        Some(names) => {
            if matches_fully(row_groups) {
                return false;
            }
            let ghost wanted = texts(names@);
            let mut n: usize = 0;
            while n < names.len()
                invariant
                    n <= names@.len(),
                    *page_columns == Some(*names),
                    wanted == texts(names@),
                    !all_fully_matched(row_groups@),
                    row_groups@.groups.len() == groups@.len(),
                    read_chunks_reach(row_groups@, groups@, leaf_count(*parquet_schema)),
                    forall|m: int|
                        0 <= m < n ==> (found_leaf(
                            *parquet_schema,
                            *arrow_schema,
                            #[trigger] wanted[m],
                        ) matches Some(leaf) ==> !leaf_indexed(row_groups@, groups@, leaf)),
                decreases names@.len() - n,
            {
                assert(wanted[n as int] == names@[n as int]@);
                match find_leaf(parquet_schema, arrow_schema, names[n].as_str()) {
                    Some(leaf) => {
                        assert(read_chunks_reach(row_groups@, groups@, leaf as nat + 1));
                        if has_leaf_index(row_groups, groups, leaf) {
                            assert(found_leaf(*parquet_schema, *arrow_schema, wanted[n as int])
                                == Some(leaf));
                            return true;
                        }
                    },
                    None => {},
                }
                n += 1;
            }
            false
        },
    }
}

/// The number of times that loading the page index was found to be needless: once
/// where there are predicates on pages and row groups, but it is not loaded.
pub fn count_needless_page_index(
    row_groups: &RowGroupAccessPlanFilter,
    page_columns: &Option<Vec<String>>,
    loaded: bool,
) -> (count: usize)
    ensures
        count == if page_columns is Some && row_groups@.groups.len() > 0 && !loaded {
            1int
        } else {
            0
        },
{
    if page_columns.is_some() && !row_groups.is_empty() && !loaded {
        1
    } else {
        0
    }
}

/// A column whose bloom filters are loaded.
pub struct BloomColumn {
    /// The name of the column.
    pub name: String,
    /// The leaf column of the file that holds it.
    pub leaf: usize,
}

/// Whether bloom filters are loaded and held against the row groups.
pub open spec fn uses_bloom_filters(
    plan: PlanModel,
    has_predicate: bool,
    options: PruningOptions,
) -> bool {
    has_predicate && options.enable_bloom_filter && plan.groups.len() > 0
}

/// The leaf columns of those of `names` that the file has, in order.
pub open spec fn bloom_leaves(
    names: Seq<Seq<char>>,
    parquet_schema: SchemaDescriptor,
    arrow_schema: Schema,
) -> Seq<(Seq<char>, usize)>
    decreases names.len(),
{
    if names.len() == 0 {
        Seq::empty()
    } else {
        let rest = bloom_leaves(names.drop_last(), parquet_schema, arrow_schema);
        match found_leaf(parquet_schema, arrow_schema, names.last()) {
            Some(leaf) => rest.push((names.last(), leaf)),
            None => rest,
        }
    }
}

/// The names and leaf columns of a list of columns.
pub open spec fn bloom_models(columns: Seq<BloomColumn>) -> Seq<(Seq<char>, usize)> {
    columns.map_values(|column: BloomColumn| (column.name@, column.leaf))
}

/// The columns whose bloom filters a predicate can be held against: those that it
/// compares with constants and the file has.
pub fn bloom_columns(
    predicate: &PruningPredicate,
    parquet_schema: &SchemaDescriptor,
    arrow_schema: &Schema,
) -> (columns: Vec<BloomColumn>)
    ensures
        bloom_models(columns@) == bloom_leaves(
            literal_names(*predicate),
            *parquet_schema,
            *arrow_schema,
        ),
        forall|i: int|
            0 <= i < columns@.len() ==> (#[trigger] columns@[i]).leaf < leaf_count(*parquet_schema),
{
    find_bloom_columns(&literal_columns(predicate), parquet_schema, arrow_schema)
}

/// The columns of `names` that the file has.
pub fn find_bloom_columns(
    names: &Vec<String>,
    parquet_schema: &SchemaDescriptor,
    arrow_schema: &Schema,
) -> (columns: Vec<BloomColumn>)
    ensures
        bloom_models(columns@) == bloom_leaves(texts(names@), *parquet_schema, *arrow_schema),
        forall|i: int|
            0 <= i < columns@.len() ==> (#[trigger] columns@[i]).leaf < leaf_count(*parquet_schema),
{
    let ghost wanted = texts(names@);
    let mut columns: Vec<BloomColumn> = Vec::new();
    let mut n: usize = 0;
    proof {
        assert(wanted.take(0) =~= Seq::<Seq<char>>::empty());
        assert(bloom_models(columns@) =~= Seq::<(Seq<char>, usize)>::empty());
    }
    while n < names.len()
        invariant
            n <= names@.len(),
            wanted == texts(names@),
            bloom_models(columns@) == bloom_leaves(
                wanted.take(n as int),
                *parquet_schema,
                *arrow_schema,
            ),
            forall|i: int|
                0 <= i < columns@.len() ==> (#[trigger] columns@[i]).leaf < leaf_count(
                    *parquet_schema,
                ),
        decreases names@.len() - n,
    {
        let ghost earlier = columns@;
        proof {
            assert(wanted[n as int] == names@[n as int]@);
            assert(wanted.take(n + 1).drop_last() =~= wanted.take(n as int));
        }
        match find_leaf(parquet_schema, arrow_schema, names[n].as_str()) {
            Some(leaf) => {
                let column = BloomColumn { name: names[n].clone(), leaf };
                columns.push(column);
                proof {
                    assert(bloom_models(columns@) =~= bloom_models(earlier).push(
                        (wanted[n as int], leaf),
                    ));
                }
            },
            None => {},
        }
        n += 1;
    }
    proof {
        assert(wanted.take(n as int) =~= wanted);
    }
    columns
}

/// The bloom filters that are loaded: for each row group that is read one for each
/// of `columns` columns. A pair is a row group and the place of a column.
pub open spec fn bloom_reads(indexes: Seq<usize>, columns: nat) -> Seq<(usize, usize)>
    decreases indexes.len(),
{
    if indexes.len() == 0 {
        Seq::empty()
    } else {
        bloom_reads(indexes.drop_last(), columns) + Seq::new(
            columns,
            |c: int| (indexes.last(), c as usize),
        )
    }
}

/// The bloom filters to load, in order: none where they are not used.
pub fn plan_bloom_reads(
    row_groups: &RowGroupAccessPlanFilter,
    has_predicate: bool,
    options: PruningOptions,
    columns: &Vec<BloomColumn>,
) -> (reads: Vec<(usize, usize)>)
    ensures
        reads@ == if uses_bloom_filters(row_groups@, has_predicate, options) {
            bloom_reads(scanned(row_groups@.groups), columns@.len())
        } else {
            Seq::empty()
        },
{
    let mut reads: Vec<(usize, usize)> = Vec::new();
    if !has_predicate || !options.enable_bloom_filter || row_groups.is_empty() {
        return reads;
    }
    let indexes = row_groups.row_group_indexes();
    let mut k: usize = 0;
    proof {
        assert(indexes@.take(0) =~= Seq::<usize>::empty());
    }
    while k < indexes.len()
        invariant
            k <= indexes@.len(),
            reads@ == bloom_reads(indexes@.take(k as int), columns@.len()),
        decreases indexes@.len() - k,
    {
        let idx = indexes[k];
        let ghost earlier = reads@;
        let mut c: usize = 0;
        while c < columns.len()
            invariant
                c <= columns@.len(),
                reads@ =~= earlier + Seq::new(c as nat, |d: int| (idx, d as usize)),
            decreases columns@.len() - c,
        {
            reads.push((idx, c));
            c += 1;
        }
        proof {
            assert(indexes@.take(k + 1).drop_last() =~= indexes@.take(k as int));
        }
        k += 1;
    }
    proof {
        assert(indexes@.take(k as int) =~= indexes@);
    }
    reads
}

/// Holds the bloom filters that were loaded against the row groups, where they are
/// used. Without a predicate, or where they are not enabled, the plan stays as it
/// is. `evaluate` is that of [`RowGroupAccessPlanFilter::prune_by_bloom_filters`].
pub fn prune_bloom_filters<F>(
    row_groups: &mut RowGroupAccessPlanFilter,
    has_predicate: bool,
    options: PruningOptions,
    row_group_bloom_filters: &[BloomFilterStatistics],
    evaluate: &F,
) -> (metrics: BloomMetrics) where F: Fn(&BloomFilterStatistics) -> Option<Vec<bool>>
    requires
        row_group_bloom_filters@.len() == old(row_groups)@.groups.len(),
        uses_bloom_filters(old(row_groups)@, has_predicate, options) ==> {
            &&& forall|i: int|
                0 <= i < row_group_bloom_filters@.len() && !(old(row_groups)@.groups[i] is Skip)
                    ==> all_filled(#[trigger] row_group_bloom_filters@[i])
            &&& evaluates_filters(*evaluate)
        },
    ensures
        final(row_groups).wf(),
        if uses_bloom_filters(old(row_groups)@, has_predicate, options) {
            exists|verdicts: Seq<Option<bool>>| #[trigger]
                bloom_evaluated(
                    *evaluate,
                    old(row_groups)@,
                    row_group_bloom_filters@,
                    verdicts,
                ) && bloom_applied(old(row_groups)@, verdicts, final(row_groups)@, metrics)
        } else {
            &&& final(row_groups)@ == old(row_groups)@
            &&& metrics == (BloomMetrics { pruned: 0, matched: 0, evaluation_errors: 0 })
        },
{
    proof {
        use_type_invariant(&*row_groups);
    }
    if has_predicate && options.enable_bloom_filter && !row_groups.is_empty() {
        return row_groups.prune_by_bloom_filters(row_group_bloom_filters, evaluate);
    }
    BloomMetrics { pruned: 0, matched: 0, evaluation_errors: 0 }
}

/// The first plan reads what the user of a scan asks for: a plan of this library goes before
/// a list, a selection is read row by row, and without any of them everything is. A plan
/// and a selection together are refused, and so is what is not for this file.
pub proof fn law_the_first_plan_reads_what_is_asked_for(
    extensions: AccessExtensions,
    groups: Seq<RowGroupMetaData>,
    index: int,
    row: int,
)
    requires
        groups.len() <= usize::MAX,
        0 <= index < groups.len(),
        0 <= row < groups[index].num_rows,
        extensions.access_plan matches Some(plan) ==> plan.wf(),
    ensures
        ({
            let first = initial_plan(extensions, groups);
            let planned = extensions.access_plan is Some || extensions.external_plan is Some;
            &&& planned && extensions.row_selection is Some ==> first == Err::<
                PlanModel,
                PlanError,
            >(PlanError::ConflictingAccess)
            &&& !planned && extensions.row_selection is None ==> {
                &&& first is Ok
                &&& first->Ok_0.groups.len() == groups.len()
                &&& first->Ok_0.groups[index] is Scan
                &&& !first->Ok_0.fully_matched[index]
            }
            &&& !planned && extensions.row_selection is Some ==> {
                let mask = selection_mask(extensions.row_selection->0);
                &&& mask.len() == total_rows(groups) ==> {
                    &&& first is Ok
                    &&& first->Ok_0.groups.len() == groups.len()
                    &&& reads_row(first->Ok_0.groups[index], row) == mask[row_offset(groups, index)
                        + row]
                    &&& !first->Ok_0.fully_matched[index]
                }
                &&& mask.len() != total_rows(groups) ==> {
                    &&& first matches Err(PlanError::RowSelectionLength { file_rows, selection_rows })
                    &&& total_rows(groups) <= u128::MAX ==> file_rows == total_rows(groups)
                    &&& mask.len() <= u128::MAX ==> selection_rows == mask.len()
                }
            }
            &&& extensions.access_plan is Some && extensions.row_selection is None ==> {
                let plan = extensions.access_plan->0@;
                &&& plan.groups.len() == groups.len() ==> first == Ok::<PlanModel, PlanError>(plan)
                &&& plan.groups.len() != groups.len() ==> {
                    &&& first matches Err(PlanError::AccessPlanLength { plan_len, row_group_count })
                    &&& plan.groups.len() <= usize::MAX ==> plan_len == plan.groups.len()
                    &&& row_group_count == groups.len()
                }
            }
            &&& extensions.access_plan is None && extensions.external_plan is Some
                && extensions.row_selection is None ==> {
                let list = extensions.external_plan->0@;
                &&& list.len() == groups.len() ==> {
                    &&& first is Ok
                    &&& first->Ok_0.groups.len() == groups.len()
                    &&& first->Ok_0.groups[index] == list[index]@
                    &&& !first->Ok_0.fully_matched[index]
                }
                &&& list.len() != groups.len() ==> {
                    &&& first matches Err(PlanError::AccessPlanLength { plan_len, row_group_count })
                    &&& list.len() <= usize::MAX ==> plan_len == list.len()
                    &&& row_group_count == groups.len()
                }
            }
        }),
{
    if extensions.row_selection is Some {
        let mask = selection_mask(extensions.row_selection->0);
        if mask.len() == total_rows(groups) {
            law_split_reads_the_selection(mask, groups, index, row);
        }
    }
}

/// Without a range a plan stays as it is, and with one it reads what starts in it.
pub proof fn law_a_plan_keeps_to_its_range(
    plan: PlanModel,
    groups: Seq<RowGroupMetaData>,
    range: Option<FileRange>,
    index: int,
)
    requires
        plan.wf(),
        groups.len() == plan.groups.len(),
        0 <= index < groups.len(),
    ensures
        range is None ==> ranged(plan, groups, range) == plan,
        range matches Some(range) ==> {
            let first = groups[index].columns@[0];
            let offset = match first.dictionary_page_offset {
                Some(dictionary) => dictionary,
                None => first.data_page_offset,
            };
            let within = range.start <= offset && offset < range.end;
            let after = ranged(plan, groups, Some(range));
            &&& after.groups[index] == if within {
                plan.groups[index]
            } else {
                AccessModel::Skip
            }
            &&& after.fully_matched[index] == (within && plan.fully_matched[index])
        },
{
    match range {
        Some(range) => law_a_range_reads_what_starts_in_it(plan, groups, range, index),
        None => {},
    }
}

/// Loading the page index is found to be useful wherever a predicate on pages has a column
/// with both parts of the index in a row group that is read, and not every row group that
/// is read is fully matched. `n` is the place of the column, `leaf` where the file holds
/// it, `indexed` the row group with the index and `open` the one that is not fully matched.
pub proof fn law_a_page_index_that_can_help_is_loaded(
    plan: PlanModel,
    groups: Seq<RowGroupMetaData>,
    names: Seq<Seq<char>>,
    parquet_schema: SchemaDescriptor,
    arrow_schema: Schema,
    n: int,
    leaf: usize,
    indexed: int,
    open: int,
)
    requires
        plan.wf(),
        0 <= n < names.len(),
        found_leaf(parquet_schema, arrow_schema, names[n]) == Some(leaf),
        0 <= indexed < plan.groups.len(),
        !(plan.groups[indexed] is Skip),
        groups[indexed].columns@[leaf as int].column_index_offset is Some,
        groups[indexed].columns@[leaf as int].offset_index_offset is Some,
        0 <= open < plan.groups.len(),
        !(plan.groups[open] is Skip),
        !plan.fully_matched[open],
    ensures
        page_index_useful(plan, groups, Some(names), parquet_schema, arrow_schema),
{
    let list = scanned(plan.groups);
    lemma_scanned(plan.groups);
    assert(list.contains(open as usize));
    let k = choose|k: int| 0 <= k < list.len() && list[k] == open as usize;
    assert(!plan.fully_matched[list[k] as int]);
    assert(list.contains(indexed as usize));
    let j = choose|j: int| 0 <= j < list.len() && list[j] == indexed as usize;
    assert(groups[list[j] as int].columns@[leaf as int].has_page_index());
    assert(leaf_indexed(plan, groups, leaf));
    assert(found_leaf(parquet_schema, arrow_schema, names[n]) matches Some(found) && leaf_indexed(
        plan,
        groups,
        found,
    ));
}

/// Loading the page index is never found to be useful without predicates on pages, where
/// every row group that is read is fully matched, or where no column of the predicates has
/// both parts of an index in a row group that is read.
pub proof fn law_a_page_index_that_cannot_help_is_not_loaded(
    plan: PlanModel,
    groups: Seq<RowGroupMetaData>,
    page_columns: Option<Seq<Seq<char>>>,
    parquet_schema: SchemaDescriptor,
    arrow_schema: Schema,
)
    requires
        plan.wf(),
        page_columns is None || (forall|i: int|
            0 <= i < plan.groups.len() && !(plan.groups[i] is Skip)
                ==> #[trigger] plan.fully_matched[i]) || (forall|n: int, i: int|
            0 <= n < page_columns->0.len() && 0 <= i < plan.groups.len() && !(
            #[trigger] plan.groups[i] is Skip) && found_leaf(
                parquet_schema,
                arrow_schema,
                #[trigger] page_columns->0[n],
            ) is Some ==> {
                let chunk = groups[i].columns@[found_leaf(
                    parquet_schema,
                    arrow_schema,
                    page_columns->0[n],
                )->0 as int];
                chunk.column_index_offset is None || chunk.offset_index_offset is None
            }),
    ensures
        !page_index_useful(plan, groups, page_columns, parquet_schema, arrow_schema),
{
    lemma_scanned(plan.groups);
    let list = scanned(plan.groups);
    if page_index_useful(plan, groups, page_columns, parquet_schema, arrow_schema) {
        let names = page_columns->0;
        let n = choose|n: int|
            {
                &&& 0 <= n < names.len()
                &&& found_leaf(parquet_schema, arrow_schema, #[trigger] names[n]) matches Some(leaf)
                &&& leaf_indexed(plan, groups, leaf)
            };
        let leaf = found_leaf(parquet_schema, arrow_schema, names[n])->0;
        let k = choose|k: int|
            0 <= k < list.len() && groups[(#[trigger] list[k]) as int].columns@[leaf as int].has_page_index();
        assert(!(plan.groups[list[k] as int] is Skip));
        assert(!all_fully_matched(plan));
        let open = choose|open: int|
            0 <= open < list.len() && !plan.fully_matched[(#[trigger] list[open]) as int];
        assert(!(plan.groups[list[open] as int] is Skip));
    }
}

/// The columns whose bloom filters are loaded are those of the predicate that the file has,
/// each with the leaf column that holds it.
pub proof fn law_bloom_columns_are_found_in_the_file(
    names: Seq<Seq<char>>,
    parquet_schema: SchemaDescriptor,
    arrow_schema: Schema,
    name: Seq<char>,
    leaf: usize,
)
    ensures
        bloom_leaves(names, parquet_schema, arrow_schema).contains((name, leaf))
            <==> names.contains(name) && found_leaf(parquet_schema, arrow_schema, name) == Some(
            leaf,
        ),
    decreases names.len(),
{
    let list = bloom_leaves(names, parquet_schema, arrow_schema);
    if names.len() > 0 {
        let front = names.drop_last();
        let earlier = bloom_leaves(front, parquet_schema, arrow_schema);
        law_bloom_columns_are_found_in_the_file(front, parquet_schema, arrow_schema, name, leaf);
        if list.contains((name, leaf)) {
            let k = choose|k: int| 0 <= k < list.len() && list[k] == (name, leaf);
            if k < earlier.len() {
                assert(earlier[k] == (name, leaf));
                let m = choose|m: int| 0 <= m < front.len() && front[m] == name;
                assert(names[m] == name);
            } else {
                assert(names[names.len() - 1] == name);
            }
        }
        if names.contains(name) && found_leaf(parquet_schema, arrow_schema, name) == Some(leaf) {
            let m = choose|m: int| 0 <= m < names.len() && names[m] == name;
            if m < front.len() {
                assert(front[m] == name);
                let k = choose|k: int| 0 <= k < earlier.len() && earlier[k] == (name, leaf);
                assert(list[k] == (name, leaf));
            } else {
                assert(list[list.len() - 1] == (name, leaf));
            }
        }
    }
}

/// A bloom filter is loaded for each row group that is read and each of the columns, and no
/// other.
pub proof fn law_bloom_filters_are_loaded_of_what_is_read(
    indexes: Seq<usize>,
    columns: nat,
    row_group: usize,
    column: usize,
)
    requires
        columns <= usize::MAX,
    ensures
        bloom_reads(indexes, columns).contains((row_group, column)) <==> indexes.contains(row_group)
            && column < columns,
    decreases indexes.len(),
{
    let reads = bloom_reads(indexes, columns);
    if indexes.len() > 0 {
        let front = indexes.drop_last();
        let earlier = bloom_reads(front, columns);
        law_bloom_filters_are_loaded_of_what_is_read(front, columns, row_group, column);
        if reads.contains((row_group, column)) {
            let k = choose|k: int| 0 <= k < reads.len() && reads[k] == (row_group, column);
            if k < earlier.len() {
                assert(earlier[k] == (row_group, column));
                let m = choose|m: int| 0 <= m < front.len() && front[m] == row_group;
                assert(indexes[m] == row_group);
            } else {
                assert(indexes[indexes.len() - 1] == row_group);
            }
        }
        if indexes.contains(row_group) && column < columns {
            let m = choose|m: int| 0 <= m < indexes.len() && indexes[m] == row_group;
            if m < front.len() {
                assert(front[m] == row_group);
                let k = choose|k: int|
                    0 <= k < earlier.len() && earlier[k] == (row_group, column);
                assert(reads[k] == (row_group, column));
            } else {
                assert(reads[earlier.len() + column] == (row_group, column));
            }
        }
    }
}

/// Bloom filters are used only with a predicate, where they are enabled, and where there is
/// a row group.
pub proof fn law_bloom_filters_are_used_where_asked_for(
    plan: PlanModel,
    has_predicate: bool,
    options: PruningOptions,
)
    ensures
        uses_bloom_filters(plan, has_predicate, options) ==> has_predicate
            && options.enable_bloom_filter,
        has_predicate && options.enable_bloom_filter && plan.groups.len() > 0
            ==> uses_bloom_filters(plan, has_predicate, options),
        all_matched(plan.groups.len()).pruned == 0,
        all_matched(plan.groups.len()).fully_matched == 0,
        all_matched(plan.groups.len()).evaluation_errors == 0,
        plan.groups.len() <= usize::MAX ==> all_matched(plan.groups.len()).matched
            == plan.groups.len(),
{
}

/// It can be told whether loading the page index is useful wherever there are no predicates
/// on pages, every row group that is read is fully matched, or each of them has a column
/// chunk for every leaf column of the file, and nowhere else.
pub proof fn law_a_page_index_is_decided_where_chunks_are_there(
    plan: PlanModel,
    groups: Seq<RowGroupMetaData>,
    on_pages: bool,
    parquet_schema: SchemaDescriptor,
)
    requires
        plan.wf(),
    ensures
        page_index_decidable(plan, groups, on_pages, parquet_schema) <==> {
            ||| !on_pages
            ||| forall|i: int|
                0 <= i < plan.groups.len() && !(plan.groups[i] is Skip)
                    ==> #[trigger] plan.fully_matched[i]
            ||| forall|i: int|
                0 <= i < plan.groups.len() && !(#[trigger] plan.groups[i] is Skip)
                    ==> groups[i].columns@.len() >= leaf_count(parquet_schema)
        },
{
    let list = scanned(plan.groups);
    lemma_scanned(plan.groups);
    if all_fully_matched(plan) {
        assert forall|i: int| 0 <= i < plan.groups.len() && !(plan.groups[i] is Skip) implies
            #[trigger] plan.fully_matched[i] by {
            assert(list.contains(i as usize));
            let k = choose|k: int| 0 <= k < list.len() && list[k] == i as usize;
            assert(plan.fully_matched[list[k] as int]);
        }
    } else {
        let k = choose|k: int|
            0 <= k < list.len() && !plan.fully_matched[(#[trigger] list[k]) as int];
        assert(!(plan.groups[list[k] as int] is Skip));
    }
    if read_chunks_reach(plan, groups, leaf_count(parquet_schema)) {
        assert forall|i: int|
            0 <= i < plan.groups.len() && !(#[trigger] plan.groups[i] is Skip) implies
            groups[i].columns@.len() >= leaf_count(parquet_schema) by {
            assert(list.contains(i as usize));
            let k = choose|k: int| 0 <= k < list.len() && list[k] == i as usize;
            assert(groups[list[k] as int].columns@.len() >= leaf_count(parquet_schema));
        }
    } else {
        let k = choose|k: int|
            0 <= k < list.len() && groups[(#[trigger] list[k]) as int].columns@.len() < leaf_count(
                parquet_schema,
            );
        assert(!(plan.groups[list[k] as int] is Skip));
    }
}

/// The columns whose bloom filters are loaded stand in the order of the names, each as
/// often as it is named: `places` are those of the names that the file has.
pub proof fn law_bloom_columns_keep_their_order(
    names: Seq<Seq<char>>,
    parquet_schema: SchemaDescriptor,
    arrow_schema: Schema,
) -> (places: Seq<int>)
    ensures
        ({
            let list = bloom_leaves(names, parquet_schema, arrow_schema);
            &&& places.len() == list.len()
            &&& forall|k: int|
                0 <= k < list.len() ==> {
                    &&& 0 <= #[trigger] places[k] < names.len()
                    &&& list[k].0 == names[places[k]]
                    &&& found_leaf(parquet_schema, arrow_schema, names[places[k]]) == Some(
                        list[k].1,
                    )
                }
            &&& forall|j: int, k: int|
                0 <= j < k < places.len() ==> #[trigger] places[j] < #[trigger] places[k]
            &&& forall|n: int|
                0 <= n < names.len() && found_leaf(
                    parquet_schema,
                    arrow_schema,
                    #[trigger] names[n],
                ) is Some ==> places.contains(n)
        }),
    decreases names.len(),
{
    if names.len() == 0 {
        Seq::empty()
    } else {
        let front = names.drop_last();
        let last = names.len() - 1;
        let earlier = law_bloom_columns_keep_their_order(front, parquet_schema, arrow_schema);
        let found = found_leaf(parquet_schema, arrow_schema, names.last()) is Some;
        let places = if found {
            earlier.push(last)
        } else {
            earlier
        };
        assert forall|n: int|
            0 <= n < names.len() && found_leaf(
                parquet_schema,
                arrow_schema,
                #[trigger] names[n],
            ) is Some implies places.contains(n) by {
            if n < last {
                assert(front[n] == names[n]);
                assert(earlier.contains(n));
                let k = choose|k: int| 0 <= k < earlier.len() && earlier[k] == n;
                assert(places[k] == n);
            } else {
                assert(places[places.len() - 1] == n);
            }
        }
        assert forall|k: int| 0 <= k < places.len() implies {
            &&& 0 <= #[trigger] places[k] < names.len()
            &&& bloom_leaves(names, parquet_schema, arrow_schema)[k].0 == names[places[k]]
            &&& found_leaf(parquet_schema, arrow_schema, names[places[k]]) == Some(
                bloom_leaves(names, parquet_schema, arrow_schema)[k].1,
            )
        } by {
            if k < earlier.len() {
                assert(0 <= earlier[k] < front.len());
                assert(front[earlier[k]] == names[places[k]]);
            }
        }
        places
    }
}

/// Bloom filters are loaded one row group after the other, of each column by column, and
/// none twice.
pub proof fn law_bloom_filters_are_loaded_in_order(indexes: Seq<usize>, columns: nat)
    requires
        columns <= usize::MAX,
        forall|j: int, k: int| 0 <= j < k < indexes.len() ==> indexes[j] < indexes[k],
    ensures
        ({
            let reads = bloom_reads(indexes, columns);
            forall|j: int, k: int|
                0 <= j < k < reads.len() ==> {
                    ||| (#[trigger] reads[j]).0 < (#[trigger] reads[k]).0
                    ||| reads[j].0 == reads[k].0 && reads[j].1 < reads[k].1
                }
        }),
    decreases indexes.len(),
{
    let reads = bloom_reads(indexes, columns);
    if indexes.len() > 0 {
        let front = indexes.drop_last();
        let earlier = bloom_reads(front, columns);
        law_bloom_filters_are_loaded_in_order(front, columns);
        assert forall|j: int, k: int| 0 <= j < k < reads.len() implies {
            ||| (#[trigger] reads[j]).0 < (#[trigger] reads[k]).0
            ||| reads[j].0 == reads[k].0 && reads[j].1 < reads[k].1
        } by {
            if k < earlier.len() {
                assert(earlier[j] == reads[j] && earlier[k] == reads[k]);
            } else if j < earlier.len() {
                assert(earlier[j] == reads[j]);
                assert(earlier.contains(reads[j]));
                law_bloom_filters_are_loaded_of_what_is_read(
                    front,
                    columns,
                    reads[j].0,
                    reads[j].1,
                );
                assert(front.contains(reads[j].0));
                let m = choose|m: int| 0 <= m < front.len() && front[m] == reads[j].0;
                assert(indexes[m] < indexes[indexes.len() - 1]);
            }
        }
    }
}

} // verus!
