//! Setting up the scan of a file once its row groups are pruned.

use crate::access_plan::{lemma_scanned, scanned, AccessModel, ParquetAccessPlan, PlanModel};
use crate::decoder::{build_decoder, decoder_settings};
use crate::decoder_config::{attach_row_filter, lists_row_groups, DecoderBuilderConfig};
use crate::error::PlanError;
use crate::metadata::RowGroupMetaData;
use crate::prefetch::projection_fits;
use crate::prepared::{
    all_covered, lemma_rows_at_step, lemma_rows_at_within, prepare_fails, prepared_model, rows_at,
    PreparedAccessPlan, PreparedModel,
};
use crate::pruner::RowGroupPruner;
use crate::push_decoder::{plan_indexes, PushDecoderStreamState, RgPlanEntry, ScanStage};
use crate::row_group_filter::{
    flagged, law_limit_keeps_enough_rows, limit_kept, limit_satisfied, restricted, rows_in,
    RowGroupAccessPlanFilter,
};
use crate::rows::{
    law_prepared_plans_read_as_planned, law_reorder_reads_the_same_rows,
    law_reverse_reads_the_same_rows, reads_as_planned,
};
use crate::soundness::law_a_limit_keeps_just_enough;
use parquet::arrow::arrow_reader::{ArrowReaderMetadata, RowFilter};
use parquet::arrow::ProjectionMask;
use parquet::errors::ParquetError;
use std::collections::VecDeque;
use vstd::prelude::*;

verus! {

/// How a scan narrows and orders what it reads.
#[derive(Debug, Clone, Copy)]
pub struct ScanOptions {
    /// The number of rows that are asked for.
    pub limit: Option<usize>,
    /// Whether the rows keep their order.
    pub preserve_order: bool,
    /// Whether pages are pruned by the page index.
    pub enable_page_index: bool,
    /// Whether row groups are read from the last to the first.
    pub reverse_row_groups: bool,
}

/// What a scan reads.
#[derive(Debug)]
pub struct ScanPlan {
    /// The row groups and the rows of them.
    pub prepared: PreparedAccessPlan,
    /// Row groups that the limit made needless.
    pub limit_pruned: usize,
    /// Pages that were not looked at since their row group is fully matched.
    pub pages_skipped: usize,
}

/// The plan once the limit was applied: only where there is one and the order of
/// the rows does not matter.
pub open spec fn limited(
    plan: PlanModel,
    groups: Seq<RowGroupMetaData>,
    options: ScanOptions,
) -> PlanModel {
    match options.limit {
        Some(limit) => if !options.preserve_order && limit_satisfied(plan, groups, limit as nat) {
            restricted(plan, groups.len(), limit_kept(plan, groups, limit as nat))
        } else {
            plan
        },
        None => plan,
    }
}

/// Whether `after` reads no row group that `before` does not.
pub open spec fn narrows(before: Seq<AccessModel>, after: Seq<AccessModel>) -> bool {
    &&& after.len() == before.len()
    &&& forall|i: int|
        0 <= i < before.len() && before[i] is Skip ==> (#[trigger] after[i]) is Skip
}

/// A plan that reads no further row group reads no more rows.
proof fn lemma_narrows(
    before: Seq<AccessModel>,
    after: Seq<AccessModel>,
    groups: Seq<RowGroupMetaData>,
)
    requires
        before.len() <= usize::MAX,
        narrows(before, after),
    ensures
        rows_at(scanned(after), groups) <= rows_at(scanned(before), groups),
{
    lemma_scanned(before);
    lemma_scanned(after);
    assert forall|k: int| 0 <= k < scanned(after).len() implies scanned(before).contains(
        #[trigger] scanned(after)[k],
    ) by {
        assert(!(after[scanned(after)[k] as int] is Skip));
        assert(!(before[scanned(after)[k] as int] is Skip));
    }
    lemma_rows_at_within(scanned(after), scanned(before), groups);
}

/// The number of rows in the row groups that are read, `None` where they are more than
/// can be counted.
pub fn count_rows(row_groups: &RowGroupAccessPlanFilter, groups: &Vec<RowGroupMetaData>) -> (rows:
    Option<usize>)
    requires
        row_groups@.groups.len() == groups@.len(),
    ensures
        match rows {
            Some(rows) => rows == rows_at(scanned(row_groups@.groups), groups@),
            None => rows_at(scanned(row_groups@.groups), groups@) > usize::MAX,
        },
{
    let indexes = row_groups.row_group_indexes();
    let mut rows: usize = 0;
    let mut k: usize = 0;
    proof {
        use_type_invariant(row_groups);
        lemma_scanned(row_groups@.groups);
        assert(indexes@.take(0) =~= Seq::<usize>::empty());
    }
    while k < indexes.len()
        invariant
            k <= indexes@.len(),
            indexes@ == scanned(row_groups@.groups),
            forall|j: int| 0 <= j < indexes@.len() ==> (#[trigger] indexes@[j]) < groups@.len(),
            rows == rows_at(indexes@.take(k as int), groups@),
        decreases indexes@.len() - k,
    {
        proof {
            lemma_rows_at_step(indexes@, groups@, k as int);
        }
        match rows.checked_add(groups[indexes[k]].num_rows) {
            Some(more) => {
                rows = more;
            },
            None => {
                return None;
            },
        }
        k += 1;
    }
    proof {
        assert(indexes@.take(k as int) =~= indexes@);
    }
    Some(rows)
}

/// Whether `paged` and `skipped` are what comes of `plan` when its pages are pruned,
/// where they are.
pub open spec fn pages_pruned<F>(
    plan: PlanModel,
    enabled: bool,
    prune_pages: Option<F>,
    paged: PlanModel,
    skipped: int,
) -> bool where F: FnOnce(ParquetAccessPlan) -> (ParquetAccessPlan, usize) {
    match prune_pages {
        Some(prune_pages) if enabled && plan.groups.len() > 0 => exists|
            before: ParquetAccessPlan,
            after: ParquetAccessPlan,
            pages: usize,
        |
            {
                &&& before@ == plan
                &&& #[trigger] call_ensures(prune_pages, (before,), (after, pages))
                &&& paged == after@
                &&& skipped == pages
            },
        _ => paged == plan && skipped == 0,
    }
}

/// Whether `ordered` is what comes of `plan` when its row groups are ordered, where
/// they are.
pub open spec fn groups_ordered<O>(
    plan: PreparedModel,
    order: Option<O>,
    ordered: PreparedModel,
) -> bool where O: FnOnce(&Vec<usize>) -> Option<Vec<usize>> {
    match order {
        Some(order) if plan.mask is None && plan.indexes.len() > 1 => exists|
            indexes: &Vec<usize>,
            places: Option<Vec<usize>>,
        |
            {
                &&& indexes@ == plan.indexes
                &&& #[trigger] call_ensures(order, (indexes,), places)
                &&& ordered == plan.reordered(
                    match places {
                        Some(places) => Some(places@),
                        None => None,
                    },
                )
            },
        _ => ordered == plan,
    }
}

/// Plans a scan of the row groups that are left after pruning: limits them, prunes
/// their pages, and brings them into reading order.
///
/// `prune_pages` prunes the pages of a plan and counts those that it did not look
/// at. `order` gives the order in which row groups are best read, by their places
/// in a list of them, or `None` where nothing speaks for one.
///
/// Of what pruning leaves every row is read, in whatever order.
///
/// Fails where the selection of a row group does not cover exactly its rows.
pub fn plan_scan<F, O>(
    row_groups: RowGroupAccessPlanFilter,
    groups: &Vec<RowGroupMetaData>,
    options: ScanOptions,
    prune_pages: Option<F>,
    order: Option<O>,
) -> (plan: Result<ScanPlan, PlanError>) where
    F: FnOnce(ParquetAccessPlan) -> (ParquetAccessPlan, usize),
    O: FnOnce(&Vec<usize>) -> Option<Vec<usize>>,

    requires
        row_groups@.groups.len() == groups@.len(),
        rows_at(scanned(row_groups@.groups), groups@) <= usize::MAX,
        prune_pages matches Some(prune_pages) ==> {
            &&& forall|before: ParquetAccessPlan|
                before.wf() && before@.groups.len() == groups@.len() ==> #[trigger] call_requires(
                    prune_pages,
                    (before,),
                )
            &&& forall|before: ParquetAccessPlan, after: ParquetAccessPlan, pages: usize|
                #[trigger] call_ensures(prune_pages, (before,), (after, pages)) ==> narrows(
                    before@.groups,
                    after@.groups,
                )
        },
        order matches Some(order) ==> {
            &&& forall|indexes: &Vec<usize>|
                (forall|k: int|
                    0 <= k < indexes@.len() ==> (#[trigger] indexes@[k]) < groups@.len())
                    ==> #[trigger] call_requires(order, (indexes,))
            &&& forall|indexes: &Vec<usize>, places: Vec<usize>|
                #[trigger] call_ensures(order, (indexes,), Some(places)) ==> {
                    &&& places@.len() == indexes@.len()
                    &&& places@.no_duplicates()
                    &&& forall|k: int|
                        0 <= k < places@.len() ==> (#[trigger] places@[k]) < indexes@.len()
                }
        },
    ensures
        exists|paged: PlanModel, skipped: int|
            {
                &&& #[trigger] pages_pruned(
                    limited(row_groups@, groups@, options),
                    options.enable_page_index,
                    prune_pages,
                    paged,
                    skipped,
                )
                &&& match plan {
                    Err(error) => prepare_fails(paged.groups, groups@, error),
                    Ok(scan) => {
                        &&& all_covered(paged.groups, groups@)
                        &&& scan.prepared@.wf(groups@)
                        &&& rows_at(scan.prepared@.indexes, groups@) <= usize::MAX
                        &&& reads_as_planned(paged.groups, groups@, scan.prepared@)
                        &&& scan.pages_skipped == skipped
                        &&& scan.limit_pruned == needless(row_groups@, groups@, options)
                        &&& exists|ordered: PreparedModel|
                            {
                                &&& #[trigger] groups_ordered(
                                    prepared_model(paged.groups, groups@),
                                    order,
                                    ordered,
                                )
                                &&& scan.prepared@ == if options.reverse_row_groups {
                                    ordered.reversed(groups@)
                                } else {
                                    ordered
                                }
                            }
                    },
                }
            },
{
    proof {
        use_type_invariant(&row_groups);
    }
    let ghost whole = row_groups@;
    let mut row_groups = row_groups;
    let mut limit_pruned: usize = 0;
    match options.limit {
        Some(limit) => {
            if !options.preserve_order {
                proof {
                    if limit_satisfied(row_groups@, groups@, limit as nat) {
                        law_limit_keeps_enough_rows(row_groups@, groups@, limit as nat);
                    }
                }
                limit_pruned = row_groups.prune_by_limit(limit, groups.as_slice());
            }
        },
        None => {},
    }
    let mut access_plan = row_groups.build();
    let ghost narrowed = access_plan@;
    assert(narrowed == limited(whole, groups@, options));
    assert(limit_pruned == needless(whole, groups@, options));
    let mut pages_skipped: usize = 0;
    match prune_pages {
        Some(prune_pages) => {
            if options.enable_page_index && !access_plan.is_empty() {
                let (paged, pages) = prune_pages(access_plan);
                proof {
                    use_type_invariant(&paged);
                }
                access_plan = paged;
                pages_skipped = pages;
            }
        },
        None => {},
    }
    let ghost paged = access_plan@;
    proof {
        lemma_narrows(whole.groups, narrowed.groups, groups@);
        lemma_narrows(narrowed.groups, paged.groups, groups@);
    }
    assert(pages_pruned(
        narrowed,
        options.enable_page_index,
        prune_pages,
        paged,
        pages_skipped as int,
    ));
    let mut prepared = match access_plan.prepare(groups) {
        Ok(prepared) => prepared,
        Err(error) => {
            return Err(error);
        },
    };
    let ghost base = prepared@;
    proof {
        law_prepared_plans_read_as_planned(paged.groups, groups@);
    }
    match order {
        Some(order) => {
            if prepared.row_selection.is_none() && prepared.row_group_indexes.len() > 1 {
                let places = order(&prepared.row_group_indexes);
                proof {
                    if places is Some {
                        law_reorder_reads_the_same_rows(base, places->0@, groups@);
                    }
                }
                prepared = prepared.reorder(&places, groups);
            }
        },
        None => {},
    }
    let ghost ordered = prepared@;
    assert(groups_ordered(base, order, ordered));
    assert forall|k: int| 0 <= k < ordered.indexes.len() implies base.indexes.contains(
        #[trigger] ordered.indexes[k],
    ) by {
        if ordered == base {
            assert(base.indexes[k] == ordered.indexes[k]);
        }
    }
    if options.reverse_row_groups {
        proof {
            lemma_rows_at_within(ordered.indexes, base.indexes, groups@);
            law_reverse_reads_the_same_rows(ordered, groups@);
        }
        prepared = prepared.reverse(groups);
    }
    proof {
        assert forall|k: int| 0 <= k < prepared@.indexes.len() implies base.indexes.contains(
            #[trigger] prepared@.indexes[k],
        ) by {
            if options.reverse_row_groups {
                assert(prepared@.indexes[k] == ordered.indexes[ordered.indexes.len() - 1 - k]);
            }
        }
        lemma_rows_at_within(prepared@.indexes, base.indexes, groups@);
    }
    Ok(ScanPlan { prepared, limit_pruned, pages_skipped })
}

/// The number of row groups that a limit makes needless.
pub open spec fn needless(
    plan: PlanModel,
    groups: Seq<RowGroupMetaData>,
    options: ScanOptions,
) -> int {
    scanned(plan.groups).len() - scanned(
        limited(plan, groups, options).groups,
    ).len()
}

/// The row groups at `indexes` as a plan.
fn to_rg_plan(indexes: &Vec<usize>) -> (rg_plan: VecDeque<RgPlanEntry>)
    ensures
        plan_indexes(rg_plan@) == indexes@,
{
    let mut rg_plan: VecDeque<RgPlanEntry> = VecDeque::new();
    let mut i: usize = 0;
    while i < indexes.len()
        invariant
            i <= indexes@.len(),
            rg_plan@.len() == i,
            forall|j: int| 0 <= j < i ==> (#[trigger] rg_plan@[j]).rg_index == indexes@[j],
        decreases indexes@.len() - i,
    {
        rg_plan.push_back(RgPlanEntry { rg_index: indexes[i] });
        i += 1;
    }
    assert(plan_indexes(rg_plan@) =~= indexes@);
    rg_plan
}

/// Whether row groups are pruned while a scan runs: the predicate may still change,
/// there is more than one row group, and no selection, which a decoder that is
/// rebuilt for fewer row groups would apply to the wrong rows.
pub open spec fn prunes_while_running(plan: PreparedModel, watching: bool) -> bool {
    watching && plan.indexes.len() > 1 && plan.mask is None
}

/// Starts a scan of what `prepared` says: builds its decoder, with `row_filter`
/// where there is one, and plans its row groups in the order in which the decoder
/// reads them. `watching` says whether there is a predicate that may still change.
///
/// The decoder counts the rows of all these row groups together; they may not be more
/// than can be counted.
pub fn start_scan<P, R, T, M>(
    config: &DecoderBuilderConfig,
    prepared: PreparedAccessPlan,
    metadata: ArrowReaderMetadata,
    row_filter: Option<RowFilter>,
    max_predicate_cache_size: Option<usize>,
    groups: Vec<RowGroupMetaData>,
    projection: ProjectionMask,
    row_group_prefetch: Option<usize>,
    watching: bool,
) -> (state: Result<PushDecoderStreamState<P, R, T, M>, ParquetError>)
    requires
        prepared@.wf(groups@),
        lists_row_groups(metadata, groups@),
        rows_at(prepared@.indexes, groups@) <= usize::MAX,
        row_group_prefetch is Some ==> forall|i: int|
            0 <= i < prepared@.indexes.len() ==> projection_fits(
                groups@[(#[trigger] prepared@.indexes[i]) as int],
                projection,
            ),
    ensures
        state matches Ok(state) && {
            &&& state.wf()
            &&& state.stage == ScanStage::Boundary
            &&& state.plan() == prepared@.indexes
            &&& decoder_settings(state.decoder->0) == config.settings(prepared@, metadata).filtered(
                row_filter,
                max_predicate_cache_size,
            )
            &&& state.row_groups == groups
            &&& state.projection == projection
            &&& state.row_group_prefetch == row_group_prefetch
            &&& state.pending_prefetch is None
            &&& state.prefetch_reservation is None
            &&& state.row_group_pruner is Some ==> {
                &&& prepared.row_selection is None
                &&& decoder_settings(state.decoder->0).selection is None
            }
            &&& match state.row_group_pruner {
                Some(pruner) => {
                    &&& prunes_while_running(prepared@, watching)
                    &&& pruner.needs_initial_build
                },
                None => !prunes_while_running(prepared@, watching),
            }
        },
{
    let rg_plan = to_rg_plan(&prepared.row_group_indexes);
    let has_row_selection = prepared.row_selection.is_some();
    let row_group_pruner = if watching && rg_plan.len() > 1 && !has_row_selection {
        Some(RowGroupPruner::new())
    } else {
        None
    };
    proof {
        assert forall|i: int| 0 <= i < rg_plan@.len() implies (#[trigger] rg_plan@[i]).rg_index
            < groups@.len() by {
            assert(plan_indexes(rg_plan@)[i] == rg_plan@[i].rg_index);
            assert(prepared@.indexes[i] < groups@.len());
        }
        assert forall|i: int| 0 <= i < rg_plan@.len() && row_group_prefetch is Some implies
            projection_fits(groups@[(#[trigger] rg_plan@[i]).rg_index as int], projection) by {
            assert(plan_indexes(rg_plan@)[i] == rg_plan@[i].rg_index);
            assert(projection_fits(groups@[prepared@.indexes[i] as int], projection));
        }
    }
    let builder = attach_row_filter(
        config.build(prepared, metadata),
        row_filter,
        max_predicate_cache_size,
    );
    match build_decoder(builder) {
        Ok(decoder) => Ok(
            PushDecoderStreamState::new(
                decoder,
                rg_plan,
                groups,
                projection,
                row_group_prefetch,
                row_group_pruner,
            ),
        ),
        Err(error) => Err(error),
    }
}

/// A limit takes row groups away only where there is one and the order of the rows does not
/// matter, and then those that are needless. What is counted are the row groups that it
/// took away.
pub proof fn law_a_limit_applies_only_without_an_order(
    plan: PlanModel,
    groups: Seq<RowGroupMetaData>,
    options: ScanOptions,
)
    requires
        plan.wf(),
        groups.len() == plan.groups.len(),
    ensures
        options.preserve_order ==> limited(plan, groups, options) == plan,
        options.limit is None ==> limited(plan, groups, options) == plan,
        options.limit matches Some(limit) ==> {
            let enough = rows_in(plan, groups, flagged(plan.fully_matched)) >= limit;
            let left = limited(plan, groups, options);
            &&& !enough ==> left == plan
            &&& enough && !options.preserve_order ==> {
                &&& rows_in(plan, groups, scanned(left.groups)) >= limit
                &&& scanned(left.groups).len() > 1 ==> rows_in(
                    plan,
                    groups,
                    scanned(left.groups).drop_last(),
                ) < limit
                &&& forall|i: int|
                    0 <= i < plan.groups.len() && !(#[trigger] left.groups[i] is Skip)
                        ==> plan.fully_matched[i] && left.groups[i] == plan.groups[i]
            }
        },
        needless(plan, groups, options) + scanned(limited(plan, groups, options).groups).len()
            == scanned(plan.groups).len(),
{
    match options.limit {
        Some(limit) => law_a_limit_keeps_just_enough(plan, groups, limit as nat),
        None => {},
    }
}

/// Pages are pruned exactly where that is enabled, can be done and there is a row group;
/// row groups are ordered exactly where an order is known, there is more than one, and no
/// selection would lie over the wrong rows then.
pub proof fn law_pages_and_order_change_only_where_asked<F, O>(
    plan: PlanModel,
    enabled: bool,
    prune_pages: Option<F>,
    paged: PlanModel,
    skipped: int,
    prepared: PreparedModel,
    order: Option<O>,
    ordered: PreparedModel,
) where
    F: FnOnce(ParquetAccessPlan) -> (ParquetAccessPlan, usize),
    O: FnOnce(&Vec<usize>) -> Option<Vec<usize>>,

    requires
        pages_pruned(plan, enabled, prune_pages, paged, skipped),
        groups_ordered(prepared, order, ordered),
    ensures
        !enabled || prune_pages is None || plan.groups.len() == 0 ==> paged == plan && skipped == 0,
        enabled && prune_pages is Some && plan.groups.len() > 0 ==> exists|
            before: ParquetAccessPlan,
            after: ParquetAccessPlan,
            pages: usize,
        |
            before@ == plan && after@ == paged && pages == skipped && #[trigger] call_ensures(
                prune_pages->0,
                (before,),
                (after, pages),
            ),
        order is None || prepared.mask is Some || prepared.indexes.len() <= 1 ==> ordered
            == prepared,
        order is Some && prepared.mask is None && prepared.indexes.len() > 1 ==> exists|
            indexes: &Vec<usize>,
            places: Option<Vec<usize>>,
        |
            {
                &&& indexes@ == prepared.indexes
                &&& #[trigger] call_ensures(order->0, (indexes,), places)
                &&& places is None ==> ordered == prepared
                &&& places is Some ==> {
                    &&& ordered.indexes.len() == prepared.indexes.len()
                    &&& forall|k: int|
                        0 <= k < ordered.indexes.len() ==> #[trigger] ordered.indexes[k]
                            == prepared.indexes[places->0@[k] as int]
                }
            },
{
}

} // verus!
