//! Which rows a decoder reads, and that they are those of the plan that it was built for.

use crate::access_plan::{reads_row, AccessModel};
use crate::decoder::decoder_settings;
use crate::decoder_config::{
    all_indexes, footer_of, footer_row_count, BuilderSettings, DecoderBuilderConfig, SelectionPolicy,
};
use crate::metadata::RowGroupMetaData;
use crate::prefetch::projection_leaves;
use crate::prepared::{all_covered, prepared_model, rows_at, PreparedModel};
use crate::push_decoder::rebuilt;
use crate::rows::{law_prepared_plans_read_as_planned, plan_reads, reads_at};
use crate::scan::prunes_while_running;
use parquet::arrow::arrow_reader::{ArrowReaderMetadata, RowFilter};
use parquet::arrow::push_decoder::ParquetPushDecoder;
use vstd::prelude::*;

verus! {

/// Whether the row at `row` of the row group at `index` is read, where the row groups at
/// `indexes` are read and a selection lies over their rows, one after the other.
pub open spec fn read_under(
    indexes: Seq<usize>,
    selection: Option<Seq<bool>>,
    groups: Seq<RowGroupMetaData>,
    index: int,
    row: int,
) -> bool {
    exists|place: int|
        {
            &&& 0 <= place < indexes.len()
            &&& #[trigger] indexes[place] == index
            &&& match selection {
                Some(mask) => mask[rows_at(indexes.take(place), groups) + row],
                None => true,
            }
        }
}

/// Whether a decoder that is set up in this way reads the row at `row` of the row group at
/// `index` of the file, as long as no limit stops it and no filter drops the row.
pub open spec fn settings_read(
    settings: BuilderSettings,
    groups: Seq<RowGroupMetaData>,
    index: int,
    row: int,
) -> bool {
    match settings.row_groups {
        Some(indexes) => read_under(indexes, settings.selection, groups, index, row),
        None => read_under(
            all_indexes(groups.len()),
            settings.selection,
            groups,
            index,
            row,
        ),
    }
}

/// A decoder reads exactly the rows of the plan that it is built for, in the order of its
/// row groups, whatever its limit, its batches, its projection and its filter are.
pub proof fn law_a_decoder_reads_the_rows_of_its_plan<'a>(
    config: DecoderBuilderConfig<'a>,
    plan: PreparedModel,
    metadata: ArrowReaderMetadata,
    row_filter: Option<RowFilter>,
    max_predicate_cache_size: Option<usize>,
    groups: Seq<RowGroupMetaData>,
    index: int,
    row: int,
)
    ensures
        ({
            let settings = config.settings(plan, metadata).filtered(
                row_filter,
                max_predicate_cache_size,
            );
            &&& settings_read(settings, groups, index, row) == plan_reads(plan, groups, index, row)
            &&& settings.row_groups == Some(plan.indexes)
            &&& settings.file == metadata
            &&& settings.buffers.len() == 0
        }),
{
    let settings = config.settings(plan, metadata).filtered(row_filter, max_predicate_cache_size);
    if settings_read(settings, groups, index, row) {
        let place = choose|place: int|
            {
                &&& 0 <= place < plan.indexes.len()
                &&& #[trigger] plan.indexes[place] == index
                &&& match plan.mask {
                    Some(mask) => mask[rows_at(plan.indexes.take(place), groups) + row],
                    None => true,
                }
            };
        assert(plan.indexes[place] == index && reads_at(plan, groups, place, row));
    }
    if plan_reads(plan, groups, index, row) {
        let place = choose|place: int|
            {
                &&& 0 <= place < plan.indexes.len()
                &&& #[trigger] plan.indexes[place] == index
                &&& reads_at(plan, groups, place, row)
            };
        assert(plan.indexes[place] == index);
    }
}

/// From the access to each row group to the decoder the rows stay the same: it reads a row
/// exactly where the access to its row group does.
pub proof fn law_a_decoder_reads_what_was_planned<'a>(
    config: DecoderBuilderConfig<'a>,
    accesses: Seq<AccessModel>,
    metadata: ArrowReaderMetadata,
    groups: Seq<RowGroupMetaData>,
    index: int,
    row: int,
)
    requires
        accesses.len() == groups.len(),
        groups.len() <= usize::MAX,
        all_covered(accesses, groups),
        0 <= index < groups.len(),
        0 <= row < groups[index].num_rows,
    ensures
        settings_read(
            config.settings(prepared_model(accesses, groups), metadata),
            groups,
            index,
            row,
        ) == match accesses[index] {
            AccessModel::Skip => false,
            AccessModel::Scan => true,
            AccessModel::Selection(mask) => mask[row],
        },
{
    let plan = prepared_model(accesses, groups);
    law_prepared_plans_read_as_planned(accesses, groups);
    law_a_decoder_reads_the_rows_of_its_plan(config, plan, metadata, None, None, groups, index, row);
    assert(plan_reads(plan, groups, index, row) == reads_row(accesses[index], row));
}

/// A decoder hands out batches of at most the size that is asked for, of the columns that
/// are asked for, and stops at the limit. It counts where it is told to. A selection is
/// applied by runs where that is asked for, and a filter is attached exactly where there
/// is one.
pub proof fn law_a_decoder_is_set_up_as_asked<'a>(
    config: DecoderBuilderConfig<'a>,
    plan: PreparedModel,
    metadata: ArrowReaderMetadata,
    row_filter: Option<RowFilter>,
    max_predicate_cache_size: Option<usize>,
)
    ensures
        ({
            let plain = config.settings(plan, metadata);
            let settings = plain.filtered(row_filter, max_predicate_cache_size);
            &&& settings.batch_size <= config.batch_size
            &&& settings.batch_size < config.batch_size ==> settings.batch_size
                == footer_row_count(footer_of(metadata))
            &&& settings.limit == config.decoder_limit
            &&& settings.leaves == projection_leaves(*config.projection_mask)
            &&& settings.metrics == *config.arrow_reader_metrics
            &&& config.force_filter_selections ==> settings.policy == SelectionPolicy::Selectors
            &&& !config.force_filter_selections ==> settings.policy is Auto
            &&& settings.filter == row_filter
            &&& row_filter is None ==> settings == plain
            &&& row_filter is Some && max_predicate_cache_size is Some
                ==> Some(settings.predicate_cache_size) == max_predicate_cache_size
            &&& max_predicate_cache_size is None ==> settings.predicate_cache_size
                == plain.predicate_cache_size
        }),
{
}

/// Row groups that are pruned while a scan runs take no row of the others with them: of
/// every row group that is left the decoder that is rebuilt reads exactly the rows that the
/// plan of the scan reads, and of the others none. So no decoder is rebuilt that has a
/// selection, which would then lie over the wrong rows.
pub proof fn law_pruning_while_running_keeps_the_rows_of_what_is_left<'a>(
    config: DecoderBuilderConfig<'a>,
    prepared: PreparedModel,
    metadata: ArrowReaderMetadata,
    row_filter: Option<RowFilter>,
    max_predicate_cache_size: Option<usize>,
    watching: bool,
    before: ParquetPushDecoder,
    left: Seq<usize>,
    pruned: int,
    after: ParquetPushDecoder,
    groups: Seq<RowGroupMetaData>,
    index: usize,
    row: int,
)
    requires
        prepared.wf(groups),
        prunes_while_running(prepared, watching),
        decoder_settings(before).selection == config.settings(prepared, metadata).filtered(
            row_filter,
            max_predicate_cache_size,
        ).selection,
        forall|k: int| 0 <= k < left.len() ==> prepared.indexes.contains(#[trigger] left[k]),
        pruned > 0,
        rebuilt(before, left, pruned, after),
        index < groups.len(),
        0 <= row < groups[index as int].num_rows,
    ensures
        left.contains(index) ==> settings_read(decoder_settings(after), groups, index as int, row)
            == plan_reads(prepared, groups, index as int, row),
        !left.contains(index) ==> !settings_read(
            decoder_settings(after),
            groups,
            index as int,
            row,
        ),
{
    let settings = decoder_settings(after);
    if left.contains(index) {
        let k = choose|k: int| 0 <= k < left.len() && left[k] == index;
        assert(prepared.indexes.contains(left[k]));
        let place = choose|place: int|
            0 <= place < prepared.indexes.len() && prepared.indexes[place] == left[k];
        assert(prepared.indexes[place] == index && reads_at(prepared, groups, place, row));
        assert(settings_read(settings, groups, index as int, row));
    } else if settings_read(settings, groups, index as int, row) {
        let k = choose|k: int| 0 <= k < left.len() && #[trigger] left[k] == index;
        assert(left.contains(left[k]));
    }
}

/// Row groups are pruned while a scan runs wherever that can be of use and the rows of the
/// others stay the same: the predicate may still change, and there is more than one row
/// group. Under a selection they never are.
pub proof fn law_only_scans_without_a_selection_prune_while_running(
    plan: PreparedModel,
    watching: bool,
)
    ensures
        plan.mask is Some ==> !prunes_while_running(plan, watching),
        plan.mask is None && plan.indexes.len() > 1 ==> prunes_while_running(plan, watching)
            == watching,
        plan.indexes.len() <= 1 ==> !prunes_while_running(plan, watching),
{
}

} // verus!
