//! How a decoder is set up.

use crate::metadata::RowGroupMetaData;
use crate::prefetch::projection_leaves;
use crate::prepared::{PreparedAccessPlan, PreparedModel};
use crate::selection::selection_mask;
use bytes::Bytes;
use parquet::arrow::arrow_reader::metrics::ArrowReaderMetrics;
use parquet::arrow::arrow_reader::{
    ArrowReaderBuilder, ArrowReaderMetadata, RowFilter, RowSelection, RowSelectionPolicy,
};
use parquet::arrow::push_decoder::{ParquetPushDecoderBuilder, PushDecoderInput};
use parquet::arrow::ProjectionMask;
use parquet::file::metadata::ParquetMetaData;
use std::ops::Range;
use std::sync::Arc;
use vstd::prelude::*;

verus! {

/// The Parquet reader's builder.
#[verifier::external_type_specification]
#[verifier::external_body]
#[verifier::reject_recursive_types(T)]
pub struct ExArrowReaderBuilder<T>(ArrowReaderBuilder<T>);

/// What the builder of a push decoder reads from.
#[verifier::external_type_specification]
#[verifier::external_body]
pub struct ExPushDecoderInput(PushDecoderInput);

/// A file's metadata, as the Parquet reader takes it.
#[verifier::external_type_specification]
#[verifier::external_body]
pub struct ExArrowReaderMetadata(ArrowReaderMetadata);

/// The footer of a Parquet file.
#[verifier::external_type_specification]
#[verifier::external_body]
pub struct ExParquetMetaData(ParquetMetaData);

/// The Parquet reader's counters.
#[verifier::external_type_specification]
#[verifier::external_body]
pub struct ExArrowReaderMetrics(ArrowReaderMetrics);

/// Filters that are evaluated while rows are decoded.
#[verifier::external_type_specification]
#[verifier::external_body]
pub struct ExRowFilter(RowFilter);

/// How a selection is applied while rows are decoded.
#[derive(Debug, Clone, Copy, PartialEq, Eq, Structural)]
pub enum SelectionPolicy {
    /// By runs of rows.
    Selectors,
    /// By a flag for each row.
    Mask,
    /// By flags where runs are shorter than this on average, else by runs.
    Auto {
        /// The length.
        threshold: usize,
    },
}

/// What a builder is set to.
#[verifier::ext_equal]
pub struct BuilderSettings {
    /// The file.
    pub file: ArrowReaderMetadata,
    /// The row groups that are read. `None` where all are.
    pub row_groups: Option<Seq<usize>>,
    /// A flag for each leaf column, `true` where it is read. `None` where all are.
    pub leaves: Option<Seq<bool>>,
    /// The number of rows in a batch.
    pub batch_size: usize,
    /// The rows that are read of the row groups, laid end to end. `None` where all
    /// are.
    pub selection: Option<Seq<bool>>,
    /// How the selection is applied.
    pub policy: SelectionPolicy,
    /// The number of rows after which reading stops.
    pub limit: Option<usize>,
    /// The filters that are evaluated.
    pub filter: Option<RowFilter>,
    /// The size of the cache for what the filters have decoded, in bytes.
    pub predicate_cache_size: usize,
    /// Where the decoder counts what it does.
    pub metrics: ArrowReaderMetrics,
    /// The stretches of the file that are already there, in the order in which they
    /// came.
    pub buffers: Seq<(Range<u64>, Bytes)>,
}

impl BuilderSettings {
    /// The settings with `row_filter`, where there is one, and then also with the
    /// given size of its cache.
    pub open spec fn filtered(
        self,
        row_filter: Option<RowFilter>,
        max_predicate_cache_size: Option<usize>,
    ) -> BuilderSettings {
        match row_filter {
            None => self,
            Some(filter) => BuilderSettings {
                filter: Some(filter),
                predicate_cache_size: match max_predicate_cache_size {
                    Some(size) => size,
                    None => self.predicate_cache_size,
                },
                ..self
            },
        }
    }
}

/// What a builder is set to.
pub uninterp spec fn builder_settings(
    builder: ArrowReaderBuilder<PushDecoderInput>,
) -> BuilderSettings;

/// The footer of a file.
pub uninterp spec fn footer_of(metadata: ArrowReaderMetadata) -> ParquetMetaData;

/// The number of row groups that a footer lists.
pub uninterp spec fn footer_group_count(footer: ParquetMetaData) -> nat;

/// The number of rows that a footer gives for the row group at `index`.
pub uninterp spec fn footer_group_rows(footer: ParquetMetaData, index: usize) -> i64;

/// The number of rows that a footer gives.
pub uninterp spec fn footer_row_count(footer: ParquetMetaData) -> usize;

/// The number of row groups in a file.
pub open spec fn file_group_count(metadata: ArrowReaderMetadata) -> nat {
    footer_group_count(footer_of(metadata))
}

/// Whether `groups` lists the row groups of a file, with their numbers of rows.
pub open spec fn lists_row_groups(
    metadata: ArrowReaderMetadata,
    groups: Seq<RowGroupMetaData>,
) -> bool {
    &&& groups.len() == file_group_count(metadata)
    &&& forall|i: int|
        0 <= i < groups.len() ==> (#[trigger] groups[i]).num_rows == footer_group_rows(
            footer_of(metadata),
            i as usize,
        ) as usize
}

/// The number of rows in a file.
pub open spec fn file_row_count(metadata: ArrowReaderMetadata) -> usize {
    footer_row_count(footer_of(metadata))
}

/// `ArrowReaderMetadata::metadata`: the footer of the file.
#[verifier::external_body]
pub(crate) fn footer(metadata: &ArrowReaderMetadata) -> (footer: Arc<ParquetMetaData>)
    ensures
        *footer == footer_of(*metadata),
{
    Arc::clone(metadata.metadata())
}

/// All row groups of a file, in file order.
pub open spec fn all_indexes(group_count: nat) -> Seq<usize> {
    Seq::new(group_count, |i: int| i as usize)
}

/// What a builder is set to before anything is changed but where it counts.
pub open spec fn initial_settings(
    metadata: ArrowReaderMetadata,
    metrics: ArrowReaderMetrics,
) -> BuilderSettings {
    BuilderSettings {
        file: metadata,
        row_groups: None,
        leaves: None,
        batch_size: 1024,
        selection: None,
        policy: SelectionPolicy::Auto { threshold: 32 },
        limit: None,
        filter: None,
        predicate_cache_size: 104857600,
        metrics,
        buffers: Seq::empty(),
    }
}

/// `ParquetMetaData::num_row_groups`: the number of row groups that a footer lists.
#[verifier::external_body]
fn num_row_groups(footer: &ParquetMetaData) -> (count: usize)
    ensures
        count == footer_group_count(*footer),
{
    footer.num_row_groups()
}

/// `RowGroupMetaData::num_rows` of the row group that `ParquetMetaData::row_group` looks
/// up. It panics on a row group that the footer does not list; the precondition rules
/// that out.
#[verifier::external_body]
fn num_rows(footer: &ParquetMetaData, index: usize) -> (rows: i64)
    requires
        index < footer_group_count(*footer),
    ensures
        rows == footer_group_rows(*footer, index),
{
    footer.row_group(index).num_rows()
}

/// Whether `groups` lists the row groups of a file, with their numbers of rows.
pub fn has_row_groups(metadata: &ArrowReaderMetadata, groups: &Vec<RowGroupMetaData>) -> (same:
    bool)
    ensures
        same == lists_row_groups(*metadata, groups@),
{
    let footer = footer(metadata);
    if num_row_groups(&footer) != groups.len() {
        return false;
    }
    let mut i: usize = 0;
    while i < groups.len()
        invariant
            i <= groups@.len(),
            *footer == footer_of(*metadata),
            groups@.len() == footer_group_count(*footer),
            forall|j: int|
                0 <= j < i ==> (#[trigger] groups@[j]).num_rows == footer_group_rows(
                    *footer,
                    j as usize,
                ) as usize,
        decreases groups@.len() - i,
    {
        if num_rows(&footer, i) as usize != groups[i].num_rows {
            assert(groups@[i as int].num_rows != footer_group_rows(*footer, i) as usize);
            return false;
        }
        i += 1;
    }
    true
}

/// `ParquetPushDecoderBuilder::new_with_metadata`: a builder for the whole file,
/// with the Parquet reader's defaults. Where it counts is not stated.
#[verifier::external_body]
fn new_builder(metadata: ArrowReaderMetadata) -> (builder: ArrowReaderBuilder<PushDecoderInput>)
    ensures
        builder_settings(builder) == initial_settings(
            metadata,
            builder_settings(builder).metrics,
        ),
{
    ParquetPushDecoderBuilder::new_with_metadata(metadata)
}

/// `ArrowReaderBuilder::with_projection`, with a copy of `projection`: only its
/// leaf columns are read.
#[verifier::external_body]
fn with_projection(
    builder: ArrowReaderBuilder<PushDecoderInput>,
    projection: &ProjectionMask,
) -> (changed: ArrowReaderBuilder<PushDecoderInput>)
    ensures
        builder_settings(changed) == (BuilderSettings {
            leaves: projection_leaves(*projection),
            ..builder_settings(builder)
        }),
{
    builder.with_projection(projection.clone())
}

/// `ArrowReaderBuilder::with_batch_size`: batches have that many rows, and no more
/// than there are in the file.
#[verifier::external_body]
fn with_batch_size(builder: ArrowReaderBuilder<PushDecoderInput>, batch_size: usize) -> (changed:
    ArrowReaderBuilder<PushDecoderInput>)
    ensures
        builder_settings(changed) == (BuilderSettings {
            batch_size: if batch_size <= footer_row_count(
                footer_of(builder_settings(builder).file),
            ) {
                batch_size
            } else {
                footer_row_count(footer_of(builder_settings(builder).file))
            },
            ..builder_settings(builder)
        }),
{
    builder.with_batch_size(batch_size)
}

/// `ArrowReaderBuilder::with_metrics`, with a copy of `metrics`, which shares its
/// counters: the decoder counts there.
#[verifier::external_body]
fn with_metrics(
    builder: ArrowReaderBuilder<PushDecoderInput>,
    metrics: &ArrowReaderMetrics,
) -> (changed: ArrowReaderBuilder<PushDecoderInput>)
    ensures
        builder_settings(changed) == (BuilderSettings {
            metrics: *metrics,
            ..builder_settings(builder)
        }),
{
    builder.with_metrics(metrics.clone())
}

/// `ArrowReaderBuilder::with_row_selection_policy`: a selection is applied in this
/// way.
#[verifier::external_body]
fn with_row_selection_policy(
    builder: ArrowReaderBuilder<PushDecoderInput>,
    policy: SelectionPolicy,
) -> (changed: ArrowReaderBuilder<PushDecoderInput>)
    ensures
        builder_settings(changed) == (BuilderSettings { policy, ..builder_settings(builder) }),
{
    builder.with_row_selection_policy(
        match policy {
            SelectionPolicy::Selectors => RowSelectionPolicy::Selectors,
            SelectionPolicy::Mask => RowSelectionPolicy::Mask,
            SelectionPolicy::Auto { threshold } => RowSelectionPolicy::Auto { threshold },
        },
    )
}

/// `ArrowReaderBuilder::with_row_selection`: only the selected rows are read.
#[verifier::external_body]
fn with_row_selection(
    builder: ArrowReaderBuilder<PushDecoderInput>,
    selection: RowSelection,
) -> (changed: ArrowReaderBuilder<PushDecoderInput>)
    ensures
        builder_settings(changed) == (BuilderSettings {
            selection: Some(selection_mask(selection)),
            ..builder_settings(builder)
        }),
{
    builder.with_row_selection(selection)
}

/// `ArrowReaderBuilder::with_row_groups`: only these row groups are read, in this
/// order.
#[verifier::external_body]
pub(crate) fn with_row_groups(
    builder: ArrowReaderBuilder<PushDecoderInput>,
    row_groups: Vec<usize>,
) -> (changed: ArrowReaderBuilder<PushDecoderInput>)
    ensures
        builder_settings(changed) == (BuilderSettings {
            row_groups: Some(row_groups@),
            ..builder_settings(builder)
        }),
{
    builder.with_row_groups(row_groups)
}

/// `ArrowReaderBuilder::with_limit`: reading stops after that many rows.
#[verifier::external_body]
fn with_limit(builder: ArrowReaderBuilder<PushDecoderInput>, limit: usize) -> (changed:
    ArrowReaderBuilder<PushDecoderInput>)
    ensures
        builder_settings(changed) == (BuilderSettings {
            limit: Some(limit),
            ..builder_settings(builder)
        }),
{
    builder.with_limit(limit)
}

/// `ArrowReaderBuilder::with_row_filter`: rows are filtered while they are decoded.
#[verifier::external_body]
fn with_row_filter(builder: ArrowReaderBuilder<PushDecoderInput>, filter: RowFilter) -> (changed:
    ArrowReaderBuilder<PushDecoderInput>)
    ensures
        builder_settings(changed) == (BuilderSettings {
            filter: Some(filter),
            ..builder_settings(builder)
        }),
{
    builder.with_row_filter(filter)
}

/// `ArrowReaderBuilder::with_max_predicate_cache_size`: what filters have decoded is
/// kept up to this size.
#[verifier::external_body]
fn with_max_predicate_cache_size(
    builder: ArrowReaderBuilder<PushDecoderInput>,
    predicate_cache_size: usize,
) -> (changed: ArrowReaderBuilder<PushDecoderInput>)
    ensures
        builder_settings(changed) == (BuilderSettings {
            predicate_cache_size,
            ..builder_settings(builder)
        }),
{
    builder.with_max_predicate_cache_size(predicate_cache_size)
}

/// The options of the decoder for a file scan.
pub struct DecoderBuilderConfig<'a> {
    /// The leaf columns that are read.
    pub projection_mask: &'a ProjectionMask,
    /// The number of rows in a batch.
    pub batch_size: usize,
    /// Where the decoder counts what it does.
    pub arrow_reader_metrics: &'a ArrowReaderMetrics,
    /// Whether a selection is always applied by runs of rows.
    pub force_filter_selections: bool,
    /// The number of rows after which reading stops.
    pub decoder_limit: Option<usize>,
}

impl<'a> DecoderBuilderConfig<'a> {
    /// What a builder is set to for a prepared plan.
    pub open spec fn settings(
        &self,
        plan: PreparedModel,
        metadata: ArrowReaderMetadata,
    ) -> BuilderSettings {
        BuilderSettings {
            row_groups: Some(plan.indexes),
            leaves: projection_leaves(*self.projection_mask),
            batch_size: if self.batch_size <= file_row_count(metadata) {
                self.batch_size
            } else {
                file_row_count(metadata)
            },
            selection: plan.mask,
            policy: if self.force_filter_selections {
                SelectionPolicy::Selectors
            } else {
                initial_settings(metadata, *self.arrow_reader_metrics).policy
            },
            limit: self.decoder_limit,
            ..initial_settings(metadata, *self.arrow_reader_metrics)
        }
    }

    /// A builder for the row groups and rows of a prepared plan. Row filters are
    /// attached by [`attach_row_filter`].
    pub fn build(
        &self,
        prepared_access_plan: PreparedAccessPlan,
        metadata: ArrowReaderMetadata,
    ) -> (builder: ArrowReaderBuilder<PushDecoderInput>)
        ensures
            builder_settings(builder) == self.settings(prepared_access_plan@, metadata),
    {
        let mut builder = with_metrics(
            with_batch_size(
                with_projection(new_builder(metadata), self.projection_mask),
                self.batch_size,
            ),
            self.arrow_reader_metrics,
        );
        if self.force_filter_selections {
            builder = with_row_selection_policy(builder, SelectionPolicy::Selectors);
        }
        match prepared_access_plan.row_selection {
            Some(row_selection) => {
                builder = with_row_selection(builder, row_selection);
            },
            None => {},
        }
        builder = with_row_groups(builder, prepared_access_plan.row_group_indexes);
        match self.decoder_limit {
            Some(limit) => {
                builder = with_limit(builder, limit);
            },
            None => {},
        }
        builder
    }
}

/// Attaches `row_filter` to a builder, where there is one, and then also sets the
/// size of its cache, where one is given.
pub fn attach_row_filter(
    builder: ArrowReaderBuilder<PushDecoderInput>,
    row_filter: Option<RowFilter>,
    max_predicate_cache_size: Option<usize>,
) -> (changed: ArrowReaderBuilder<PushDecoderInput>)
    ensures
        builder_settings(changed) == builder_settings(builder).filtered(
            row_filter,
            max_predicate_cache_size,
        ),
{
    match row_filter {
        None => builder,
        Some(filter) => {
            let filtered = with_row_filter(builder, filter);
            match max_predicate_cache_size {
                Some(size) => with_max_predicate_cache_size(filtered, size),
                None => filtered,
            }
        },
    }
}

} // verus!
