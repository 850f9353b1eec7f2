//! The bloom filters of row groups, and holding a predicate against them.

use crate::columns::leaf_count;
use datafusion_datasource_parquet::BloomFilterStatistics;
use parquet::basic::Type;
use parquet::bloom_filter::Sbbf;
use parquet::schema::types::SchemaDescriptor;
use vstd::prelude::*;

verus! {

/// The bloom filters of one row group.
#[verifier::external_type_specification]
#[verifier::external_body]
pub struct ExBloomFilterStatistics(BloomFilterStatistics);

/// One bloom filter.
#[verifier::external_type_specification]
#[verifier::external_body]
pub struct ExSbbf(Sbbf);

/// The type in which a leaf column is stored.
#[verifier::external_type_specification]
#[verifier::external_body]
pub struct ExPhysicalType(Type);

/// The number of blocks of a bloom filter.
pub uninterp spec fn filter_blocks(filter: Sbbf) -> nat;

/// The number of blocks of the bloom filter of each column that has one.
pub uninterp spec fn column_blocks(filters: BloomFilterStatistics) -> Map<Seq<char>, nat>;

/// What `BloomFilterStatistics::insert` makes of the bloom filters of a row group.
pub uninterp spec fn filters_with(
    filters: BloomFilterStatistics,
    column: Seq<char>,
    filter: Sbbf,
    physical_type: Type,
    type_length: i32,
) -> BloomFilterStatistics;

/// The type in which the leaf column at `leaf` is stored.
pub uninterp spec fn leaf_type(parquet_schema: SchemaDescriptor, leaf: usize) -> Type;

/// The length of the values of the leaf column at `leaf`, where it is fixed.
pub uninterp spec fn leaf_length(parquet_schema: SchemaDescriptor, leaf: usize) -> i32;

/// Without a bloom filter for any column.
pub open spec fn no_blocks() -> Map<Seq<char>, nat> {
    Map::empty()
}

/// Whether every bloom filter of a row group has a block.
pub open spec fn all_filled(filters: BloomFilterStatistics) -> bool {
    forall|column: Seq<char>| #[trigger]
        column_blocks(filters).contains_key(column) ==> column_blocks(filters)[column] > 0
}

/// `Sbbf::num_blocks`: the number of blocks.
#[verifier::external_body]
fn num_blocks(filter: &Sbbf) -> (count: usize)
    ensures
        count == filter_blocks(*filter),
{
    filter.num_blocks()
}

/// `BloomFilterStatistics::new`: no bloom filters.
#[verifier::external_body]
fn new_filters() -> (filters: BloomFilterStatistics)
    ensures
        column_blocks(filters) == no_blocks(),
{
    BloomFilterStatistics::new()
}

/// `BloomFilterStatistics::insert`: the column has this bloom filter, in place of one
/// that it had.
#[verifier::external_body]
fn insert_filter(
    filters: &mut BloomFilterStatistics,
    column: &str,
    filter: Sbbf,
    physical_type: Type,
    type_length: i32,
)
    ensures
        *final(filters) == filters_with(
            *old(filters),
            column@,
            filter,
            physical_type,
            type_length,
        ),
        column_blocks(*final(filters)) == column_blocks(*old(filters)).insert(
            column@,
            filter_blocks(filter),
        ),
{
    filters.insert(column, filter, physical_type, type_length)
}

/// `ColumnDescriptor::physical_type` of a leaf column.
#[verifier::external_body]
fn physical_type(parquet_schema: &SchemaDescriptor, leaf: usize) -> (physical_type: Type)
    requires
        leaf < leaf_count(*parquet_schema),
    ensures
        physical_type == leaf_type(*parquet_schema, leaf),
{
    parquet_schema.column(leaf).physical_type()
}

/// `ColumnDescriptor::type_length` of a leaf column.
#[verifier::external_body]
fn type_length(parquet_schema: &SchemaDescriptor, leaf: usize) -> (length: i32)
    requires
        leaf < leaf_count(*parquet_schema),
    ensures
        length == leaf_length(*parquet_schema, leaf),
{
    parquet_schema.column(leaf).type_length()
}

/// No bloom filters for each of `count` row groups.
pub fn no_bloom_filters(count: usize) -> (filters: Vec<BloomFilterStatistics>)
    ensures
        filters@.len() == count,
        forall|i: int|
            0 <= i < count ==> column_blocks(#[trigger] filters@[i]) == no_blocks(),
{
    let mut filters: Vec<BloomFilterStatistics> = Vec::new();
    let mut i: usize = 0;
    while i < count
        invariant
            i <= count,
            filters@.len() == i,
            forall|j: int|
                0 <= j < i ==> column_blocks(#[trigger] filters@[j]) == no_blocks(),
        decreases count - i,
    {
        filters.push(new_filters());
        i += 1;
    }
    filters
}

/// Adds the bloom filter of the column `column`, which the file holds in the leaf
/// column at `leaf`. One without any block tells nothing of the column and is left
/// out. Returns whether it was added.
pub fn add_bloom_filter(
    filters: &mut BloomFilterStatistics,
    column: &str,
    leaf: usize,
    filter: Sbbf,
    parquet_schema: &SchemaDescriptor,
) -> (added: bool)
    requires
        leaf < leaf_count(*parquet_schema),
    ensures
        added == (filter_blocks(filter) > 0),
        *final(filters) == if added {
            filters_with(
                *old(filters),
                column@,
                filter,
                leaf_type(*parquet_schema, leaf),
                leaf_length(*parquet_schema, leaf),
            )
        } else {
            *old(filters)
        },
        column_blocks(*final(filters)) == if added {
            column_blocks(*old(filters)).insert(column@, filter_blocks(filter))
        } else {
            column_blocks(*old(filters))
        },
        all_filled(*old(filters)) ==> all_filled(*final(filters)),
{
    if num_blocks(&filter) == 0 {
        return false;
    }
    let stored = physical_type(parquet_schema, leaf);
    let length = type_length(parquet_schema, leaf);
    insert_filter(filters, column, filter, stored, length);
    true
}

/// Whether a row of a row group may match, going by what a predicate says of its bloom
/// filters, which are one container. `None` where they could not be evaluated.
pub open spec fn bloom_verdict(containers: Option<Seq<bool>>) -> Option<bool> {
    match containers {
        Some(containers) => Some(containers[0]),
        None => None,
    }
}

/// Whether a row of a row group may match, going by what a predicate says of its bloom
/// filters.
pub fn judge_bloom_filters(containers: &Option<Vec<bool>>) -> (verdict: Option<bool>)
    requires
        containers matches Some(containers) ==> containers@.len() > 0,
    ensures
        verdict == bloom_verdict(
            match *containers {
                Some(containers) => Some(containers@),
                None => None,
            },
        ),
{
    match containers {
        Some(containers) => Some(containers[0]),
        None => None,
    }
}

/// Whether `verdict` is what `evaluate` may say of the bloom filters of a row group.
pub open spec fn bloom_judged<F>(
    evaluate: F,
    filters: BloomFilterStatistics,
    verdict: Option<bool>,
) -> bool where F: Fn(&BloomFilterStatistics) -> Option<Vec<bool>> {
    exists|containers: Option<Vec<bool>>| #[trigger]
        call_ensures(evaluate, (&filters,), containers) && verdict == bloom_verdict(
            match containers {
                Some(containers) => Some(containers@),
                None => None,
            },
        )
}

} // verus!
