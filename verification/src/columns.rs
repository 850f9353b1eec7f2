//! Finding the leaf columns of a file.

use arrow::datatypes::Schema;
use datafusion_pruning::PruningPredicate;
use parquet::arrow::parquet_column;
use parquet::schema::types::SchemaDescriptor;
use vstd::prelude::*;

verus! {

/// A predicate that is evaluated on statistics.
#[verifier::external_type_specification]
#[verifier::external_body]
pub struct ExPruningPredicate(PruningPredicate);

/// A file's Parquet schema.
#[verifier::external_type_specification]
#[verifier::external_body]
pub struct ExSchemaDescriptor(SchemaDescriptor);

/// An Arrow schema.
#[verifier::external_type_specification]
#[verifier::external_body]
pub struct ExSchema(Schema);

/// The number of leaf columns of a file.
pub uninterp spec fn leaf_count(parquet_schema: SchemaDescriptor) -> nat;

/// What `parquet_column` finds: the leaf column of the file that holds the column
/// `name` of the Arrow schema.
pub uninterp spec fn found_leaf(
    parquet_schema: SchemaDescriptor,
    arrow_schema: Schema,
    name: Seq<char>,
) -> Option<usize>;

/// What `PruningPredicate::literal_columns` returns: the columns that a predicate
/// compares with a set of constants.
pub uninterp spec fn literal_names(predicate: PruningPredicate) -> Seq<Seq<char>>;

/// The texts of a list of strings.
pub open spec fn texts(strings: Seq<String>) -> Seq<Seq<char>> {
    strings.map_values(|string: String| string@)
}

/// `SchemaDescriptor::num_columns`: the number of leaf columns.
#[verifier::external_body]
pub(crate) fn num_leaves(parquet_schema: &SchemaDescriptor) -> (count: usize)
    ensures
        count == leaf_count(*parquet_schema),
{
    parquet_schema.num_columns()
}

/// `parquet_column`, which finds nothing for a nested column or one that the file
/// does not have, and otherwise a leaf column of the file.
#[verifier::external_body]
pub(crate) fn find_leaf(
    parquet_schema: &SchemaDescriptor,
    arrow_schema: &Schema,
    name: &str,
) -> (leaf: Option<usize>)
    ensures
        leaf == found_leaf(*parquet_schema, *arrow_schema, name@),
        leaf matches Some(leaf) ==> leaf < leaf_count(*parquet_schema),
{
    parquet_column(parquet_schema, arrow_schema, name).map(|found| found.0)
}

/// `PruningPredicate::literal_columns`, which names no column twice.
#[verifier::external_body]
pub(crate) fn literal_columns(predicate: &PruningPredicate) -> (names: Vec<String>)
    ensures
        texts(names@) == literal_names(*predicate),
        texts(names@).no_duplicates(),
{
    predicate.literal_columns()
}

} // verus!
