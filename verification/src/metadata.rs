//! What the planner reads of a file's footer.

use vstd::prelude::*;

verus! {

/// Where one column chunk of a row group lies in the file.
#[derive(Debug, Clone, Copy)]
pub struct ColumnChunkMetaData {
    /// Offset of the dictionary page, where the chunk has one.
    pub dictionary_page_offset: Option<i64>,
    /// Offset of the first data page.
    pub data_page_offset: i64,
    /// Compressed length of the chunk in bytes.
    pub compressed_size: i64,
    /// Offset of the chunk's column index, where one was written.
    pub column_index_offset: Option<i64>,
    /// Offset of the chunk's offset index, where one was written.
    pub offset_index_offset: Option<i64>,
}

impl ColumnChunkMetaData {
    /// Offset of the chunk's first page: the dictionary page where there is
    /// one, else the first data page.
    pub open spec fn spec_first_page_offset(&self) -> i64 {
        match self.dictionary_page_offset {
            Some(offset) => offset,
            None => self.data_page_offset,
        }
    }

    /// Whether the chunk has both parts of a page index.
    pub open spec fn spec_has_page_index(&self) -> bool {
        self.column_index_offset is Some && self.offset_index_offset is Some
    }

    /// Offset of the chunk's first page.
    #[verifier::when_used_as_spec(spec_first_page_offset)]
    pub fn first_page_offset(&self) -> (offset: i64)
        ensures
            offset == self.spec_first_page_offset(),
    {
        match self.dictionary_page_offset {
            Some(offset) => offset,
            None => self.data_page_offset,
        }
    }

    /// Start and length of the chunk in the file.
    pub fn byte_range(&self) -> (range: (u64, u64))
        requires
            self.first_page_offset() >= 0,
            self.compressed_size >= 0,
        ensures
            range.0 == self.first_page_offset(),
            range.1 == self.compressed_size,
    {
        (self.first_page_offset() as u64, self.compressed_size as u64)
    }

    /// Whether the chunk has both parts of a page index.
    #[verifier::when_used_as_spec(spec_has_page_index)]
    pub fn has_page_index(&self) -> (has: bool)
        ensures
            has == self.spec_has_page_index(),
    {
        self.column_index_offset.is_some() && self.offset_index_offset.is_some()
    }
}

/// One row group of a file.
#[derive(Debug)]
pub struct RowGroupMetaData {
    /// Number of rows in the row group.
    pub num_rows: usize,
    /// The row group's column chunks, one for each leaf column of the file.
    pub columns: Vec<ColumnChunkMetaData>,
}

/// The number of rows in all of `groups`.
pub open spec fn total_rows(groups: Seq<RowGroupMetaData>) -> nat
    decreases groups.len(),
{
    if groups.len() == 0 {
        0
    } else {
        total_rows(groups.drop_last()) + groups.last().num_rows as nat
    }
}

/// The number of rows before the row group at `index`.
pub open spec fn row_offset(groups: Seq<RowGroupMetaData>, index: int) -> nat {
    total_rows(groups.take(index))
}

/// The rows before the next row group are those before this one and its own.
pub proof fn lemma_row_offset_step(groups: Seq<RowGroupMetaData>, index: int)
    requires
        0 <= index < groups.len(),
    ensures
        row_offset(groups, index + 1) == row_offset(groups, index) + groups[index].num_rows,
{
    assert(groups.take(index + 1).drop_last() =~= groups.take(index));
}

/// A row group lies within the rows of the file.
pub proof fn lemma_row_offset_bound(groups: Seq<RowGroupMetaData>, low: int, high: int)
    requires
        0 <= low <= high <= groups.len(),
    ensures
        row_offset(groups, low) <= row_offset(groups, high) <= total_rows(groups),
    decreases groups.len() - low,
{
    assert(groups.take(groups.len() as int) =~= groups);
    if low < high {
        lemma_row_offset_step(groups, low);
        lemma_row_offset_bound(groups, low + 1, high);
    } else if high < groups.len() {
        lemma_row_offset_step(groups, low);
        lemma_row_offset_bound(groups, low + 1, high + 1);
    }
}

/// A half-open range of byte offsets of a file.
#[derive(Debug, Clone, Copy)]
pub struct FileRange {
    /// First offset of the range.
    pub start: i64,
    /// First offset after the range.
    pub end: i64,
}

impl FileRange {
    /// Whether the range holds `offset`.
    pub open spec fn spec_contains(&self, offset: i64) -> bool {
        self.start <= offset < self.end
    }

    /// Whether the range holds `offset`.
    #[verifier::when_used_as_spec(spec_contains)]
    pub fn contains(&self, offset: i64) -> (held: bool)
        ensures
            held == self.spec_contains(offset),
    {
        self.start <= offset && offset < self.end
    }
}

/// The rows of the row groups follow one another: the first row group starts at the first
/// row of the file, each where the one before it ends, and the last ends with the file.
pub proof fn law_row_groups_follow_one_another(groups: Seq<RowGroupMetaData>, index: int)
    requires
        0 <= index < groups.len(),
    ensures
        row_offset(groups, 0) == 0,
        row_offset(groups, index + 1) == row_offset(groups, index) + groups[index].num_rows,
        row_offset(groups, groups.len() as int) == total_rows(groups),
        groups[index].num_rows <= total_rows(groups),
{
    lemma_row_offset_step(groups, index);
    lemma_row_offset_bound(groups, index + 1, groups.len() as int);
    assert(groups.take(groups.len() as int) =~= groups);
    assert(groups.take(0).len() == 0);
}

} // verus!
