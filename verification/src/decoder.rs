//! The Parquet reader's push decoder.
//!
//! What the scan knows of a decoder is what it has yet to do, which row group it
//! starts next, and whether it lies between two row groups.

use crate::decoder_config::{
    all_indexes, builder_settings, file_group_count, footer_group_rows, footer_of, BuilderSettings,
};
use bytes::Bytes;
use parquet::arrow::arrow_reader::ArrowReaderBuilder;
use parquet::arrow::push_decoder::{ParquetPushDecoder, PushDecoderInput};
use parquet::errors::ParquetError;
use std::ops::Range;
use vstd::prelude::*;

verus! {

/// The push decoder.
#[verifier::external_type_specification]
#[verifier::external_body]
pub struct ExParquetPushDecoder(ParquetPushDecoder);

/// A stretch of a file's bytes.
#[verifier::external_type_specification]
#[verifier::external_body]
pub struct ExBytes(Bytes);

/// An error of the Parquet reader.
#[verifier::external_type_specification]
#[verifier::external_body]
pub struct ExParquetError(ParquetError);

/// What a decoder has yet to do, as the settings of a builder for just that: the
/// row groups that it has not yet started, what is left of the selection and of the
/// limit, the bytes that it holds, and everything else as it was built.
pub uninterp spec fn decoder_settings(decoder: ParquetPushDecoder) -> BuilderSettings;

/// The row groups that a decoder has not yet started, in reading order.
pub open spec fn decoder_queue(decoder: ParquetPushDecoder) -> Seq<usize> {
    decoder_settings(decoder).row_groups->0
}

/// The number of row groups in the file of a decoder.
pub open spec fn decoder_group_count(decoder: ParquetPushDecoder) -> nat {
    file_group_count(decoder_settings(decoder).file)
}

/// Whether a decoder has finished: it reads nothing any more.
pub uninterp spec fn decoder_finished(decoder: ParquetPushDecoder) -> bool;

/// What `ParquetPushDecoder::is_at_row_group_boundary` returns.
pub uninterp spec fn decoder_at_boundary(decoder: ParquetPushDecoder) -> bool;

/// What `ParquetPushDecoder::peek_next_row_group` returns, `None` where it fails.
pub uninterp spec fn decoder_frontier(decoder: ParquetPushDecoder) -> Option<Option<usize>>;

/// The number of bytes in a stretch of a file.
pub uninterp spec fn bytes_len(bytes: Bytes) -> nat;

/// Whether every row group that a decoder has not yet started is in its file, or
/// it has finished.
pub open spec fn decoder_valid(decoder: ParquetPushDecoder) -> bool {
    decoder_finished(decoder) || forall|i: int|
        0 <= i < decoder_queue(decoder).len() ==> (#[trigger] decoder_queue(decoder)[i])
            < decoder_group_count(decoder)
}

/// Whether the footer gives every row group that a decoder has not yet started a number
/// of rows that there can be, or it has finished.
pub open spec fn rows_countable(decoder: ParquetPushDecoder) -> bool {
    decoder_finished(decoder) || forall|i: int|
        0 <= i < decoder_queue(decoder).len() ==> 0 <= footer_group_rows(
            footer_of(decoder_settings(decoder).file),
            #[trigger] decoder_queue(decoder)[i],
        ) <= usize::MAX
}

/// Whether `ranges` and `data` belong together: one stretch of bytes for each
/// range, of its length.
pub open spec fn ranges_match(ranges: Seq<Range<u64>>, data: Seq<Bytes>) -> bool {
    &&& ranges.len() == data.len()
    &&& forall|i: int|
        0 <= i < ranges.len() ==> (#[trigger] ranges[i]).end - ranges[i].start == bytes_len(data[i])
}

/// The settings with further stretches of the file, one for each range.
pub open spec fn with_bytes(
    settings: BuilderSettings,
    ranges: Seq<Range<u64>>,
    data: Seq<Bytes>,
) -> BuilderSettings {
    BuilderSettings { buffers: settings.buffers + ranges.zip_with(data), ..settings }
}

/// The length of a stretch of bytes, by `Bytes::len`.
#[verifier::external_body]
fn count_bytes(bytes: &Bytes) -> (len: usize)
    ensures
        len == bytes_len(*bytes),
{
    bytes.len()
}

/// Whether `ranges` and `data` belong together.
pub fn check_ranges(ranges: &Vec<Range<u64>>, data: &Vec<Bytes>) -> (matched: bool)
    ensures
        matched == ranges_match(ranges@, data@),
{
    if ranges.len() != data.len() {
        return false;
    }
    let mut i: usize = 0;
    while i < ranges.len()
        invariant
            i <= ranges.len(),
            ranges.len() == data.len(),
            forall|j: int|
                0 <= j < i ==> (#[trigger] ranges@[j]).end - ranges@[j].start == bytes_len(data@[j]),
        decreases ranges.len() - i,
    {
        let range = &ranges[i];
        let len = count_bytes(&data[i]) as u64;
        if range.end < range.start || range.end - range.start != len {
            assert(ranges@[i as int].end - ranges@[i as int].start != bytes_len(data@[i as int]));
            return false;
        }
        i += 1;
    }
    true
}

/// `ParquetPushDecoder::is_at_row_group_boundary`: whether the decoder lies between two
/// row groups. One that has finished does not.
#[verifier::external_body]
pub(crate) fn is_at_row_group_boundary(decoder: &ParquetPushDecoder) -> (at_boundary: bool)
    ensures
        at_boundary == decoder_at_boundary(*decoder),
        at_boundary ==> !decoder_finished(*decoder),
{
    decoder.is_at_row_group_boundary()
}

/// `ParquetPushDecoder::peek_next_row_group`: a row group that the decoder has
/// not yet started, or none where there is none left to read. It fails only on a row
/// group with a number of rows that there cannot be. It looks up the row groups in the
/// file's metadata and panics where one is not there; the precondition rules that out.
#[verifier::external_body]
pub(crate) fn peek_next_row_group(decoder: &ParquetPushDecoder) -> (next: Result<
    Option<usize>,
    ParquetError,
>)
    requires
        decoder_valid(*decoder),
    ensures
        match next {
            Ok(next) => {
                &&& decoder_frontier(*decoder) == Some(next)
                &&& next matches Some(row_group) ==> {
                    &&& decoder_queue(*decoder).contains(row_group)
                    &&& !decoder_finished(*decoder)
                }
            },
            Err(_) => decoder_frontier(*decoder) is None && !rows_countable(*decoder),
        },
{
    decoder.peek_next_row_group()
}

/// `ParquetPushDecoder::push_ranges`: it keeps the bytes until they are needed,
/// and fails on a decoder that has finished. It panics where ranges and bytes do
/// not belong together; the precondition rules that out.
#[verifier::external_body]
pub(crate) fn push_ranges(
    decoder: &mut ParquetPushDecoder,
    ranges: Vec<Range<u64>>,
    data: Vec<Bytes>,
) -> (pushed: Result<(), ParquetError>)
    requires
        ranges_match(ranges@, data@),
    ensures
        pushed is Err <==> decoder_finished(*old(decoder)),
        pushed is Ok ==> decoder_settings(*final(decoder)) == with_bytes(
            decoder_settings(*old(decoder)),
            ranges@,
            data@,
        ),
        pushed is Err ==> decoder_settings(*final(decoder)) == decoder_settings(*old(decoder)),
        decoder_finished(*final(decoder)) == decoder_finished(*old(decoder)),
        decoder_at_boundary(*final(decoder)) == decoder_at_boundary(*old(decoder)),
        decoder_frontier(*final(decoder)) == decoder_frontier(*old(decoder)),
{
    decoder.push_ranges(ranges, data)
}

/// `ParquetPushDecoder::clear_all_ranges`: it lets go of the bytes that it holds, and
/// of nothing else.
#[verifier::external_body]
pub(crate) fn clear_all_ranges(decoder: &mut ParquetPushDecoder)
    ensures
        decoder_settings(*final(decoder)) == (BuilderSettings {
            buffers: Seq::empty(),
            ..decoder_settings(*old(decoder))
        }),
        decoder_finished(*final(decoder)) == decoder_finished(*old(decoder)),
        decoder_at_boundary(*final(decoder)) == decoder_at_boundary(*old(decoder)),
        decoder_frontier(*final(decoder)) == decoder_frontier(*old(decoder)),
{
    decoder.clear_all_ranges()
}

/// `ParquetPushDecoder::into_builder`: a builder for what the decoder has yet to do,
/// which keeps all of its settings. It fails on a decoder that does not lie between
/// two row groups, and on no other.
#[verifier::external_body]
pub(crate) fn into_builder(decoder: ParquetPushDecoder) -> (builder: Result<
    ArrowReaderBuilder<PushDecoderInput>,
    ParquetError,
>)
    ensures
        match builder {
            Ok(builder) => {
                &&& decoder_at_boundary(decoder)
                &&& builder_settings(builder) == decoder_settings(decoder)
            },
            Err(_) => !decoder_at_boundary(decoder),
        },
{
    decoder.into_builder()
}

/// `ArrowReaderBuilder::build` for a push decoder: the decoder reads the row
/// groups that the builder was told to, or all of the file's. In this version it
/// does not fail.
#[verifier::external_body]
pub(crate) fn build_decoder(builder: ArrowReaderBuilder<PushDecoderInput>) -> (decoder: Result<
    ParquetPushDecoder,
    ParquetError,
>)
    ensures
        decoder matches Ok(decoder) && {
            &&& decoder_settings(decoder) == (BuilderSettings {
                row_groups: match builder_settings(builder).row_groups {
                    Some(row_groups) => Some(row_groups),
                    None => Some(all_indexes(file_group_count(builder_settings(builder).file))),
                },
                ..builder_settings(builder)
            })
            &&& decoder_at_boundary(decoder)
            &&& !decoder_finished(decoder)
        },
{
    builder.build()
}

} // verus!
