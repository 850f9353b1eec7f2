//! Fitting a scan to the schema of a file.

use crate::decoder_config::{footer, footer_of};
use crate::virtual_columns::{
    append_fields, appended, clone_fields, fields_of, schema_fields, VirtualColumnsState,
};
use arrow::datatypes::{Field, Schema, TimeUnit};
use datafusion_datasource_parquet::{apply_file_schema_type_coercions, Int96Coercer};
use parquet::arrow::arrow_reader::{ArrowReaderMetadata, ArrowReaderOptions};
use parquet::errors::ParquetError;
use parquet::file::metadata::{PageIndexPolicy, ParquetMetaData};
use parquet::schema::types::SchemaDescriptor;
use std::sync::Arc;
use vstd::prelude::*;

verus! {

/// A unit of time.
#[verifier::external_type_specification]
#[verifier::external_body]
pub struct ExTimeUnit(TimeUnit);

/// The Parquet reader's options.
#[verifier::external_type_specification]
#[verifier::external_body]
pub struct ExArrowReaderOptions(ArrowReaderOptions);

/// What `apply_file_schema_type_coercions` makes of the schema of a file: the one
/// with the string and view types of the table, where it has any of them.
pub uninterp spec fn table_types(table: Schema, file: Schema) -> Option<Schema>;

/// What `Int96Coercer` makes of the schema of a file: the one in which timestamps
/// of the old format have the given unit and time zone, where it has any.
pub uninterp spec fn int96_types(
    parquet_schema: SchemaDescriptor,
    file: Schema,
    unit: TimeUnit,
    timezone: Option<Seq<char>>,
) -> Option<Schema>;

/// What `Schema::eq` says of two schemas.
pub uninterp spec fn schemas_equal(a: Schema, b: Schema) -> bool;

/// The Arrow schema that a file is read with.
pub uninterp spec fn metadata_schema(metadata: ArrowReaderMetadata) -> Schema;

/// The Parquet schema that a footer gives.
pub uninterp spec fn footer_descriptor(footer: ParquetMetaData) -> SchemaDescriptor;

/// The Parquet schema of a file.
pub open spec fn metadata_descriptor(metadata: ArrowReaderMetadata) -> SchemaDescriptor {
    footer_descriptor(footer_of(metadata))
}

/// Whether the reader has made an Arrow schema of a Parquet schema: it can do so again.
pub uninterp spec fn read_before(parquet_schema: SchemaDescriptor) -> bool;

/// Whether the root of a Parquet schema is optional or repeated.
pub uninterp spec fn optional_root(parquet_schema: SchemaDescriptor) -> bool;

/// The Arrow schema that the reader is told to use.
pub uninterp spec fn options_schema(options: ArrowReaderOptions) -> Option<Schema>;

/// Whether a part of the page index of a file is read.
#[derive(Debug, Clone, Copy, PartialEq, Eq, Structural)]
pub enum IndexPolicy {
    /// It is not.
    Skip,
    /// It is, where there is one.
    Optional,
    /// It is, and there must be one.
    Required,
}

/// Whether the reader is told to read the page index: its column index, and its
/// offset index.
pub uninterp spec fn options_index(options: ArrowReaderOptions) -> (IndexPolicy, IndexPolicy);

/// The virtual columns that the reader is told to make up.
pub uninterp spec fn options_virtual(options: ArrowReaderOptions) -> Seq<Field>;

/// What `ArrowReaderOptions::with_schema` makes of options.
pub uninterp spec fn options_with_schema(
    options: ArrowReaderOptions,
    schema: Schema,
) -> ArrowReaderOptions;

/// What `ArrowReaderOptions::with_page_index_policy` makes of options.
pub uninterp spec fn options_with_index(
    options: ArrowReaderOptions,
    policy: IndexPolicy,
) -> ArrowReaderOptions;

/// What `ArrowReaderOptions::with_virtual_columns` makes of options, `None` where it
/// fails.
pub uninterp spec fn options_with_virtual(
    options: ArrowReaderOptions,
    virtual_columns: Seq<Field>,
) -> Option<ArrowReaderOptions>;

/// Whether the extension type of a column is one of a virtual column.
pub uninterp spec fn is_reader_virtual(field: Field) -> bool;

/// What `ArrowReaderMetadata::try_new` makes of a footer and options, `None` where it
/// fails.
pub uninterp spec fn metadata_with(
    footer: ParquetMetaData,
    options: ArrowReaderOptions,
) -> Option<ArrowReaderMetadata>;

/// The text of a time zone.
pub open spec fn timezone_text(timezone: Option<String>) -> Option<Seq<char>> {
    match timezone {
        Some(timezone) => Some(timezone@),
        None => None,
    }
}

/// `apply_file_schema_type_coercions`: what it gives goes by the two schemas alone.
#[verifier::external_body]
fn to_table_types(table: &Schema, file: &Schema) -> (coerced: Option<Schema>)
    ensures
        coerced == table_types(*table, *file),
{
    apply_file_schema_type_coercions(table, file)
}

/// `Int96Coercer::coerce`, with `Int96Coercer::with_timezone`: what it gives goes by
/// the two schemas, the unit and the time zone alone.
#[verifier::external_body]
fn to_int96_types(
    parquet_schema: &SchemaDescriptor,
    file: &Schema,
    unit: &TimeUnit,
    timezone: &Option<String>,
) -> (coerced: Option<Schema>)
    ensures
        coerced == int96_types(*parquet_schema, *file, *unit, timezone_text(*timezone)),
{
    Int96Coercer::new(parquet_schema, file, unit)
        .with_timezone(timezone.as_ref().map(|timezone| Arc::from(timezone.as_str())))
        .coerce()
}

/// `Schema::eq`: it goes by the two schemas alone.
#[verifier::external_body]
fn equal_schemas(a: &Schema, b: &Schema) -> (equal: bool)
    ensures
        equal == schemas_equal(*a, *b),
{
    a == b
}

/// `ArrowReaderMetadata::schema`: the Arrow schema that belongs to the metadata.
#[verifier::external_body]
fn reader_schema(metadata: &ArrowReaderMetadata) -> (schema: Arc<Schema>)
    ensures
        *schema == metadata_schema(*metadata),
{
    Arc::clone(metadata.schema())
}

/// `ArrowReaderMetadata::parquet_schema`: the Parquet schema of the footer, of which the
/// Arrow schema of the metadata was made.
#[verifier::external_body]
fn reader_descriptor(metadata: &ArrowReaderMetadata) -> (parquet_schema: &SchemaDescriptor)
    ensures
        *parquet_schema == footer_descriptor(footer_of(*metadata)),
        read_before(*parquet_schema),
{
    metadata.parquet_schema()
}

/// `Type::is_optional` of the root of a Parquet schema: whether it is optional or
/// repeated.
#[verifier::external_body]
fn is_root_optional(parquet_schema: &SchemaDescriptor) -> (optional: bool)
    ensures
        optional == optional_root(*parquet_schema),
{
    parquet_schema.root_schema().is_optional()
}

/// `FileMetaData::schema_descr` of a footer: its Parquet schema.
#[verifier::external_body]
fn descriptor_of(footer: &ParquetMetaData) -> (parquet_schema: &SchemaDescriptor)
    ensures
        *parquet_schema == footer_descriptor(*footer),
{
    footer.file_metadata().schema_descr()
}

/// `SchemaDescriptor::eq`: whether two Parquet schemas are the same in all their parts.
#[verifier::external_body]
fn equal_descriptors(a: &SchemaDescriptor, b: &SchemaDescriptor) -> (equal: bool)
    ensures
        equal == (*a == *b),
{
    a == b
}

/// Whether a footer has the Parquet schema of a file.
pub fn has_schema_of(metadata: &ArrowReaderMetadata, footer: &ParquetMetaData) -> (has: bool)
    ensures
        has == (footer_descriptor(*footer) == metadata_descriptor(*metadata)),
{
    equal_descriptors(descriptor_of(footer), reader_descriptor(metadata))
}

/// Whether a file can be read with virtual columns: these are made up beside the
/// columns of the root, which must be there in every row.
pub fn takes_virtual_columns(metadata: &ArrowReaderMetadata) -> (takes: bool)
    ensures
        takes == !optional_root(metadata_descriptor(*metadata)),
{
    !is_root_optional(reader_descriptor(metadata))
}

/// `ArrowReaderOptions::with_schema`: the reader uses this Arrow schema in place of
/// any other. The virtual columns stay.
#[verifier::external_body]
fn with_schema(options: ArrowReaderOptions, schema: Arc<Schema>) -> (changed: ArrowReaderOptions)
    ensures
        changed == options_with_schema(options, *schema),
        options_schema(changed) == Some(*schema),
        options_virtual(changed) == options_virtual(options),
        options_index(changed) == options_index(options),
{
    options.with_schema(schema)
}

/// `ArrowReaderOptions::new`: the reader uses the file's own schema, makes up no
/// column and does not read the page index.
#[verifier::external_body]
fn new_options() -> (options: ArrowReaderOptions)
    ensures
        options_schema(options) is None,
        options_virtual(options) == Seq::<Field>::empty(),
        options_index(options) == (IndexPolicy::Skip, IndexPolicy::Skip),
{
    ArrowReaderOptions::new()
}

/// `ArrowReaderOptions::with_page_index_policy`: both parts of the page index are read
/// by this policy. The Arrow schema and the virtual columns stay.
#[verifier::external_body]
fn with_page_index_policy(options: ArrowReaderOptions, policy: IndexPolicy) -> (changed:
    ArrowReaderOptions)
    ensures
        changed == options_with_index(options, policy),
        options_index(changed) == (policy, policy),
        options_schema(changed) == options_schema(options),
        options_virtual(changed) == options_virtual(options),
{
    options.with_page_index_policy(
        match policy {
            IndexPolicy::Skip => PageIndexPolicy::Skip,
            IndexPolicy::Optional => PageIndexPolicy::Optional,
            IndexPolicy::Required => PageIndexPolicy::Required,
        },
    )
}

/// `ArrowReaderOptions::with_virtual_columns`: the reader makes up these columns in
/// place of any others. The Arrow schema stays. It fails where one is not a virtual
/// column, and only then.
#[verifier::external_body]
fn with_virtual_columns(options: ArrowReaderOptions, virtual_columns: Vec<Arc<Field>>) -> (changed:
    Result<ArrowReaderOptions, ParquetError>)
    ensures
        match changed {
            Ok(changed) => {
                &&& options_with_virtual(options, fields_of(virtual_columns@)) == Some(changed)
                &&& forall|i: int|
                    0 <= i < fields_of(virtual_columns@).len() ==> is_reader_virtual(
                        #[trigger] fields_of(virtual_columns@)[i],
                    )
                &&& options_virtual(changed) == fields_of(virtual_columns@)
                &&& options_schema(changed) == options_schema(options)
                &&& options_index(changed) == options_index(options)
            },
            Err(_) => {
                &&& options_with_virtual(options, fields_of(virtual_columns@)) is None
                &&& exists|i: int|
                    0 <= i < fields_of(virtual_columns@).len() && !is_reader_virtual(
                        #[trigger] fields_of(virtual_columns@)[i],
                    )
            },
        },
{
    options.with_virtual_columns(virtual_columns)
}

/// `ArrowReaderMetadata::try_new`: a file's metadata with that footer. What it gives,
/// and whether it fails, goes by the footer and the options alone. Without virtual
/// columns the file is read with the schema of the options.
///
/// Without a schema in the options it decodes the one that the file embeds, and panics
/// on some that are malformed. It also panics on some Parquet schemas that no Arrow
/// schema can be made of, and on virtual columns where the root of the file is not
/// required. The preconditions rule these out.
#[verifier::external_body]
fn new_metadata(footer: Arc<ParquetMetaData>, options: ArrowReaderOptions) -> (made: Result<
    ArrowReaderMetadata,
    ParquetError,
>)
    requires
        options_schema(options) is Some,
        read_before(footer_descriptor(*footer)),
        options_virtual(options).len() > 0 ==> !optional_root(footer_descriptor(*footer)),
    ensures
        match made {
            Ok(made) => {
                &&& metadata_with(*footer, options) == Some(made)
                &&& footer_of(made) == *footer
                &&& options_virtual(options).len() == 0 ==> Some(metadata_schema(made))
                    == options_schema(options)
            },
            Err(_) => metadata_with(*footer, options) is None,
        },
{
    ArrowReaderMetadata::try_new(footer, options)
}

/// `ArrowReaderOptions::clone`: the same options.
#[verifier::external_body]
fn clone_options(options: &ArrowReaderOptions) -> (copy: ArrowReaderOptions)
    ensures
        copy == *options,
{
    options.clone()
}

/// The schemas between which expressions are rewritten.
pub struct RewriteSchemas {
    /// The schema that they refer to.
    pub logical: Arc<Schema>,
    /// The schema that they are to refer to.
    pub physical: Arc<Schema>,
}

/// How a scan is fitted to a file.
pub struct FittedScan {
    /// The file's metadata.
    pub reader_metadata: ArrowReaderMetadata,
    /// The reader's options.
    pub options: ArrowReaderOptions,
    /// The schema of the file's columns as they are read.
    pub physical_file_schema: Arc<Schema>,
    /// Whether the options give a schema to read the file with, and no virtual columns.
    pub schema_given: bool,
    /// Between which schemas the predicate and the projection are rewritten. `None`
    /// where they fit as they are.
    pub rewrite: Option<RewriteSchemas>,
}

/// Whether the metadata that is made of a footer is that of the same file.
pub open spec fn keeps_footers<F>(rebuild: F) -> bool where
    F: FnOnce(Arc<ParquetMetaData>, ArrowReaderOptions) -> Result<
        ArrowReaderMetadata,
        ParquetError,
    >,
 {
    &&& forall|footer: Arc<ParquetMetaData>, options: ArrowReaderOptions| #[trigger]
        call_requires(rebuild, (footer, options))
    &&& forall|
        footer: Arc<ParquetMetaData>,
        options: ArrowReaderOptions,
        made: ArrowReaderMetadata,
    | #[trigger]
        call_ensures(rebuild, (footer, options), Ok(made)) ==> footer_of(made) == *footer
}

/// Whether `made` is what comes of making the metadata of a file anew: what the reader
/// gives where the options give a schema, and else what `rebuild` may.
pub open spec fn remade<F>(
    rebuild: F,
    footer: ParquetMetaData,
    options: ArrowReaderOptions,
    schema_given: bool,
    made: Result<ArrowReaderMetadata, ParquetError>,
) -> bool where
    F: FnOnce(Arc<ParquetMetaData>, ArrowReaderOptions) -> Result<
        ArrowReaderMetadata,
        ParquetError,
    >,
 {
    if schema_given {
        match metadata_with(footer, options) {
            Some(metadata) => made == Ok::<ArrowReaderMetadata, ParquetError>(metadata),
            None => made is Err,
        }
    } else {
        exists|shared: Arc<ParquetMetaData>| *shared == footer && #[trigger] call_ensures(
            rebuild,
            (shared, options),
            made,
        )
    }
}

/// Whether `made` is the metadata with which a file is read: it is made anew where its
/// columns are read with another schema or there are virtual columns.
pub open spec fn fits_file<F>(
    rebuild: F,
    table: Schema,
    metadata: ArrowReaderMetadata,
    int96: Int96Options,
    virtual_state: Option<&VirtualColumnsState>,
    options: ArrowReaderOptions,
    made: Result<ArrowReaderMetadata, ParquetError>,
) -> bool where
    F: FnOnce(Arc<ParquetMetaData>, ArrowReaderOptions) -> Result<
        ArrowReaderMetadata,
        ParquetError,
    >,
 {
    let coerced = schema_coerced(table, metadata, int96);
    if coerced || virtual_state is Some {
        remade(
            rebuild,
            footer_of(metadata),
            options,
            coerced && virtual_state is None,
            made,
        )
    } else {
        made == Ok::<ArrowReaderMetadata, ParquetError>(metadata)
    }
}

/// Makes the metadata of a file anew, by `rebuild` where the options may give no schema:
/// the reader would decode the one that the file embeds, and is not known to answer.
fn remake<F>(
    footer: Arc<ParquetMetaData>,
    options: ArrowReaderOptions,
    schema_given: bool,
    rebuild: F,
) -> (made: Result<ArrowReaderMetadata, ParquetError>) where
    F: FnOnce(Arc<ParquetMetaData>, ArrowReaderOptions) -> Result<
        ArrowReaderMetadata,
        ParquetError,
    >,

    requires
        keeps_footers(rebuild),
        schema_given ==> {
            &&& options_schema(options) is Some
            &&& read_before(footer_descriptor(*footer))
            &&& options_virtual(options).len() > 0 ==> !optional_root(footer_descriptor(*footer))
        },
    ensures
        remade(rebuild, *footer, options, schema_given, made),
        made matches Ok(made) ==> footer_of(made) == *footer,
{
    if schema_given {
        new_metadata(footer, options)
    } else {
        rebuild(footer, options)
    }
}

/// How timestamps of the old format are read.
pub struct Int96Options {
    /// Their unit, where it is not their own.
    pub coerce_int96: Option<TimeUnit>,
    /// Their time zone. It matters only with a unit.
    pub coerce_int96_tz: Option<String>,
}

/// A changed schema, or the schema before.
pub open spec fn changed_or(changed: Option<Schema>, before: Schema) -> Schema {
    match changed {
        Some(changed) => changed,
        None => before,
    }
}

/// What becomes of the schema `file` by timestamps of the old format.
pub open spec fn int96_changed(
    parquet_schema: SchemaDescriptor,
    file: Schema,
    int96: Int96Options,
) -> Option<Schema> {
    match int96.coerce_int96 {
        Some(unit) => int96_types(
            parquet_schema,
            file,
            unit,
            timezone_text(int96.coerce_int96_tz),
        ),
        None => None,
    }
}

/// The schema with which the columns of a file are read.
pub open spec fn physical_schema(
    table: Schema,
    metadata: ArrowReaderMetadata,
    int96: Int96Options,
) -> Schema {
    let typed = changed_or(table_types(table, metadata_schema(metadata)), metadata_schema(metadata));
    changed_or(int96_changed(metadata_descriptor(metadata), typed, int96), typed)
}

/// Whether the columns of a file are read with another schema than its own.
pub open spec fn schema_coerced(
    table: Schema,
    metadata: ArrowReaderMetadata,
    int96: Int96Options,
) -> bool {
    let typed = changed_or(table_types(table, metadata_schema(metadata)), metadata_schema(metadata));
    table_types(table, metadata_schema(metadata)) is Some || int96_changed(
        metadata_descriptor(metadata),
        typed,
        int96,
    ) is Some
}

/// What becomes of the reader's options, `None` where it does not take the virtual
/// columns.
pub open spec fn fitted_options(
    before: ArrowReaderOptions,
    table: Schema,
    metadata: ArrowReaderMetadata,
    int96: Int96Options,
    virtual_state: Option<&VirtualColumnsState>,
) -> Option<ArrowReaderOptions> {
    let options = if schema_coerced(table, metadata, int96) {
        options_with_schema(before, physical_schema(table, metadata, int96))
    } else {
        before
    };
    match virtual_state {
        Some(state) => options_with_virtual(options, state.columns()),
        None => Some(options),
    }
}

/// Whether `options` say with which schema the columns of a file are read, and which
/// virtual columns are made up: as `before`, where nothing else is asked for. Whether
/// the page index is read stays as it was.
pub open spec fn options_fit(
    before: ArrowReaderOptions,
    table: Schema,
    metadata: ArrowReaderMetadata,
    int96: Int96Options,
    virtual_state: Option<&VirtualColumnsState>,
    options: ArrowReaderOptions,
) -> bool {
    &&& options_schema(options) == if schema_coerced(table, metadata, int96) {
        Some(physical_schema(table, metadata, int96))
    } else {
        options_schema(before)
    }
    &&& options_virtual(options) == match virtual_state {
        Some(state) => state.columns(),
        None => options_virtual(before),
    }
    &&& options_index(options) == options_index(before)
}

/// Whether the reader takes the virtual columns.
pub open spec fn virtual_taken(virtual_state: Option<&VirtualColumnsState>) -> bool {
    virtual_state matches Some(state) ==> forall|i: int|
        0 <= i < state.columns().len() ==> is_reader_virtual(#[trigger] state.columns()[i])
}

/// Whether `rewrite` says between which schemas expressions are rewritten: only
/// where there is a predicate or the schemas differ, and then with the virtual
/// columns in both.
pub open spec fn rewrite_fitted(
    table: Schema,
    physical: Schema,
    virtual_state: Option<&VirtualColumnsState>,
    has_predicate: bool,
    rewrite: Option<RewriteSchemas>,
) -> bool {
    match rewrite {
        None => !has_predicate && schemas_equal(table, physical),
        Some(schemas) => {
            &&& has_predicate || !schemas_equal(table, physical)
            &&& match virtual_state {
                Some(state) => {
                    &&& *schemas.logical == state.schema_with_virtual()
                    &&& *schemas.physical == appended(physical, state.columns())
                    &&& schema_fields(*schemas.physical) == schema_fields(physical)
                        + state.columns()
                },
                None => *schemas.logical == table && *schemas.physical == physical,
            }
        },
    }
}

/// Whether `fitted` is what comes of fitting a scan to a file once its metadata was
/// `made` with the options `changed`.
pub open spec fn scan_fitted(
    before: ArrowReaderOptions,
    table: Schema,
    metadata: ArrowReaderMetadata,
    int96: Int96Options,
    virtual_state: Option<&VirtualColumnsState>,
    has_predicate: bool,
    changed: ArrowReaderOptions,
    made: Result<ArrowReaderMetadata, ParquetError>,
    fitted: Result<FittedScan, ParquetError>,
) -> bool {
    match made {
        Err(_) => fitted is Err,
        Ok(made) => fitted matches Ok(scan) && {
            &&& scan.options == changed
            &&& scan.schema_given == (schema_coerced(table, metadata, int96) && virtual_state is None)
            &&& options_fit(before, table, metadata, int96, virtual_state, scan.options)
            &&& scan.reader_metadata == made
            &&& footer_of(made) == footer_of(metadata)
            &&& *scan.physical_file_schema == physical_schema(table, metadata, int96)
            &&& rewrite_fitted(
                table,
                *scan.physical_file_schema,
                virtual_state,
                has_predicate,
                scan.rewrite,
            )
        },
    }
}

/// Whether `fitted` is what comes of fitting a scan to a file with the options `changed`,
/// for metadata that may be made of the file.
pub open spec fn scan_made<F>(
    rebuild: F,
    before: ArrowReaderOptions,
    table: Schema,
    metadata: ArrowReaderMetadata,
    int96: Int96Options,
    virtual_state: Option<&VirtualColumnsState>,
    has_predicate: bool,
    changed: ArrowReaderOptions,
    fitted: Result<FittedScan, ParquetError>,
) -> bool where
    F: FnOnce(Arc<ParquetMetaData>, ArrowReaderOptions) -> Result<
        ArrowReaderMetadata,
        ParquetError,
    >,
 {
    exists|made: Result<ArrowReaderMetadata, ParquetError>|
        {
            &&& #[trigger] fits_file(
                rebuild,
                table,
                metadata,
                int96,
                virtual_state,
                changed,
                made,
            )
            &&& scan_fitted(
                before,
                table,
                metadata,
                int96,
                virtual_state,
                has_predicate,
                changed,
                made,
                fitted,
            )
        }
}

/// Fits a scan to a file whose metadata was loaded: the schema with which its
/// columns are read, the reader's options, and between which schemas expressions
/// are rewritten.
///
/// `rebuild` makes the metadata anew where that takes decoding the schema that the file
/// embeds, or making up virtual columns.
///
/// Fails where the reader does not take the virtual columns, or cannot read the
/// file with that schema.
pub fn fit_scan<F>(
    reader_metadata: ArrowReaderMetadata,
    options: ArrowReaderOptions,
    logical_file_schema: &Arc<Schema>,
    int96: &Int96Options,
    virtual_state: Option<&VirtualColumnsState>,
    has_predicate: bool,
    rebuild: F,
) -> (fitted: Result<FittedScan, ParquetError>) where
    F: FnOnce(Arc<ParquetMetaData>, ArrowReaderOptions) -> Result<
        ArrowReaderMetadata,
        ParquetError,
    >,

    requires
        keeps_footers(rebuild),
        virtual_state is None && options_virtual(options).len() > 0 && schema_coerced(
            **logical_file_schema,
            reader_metadata,
            *int96,
        ) ==> !optional_root(metadata_descriptor(reader_metadata)),
    ensures
        ({
            let table = **logical_file_schema;
            match fitted_options(options, table, reader_metadata, *int96, virtual_state) {
                None => !virtual_taken(virtual_state) && fitted is Err,
                Some(changed) => virtual_taken(virtual_state) && scan_made(
                    rebuild,
                    options,
                    table,
                    reader_metadata,
                    *int96,
                    virtual_state,
                    has_predicate,
                    changed,
                    fitted,
                ),
            }
        }),
        fitted matches Ok(scan) ==> (scan.rewrite matches Some(schemas) ==> {
            &&& schema_fields(*schemas.physical) == schema_fields(*scan.physical_file_schema) + (
            match virtual_state {
                Some(state) => state.columns(),
                None => Seq::<Field>::empty(),
            })
            &&& schema_fields(*schemas.logical) == match virtual_state {
                Some(state) => schema_fields(state.schema_with_virtual()),
                None => schema_fields(**logical_file_schema),
            }
        }),
{
    let ghost before = options;
    let mut options = options;
    let mut physical_file_schema = reader_schema(&reader_metadata);
    let parquet_schema = reader_descriptor(&reader_metadata);
    let mut schema_changed = false;
    match to_table_types(logical_file_schema, &physical_file_schema) {
        Some(merged) => {
            physical_file_schema = Arc::new(merged);
            schema_changed = true;
        },
        None => {},
    }
    match &int96.coerce_int96 {
        Some(coerce) => match to_int96_types(
            parquet_schema,
            &physical_file_schema,
            coerce,
            &int96.coerce_int96_tz,
        ) {
            Some(merged) => {
                physical_file_schema = Arc::new(merged);
                schema_changed = true;
            },
            None => {},
        },
        None => {},
    }
    let metadata_dirty = schema_changed || virtual_state.is_some();
    let schema_given = schema_changed && virtual_state.is_none();
    if schema_changed {
        options = with_schema(options, Arc::clone(&physical_file_schema));
    }
    match virtual_state {
        Some(state) => match with_virtual_columns(options, clone_fields(state.virtual_columns())) {
            Ok(changed) => {
                options = changed;
            },
            Err(error) => {
                return Err(error);
            },
        },
        None => {},
    }
    assert(fitted_options(before, **logical_file_schema, reader_metadata, *int96, virtual_state)
        == Some(options));
    let ghost read = reader_metadata;
    let made = if metadata_dirty {
        remake(footer(&reader_metadata), clone_options(&options), schema_given, rebuild)
    } else {
        Ok(reader_metadata)
    };
    assert(schema_changed == schema_coerced(**logical_file_schema, read, *int96));
    assert(fits_file(
        rebuild,
        **logical_file_schema,
        read,
        *int96,
        virtual_state,
        options,
        made,
    ));
    let fitted_metadata = match made {
        Ok(fitted_metadata) => fitted_metadata,
        Err(error) => {
            return Err(error);
        },
    };
    let needs_rewrite = has_predicate || !equal_schemas(logical_file_schema, &physical_file_schema);
    let rewrite = if needs_rewrite {
        Some(
            match virtual_state {
                Some(state) => RewriteSchemas {
                    logical: Arc::clone(state.logical_schema_with_virtual()),
                    physical: append_fields(&physical_file_schema, state.virtual_columns()),
                },
                None => RewriteSchemas {
                    logical: Arc::clone(logical_file_schema),
                    physical: Arc::clone(&physical_file_schema),
                },
            },
        )
    } else {
        None
    };
    Ok(
        FittedScan {
            reader_metadata: fitted_metadata,
            options,
            physical_file_schema,
            schema_given,
            rewrite,
        },
    )
}

/// Whether pages are pruned: that is enabled, there is a predicate, and it gives at
/// least one filter on pages. `filter_count` is the number of these.
pub fn keeps_page_filters(enable_page_index: bool, filter_count: Option<usize>) -> (keeps: bool)
    ensures
        keeps == (enable_page_index && (filter_count matches Some(count) && count > 0)),
{
    match filter_count {
        Some(count) => enable_page_index && count > 0,
        None => false,
    }
}

/// The options with which the footer of a file is loaded: with the Arrow schema that
/// is known of it, where one is, and without the page index, which lies elsewhere in
/// the file and may not be needed.
pub fn footer_options(arrow_schema: Option<&Arc<Schema>>) -> (options: ArrowReaderOptions)
    ensures
        options_index(options) == (IndexPolicy::Skip, IndexPolicy::Skip),
        options_virtual(options) == Seq::<Field>::empty(),
        options_schema(options) == match arrow_schema {
            Some(schema) => Some(**schema),
            None => None,
        },
{
    let options = with_page_index_policy(new_options(), IndexPolicy::Skip);
    match arrow_schema {
        Some(schema) => with_schema(options, Arc::clone(schema)),
        None => options,
    }
}

/// Whether the page index of a file is still to be read: a reader may have brought it
/// unasked.
pub fn must_read_page_index(has_column_index: bool, has_offset_index: bool) -> (must: bool)
    ensures
        must == !(has_column_index && has_offset_index),
{
    !has_column_index || !has_offset_index
}

/// The metadata of a file whose footer was read again with the page index: as the file
/// was read before, as `reader_metadata`, with `options`. `schema_given` says whether
/// these give a schema and no virtual columns; `rebuild` makes the metadata where they
/// may not.
///
/// Fails where the reader cannot read the file so.
pub fn with_page_index<F>(
    reader_metadata: &ArrowReaderMetadata,
    indexed: Arc<ParquetMetaData>,
    options: ArrowReaderOptions,
    schema_given: bool,
    rebuild: F,
) -> (made: Result<ArrowReaderMetadata, ParquetError>) where
    F: FnOnce(Arc<ParquetMetaData>, ArrowReaderOptions) -> Result<
        ArrowReaderMetadata,
        ParquetError,
    >,

    requires
        keeps_footers(rebuild),
        schema_given ==> {
            &&& footer_descriptor(*indexed) == metadata_descriptor(*reader_metadata)
            &&& options_schema(options) is Some
            &&& options_virtual(options).len() > 0 ==> !optional_root(footer_descriptor(*indexed))
        },
    ensures
        remade(
            rebuild,
            *indexed,
            options_with_index(options, IndexPolicy::Optional),
            schema_given,
            made,
        ),
        made matches Ok(made) ==> footer_of(made) == *indexed,
{
    let parquet_schema = reader_descriptor(reader_metadata);
    assert(read_before(*parquet_schema));
    remake(
        indexed,
        with_page_index_policy(options, IndexPolicy::Optional),
        schema_given,
        rebuild,
    )
}

/// The virtual columns of a scan.
pub open spec fn made_up(virtual_state: Option<&VirtualColumnsState>) -> Seq<Field> {
    match virtual_state {
        Some(state) => state.columns(),
        None => Seq::empty(),
    }
}

/// Expressions are rewritten from what they refer to, the columns of the table, to what
/// the reader hands out, the columns of the file as it is read, with the virtual columns
/// after both. They are left as they are only where there is no predicate and both have
/// the same schema.
pub proof fn law_expressions_are_rewritten_from_the_table_to_the_file(
    before: ArrowReaderOptions,
    table: Schema,
    metadata: ArrowReaderMetadata,
    int96: Int96Options,
    virtual_state: Option<&VirtualColumnsState>,
    has_predicate: bool,
    changed: ArrowReaderOptions,
    made: Result<ArrowReaderMetadata, ParquetError>,
    scan: FittedScan,
)
    requires
        scan_fitted(
            before,
            table,
            metadata,
            int96,
            virtual_state,
            has_predicate,
            changed,
            made,
            Ok(scan),
        ),
        virtual_state matches Some(state) ==> schema_fields(state.schema_with_virtual())
            == schema_fields(table) + state.columns(),
    ensures
        scan.rewrite matches Some(schemas) ==> {
            &&& schema_fields(*schemas.logical) == schema_fields(table) + made_up(virtual_state)
            &&& schema_fields(*schemas.physical) == schema_fields(*scan.physical_file_schema)
                + made_up(virtual_state)
        },
        scan.rewrite is None <==> !has_predicate && schemas_equal(
            table,
            *scan.physical_file_schema,
        ),
        made == Ok::<ArrowReaderMetadata, ParquetError>(scan.reader_metadata),
        footer_of(scan.reader_metadata) == footer_of(metadata),
{
    assert(schema_fields(table) + Seq::<Field>::empty() =~= schema_fields(table));
    assert(schema_fields(*scan.physical_file_schema) + Seq::<Field>::empty() =~= schema_fields(
        *scan.physical_file_schema,
    ));
}

/// The columns of a file are read with its own schema, with the types of the table where it
/// asks for others, and with the unit and time zone of old timestamps after that. The
/// reader is told so exactly where anything changed, and which virtual columns to make up.
pub proof fn law_a_file_is_read_with_the_types_that_are_asked_for(
    before: ArrowReaderOptions,
    table: Schema,
    metadata: ArrowReaderMetadata,
    int96: Int96Options,
    virtual_state: Option<&VirtualColumnsState>,
    has_predicate: bool,
    changed: ArrowReaderOptions,
    made: Result<ArrowReaderMetadata, ParquetError>,
    scan: FittedScan,
)
    requires
        scan_fitted(
            before,
            table,
            metadata,
            int96,
            virtual_state,
            has_predicate,
            changed,
            made,
            Ok(scan),
        ),
    ensures
        ({
            let file = metadata_schema(metadata);
            let leaves = footer_descriptor(footer_of(metadata));
            let physical = *scan.physical_file_schema;
            let typed = table_types(table, file);
            &&& int96.coerce_int96 is None ==> physical == match typed {
                Some(typed) => typed,
                None => file,
            }
            &&& int96.coerce_int96 matches Some(unit) ==> {
                let zone = match int96.coerce_int96_tz {
                    Some(zone) => Some(zone@),
                    None => None,
                };
                &&& typed is None ==> physical == match int96_types(leaves, file, unit, zone) {
                    Some(timed) => timed,
                    None => file,
                }
                &&& typed matches Some(typed) ==> physical == match int96_types(
                    leaves,
                    typed,
                    unit,
                    zone,
                ) {
                    Some(timed) => timed,
                    None => typed,
                }
            }
            &&& physical != file ==> options_schema(scan.options) == Some(physical)
            &&& typed is None && int96.coerce_int96 is None ==> options_schema(scan.options)
                == options_schema(before) && !scan.schema_given
            &&& virtual_state is None ==> options_virtual(scan.options) == options_virtual(before)
            &&& virtual_state matches Some(state) ==> options_virtual(scan.options)
                == state.columns()
            &&& options_index(scan.options) == options_index(before)
            &&& scan.schema_given ==> virtual_state is None && options_schema(scan.options)
                == Some(physical)
            &&& physical != file && virtual_state is None ==> scan.schema_given
        }),
{
}

/// A file that is read as it is needs no other metadata; one whose types change, or that
/// has virtual columns, has them made of its own footer, with the options that say so.
pub proof fn law_metadata_is_made_anew_where_anything_changed<F>(
    rebuild: F,
    table: Schema,
    metadata: ArrowReaderMetadata,
    int96: Int96Options,
    virtual_state: Option<&VirtualColumnsState>,
    options: ArrowReaderOptions,
    made: Result<ArrowReaderMetadata, ParquetError>,
) where
    F: FnOnce(Arc<ParquetMetaData>, ArrowReaderOptions) -> Result<
        ArrowReaderMetadata,
        ParquetError,
    >,

    requires
        fits_file(rebuild, table, metadata, int96, virtual_state, options, made),
    ensures
        table_types(table, metadata_schema(metadata)) is None && int96.coerce_int96 is None
            && virtual_state is None ==> made == Ok::<ArrowReaderMetadata, ParquetError>(metadata),
        table_types(table, metadata_schema(metadata)) is Some && virtual_state is None
            ==> match metadata_with(footer_of(metadata), options) {
            Some(fitted) => made == Ok::<ArrowReaderMetadata, ParquetError>(fitted),
            None => made is Err,
        },
        table_types(table, metadata_schema(metadata)) is None && virtual_state is None
            && int96.coerce_int96 is Some ==> {
            let zone = match int96.coerce_int96_tz {
                Some(zone) => Some(zone@),
                None => None,
            };
            match int96_types(
                footer_descriptor(footer_of(metadata)),
                metadata_schema(metadata),
                int96.coerce_int96->0,
                zone,
            ) {
                Some(_) => match metadata_with(footer_of(metadata), options) {
                    Some(fitted) => made == Ok::<ArrowReaderMetadata, ParquetError>(fitted),
                    None => made is Err,
                },
                None => made == Ok::<ArrowReaderMetadata, ParquetError>(metadata),
            }
        },
        virtual_state is Some ==> exists|footer: Arc<ParquetMetaData>|
            *footer == footer_of(metadata) && #[trigger] call_ensures(
                rebuild,
                (footer, options),
                made,
            ),
{
}

/// A scan fits a file exactly where the metadata to read it with could be made.
pub proof fn law_a_scan_fits_where_the_file_can_be_read(
    before: ArrowReaderOptions,
    table: Schema,
    metadata: ArrowReaderMetadata,
    int96: Int96Options,
    virtual_state: Option<&VirtualColumnsState>,
    has_predicate: bool,
    changed: ArrowReaderOptions,
    made: Result<ArrowReaderMetadata, ParquetError>,
    fitted: Result<FittedScan, ParquetError>,
)
    requires
        scan_fitted(
            before,
            table,
            metadata,
            int96,
            virtual_state,
            has_predicate,
            changed,
            made,
            fitted,
        ),
    ensures
        fitted is Ok <==> made is Ok,
        fitted matches Ok(scan) ==> scan.options == changed,
{
}

/// Metadata that are made anew are those of the footer and the options: what the reader
/// makes of them where these give a schema, and what `rebuild` makes of them where they do
/// not.
pub proof fn law_metadata_are_those_of_their_footer_and_options<F>(
    rebuild: F,
    footer: ParquetMetaData,
    options: ArrowReaderOptions,
    schema_given: bool,
    made: Result<ArrowReaderMetadata, ParquetError>,
) where
    F: FnOnce(Arc<ParquetMetaData>, ArrowReaderOptions) -> Result<
        ArrowReaderMetadata,
        ParquetError,
    >,

    requires
        remade(rebuild, footer, options, schema_given, made),
    ensures
        schema_given ==> {
            &&& made is Ok <==> metadata_with(footer, options) is Some
            &&& made is Ok ==> made->Ok_0 == metadata_with(footer, options)->0
        },
        !schema_given ==> exists|shared: Arc<ParquetMetaData>|
            *shared == footer && #[trigger] call_ensures(rebuild, (shared, options), made),
{
}

} // verus!
