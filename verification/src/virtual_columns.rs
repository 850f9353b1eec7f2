//! Columns that the reader makes up, such as row numbers.

use crate::columns::texts;
use crate::constants::{last_values, lemma_last_values, LiteralColumns};
use crate::values::{null_or, nulls_to};
use arrow::datatypes::{DataType, Field, Schema};
use datafusion_common::{DataFusionError, ScalarValue};
use datafusion_datasource_parquet::ParquetVirtualColumn;
use std::sync::Arc;
use vstd::prelude::*;

verus! {

/// A column of an Arrow schema.
#[verifier::external_type_specification]
#[verifier::external_body]
pub struct ExField(Field);

/// A virtual column that the reader can make up.
#[verifier::external_type_specification]
#[verifier::external_body]
pub struct ExParquetVirtualColumn(ParquetVirtualColumn);

/// The name of a column.
pub uninterp spec fn field_name(field: Field) -> Seq<char>;

/// The type of a column.
pub uninterp spec fn field_type(field: Field) -> DataType;

/// Whether `ParquetVirtualColumn::try_from` accepts a column: its extension type is
/// one that the reader makes up.
pub uninterp spec fn can_make_up(field: Field) -> bool;

/// The columns of a schema.
pub uninterp spec fn schema_fields(schema: Schema) -> Seq<Field>;

/// What `Schema::new` makes of columns: a schema of just these.
pub uninterp spec fn schema_of(fields: Seq<Field>) -> Schema;

/// The columns of a list.
pub open spec fn fields_of(fields: Seq<Arc<Field>>) -> Seq<Field> {
    fields.map_values(|field: Arc<Field>| *field)
}

/// `Field::name`: the name that belongs to the column, as another string.
#[verifier::external_body]
fn name_of(field: &Field) -> (name: String)
    ensures
        name@ == field_name(*field),
{
    field.name().clone()
}

/// `Field::data_type`: the type that belongs to the column, as another value.
#[verifier::external_body]
fn type_of(field: &Field) -> (data_type: DataType)
    ensures
        data_type == field_type(*field),
{
    field.data_type().clone()
}

/// `ParquetVirtualColumn::try_from`: whether it accepts a column goes by the column
/// alone.
#[verifier::external_body]
fn to_virtual_column(field: &Arc<Field>) -> (column: Result<ParquetVirtualColumn, DataFusionError>)
    ensures
        column is Ok <==> can_make_up(**field),
{
    ParquetVirtualColumn::try_from(field)
}

/// `Schema::fields`: the columns of the schema, in order.
#[verifier::external_body]
fn list_fields(schema: &Schema) -> (fields: Vec<Arc<Field>>)
    ensures
        fields_of(fields@) == schema_fields(*schema),
{
    schema.fields().iter().cloned().collect()
}

/// `Schema::new`: a schema of these columns, in order.
#[verifier::external_body]
fn new_schema(fields: Vec<Arc<Field>>) -> (schema: Schema)
    ensures
        schema == schema_of(fields_of(fields@)),
        schema_fields(schema) == fields_of(fields@),
{
    Schema::new(fields)
}

/// Why the virtual columns of a scan are not accepted.
pub enum VirtualColumnError {
    /// A predicate that is evaluated while rows are decoded refers to the virtual
    /// column of this name.
    InPredicate(String),
    /// The reader cannot make up such a column.
    Unsupported(DataFusionError),
    /// There is no null of the type of a column.
    NoNull(DataFusionError),
}

/// The text of the error for a predicate that refers to the virtual column `name`.
pub open spec fn reference_text(name: Seq<char>) -> Seq<char> {
    "Predicate references virtual column '"@ + name
        + "'; route via ParquetSource::try_pushdown_filters."@
}

/// The text of the error for a predicate that refers to the virtual column `name`.
pub fn reference_message(name: &str) -> (message: String)
    ensures
        message@ == reference_text(name@),
{
    "Predicate references virtual column '".to_owned().concat(name).concat(
        "'; route via ParquetSource::try_pushdown_filters.",
    )
}

/// The virtual columns of a scan.
pub struct VirtualColumnsState {
    /// The virtual columns.
    virtual_columns: Vec<Arc<Field>>,
    /// A null for each virtual column.
    null_replacements: LiteralColumns,
    /// The schema of the file, with the virtual columns after its own.
    logical_schema_with_virtual: Arc<Schema>,
}

impl VirtualColumnsState {
    /// The virtual columns.
    pub closed spec fn columns(&self) -> Seq<Field> {
        fields_of(self.virtual_columns@)
    }

    /// The nulls by the names of their columns.
    pub closed spec fn nulls(&self) -> Map<Seq<char>, ScalarValue> {
        self.null_replacements@
    }

    /// The columns of the schema with the virtual columns.
    pub closed spec fn schema_with_virtual(&self) -> Schema {
        *self.logical_schema_with_virtual
    }

    /// The virtual columns, in the order in which they were declared.
    pub fn virtual_columns(&self) -> (columns: &Vec<Arc<Field>>)
        ensures
            fields_of(columns@) == self.columns(),
    {
        &self.virtual_columns
    }

    /// A null for each virtual column, by its name.
    pub fn null_replacements(&self) -> (nulls: &LiteralColumns)
        ensures
            nulls@ == self.nulls(),
    {
        &self.null_replacements
    }

    /// The schema of the file, with the virtual columns after its own.
    pub fn logical_schema_with_virtual(&self) -> (schema: &Arc<Schema>)
        ensures
            **schema == self.schema_with_virtual(),
    {
        &self.logical_schema_with_virtual
    }
}

/// Another list of the same columns.
pub(crate) fn clone_fields(fields: &Vec<Arc<Field>>) -> (copy: Vec<Arc<Field>>)
    ensures
        fields_of(copy@) == fields_of(fields@),
{
    let mut copy: Vec<Arc<Field>> = Vec::new();
    let mut i: usize = 0;
    while i < fields.len()
        invariant
            i <= fields@.len(),
            copy@.len() == i,
            forall|j: int| 0 <= j < i ==> *(#[trigger] copy@[j]) == *fields@[j],
        decreases fields@.len() - i,
    {
        copy.push(Arc::clone(&fields[i]));
        i += 1;
    }
    assert(fields_of(copy@) =~= fields_of(fields@));
    copy
}

/// The schema `base` with the columns `extra` after its own, or `base` itself where
/// there are none.
pub open spec fn appended(base: Schema, extra: Seq<Field>) -> Schema {
    if extra.len() == 0 {
        base
    } else {
        schema_of(schema_fields(base) + extra)
    }
}

/// The schema `base` with the columns `extra` after its own, or `base` itself where
/// there are none.
pub fn append_fields(base: &Arc<Schema>, extra: &Vec<Arc<Field>>) -> (schema: Arc<Schema>)
    ensures
        schema_fields(*schema) == schema_fields(**base) + fields_of(extra@),
        *schema == appended(**base, fields_of(extra@)),
        extra@.len() == 0 ==> schema == *base,
{
    if extra.len() == 0 {
        assert(schema_fields(**base) + fields_of(extra@) =~= schema_fields(**base));
        return Arc::clone(base);
    }
    let mut fields = list_fields(base);
    let mut more = clone_fields(extra);
    let ghost own = fields@;
    let ghost added = more@;
    fields.append(&mut more);
    assert(fields_of(fields@) =~= fields_of(own) + fields_of(added));
    Arc::new(new_schema(fields))
}

/// The first of `columns` that is among the virtual columns.
pub open spec fn first_virtual(columns: Seq<Seq<char>>, virtual_columns: Seq<Field>) -> Option<
    Seq<char>,
>
    decreases columns.len(),
{
    if columns.len() == 0 {
        None
    } else if is_virtual(columns[0], virtual_columns) {
        Some(columns[0])
    } else {
        first_virtual(columns.drop_first(), virtual_columns)
    }
}

/// Whether `name` is the name of a virtual column.
pub open spec fn is_virtual(name: Seq<char>, virtual_columns: Seq<Field>) -> bool {
    exists|i: int|
        0 <= i < virtual_columns.len() && field_name(#[trigger] virtual_columns[i]) == name
}

/// Whether `name` is the name of a virtual column.
fn names_virtual(name: &String, virtual_columns: &Vec<Arc<Field>>) -> (found: bool)
    ensures
        found == is_virtual(name@, fields_of(virtual_columns@)),
{
    let ghost fields = fields_of(virtual_columns@);
    let mut i: usize = 0;
    while i < virtual_columns.len()
        invariant
            i <= virtual_columns@.len(),
            fields == fields_of(virtual_columns@),
            forall|j: int| 0 <= j < i ==> field_name(#[trigger] fields[j]) != name@,
        decreases virtual_columns@.len() - i,
    {
        assert(fields[i as int] == *virtual_columns@[i as int]);
        if name_of(&virtual_columns[i]) == *name {
            return true;
        }
        i += 1;
    }
    false
}

/// Checks that a predicate refers to no virtual column. `predicate_columns` are the
/// columns that it refers to, in the order in which they occur. Virtual columns are
/// made up only after rows were filtered, so a filter cannot use them.
pub fn validate_predicate_does_not_reference_virtual_columns(
    predicate_columns: &Vec<String>,
    virtual_columns: &Vec<Arc<Field>>,
) -> (valid: Result<(), VirtualColumnError>)
    ensures
        match first_virtual(texts(predicate_columns@), fields_of(virtual_columns@)) {
            Some(name) => valid matches Err(VirtualColumnError::InPredicate(offender))
                && offender@ == name,
            None => valid is Ok,
        },
{
    let ghost columns = texts(predicate_columns@);
    let ghost fields = fields_of(virtual_columns@);
    let mut i: usize = 0;
    proof {
        assert(columns.skip(0) =~= columns);
    }
    while i < predicate_columns.len()
        invariant
            i <= predicate_columns@.len(),
            columns == texts(predicate_columns@),
            fields == fields_of(virtual_columns@),
            first_virtual(columns, fields) == first_virtual(columns.skip(i as int), fields),
        decreases predicate_columns@.len() - i,
    {
        let ghost rest = columns.skip(i as int);
        proof {
            assert(rest[0] == predicate_columns@[i as int]@);
            assert(rest.drop_first() =~= columns.skip(i + 1));
        }
        if names_virtual(&predicate_columns[i], virtual_columns) {
            return Err(VirtualColumnError::InPredicate(predicate_columns[i].clone()));
        }
        i += 1;
    }
    Ok(())
}

/// Whether every virtual column can be made up.
pub open spec fn all_supported(virtual_columns: Seq<Field>) -> bool {
    forall|i: int| 0 <= i < virtual_columns.len() ==> can_make_up(#[trigger] virtual_columns[i])
}

/// Whether `nulls` are nulls of the types of the virtual columns.
pub open spec fn are_nulls<N>(null: N, virtual_columns: Seq<Field>, nulls: Seq<ScalarValue>) -> bool where
    N: Fn(&DataType) -> Result<ScalarValue, DataFusionError>,
 {
    &&& nulls.len() == virtual_columns.len()
    &&& forall|i: int|
        0 <= i < nulls.len() ==> nulls_to(
            null,
            field_type(virtual_columns[i]),
            Some(#[trigger] nulls[i]),
        )
}

/// Whether no null of the type of a virtual column could be made.
pub open spec fn lacks_null<N>(null: N, virtual_columns: Seq<Field>) -> bool where
    N: Fn(&DataType) -> Result<ScalarValue, DataFusionError>,
 {
    exists|i: int|
        0 <= i < virtual_columns.len() && nulls_to(
            null,
            field_type(#[trigger] virtual_columns[i]),
            None,
        )
}

/// The virtual columns with a null for each.
pub open spec fn null_pairs(virtual_columns: Seq<Field>, nulls: Seq<ScalarValue>) -> Seq<
    (Seq<char>, ScalarValue),
> {
    Seq::new(nulls.len(), |i: int| (field_name(virtual_columns[i]), nulls[i]))
}

impl VirtualColumnsState {
    /// The state for `virtual_columns`. Fails where the reader cannot make up one of
    /// them, or there is no null of its type.
    fn try_new<N>(
        virtual_columns: Vec<Arc<Field>>,
        logical_file_schema: &Arc<Schema>,
        null: &N,
    ) -> (state: Result<Self, VirtualColumnError>) where
        N: Fn(&DataType) -> Result<ScalarValue, DataFusionError>,

        requires
            forall|data_type: &DataType| #[trigger] call_requires(*null, (data_type,)),
        ensures
            state_built(*null, fields_of(virtual_columns@), **logical_file_schema, state),
    {
        let ghost fields = fields_of(virtual_columns@);
        let mut i: usize = 0;
        while i < virtual_columns.len()
            invariant
                i <= virtual_columns@.len(),
                fields == fields_of(virtual_columns@),
                forall|j: int| 0 <= j < i ==> can_make_up(#[trigger] fields[j]),
            decreases virtual_columns@.len() - i,
        {
            assert(fields[i as int] == *virtual_columns@[i as int]);
            match to_virtual_column(&virtual_columns[i]) {
                Ok(_) => {},
                Err(error) => {
                    return Err(VirtualColumnError::Unsupported(error));
                },
            }
            i += 1;
        }
        let mut null_replacements = LiteralColumns::new();
        let ghost mut nulls: Seq<ScalarValue> = Seq::empty();
        let mut k: usize = 0;
        proof {
            assert(null_pairs(fields, nulls) =~= Seq::<(Seq<char>, ScalarValue)>::empty());
        }
        while k < virtual_columns.len()
            invariant
                k <= virtual_columns@.len(),
                fields == fields_of(virtual_columns@),
                all_supported(fields),
                forall|data_type: &DataType| #[trigger] call_requires(*null, (data_type,)),
                nulls.len() == k,
                forall|j: int|
                    0 <= j < k ==> nulls_to(
                        *null,
                        field_type(fields[j]),
                        Some(#[trigger] nulls[j]),
                    ),
                null_replacements@ == last_values(null_pairs(fields, nulls)),
            decreases virtual_columns@.len() - k,
        {
            assert(fields[k as int] == *virtual_columns@[k as int]);
            let field = &virtual_columns[k];
            match null_or(&type_of(field), null) {
                Ok(value) => {
                    proof {
                        let more = nulls.push(value);
                        assert(null_pairs(fields, more).drop_last() =~= null_pairs(fields, nulls));
                        nulls = more;
                    }
                    null_replacements.insert(name_of(field), value)
                },
                Err(error) => {
                    assert(nulls_to(*null, field_type(fields[k as int]), None));
                    return Err(VirtualColumnError::NoNull(error));
                },
            }
            k += 1;
        }
        assert(are_nulls(*null, fields, nulls));
        let logical_schema_with_virtual = append_fields(logical_file_schema, &virtual_columns);
        Ok(VirtualColumnsState { virtual_columns, null_replacements, logical_schema_with_virtual })
    }
}

/// Whether `state` is what comes of `virtual_columns`.
pub open spec fn state_built<N>(
    null: N,
    virtual_columns: Seq<Field>,
    logical_file_schema: Schema,
    state: Result<VirtualColumnsState, VirtualColumnError>,
) -> bool where N: Fn(&DataType) -> Result<ScalarValue, DataFusionError> {
    if !all_supported(virtual_columns) {
        state matches Err(VirtualColumnError::Unsupported(_))
    } else {
        match state {
            Ok(state) => {
                &&& state.columns() == virtual_columns
                &&& exists|nulls: Seq<ScalarValue>| #[trigger]
                    are_nulls(null, virtual_columns, nulls) && state.nulls() == last_values(
                        null_pairs(virtual_columns, nulls),
                    )
                &&& state.schema_with_virtual() == appended(logical_file_schema, virtual_columns)
                &&& schema_fields(state.schema_with_virtual()) == schema_fields(
                    logical_file_schema,
                ) + virtual_columns
            },
            Err(error) => error is NoNull && lacks_null(null, virtual_columns),
        }
    }
}

/// The state for the virtual columns of a scan, where there are any.
///
/// `predicate_columns` are the columns of its predicate, where there is one. Where
/// filters are evaluated while rows are decoded, none may be a virtual column.
/// `null` makes a null of a type where the query engine is not known to answer.
pub fn build_virtual_columns_state<N>(
    virtual_columns: &Vec<Arc<Field>>,
    logical_file_schema: &Arc<Schema>,
    predicate_columns: Option<&Vec<String>>,
    pushdown_filters: bool,
    null: &N,
) -> (built: Result<Option<VirtualColumnsState>, VirtualColumnError>) where
    N: Fn(&DataType) -> Result<ScalarValue, DataFusionError>,

    requires
        forall|data_type: &DataType| #[trigger] call_requires(*null, (data_type,)),
    ensures
        ({
            let fields = fields_of(virtual_columns@);
            let offender = match predicate_columns {
                Some(columns) if pushdown_filters => first_virtual(texts(columns@), fields),
                _ => None,
            };
            match offender {
                Some(name) => built matches Err(VirtualColumnError::InPredicate(found)) && found@
                    == name,
                None => if fields.len() == 0 {
                    built matches Ok(None)
                } else {
                    match built {
                        Ok(Some(state)) => state_built(
                            *null,
                            fields,
                            **logical_file_schema,
                            Ok(state),
                        ),
                        Ok(None) => false,
                        Err(error) => state_built(
                            *null,
                            fields,
                            **logical_file_schema,
                            Err(error),
                        ),
                    }
                },
            }
        }),
{
    if virtual_columns.len() == 0 {
        proof {
            match predicate_columns {
                Some(columns) => lemma_none_virtual(
                    texts(columns@),
                    fields_of(virtual_columns@),
                ),
                None => {},
            }
        }
        return Ok(None);
    }
    match predicate_columns {
        Some(columns) => {
            if pushdown_filters {
                match validate_predicate_does_not_reference_virtual_columns(
                    columns,
                    virtual_columns,
                ) {
                    Ok(_) => {},
                    Err(error) => {
                        return Err(error);
                    },
                }
            }
        },
        None => {},
    }
    match VirtualColumnsState::try_new(clone_fields(virtual_columns), logical_file_schema, null) {
        Ok(state) => Ok(Some(state)),
        Err(error) => Err(error),
    }
}

/// Without virtual columns no column is one.
proof fn lemma_none_virtual(columns: Seq<Seq<char>>, virtual_columns: Seq<Field>)
    requires
        virtual_columns.len() == 0,
    ensures
        first_virtual(columns, virtual_columns) is None,
    decreases columns.len(),
{
    if columns.len() > 0 {
        lemma_none_virtual(columns.drop_first(), virtual_columns);
    }
}

/// The column that a predicate is refused for is the first of its columns that has the name
/// of a virtual column, and it is refused for none exactly where no column has.
pub proof fn law_a_predicate_is_refused_for_its_first_virtual_column(
    columns: Seq<Seq<char>>,
    virtual_columns: Seq<Field>,
)
    ensures
        first_virtual(columns, virtual_columns) is None <==> forall|c: int, v: int|
            0 <= c < columns.len() && 0 <= v < virtual_columns.len() ==> #[trigger] columns[c]
                != field_name(#[trigger] virtual_columns[v]),
        first_virtual(columns, virtual_columns) matches Some(name) ==> exists|c: int, v: int|
            {
                &&& 0 <= c < columns.len()
                &&& 0 <= v < virtual_columns.len()
                &&& #[trigger] columns[c] == name
                &&& field_name(#[trigger] virtual_columns[v]) == name
                &&& forall|earlier: int, w: int|
                    0 <= earlier < c && 0 <= w < virtual_columns.len()
                        ==> #[trigger] columns[earlier] != field_name(#[trigger] virtual_columns[w])
            },
    decreases columns.len(),
{
    if columns.len() > 0 {
        let rest = columns.drop_first();
        law_a_predicate_is_refused_for_its_first_virtual_column(rest, virtual_columns);
        if is_virtual(columns[0], virtual_columns) {
            let v = choose|v: int|
                0 <= v < virtual_columns.len() && field_name(#[trigger] virtual_columns[v])
                    == columns[0];
            assert(columns[0] == field_name(virtual_columns[v]));
        } else {
            assert forall|v: int| 0 <= v < virtual_columns.len() implies columns[0] != field_name(
                #[trigger] virtual_columns[v],
            ) by {}
            match first_virtual(rest, virtual_columns) {
                Some(name) => {
                    let (c, v) = choose|c: int, v: int|
                        {
                            &&& 0 <= c < rest.len()
                            &&& 0 <= v < virtual_columns.len()
                            &&& #[trigger] rest[c] == name
                            &&& field_name(#[trigger] virtual_columns[v]) == name
                            &&& forall|earlier: int, w: int|
                                0 <= earlier < c && 0 <= w < virtual_columns.len()
                                    ==> #[trigger] rest[earlier] != field_name(
                                    #[trigger] virtual_columns[w],
                                )
                        };
                    assert(columns[c + 1] == name);
                    assert forall|earlier: int, w: int|
                        0 <= earlier < c + 1 && 0 <= w
                            < virtual_columns.len() implies #[trigger] columns[earlier]
                        != field_name(#[trigger] virtual_columns[w]) by {
                        if earlier > 0 {
                            assert(rest[earlier - 1] != field_name(virtual_columns[w]));
                        }
                    }
                },
                None => {
                    assert forall|c: int, w: int|
                        0 <= c < columns.len() && 0 <= w
                            < virtual_columns.len() implies #[trigger] columns[c] != field_name(
                        #[trigger] virtual_columns[w],
                    ) by {
                        if c > 0 {
                            assert(rest[c - 1] != field_name(virtual_columns[w]));
                        }
                    }
                },
            }
        }
    }
}

/// Each virtual column is replaced by a null of its own type where no later one has its name,
/// and the schema has the columns of the file and then the virtual columns, in their order.
pub proof fn law_virtual_columns_get_nulls_of_their_types<N>(
    null: N,
    virtual_columns: Seq<Field>,
    logical_file_schema: Schema,
    state: VirtualColumnsState,
    i: int,
) where N: Fn(&DataType) -> Result<ScalarValue, DataFusionError>
    requires
        state_built(null, virtual_columns, logical_file_schema, Ok(state)),
        0 <= i < virtual_columns.len(),
        forall|j: int|
            i < j < virtual_columns.len() ==> field_name(#[trigger] virtual_columns[j])
                != field_name(virtual_columns[i]),
    ensures
        can_make_up(virtual_columns[i]),
        state.columns() == virtual_columns,
        schema_fields(state.schema_with_virtual()) == schema_fields(logical_file_schema)
            + virtual_columns,
        state.nulls().contains_key(field_name(virtual_columns[i])),
        nulls_to(
            null,
            field_type(virtual_columns[i]),
            Some(state.nulls()[field_name(virtual_columns[i])]),
        ),
{
    let nulls = choose|nulls: Seq<ScalarValue>| #[trigger]
        are_nulls(null, virtual_columns, nulls) && state.nulls() == last_values(
            null_pairs(virtual_columns, nulls),
        );
    let pairs = null_pairs(virtual_columns, nulls);
    lemma_last_values(pairs);
    assert(pairs[i].0 == field_name(virtual_columns[i]));
    assert forall|j: int| i < j < pairs.len() implies (#[trigger] pairs[j]).0 != pairs[i].0 by {
        assert(field_name(virtual_columns[j]) != field_name(virtual_columns[i]));
    }
    assert(last_values(pairs)[pairs[i].0] == pairs[i].1);
    assert(nulls_to(null, field_type(virtual_columns[i]), Some(nulls[i])));
}

/// The state for virtual columns is refused exactly where the reader cannot make up one of
/// them or no null could be made of the type of one, and else nothing but the virtual
/// columns is replaced.
pub proof fn law_virtual_columns_fail_only_where_they_must<N>(
    null: N,
    virtual_columns: Seq<Field>,
    logical_file_schema: Schema,
    state: Result<VirtualColumnsState, VirtualColumnError>,
    name: Seq<char>,
) where N: Fn(&DataType) -> Result<ScalarValue, DataFusionError>
    requires
        state_built(null, virtual_columns, logical_file_schema, state),
    ensures
        state matches Err(VirtualColumnError::Unsupported(_)) <==> exists|i: int|
            0 <= i < virtual_columns.len() && !can_make_up(#[trigger] virtual_columns[i]),
        state is Err && !(state->Err_0 is Unsupported) ==> state->Err_0 is NoNull && exists|i: int|
            0 <= i < virtual_columns.len() && nulls_to(
                null,
                field_type(#[trigger] virtual_columns[i]),
                None,
            ),
        state is Ok && (state->Ok_0).nulls().contains_key(name) ==> exists|i: int|
            0 <= i < virtual_columns.len() && field_name(#[trigger] virtual_columns[i]) == name,
{
    match state {
        Ok(state) => {
            let nulls = choose|nulls: Seq<ScalarValue>| #[trigger]
                are_nulls(null, virtual_columns, nulls) && state.nulls() == last_values(
                    null_pairs(virtual_columns, nulls),
                );
            let pairs = null_pairs(virtual_columns, nulls);
            lemma_last_values(pairs);
            if state.nulls().contains_key(name) {
                let k = choose|k: int| 0 <= k < pairs.len() && (#[trigger] pairs[k]).0 == name;
                assert(field_name(virtual_columns[k]) == name);
            }
        },
        Err(_) => {},
    }
}

} // verus!
