//! Columns of which a file holds only one value.

use crate::values::{cast_or, castable, casts_to, null_or, nullable, nulls_to};
use arrow::datatypes::DataType;
use datafusion_common::{DataFusionError, ScalarValue};
use vstd::prelude::*;

verus! {

/// An error of the query engine.
#[verifier::external_type_specification]
#[verifier::external_body]
pub struct ExDataFusionError(DataFusionError);

/// A value of any type.
#[verifier::external_type_specification]
#[verifier::external_body]
pub struct ExScalarValue(ScalarValue);

/// The type of a column.
#[verifier::external_type_specification]
#[verifier::external_body]
pub struct ExDataType(DataType);

/// What `ScalarValue::eq` says of two values.
pub uninterp spec fn values_equal(a: ScalarValue, b: ScalarValue) -> bool;

/// What `ScalarValue::is_null` says of a value.
pub uninterp spec fn value_is_null(value: ScalarValue) -> bool;

/// What `ScalarValue::data_type` gives for a value.
pub uninterp spec fn value_type(value: ScalarValue) -> DataType;

/// What `DataType::eq` says of two types.
pub uninterp spec fn types_equal(a: DataType, b: DataType) -> bool;

/// What `ScalarValue::cast_to` makes of a value, `None` where it fails.
pub uninterp spec fn value_cast(value: ScalarValue, data_type: DataType) -> Option<ScalarValue>;

/// What `ScalarValue::try_new_null` gives for a type, `None` where it fails.
pub uninterp spec fn null_of(data_type: DataType) -> Option<ScalarValue>;

/// `ScalarValue::eq`: it goes by the two values alone.
#[verifier::external_body]
fn equal_values(a: &ScalarValue, b: &ScalarValue) -> (equal: bool)
    ensures
        equal == values_equal(*a, *b),
{
    a == b
}

/// `ScalarValue::is_null`: it goes by the value alone.
#[verifier::external_body]
fn is_null(value: &ScalarValue) -> (null: bool)
    ensures
        null == value_is_null(*value),
{
    value.is_null()
}

/// `ScalarValue::data_type`: the type that belongs to the value.
#[verifier::external_body]
pub(crate) fn data_type_of(value: &ScalarValue) -> (data_type: DataType)
    ensures
        data_type == value_type(*value),
{
    value.data_type()
}

/// `DataType::eq`: it goes by the two types alone.
#[verifier::external_body]
fn equal_types(a: &DataType, b: &DataType) -> (equal: bool)
    ensures
        equal == types_equal(*a, *b),
{
    a == b
}

/// `ScalarValue::cast_to`: what it gives, and whether it fails, goes by the value and
/// the type alone. It panics on some values and types that are not well formed; the
/// precondition asks for numbers and strings.
#[verifier::external_body]
pub(crate) fn cast_value(value: &ScalarValue, data_type: &DataType) -> (cast: Result<
    ScalarValue,
    DataFusionError,
>)
    requires
        castable(*value, *data_type),
    ensures
        match cast {
            Ok(cast) => value_cast(*value, *data_type) == Some(cast),
            Err(_) => value_cast(*value, *data_type) is None,
        },
{
    value.cast_to(data_type)
}

/// `ScalarValue::try_new_null`: what it gives, and whether it fails, goes by the type
/// alone. It panics on some nested types that are not well formed; the precondition
/// asks for others.
#[verifier::external_body]
pub(crate) fn new_null(data_type: &DataType) -> (null: Result<ScalarValue, DataFusionError>)
    requires
        nullable(*data_type),
    ensures
        match null {
            Ok(null) => null_of(*data_type) == Some(null),
            Err(_) => null_of(*data_type) is None,
        },
{
    ScalarValue::try_new_null(data_type)
}

/// `ScalarValue::clone`: the same value.
#[verifier::external_body]
fn clone_value(value: &ScalarValue) -> (copy: ScalarValue)
    ensures
        copy == *value,
{
    value.clone()
}

/// How well something is known.
#[derive(Debug)]
pub enum Precision<T> {
    /// It is this.
    Exact(T),
    /// It may be about this.
    Inexact(T),
    /// It is not known.
    Absent,
}

/// What is known of the values of a column.
#[derive(Debug)]
pub struct ColumnStatistics {
    /// The number of nulls.
    pub null_count: Precision<usize>,
    /// The greatest value.
    pub max_value: Precision<ScalarValue>,
    /// The least value.
    pub min_value: Precision<ScalarValue>,
}

/// What is known of the rows of a file.
#[derive(Debug)]
pub struct Statistics {
    /// The number of rows.
    pub num_rows: Precision<usize>,
    /// What is known of each column.
    pub column_statistics: Vec<ColumnStatistics>,
}

/// A column of a schema.
#[derive(Debug)]
pub struct ColumnField {
    /// The name of the column.
    pub name: String,
    /// Its type.
    pub data_type: DataType,
}

/// The least value of a column where it is known for sure that all values are equal
/// to it and that none is null.
pub open spec fn only_value(column_stats: ColumnStatistics) -> Option<ScalarValue> {
    match (column_stats.min_value, column_stats.max_value) {
        (Precision::Exact(min), Precision::Exact(max)) => if values_equal(min, max)
            && !value_is_null(min) && column_stats.null_count == Precision::Exact(0usize) {
            Some(min)
        } else {
            None
        },
        _ => None,
    }
}

/// Whether `value` is the value of a column that holds only one, as a value of type
/// `data_type`. Either all values are equal and none is null, or every row is null. Where
/// that is not known, or the value cannot be made, there is none.
pub open spec fn is_constant<C, N>(
    cast: C,
    null: N,
    column_stats: ColumnStatistics,
    num_rows: Option<usize>,
    data_type: DataType,
    value: Option<ScalarValue>,
) -> bool where
    C: Fn(&ScalarValue, &DataType) -> Result<ScalarValue, DataFusionError>,
    N: Fn(&DataType) -> Result<ScalarValue, DataFusionError>,
 {
    match only_value(column_stats) {
        Some(only) => if types_equal(value_type(only), data_type) {
            value == Some(only)
        } else {
            casts_to(cast, only, data_type, value)
        },
        None => match (num_rows, column_stats.null_count) {
            (Some(rows), Precision::Exact(nulls)) => if nulls == rows {
                nulls_to(null, data_type, value)
            } else {
                value is None
            },
            _ => value is None,
        },
    }
}

/// The value of a column that holds only one, as a value of type `data_type`.
///
/// `cast` casts a value and `null` makes a null where the query engine is not known to
/// answer.
pub fn constant_value_from_stats<C, N>(
    column_stats: &ColumnStatistics,
    num_rows: Option<usize>,
    data_type: &DataType,
    cast: &C,
    null: &N,
) -> (value: Option<ScalarValue>) where
    C: Fn(&ScalarValue, &DataType) -> Result<ScalarValue, DataFusionError>,
    N: Fn(&DataType) -> Result<ScalarValue, DataFusionError>,

    requires
        forall|value: &ScalarValue, data_type: &DataType| #[trigger]
            call_requires(*cast, (value, data_type)),
        forall|data_type: &DataType| #[trigger] call_requires(*null, (data_type,)),
    ensures
        is_constant(*cast, *null, *column_stats, num_rows, *data_type, value),
{
    match (&column_stats.min_value, &column_stats.max_value) {
        (Precision::Exact(min), Precision::Exact(max)) => {
            let no_nulls = match &column_stats.null_count {
                Precision::Exact(nulls) => *nulls == 0,
                _ => false,
            };
            if equal_values(min, max) && !is_null(min) && no_nulls {
                return if equal_types(&data_type_of(min), data_type) {
                    Some(clone_value(min))
                } else {
                    match cast_or(min, data_type, cast) {
                        Ok(value) => Some(value),
                        Err(_) => None,
                    }
                };
            }
        },
        _ => {},
    }
    match (num_rows, &column_stats.null_count) {
        (Some(num_rows), Precision::Exact(nulls)) => if *nulls == num_rows {
            match null_or(data_type, null) {
                Ok(value) => Some(value),
                Err(_) => None,
            }
        } else {
            None
        },
        _ => None,
    }
}

/// Values for the columns of a file, each column at most once.
#[derive(Debug)]
pub struct LiteralColumns {
    /// The names of the columns.
    names: Vec<String>,
    /// Their values.
    values: Vec<ScalarValue>,
}

impl View for LiteralColumns {
    type V = Map<Seq<char>, ScalarValue>;

    closed spec fn view(&self) -> Map<Seq<char>, ScalarValue> {
        Map::new(
            |name: Seq<char>| exists|i: int| 0 <= i < self.names@.len() && self.names@[i]@ == name,
            |name: Seq<char>|
                self.values@[choose|i: int| 0 <= i < self.names@.len() && self.names@[i]@ == name],
        )
    }
}

impl LiteralColumns {
    /// Each column has one value, and no column occurs twice.
    #[verifier::type_invariant]
    closed spec fn wf(&self) -> bool {
        &&& self.names@.len() == self.values@.len()
        &&& forall|i: int, j: int|
            0 <= i < j < self.names@.len() ==> self.names@[i]@ != self.names@[j]@
    }

    /// No values.
    pub fn new() -> (columns: Self)
        ensures
            columns@ == Map::<Seq<char>, ScalarValue>::empty(),
    {
        let columns = LiteralColumns { names: Vec::new(), values: Vec::new() };
        assert(columns@ =~= Map::<Seq<char>, ScalarValue>::empty());
        columns
    }

    /// The names of the columns.
    pub fn names(&self) -> (names: &Vec<String>)
        ensures
            forall|name: Seq<char>|
                self@.contains_key(name) <==> exists|i: int|
                    0 <= i < names@.len() && (#[trigger] names@[i])@ == name,
    {
        &self.names
    }

    /// The place of a column.
    fn position(&self, name: &String) -> (place: Option<usize>)
        ensures
            match place {
                Some(i) => i < self.names@.len() && self.names@[i as int]@ == name@,
                None => forall|i: int| 0 <= i < self.names@.len() ==> self.names@[i]@ != name@,
            },
    {
        let mut i: usize = 0;
        while i < self.names.len()
            invariant
                i <= self.names@.len(),
                forall|j: int| 0 <= j < i ==> self.names@[j]@ != name@,
            decreases self.names@.len() - i,
        {
            if self.names[i] == *name {
                return Some(i);
            }
            i += 1;
        }
        None
    }

    /// The value of the column `name`.
    pub fn get(&self, name: &String) -> (value: Option<&ScalarValue>)
        ensures
            match value {
                Some(value) => self@.contains_key(name@) && self@[name@] == *value,
                None => !self@.contains_key(name@),
            },
    {
        proof {
            use_type_invariant(self);
        }
        match self.position(name) {
            Some(i) => {
                assert(self.names@[i as int]@ == name@);
                Some(&self.values[i])
            },
            None => None,
        }
    }

    /// Takes the names and values out, and leaves none.
    fn take(&mut self) -> (lists: (Vec<String>, Vec<ScalarValue>))
        ensures
            lists.0 == old(self).names,
            lists.1 == old(self).values,
            final(self)@ == Map::<Seq<char>, ScalarValue>::empty(),
    {
        let mut taken = Self::new();
        std::mem::swap(self, &mut taken);
        (taken.names, taken.values)
    }

    /// Sets the value of the column `name`, in place of one that it had.
    pub fn insert(&mut self, name: String, value: ScalarValue)
        ensures
            final(self)@ == old(self)@.insert(name@, value),
    {
        proof {
            use_type_invariant(&*self);
        }
        let ghost names = self.names@;
        match self.position(&name) {
            Some(i) => {
                let (names_now, mut values_now) = self.take();
                values_now.set(i, value);
                *self = LiteralColumns { names: names_now, values: values_now };
                proof {
                    assert forall|key: Seq<char>| self@.contains_key(key) implies #[trigger] self@[key]
                        == old(self)@.insert(name@, value)[key] by {
                        if key == name@ {
                            assert(names[i as int]@ == key);
                        }
                    }
                    assert(self@ =~= old(self)@.insert(name@, value));
                }
            },
            None => {
                let (mut names_now, mut values_now) = self.take();
                names_now.push(name);
                values_now.push(value);
                *self = LiteralColumns { names: names_now, values: values_now };
                proof {
                    let last = names.len() as int;
                    assert(self.names@[last]@ == name@);
                    assert forall|key: Seq<char>|
                        self@.contains_key(key) == old(self)@.insert(name@, value).contains_key(
                            key,
                        ) by {
                        if old(self)@.contains_key(key) {
                            let i = choose|i: int| 0 <= i < names.len() && names[i]@ == key;
                            assert(self.names@[i]@ == key);
                        }
                        if self@.contains_key(key) && key != name@ {
                            let i = choose|i: int|
                                0 <= i < self.names@.len() && self.names@[i]@ == key;
                            assert(names[i]@ == key);
                        }
                    }
                    assert forall|key: Seq<char>| self@.contains_key(key) implies #[trigger] self@[key]
                        == old(self)@.insert(name@, value)[key] by {
                        if key == name@ {
                            assert(self.names@[last]@ == key);
                        } else {
                            let i = choose|i: int|
                                0 <= i < self.names@.len() && self.names@[i]@ == key;
                            assert(names[i]@ == key);
                        }
                    }
                    assert(self@ =~= old(self)@.insert(name@, value));
                }
            },
        }
    }
}

/// The values of a list, where a later one for a column goes before an earlier one.
pub open spec fn last_values(values: Seq<(Seq<char>, ScalarValue)>) -> Map<Seq<char>, ScalarValue>
    decreases values.len(),
{
    if values.len() == 0 {
        Map::empty()
    } else {
        last_values(values.drop_last()).insert(values.last().0, values.last().1)
    }
}

/// The columns of which `values` gives a value, with it, in schema order.
pub open spec fn named_values(
    values: Seq<Option<ScalarValue>>,
    fields: Seq<ColumnField>,
) -> Seq<(Seq<char>, ScalarValue)>
    decreases values.len(),
{
    if values.len() == 0 {
        Seq::empty()
    } else {
        let rest = named_values(values.drop_last(), fields);
        match values.last() {
            Some(value) => rest.push((fields[values.len() - 1].name@, value)),
            None => rest,
        }
    }
}

/// The number of rows, where it is known for sure.
pub open spec fn exact_rows(statistics: Statistics) -> Option<usize> {
    match statistics.num_rows {
        Precision::Exact(rows) => Some(rows),
        _ => None,
    }
}

/// The smaller of two lengths.
pub open spec fn shorter(a: nat, b: nat) -> nat {
    if a < b {
        a
    } else {
        b
    }
}

/// Statistics, where there are any.
pub open spec fn given(statistics: Option<&Statistics>) -> Option<Statistics> {
    match statistics {
        Some(statistics) => Some(*statistics),
        None => None,
    }
}

/// Whether `values` are the values of the columns that hold only one, one for each
/// column of which something is known.
pub open spec fn are_constants<C, N>(
    cast: C,
    null: N,
    statistics: Option<Statistics>,
    fields: Seq<ColumnField>,
    values: Seq<Option<ScalarValue>>,
) -> bool where
    C: Fn(&ScalarValue, &DataType) -> Result<ScalarValue, DataFusionError>,
    N: Fn(&DataType) -> Result<ScalarValue, DataFusionError>,
 {
    match statistics {
        Some(statistics) => {
            &&& values.len() == shorter(statistics.column_statistics@.len(), fields.len())
            &&& forall|i: int|
                0 <= i < values.len() ==> is_constant(
                    cast,
                    null,
                    statistics.column_statistics@[i],
                    exact_rows(statistics),
                    fields[i].data_type,
                    #[trigger] values[i],
                )
        },
        None => values.len() == 0,
    }
}

/// The values of the columns that hold only one.
fn find_constants<C, N>(
    statistics: Option<&Statistics>,
    fields: &Vec<ColumnField>,
    cast: &C,
    null: &N,
) -> (values: Vec<Option<ScalarValue>>) where
    C: Fn(&ScalarValue, &DataType) -> Result<ScalarValue, DataFusionError>,
    N: Fn(&DataType) -> Result<ScalarValue, DataFusionError>,

    requires
        forall|value: &ScalarValue, data_type: &DataType| #[trigger]
            call_requires(*cast, (value, data_type)),
        forall|data_type: &DataType| #[trigger] call_requires(*null, (data_type,)),
    ensures
        are_constants(*cast, *null, given(statistics), fields@, values@),
{
    let mut values: Vec<Option<ScalarValue>> = Vec::new();
    match statistics {
        None => {},
        Some(known) => {
            let num_rows = match &known.num_rows {
                Precision::Exact(rows) => Some(*rows),
                _ => None,
            };
            let mut i: usize = 0;
            while i < known.column_statistics.len() && i < fields.len()
                invariant
                    i <= shorter(known.column_statistics@.len(), fields@.len()),
                    values@.len() == i,
                    num_rows == exact_rows(*known),
                    forall|value: &ScalarValue, data_type: &DataType| #[trigger]
                        call_requires(*cast, (value, data_type)),
                    forall|data_type: &DataType| #[trigger] call_requires(*null, (data_type,)),
                    forall|j: int|
                        0 <= j < i ==> is_constant(
                            *cast,
                            *null,
                            known.column_statistics@[j],
                            num_rows,
                            fields@[j].data_type,
                            #[trigger] values@[j],
                        ),
                decreases fields@.len() - i,
            {
                let value = constant_value_from_stats(
                    &known.column_statistics[i],
                    num_rows,
                    &fields[i].data_type,
                    cast,
                    null,
                );
                values.push(value);
                i += 1;
            }
        },
    }
    values
}

impl LiteralColumns {
    /// Sets the values of the columns of which there is one, in place of those that
    /// they had.
    fn insert_all(&mut self, values: &Vec<Option<ScalarValue>>, fields: &Vec<ColumnField>)
        requires
            values@.len() <= fields@.len(),
        ensures
            final(self)@ == old(self)@.union_prefer_right(
                last_values(named_values(values@, fields@)),
            ),
    {
        let ghost before = self@;
        let mut i: usize = 0;
        proof {
            assert(values@.take(0) =~= Seq::<Option<ScalarValue>>::empty());
            assert(before =~= before.union_prefer_right(Map::empty()));
        }
        while i < values.len()
            invariant
                i <= values@.len() <= fields@.len(),
                self@ == before.union_prefer_right(
                    last_values(named_values(values@.take(i as int), fields@)),
                ),
            decreases values@.len() - i,
        {
            let ghost earlier = named_values(values@.take(i as int), fields@);
            assert(values@.take(i + 1).drop_last() =~= values@.take(i as int));
            match &values[i] {
                Some(value) => {
                    proof {
                        let now = earlier.push((fields@[i as int].name@, *value));
                        assert(now.drop_last() =~= earlier);
                        assert(before.union_prefer_right(last_values(earlier)).insert(
                            fields@[i as int].name@,
                            *value,
                        ) =~= before.union_prefer_right(last_values(now)));
                    }
                    self.insert(fields[i].name.clone(), clone_value(value));
                },
                None => {},
            }
            i += 1;
        }
        assert(values@.take(i as int) =~= values@);
    }
}

/// The values of the columns that hold only one, by their names. `cast` and `null` are
/// those of [`constant_value_from_stats`].
pub fn constant_columns_from_stats<C, N>(
    statistics: Option<&Statistics>,
    file_schema: &Vec<ColumnField>,
    cast: &C,
    null: &N,
) -> (constants: LiteralColumns) where
    C: Fn(&ScalarValue, &DataType) -> Result<ScalarValue, DataFusionError>,
    N: Fn(&DataType) -> Result<ScalarValue, DataFusionError>,

    requires
        forall|value: &ScalarValue, data_type: &DataType| #[trigger]
            call_requires(*cast, (value, data_type)),
        forall|data_type: &DataType| #[trigger] call_requires(*null, (data_type,)),
    ensures
        exists|values: Seq<Option<ScalarValue>>|
            {
                &&& #[trigger] are_constants(
                    *cast,
                    *null,
                    given(statistics),
                    file_schema@,
                    values,
                )
                &&& constants@ == last_values(named_values(values, file_schema@))
            },
{
    let values = find_constants(statistics, file_schema, cast, null);
    let mut constants = LiteralColumns::new();
    constants.insert_all(&values, file_schema);
    proof {
        let found = last_values(named_values(values@, file_schema@));
        assert(Map::<Seq<char>, ScalarValue>::empty().union_prefer_right(found) =~= found);
        assert(are_constants(*cast, *null, given(statistics), file_schema@, values@));
    }
    constants
}

/// The partition columns with their values.
pub open spec fn partition_pairs(
    names: Seq<String>,
    values: Seq<ScalarValue>,
) -> Seq<(Seq<char>, ScalarValue)> {
    Seq::new(shorter(names.len(), values.len()), |i: int| (names[i]@, values[i]))
}

/// The columns that can be replaced by a value while a file is read: the partition
/// columns, and those of which statistics show that they hold only one value. Where
/// there are both for a column, it is the value from the statistics. `cast` and `null`
/// are those of [`constant_value_from_stats`].
pub fn literal_columns<C, N>(
    partition_columns: &Vec<String>,
    partition_values: &Vec<ScalarValue>,
    statistics: Option<&Statistics>,
    file_schema: &Vec<ColumnField>,
    cast: &C,
    null: &N,
) -> (literals: LiteralColumns) where
    C: Fn(&ScalarValue, &DataType) -> Result<ScalarValue, DataFusionError>,
    N: Fn(&DataType) -> Result<ScalarValue, DataFusionError>,

    requires
        forall|value: &ScalarValue, data_type: &DataType| #[trigger]
            call_requires(*cast, (value, data_type)),
        forall|data_type: &DataType| #[trigger] call_requires(*null, (data_type,)),
    ensures
        exists|values: Seq<Option<ScalarValue>>|
            {
                &&& #[trigger] are_constants(
                    *cast,
                    *null,
                    given(statistics),
                    file_schema@,
                    values,
                )
                &&& literals@ == last_values(
                    partition_pairs(partition_columns@, partition_values@),
                ).union_prefer_right(last_values(named_values(values, file_schema@)))
            },
{
    let mut literals = LiteralColumns::new();
    let ghost pairs = partition_pairs(partition_columns@, partition_values@);
    let mut i: usize = 0;
    proof {
        assert(pairs.take(0) =~= Seq::<(Seq<char>, ScalarValue)>::empty());
    }
    while i < partition_columns.len() && i < partition_values.len()
        invariant
            i <= pairs.len(),
            pairs == partition_pairs(partition_columns@, partition_values@),
            literals@ == last_values(pairs.take(i as int)),
        decreases partition_columns@.len() - i,
    {
        proof {
            assert(pairs.take(i + 1).drop_last() =~= pairs.take(i as int));
        }
        literals.insert(partition_columns[i].clone(), clone_value(&partition_values[i]));
        i += 1;
    }
    proof {
        assert(pairs.take(i as int) =~= pairs);
    }
    let values = find_constants(statistics, file_schema, cast, null);
    literals.insert_all(&values, file_schema);
    assert(are_constants(*cast, *null, given(statistics), file_schema@, values@));
    literals
}

/// The last value of a list for a name is what counts, and only names of the list have one.
pub proof fn lemma_last_values(values: Seq<(Seq<char>, ScalarValue)>)
    ensures
        forall|name: Seq<char>|
            #[trigger] last_values(values).contains_key(name) <==> exists|i: int|
                0 <= i < values.len() && (#[trigger] values[i]).0 == name,
        forall|i: int|
            0 <= i < values.len() && (forall|j: int|
                i < j < values.len() ==> (#[trigger] values[j]).0 != values[i].0)
                ==> #[trigger] last_values(values)[values[i].0] == values[i].1,
    decreases values.len(),
{
    if values.len() > 0 {
        let front = values.drop_last();
        lemma_last_values(front);
        assert forall|name: Seq<char>|
            #[trigger] last_values(values).contains_key(name) == exists|i: int|
                0 <= i < values.len() && (#[trigger] values[i]).0 == name by {
            if last_values(values).contains_key(name) {
                if name == values.last().0 {
                    assert(values[values.len() - 1].0 == name);
                } else {
                    assert(last_values(front).contains_key(name));
                    let i = choose|i: int| 0 <= i < front.len() && (#[trigger] front[i]).0 == name;
                    assert(values[i].0 == name);
                }
            }
            if exists|i: int| 0 <= i < values.len() && (#[trigger] values[i]).0 == name {
                let i = choose|i: int| 0 <= i < values.len() && (#[trigger] values[i]).0 == name;
                if i < front.len() {
                    assert(front[i].0 == name);
                    assert(last_values(front).contains_key(name));
                }
            }
        }
        assert forall|i: int|
            0 <= i < values.len() && (forall|j: int|
                i < j < values.len() ==> (#[trigger] values[j]).0
                    != values[i].0) implies #[trigger] last_values(values)[values[i].0]
            == values[i].1 by {
            if i < front.len() {
                assert(values[values.len() - 1].0 != values[i].0);
                assert forall|j: int| i < j < front.len() implies (#[trigger] front[j]).0
                    != front[i].0 by {
                    assert(values[j].0 != values[i].0);
                }
                assert(last_values(front)[front[i].0] == front[i].1);
            }
        }
    }
}

/// A constant that is named is that of the column at `i`.
proof fn lemma_named_from(
    values: Seq<Option<ScalarValue>>,
    fields: Seq<ColumnField>,
    k: int,
) -> (i: int)
    requires
        0 <= k < named_values(values, fields).len(),
    ensures
        0 <= i < values.len(),
        fields[i].name@ == named_values(values, fields)[k].0,
        values[i] == Some(named_values(values, fields)[k].1),
    decreases values.len(),
{
    let front = values.drop_last();
    if k < named_values(front, fields).len() {
        lemma_named_from(front, fields, k)
    } else {
        values.len() - 1
    }
}

/// The constant of the column at `i` is named.
proof fn lemma_named_at(
    values: Seq<Option<ScalarValue>>,
    fields: Seq<ColumnField>,
    i: int,
) -> (k: int)
    requires
        0 <= i < values.len(),
        values[i] is Some,
    ensures
        0 <= k < named_values(values, fields).len(),
        named_values(values, fields)[k] == (fields[i].name@, values[i]->0),
    decreases values.len(),
{
    if i < values.len() - 1 {
        lemma_named_at(values.drop_last(), fields, i)
    } else {
        named_values(values, fields).len() - 1
    }
}

/// Each partition column is replaced by its own partition value: the column at `i` by the
/// value at `i`, where no later one and no constant column of the file has its name.
pub proof fn law_partition_columns_get_their_own_values<C, N>(
    partition_columns: Seq<String>,
    partition_values: Seq<ScalarValue>,
    statistics: Option<Statistics>,
    file_schema: Seq<ColumnField>,
    cast: C,
    null: N,
    constants: Seq<Option<ScalarValue>>,
    literals: Map<Seq<char>, ScalarValue>,
    i: int,
) where
    C: Fn(&ScalarValue, &DataType) -> Result<ScalarValue, DataFusionError>,
    N: Fn(&DataType) -> Result<ScalarValue, DataFusionError>,

    requires
        are_constants(cast, null, statistics, file_schema, constants),
        literals == last_values(
            partition_pairs(partition_columns, partition_values),
        ).union_prefer_right(last_values(named_values(constants, file_schema))),
        0 <= i < partition_columns.len(),
        i < partition_values.len(),
        forall|j: int|
            i < j < partition_columns.len() ==> (#[trigger] partition_columns[j])@
                != partition_columns[i]@,
        forall|f: int|
            0 <= f < constants.len() && constants[f] is Some ==> (#[trigger] file_schema[f]).name@
                != partition_columns[i]@,
    ensures
        literals.contains_key(partition_columns[i]@),
        literals[partition_columns[i]@] == partition_values[i],
{
    let pairs = partition_pairs(partition_columns, partition_values);
    let named = named_values(constants, file_schema);
    let name = partition_columns[i]@;
    lemma_last_values(pairs);
    lemma_last_values(named);
    assert(pairs[i].0 == name);
    assert forall|j: int| i < j < pairs.len() implies (#[trigger] pairs[j]).0 != pairs[i].0 by {
        assert(partition_columns[j]@ != name);
    }
    assert(last_values(pairs)[pairs[i].0] == pairs[i].1);
    if last_values(named).contains_key(name) {
        let k = choose|k: int| 0 <= k < named.len() && (#[trigger] named[k]).0 == name;
        let f = lemma_named_from(constants, file_schema, k);
        assert(file_schema[f].name@ != name);
    }
}

/// A column of the file that holds only one value is replaced by it, also where it is a
/// partition column, and a column that is neither is not replaced. No two columns of the
/// file have one name here.
pub proof fn law_constant_columns_get_their_only_value<C, N>(
    partition_columns: Seq<String>,
    partition_values: Seq<ScalarValue>,
    statistics: Option<Statistics>,
    file_schema: Seq<ColumnField>,
    cast: C,
    null: N,
    constants: Seq<Option<ScalarValue>>,
    literals: Map<Seq<char>, ScalarValue>,
    i: int,
) where
    C: Fn(&ScalarValue, &DataType) -> Result<ScalarValue, DataFusionError>,
    N: Fn(&DataType) -> Result<ScalarValue, DataFusionError>,

    requires
        are_constants(cast, null, statistics, file_schema, constants),
        literals == last_values(
            partition_pairs(partition_columns, partition_values),
        ).union_prefer_right(last_values(named_values(constants, file_schema))),
        0 <= i < file_schema.len(),
        forall|j: int, k: int|
            0 <= j < k < file_schema.len() ==> (#[trigger] file_schema[j]).name@ != (
            #[trigger] file_schema[k]).name@,
    ensures
        statistics is Some && i < statistics->0.column_statistics@.len() ==> {
            let known = statistics->0;
            &&& constants[i] matches Some(value) ==> literals.contains_key(file_schema[i].name@)
                && literals[file_schema[i].name@] == value
            &&& is_constant(
                cast,
                null,
                known.column_statistics@[i],
                match known.num_rows {
                    Precision::Exact(rows) => Some(rows),
                    _ => None,
                },
                file_schema[i].data_type,
                constants[i],
            )
        },
        (statistics is None || i >= statistics->0.column_statistics@.len() || constants[i] is None)
            && (forall|p: int|
            0 <= p < partition_columns.len() ==> (#[trigger] partition_columns[p])@
                != file_schema[i].name@) ==> !literals.contains_key(file_schema[i].name@),
{
    let pairs = partition_pairs(partition_columns, partition_values);
    let named = named_values(constants, file_schema);
    let name = file_schema[i].name@;
    lemma_last_values(pairs);
    lemma_last_values(named);
    assert forall|k: int| 0 <= k < named.len() && (#[trigger] named[k]).0 == name implies i
        < constants.len() && constants[i] == Some(named[k].1) by {
        let f = lemma_named_from(constants, file_schema, k);
        if f != i {
            assert(file_schema[f].name@ != file_schema[i].name@);
        }
    }
    if i < constants.len() && constants[i] is Some {
        let k = lemma_named_at(constants, file_schema, i);
        assert(named[k].0 == name);
        assert(last_values(named).contains_key(name));
        lemma_last_of_one(named, name, constants[i]->0);
    }
    if last_values(pairs).contains_key(name) {
        let p = choose|p: int| 0 <= p < pairs.len() && (#[trigger] pairs[p]).0 == name;
        assert(partition_columns[p]@ == name);
    }
}

/// Where a list has only one value for a name, that is its value.
proof fn lemma_last_of_one(
    values: Seq<(Seq<char>, ScalarValue)>,
    name: Seq<char>,
    value: ScalarValue,
)
    requires
        last_values(values).contains_key(name),
        forall|k: int|
            0 <= k < values.len() && (#[trigger] values[k]).0 == name ==> values[k].1 == value,
    ensures
        last_values(values)[name] == value,
    decreases values.len(),
{
    if values.len() > 0 {
        if values.last().0 == name {
            assert(values[values.len() - 1].0 == name);
        } else {
            let front = values.drop_last();
            assert forall|k: int| 0 <= k < front.len() && (#[trigger] front[k]).0 == name implies
                front[k].1 == value by {
                assert(values[k].0 == name);
            }
            lemma_last_of_one(front, name, value);
        }
    }
}

/// A column is taken to be constant only where its statistics are sure of it: its least and
/// its greatest value are equal and it has no null, or every row of it is null. Where they
/// are, and the value is of the type of the column, it is that value.
pub proof fn law_constants_are_sure<C, N>(
    cast: C,
    null: N,
    column_stats: ColumnStatistics,
    num_rows: Option<usize>,
    data_type: DataType,
    value: Option<ScalarValue>,
) where
    C: Fn(&ScalarValue, &DataType) -> Result<ScalarValue, DataFusionError>,
    N: Fn(&DataType) -> Result<ScalarValue, DataFusionError>,

    requires
        is_constant(cast, null, column_stats, num_rows, data_type, value),
    ensures
        value is Some ==> {
            ||| column_stats.min_value is Exact && column_stats.max_value is Exact && values_equal(
                column_stats.min_value->Exact_0,
                column_stats.max_value->Exact_0,
            ) && !value_is_null(column_stats.min_value->Exact_0) && column_stats.null_count
                == Precision::Exact(0usize)
            ||| num_rows is Some && column_stats.null_count == Precision::Exact(num_rows->0)
        },
        column_stats.null_count matches Precision::Exact(nulls) && nulls > 0 && num_rows
            != Some(nulls) ==> value is None,
        !(column_stats.null_count is Exact) ==> value is None,
        (column_stats.min_value matches Precision::Exact(min) && column_stats.max_value matches
            Precision::Exact(max) && values_equal(min, max) && !value_is_null(min)
            && column_stats.null_count == Precision::Exact(0usize) && types_equal(
            value_type(min),
            data_type,
        )) ==> value == Some(column_stats.min_value->Exact_0),
        num_rows is Some && num_rows->0 > 0 && column_stats.null_count == Precision::Exact(
            num_rows->0,
        ) ==> nulls_to(null, data_type, value),
        num_rows is Some && column_stats.null_count == Precision::Exact(num_rows->0) && !(
        column_stats.min_value is Exact && column_stats.max_value is Exact && values_equal(
            column_stats.min_value->Exact_0,
            column_stats.max_value->Exact_0,
        ) && !value_is_null(column_stats.min_value->Exact_0)) ==> nulls_to(null, data_type, value),
        (column_stats.min_value matches Precision::Exact(min) && column_stats.max_value matches
            Precision::Exact(max) && values_equal(min, max) && !value_is_null(min)
            && column_stats.null_count == Precision::Exact(0usize) && !types_equal(
            value_type(min),
            data_type,
        )) ==> casts_to(cast, column_stats.min_value->Exact_0, data_type, value),
{
}

} // verus!
