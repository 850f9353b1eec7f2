//! Casting values and making nulls.
//!
//! The query engine casts values and makes nulls. It panics on some values and types
//! that are not well formed, such as a list of negative length inside of a struct. It is
//! asked here for what it is known to answer; for anything else the caller says how a
//! value is cast or a null is made.

use crate::constants::{cast_value, data_type_of, new_null, null_of, value_cast, value_type};
use arrow::datatypes::DataType;
use datafusion_common::{DataFusionError, ScalarValue};
use vstd::prelude::*;

verus! {

/// What `DataType::is_integer` says of a type.
pub uninterp spec fn of_integers(data_type: DataType) -> bool;

/// What `DataType::is_floating` says of a type.
pub uninterp spec fn of_floats(data_type: DataType) -> bool;

/// What `DataType::is_string` says of a type.
pub uninterp spec fn of_strings(data_type: DataType) -> bool;

/// What `DataType::is_nested` says of a type.
pub uninterp spec fn is_nested(data_type: DataType) -> bool;

/// The types of the keys and the values of a type of dictionaries.
pub uninterp spec fn dictionary_types(data_type: DataType) -> Option<(DataType, DataType)>;

/// What `ScalarValue::try_as_str` gives for a value that is a string and not null.
pub uninterp spec fn value_text(value: ScalarValue) -> Option<Seq<char>>;

/// `DataType::is_integer`: whether the values are integers.
#[verifier::external_body]
fn has_integers(data_type: &DataType) -> (integers: bool)
    ensures
        integers == of_integers(*data_type),
{
    data_type.is_integer()
}

/// `DataType::is_floating`: whether the values are floating-point numbers.
#[verifier::external_body]
fn has_floats(data_type: &DataType) -> (floats: bool)
    ensures
        floats == of_floats(*data_type),
{
    data_type.is_floating()
}

/// `DataType::is_string`: whether the values are strings.
#[verifier::external_body]
fn has_strings(data_type: &DataType) -> (strings: bool)
    ensures
        strings == of_strings(*data_type),
{
    data_type.is_string()
}

/// `DataType::is_nested`: whether the values are lists, structs, maps or unions, or the
/// values of a dictionary or of runs are.
#[verifier::external_body]
fn has_nested(data_type: &DataType) -> (nested: bool)
    ensures
        nested == is_nested(*data_type),
{
    data_type.is_nested()
}

/// Tells `DataType::Dictionary` apart, and hands out its types.
#[verifier::external_body]
fn types_of_dictionary(data_type: &DataType) -> (types: Option<(DataType, DataType)>)
    ensures
        types == dictionary_types(*data_type),
{
    match data_type {
        DataType::Dictionary(key, value) => Some((key.as_ref().clone(), value.as_ref().clone())),
        _ => None,
    }
}

/// `ScalarValue::try_as_str`: the text of a string, also of one in a dictionary.
#[verifier::external_body]
fn text_of(value: &ScalarValue) -> (text: Option<&str>)
    ensures
        match text {
            Some(text) => value_text(*value) == Some(text@),
            None => value_text(*value) is None,
        },
{
    value.try_as_str().flatten()
}

/// Whether the values of a type are numbers or strings.
pub open spec fn is_basic(data_type: DataType) -> bool {
    of_integers(data_type) || of_floats(data_type) || of_strings(data_type)
}

/// Whether a text is not too long to be held by an array of strings.
pub open spec fn fits_array(text: Seq<char>) -> bool {
    vstd::utf8::encode_utf8(text).len() <= i32::MAX
}

/// Whether the query engine is known to answer when it is asked to cast a value to a
/// type: numbers and strings are cast to numbers, to strings and to dictionaries of
/// these.
pub open spec fn castable(value: ScalarValue, data_type: DataType) -> bool {
    &&& is_basic(value_type(value))
    &&& value_text(value) matches Some(text) ==> fits_array(text)
    &&& match dictionary_types(data_type) {
        Some((key, values)) => of_integers(key) && is_basic(values),
        None => is_basic(data_type),
    }
}

/// Whether the query engine is known to answer when it is asked for a null of a type:
/// its values have no parts.
pub open spec fn nullable(data_type: DataType) -> bool {
    !is_nested(data_type)
}

/// Whether the values of a type are numbers or strings.
fn has_basic(data_type: &DataType) -> (basic: bool)
    ensures
        basic == is_basic(*data_type),
{
    has_integers(data_type) || has_floats(data_type) || has_strings(data_type)
}

/// Whether the query engine is known to answer when it is asked to cast.
fn is_castable(value: &ScalarValue, data_type: &DataType) -> (known: bool)
    ensures
        known == castable(*value, *data_type),
{
    let fits = match text_of(value) {
        Some(text) => text.as_bytes().len() <= i32::MAX as usize,
        None => true,
    };
    let taken = match types_of_dictionary(data_type) {
        Some((key, values)) => has_integers(&key) && has_basic(&values),
        None => has_basic(data_type),
    };
    fits && taken && has_basic(&data_type_of(value))
}

/// What was made, where it did not fail.
pub open spec fn made_of<T, E>(result: Result<T, E>) -> Option<T> {
    match result {
        Ok(made) => Some(made),
        Err(_) => None,
    }
}

/// Whether `made` is what comes of casting `value` to `data_type`, `None` where it
/// fails: what the query engine gives where it is known to answer, and else what `cast`
/// may.
pub open spec fn casts_to<C>(
    cast: C,
    value: ScalarValue,
    data_type: DataType,
    made: Option<ScalarValue>,
) -> bool where C: Fn(&ScalarValue, &DataType) -> Result<ScalarValue, DataFusionError> {
    if castable(value, data_type) {
        made == value_cast(value, data_type)
    } else {
        exists|result: Result<ScalarValue, DataFusionError>| #[trigger]
            call_ensures(cast, (&value, &data_type), result) && made == made_of(result)
    }
}

/// Whether `made` is what comes of making a null of `data_type`, `None` where it fails:
/// what the query engine gives where it is known to answer, and else what `null` may.
pub open spec fn nulls_to<N>(null: N, data_type: DataType, made: Option<ScalarValue>) -> bool where
    N: Fn(&DataType) -> Result<ScalarValue, DataFusionError>,
 {
    if nullable(data_type) {
        made == null_of(data_type)
    } else {
        exists|result: Result<ScalarValue, DataFusionError>| #[trigger]
            call_ensures(null, (&data_type,), result) && made == made_of(result)
    }
}

/// Casts `value` to `data_type`, by `cast` where the query engine is not known to answer.
pub fn cast_or<C>(value: &ScalarValue, data_type: &DataType, cast: &C) -> (made: Result<
    ScalarValue,
    DataFusionError,
>) where C: Fn(&ScalarValue, &DataType) -> Result<ScalarValue, DataFusionError>
    requires
        castable(*value, *data_type) || call_requires(*cast, (value, data_type)),
    ensures
        casts_to(*cast, *value, *data_type, made_of(made)),
{
    if is_castable(value, data_type) {
        cast_value(value, data_type)
    } else {
        cast(value, data_type)
    }
}

/// Makes a null of `data_type`, by `null` where the query engine is not known to answer.
pub fn null_or<N>(data_type: &DataType, null: &N) -> (made: Result<
    ScalarValue,
    DataFusionError,
>) where N: Fn(&DataType) -> Result<ScalarValue, DataFusionError>
    requires
        nullable(*data_type) || call_requires(*null, (data_type,)),
    ensures
        nulls_to(*null, *data_type, made_of(made)),
{
    if !has_nested(data_type) {
        new_null(data_type)
    } else {
        null(data_type)
    }
}

/// Where the caller casts and makes nulls as the query engine does, it does not matter which
/// of them was asked: what comes out is what the query engine gives.
pub proof fn law_values_are_made_as_the_query_engine_does<C, N>(
    cast: C,
    null: N,
    value: ScalarValue,
    data_type: DataType,
    cast_made: Option<ScalarValue>,
    null_made: Option<ScalarValue>,
) where
    C: Fn(&ScalarValue, &DataType) -> Result<ScalarValue, DataFusionError>,
    N: Fn(&DataType) -> Result<ScalarValue, DataFusionError>,

    requires
        casts_to(cast, value, data_type, cast_made),
        nulls_to(null, data_type, null_made),
        forall|result: Result<ScalarValue, DataFusionError>| #[trigger]
            call_ensures(cast, (&value, &data_type), result) ==> match result {
                Ok(made) => value_cast(value, data_type) == Some(made),
                Err(_) => value_cast(value, data_type) is None,
            },
        forall|result: Result<ScalarValue, DataFusionError>| #[trigger]
            call_ensures(null, (&data_type,), result) ==> match result {
                Ok(made) => null_of(data_type) == Some(made),
                Err(_) => null_of(data_type) is None,
            },
    ensures
        cast_made == value_cast(value, data_type),
        null_made == null_of(data_type),
{
}

/// Numbers and strings that an array of strings can hold are cast to numbers and strings,
/// and to dictionaries of these, by the query engine, and nulls of types without parts are
/// made by it: what the caller would do does not matter then. Only else does it decide.
pub proof fn law_the_query_engine_is_asked_where_it_answers<C, N>(
    cast: C,
    null: N,
    value: ScalarValue,
    data_type: DataType,
    cast_made: Option<ScalarValue>,
    null_made: Option<ScalarValue>,
) where
    C: Fn(&ScalarValue, &DataType) -> Result<ScalarValue, DataFusionError>,
    N: Fn(&DataType) -> Result<ScalarValue, DataFusionError>,

    requires
        casts_to(cast, value, data_type, cast_made),
        nulls_to(null, data_type, null_made),
    ensures
        ({
            let from = value_type(value);
            let to = match dictionary_types(data_type) {
                Some((_, values)) => values,
                None => data_type,
            };
            let known = {
                &&& of_integers(from) || of_floats(from) || of_strings(from)
                &&& of_integers(to) || of_floats(to) || of_strings(to)
                &&& dictionary_types(data_type) is Some ==> of_integers(
                    (dictionary_types(data_type)->0).0,
                )
                &&& value_text(value) is Some ==> vstd::utf8::encode_utf8(
                    value_text(value)->0,
                ).len() <= i32::MAX
            };
            &&& known ==> cast_made == value_cast(value, data_type)
            &&& !known ==> exists|result: Result<ScalarValue, DataFusionError>| #[trigger]
                call_ensures(cast, (&value, &data_type), result) && match result {
                    Ok(made) => cast_made == Some(made),
                    Err(_) => cast_made is None,
                }
        }),
        !is_nested(data_type) ==> null_made == null_of(data_type),
        is_nested(data_type) ==> exists|result: Result<ScalarValue, DataFusionError>| #[trigger]
            call_ensures(null, (&data_type,), result) && match result {
                Ok(made) => null_made == Some(made),
                Err(_) => null_made is None,
            },
{
}

} // verus!
