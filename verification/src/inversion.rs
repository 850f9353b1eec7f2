//! Turning a predicate round, to prove that it holds of every row.
//!
//! Where the statistics of a row group rule out every row that the inverse of a
//! predicate would keep, all of its rows match the predicate. A row of which
//! the predicate is `NULL` does not match it, so the inverse also keeps the rows
//! in which a column of the predicate is null.

use vstd::prelude::*;

verus! {

/// A column that a predicate refers to.
#[derive(Debug)]
pub struct PredicateColumn {
    /// Position of the column in the file schema.
    pub index: usize,
    /// Name of the column.
    pub name: String,
}

/// A [`PredicateColumn`] with its name as characters.
#[verifier::ext_equal]
pub struct ColumnModel {
    /// Position of the column in the file schema.
    pub index: usize,
    /// Name of the column.
    pub name: Seq<char>,
}

impl View for PredicateColumn {
    type V = ColumnModel;

    open spec fn view(&self) -> ColumnModel {
        ColumnModel { index: self.index, name: self.name@ }
    }
}

impl Clone for PredicateColumn {
    fn clone(&self) -> (copy: Self)
        ensures
            copy@ == self@,
    {
        PredicateColumn { index: self.index, name: self.name.clone() }
    }
}

/// The inverse of a predicate.
#[derive(Debug)]
pub enum InvertedPredicate {
    /// `NOT` the predicate.
    Not,
    /// An inverse, or that a column is null.
    OrIsNull(Box<InvertedPredicate>, PredicateColumn),
}

/// An [`InvertedPredicate`] with its columns as models.
pub enum InvertedModel {
    /// `NOT` the predicate.
    Not,
    /// An inverse, or that a column is null.
    OrIsNull(Box<InvertedModel>, ColumnModel),
}

impl InvertedPredicate {
    /// The model of the inverse.
    pub open spec fn model(&self) -> InvertedModel
        decreases self,
    {
        match *self {
            InvertedPredicate::Not => InvertedModel::Not,
            InvertedPredicate::OrIsNull(inner, column) => InvertedModel::OrIsNull(
                Box::new(inner.model()),
                column@,
            ),
        }
    }
}

/// `NOT` the predicate, or any of `columns` is null, with the first column
/// innermost.
pub open spec fn inverse_over(columns: Seq<ColumnModel>) -> InvertedModel
    decreases columns.len(),
{
    if columns.len() == 0 {
        InvertedModel::Not
    } else {
        InvertedModel::OrIsNull(Box::new(inverse_over(columns.drop_last())), columns.last())
    }
}

/// Whether `a` comes before `b` byte by byte, with a proper prefix first.
pub open spec fn bytes_before(a: Seq<u8>, b: Seq<u8>) -> bool
    decreases a.len(),
{
    if b.len() == 0 {
        false
    } else if a.len() == 0 {
        true
    } else if a[0] != b[0] {
        a[0] < b[0]
    } else {
        bytes_before(a.drop_first(), b.drop_first())
    }
}

/// Whether a column comes before another: by position, and by the bytes of the
/// name where the positions are equal.
pub open spec fn column_before(a: ColumnModel, b: ColumnModel) -> bool {
    a.index < b.index || (a.index == b.index && bytes_before(
        vstd::utf8::encode_utf8(a.name),
        vstd::utf8::encode_utf8(b.name),
    ))
}

/// Whether no column comes before one that precedes it in the list.
pub open spec fn columns_in_order(columns: Seq<ColumnModel>) -> bool {
    forall|j: int, k: int|
        0 <= j < k < columns.len() ==> !column_before(
            #[trigger] columns[k],
            #[trigger] columns[j],
        )
}

/// Two texts are told apart by their bytes, and only one of two comes first.
pub proof fn lemma_bytes_order(a: Seq<u8>, b: Seq<u8>, c: Seq<u8>)
    ensures
        !(bytes_before(a, b) && bytes_before(b, a)),
        !bytes_before(a, b) && !bytes_before(b, a) ==> a == b,
        bytes_before(a, b) && bytes_before(b, c) ==> bytes_before(a, c),
    decreases a.len(),
{
    if a.len() > 0 && b.len() > 0 {
        if c.len() > 0 {
            lemma_bytes_order(a.drop_first(), b.drop_first(), c.drop_first());
        } else {
            lemma_bytes_order(a.drop_first(), b.drop_first(), c);
        }
        if a[0] == b[0] && a.drop_first() == b.drop_first() {
            assert(a =~= seq![a[0]] + a.drop_first());
            assert(b =~= seq![b[0]] + b.drop_first());
        }
    } else if a.len() == 0 && b.len() == 0 {
        assert(a =~= b);
    }
}

/// Where neither of two columns comes before the other they are the same
/// column, and to come before is transitive.
pub proof fn lemma_column_order(a: ColumnModel, b: ColumnModel, c: ColumnModel)
    ensures
        !(column_before(a, b) && column_before(b, a)),
        column_before(a, b) && column_before(b, c) ==> column_before(a, c),
        !column_before(a, b) && !column_before(b, a) ==> a == b,
        !column_before(b, a) && !column_before(c, b) ==> !column_before(c, a),
{
    let (x, y, z) = (
        vstd::utf8::encode_utf8(a.name),
        vstd::utf8::encode_utf8(b.name),
        vstd::utf8::encode_utf8(c.name),
    );
    lemma_bytes_order(x, y, z);
    lemma_bytes_order(z, x, y);
    lemma_bytes_order(y, z, x);
    lemma_bytes_order(z, y, x);
    lemma_bytes_order(y, x, z);
    lemma_bytes_order(x, z, y);
    if x == y {
        vstd::utf8::encode_utf8_decode_utf8(a.name);
        vstd::utf8::encode_utf8_decode_utf8(b.name);
    }
}

/// Whether `a` comes before `b` byte by byte, with a proper prefix first.
fn is_bytes_before(a: &[u8], b: &[u8]) -> (before: bool)
    ensures
        before == bytes_before(a@, b@),
{
    let mut i: usize = 0;
    proof {
        assert(a@.skip(0) =~= a@);
        assert(b@.skip(0) =~= b@);
    }
    while i < a.len() && i < b.len() && a[i] == b[i]
        invariant
            i <= a.len(),
            i <= b.len(),
            bytes_before(a@, b@) == bytes_before(a@.skip(i as int), b@.skip(i as int)),
        decreases a.len() - i,
    {
        proof {
            assert(a@.skip(i as int).drop_first() =~= a@.skip(i + 1));
            assert(b@.skip(i as int).drop_first() =~= b@.skip(i + 1));
        }
        i += 1;
    }
    if i >= b.len() {
        false
    } else if i >= a.len() {
        true
    } else {
        a[i] < b[i]
    }
}

/// Whether a column comes before another.
fn is_column_before(a: &PredicateColumn, b: &PredicateColumn) -> (before: bool)
    ensures
        before == column_before(a@, b@),
{
    a.index < b.index || (a.index == b.index && is_bytes_before(
        a.name.as_str().as_bytes(),
        b.name.as_str().as_bytes(),
    ))
}

/// Whether all columns of a predicate are columns of the file schema.
pub open spec fn columns_known(columns: Seq<PredicateColumn>, nullable: Seq<bool>) -> bool {
    forall|i: int| 0 <= i < columns.len() ==> (#[trigger] columns[i]).index < nullable.len()
}

/// The models of a list of columns.
pub open spec fn column_models(columns: Seq<PredicateColumn>) -> Seq<ColumnModel> {
    columns.map_values(|column: PredicateColumn| column@)
}

/// The columns of `columns` that can be null, in the order they are given.
pub open spec fn nullable_columns(columns: Seq<ColumnModel>, nullable: Seq<bool>) -> Seq<
    ColumnModel,
>
    decreases columns.len(),
{
    if columns.len() == 0 {
        Seq::empty()
    } else {
        let rest = nullable_columns(columns.drop_last(), nullable);
        if nullable[columns.last().index as int] {
            rest.push(columns.last())
        } else {
            rest
        }
    }
}

/// Adds a column to an ordered list of columns.
fn insert_column(columns: &mut Vec<PredicateColumn>, column: PredicateColumn)
    requires
        columns_in_order(column_models(old(columns)@)),
    ensures
        columns_in_order(column_models(final(columns)@)),
        column_models(final(columns)@).to_multiset() == column_models(
            old(columns)@,
        ).to_multiset().insert(column@),
{
    let ghost before = column_models(columns@);
    let ghost added = column@;
    let mut at: usize = columns.len();
    while at > 0 && is_column_before(&column, &columns[at - 1])
        invariant
            at <= columns.len(),
            column_models(columns@) == before,
            column@ == added,
            columns_in_order(before),
            forall|k: int| at <= k < before.len() ==> column_before(added, #[trigger] before[k]),
        decreases at,
    {
        proof {
            assert(before[at - 1] == columns@[at - 1]@);
        }
        at -= 1;
    }
    proof {
        if at > 0 {
            assert(before[at - 1] == columns@[at - 1]@);
        }
    }
    columns.insert(at, column);
    proof {
        let after = column_models(columns@);
        assert(after =~= before.insert(at as int, added));
        before.to_multiset_ensures();
        vstd::seq_lib::to_multiset_insert(before, at as int, added);
        assert forall|j: int, k: int| 0 <= j < k < after.len() implies !column_before(
            #[trigger] after[k],
            #[trigger] after[j],
        ) by {
            if j == at {
                lemma_column_order(added, before[k - 1], added);
            } else if k == at {
                if at > 0 {
                    if j < at - 1 {
                        assert(!column_before(before[at - 1], before[j]));
                    }
                    lemma_column_order(before[j], before[at - 1], added);
                }
            } else {
                let j0 = if j < at {
                    j
                } else {
                    j - 1
                };
                let k0 = if k < at {
                    k
                } else {
                    k - 1
                };
                assert(after[j] == before[j0] && after[k] == before[k0]);
            }
        }
    }
}

/// The columns of `columns` that can be null, in order. `nullable` says of each
/// column of the file schema whether it can be null.
pub fn null_checked_columns(columns: &Vec<PredicateColumn>, nullable: &[bool]) -> (checked: Vec<
    PredicateColumn,
>)
    requires
        columns_known(columns@, nullable@),
    ensures
        columns_in_order(column_models(checked@)),
        column_models(checked@).to_multiset() == nullable_columns(
            column_models(columns@),
            nullable@,
        ).to_multiset(),
{
    let mut checked: Vec<PredicateColumn> = Vec::new();
    let mut i: usize = 0;
    let ghost models = column_models(columns@);
    proof {
        assert(models.take(0) =~= Seq::<ColumnModel>::empty());
        assert(column_models(checked@) =~= Seq::<ColumnModel>::empty());
    }
    while i < columns.len()
        invariant
            i <= columns.len(),
            models == column_models(columns@),
            columns_known(columns@, nullable@),
            columns_in_order(column_models(checked@)),
            column_models(checked@).to_multiset() == nullable_columns(
                models.take(i as int),
                nullable@,
            ).to_multiset(),
        decreases columns.len() - i,
    {
        let ghost rest = nullable_columns(models.take(i as int), nullable@);
        proof {
            assert(models.take(i + 1).drop_last() =~= models.take(i as int));
            assert(models.take(i + 1).last() == columns@[i as int]@);
            rest.to_multiset_ensures();
        }
        if nullable[columns[i].index] {
            insert_column(&mut checked, columns[i].clone());
        }
        i += 1;
    }
    proof {
        assert(models.take(i as int) =~= models);
    }
    checked
}

/// The inverse of a predicate over `columns`, as the row groups are held
/// against it: `NOT` the predicate, or any of its columns that can be null is
/// null.
///
/// This keeps more than the rows that fail the predicate where the predicate
/// accepts nulls. A row group that is then not found to be fully matched is
/// read in full, so nothing is lost but time.
pub fn invert(columns: &Vec<PredicateColumn>, nullable: &[bool]) -> (inverse: InvertedPredicate)
    requires
        columns_known(columns@, nullable@),
    ensures
        is_inverse(column_models(columns@), nullable@, inverse.model()),
{
    let checked = null_checked_columns(columns, nullable);
    let mut inverse = InvertedPredicate::Not;
    let mut i: usize = 0;
    let ghost models = column_models(checked@);
    proof {
        assert(models.take(0) =~= Seq::<ColumnModel>::empty());
    }
    while i < checked.len()
        invariant
            i <= checked.len(),
            models == column_models(checked@),
            inverse.model() == inverse_over(models.take(i as int)),
        decreases checked.len() - i,
    {
        proof {
            assert(models.take(i + 1).drop_last() =~= models.take(i as int));
            assert(models.take(i + 1).last() == checked@[i as int]@);
        }
        inverse = InvertedPredicate::OrIsNull(Box::new(inverse), checked[i].clone());
        i += 1;
    }
    proof {
        assert(models.take(i as int) =~= models);
    }
    inverse
}

/// Whether `inverse` is the inverse of a predicate over `columns`: `NOT` the
/// predicate, or any of its columns that can be null is null, with the columns
/// in order.
pub open spec fn is_inverse(
    columns: Seq<ColumnModel>,
    nullable: Seq<bool>,
    inverse: InvertedModel,
) -> bool {
    exists|checked: Seq<ColumnModel>|
        {
            &&& columns_in_order(checked)
            &&& checked.to_multiset() == nullable_columns(columns, nullable).to_multiset()
            &&& inverse == #[trigger] inverse_over(checked)
        }
}

/// Two ordered lists of the same columns are equal.
pub proof fn lemma_ordered_columns_equal(a: Seq<ColumnModel>, b: Seq<ColumnModel>)
    requires
        columns_in_order(a),
        columns_in_order(b),
        a.to_multiset() == b.to_multiset(),
    ensures
        a == b,
    decreases a.len(),
{
    a.to_multiset_ensures();
    b.to_multiset_ensures();
    if a.len() == 0 {
        assert(a =~= b);
    } else {
        let (x, y) = (a.last(), b.last());
        assert(a.to_multiset().len() == b.to_multiset().len());
        assert(a.to_multiset().count(x) > 0 && b.to_multiset().count(x) > 0);
        assert(b.to_multiset().count(y) > 0 && a.to_multiset().count(y) > 0);
        let i = choose|i: int| 0 <= i < b.len() && b[i] == x;
        let j = choose|j: int| 0 <= j < a.len() && a[j] == y;
        assert(!column_before(y, x)) by {
            if i < b.len() - 1 {
                assert(!column_before(b[b.len() - 1], b[i]));
            } else {
                lemma_column_order(x, y, x);
            }
        }
        assert(!column_before(x, y)) by {
            if j < a.len() - 1 {
                assert(!column_before(a[a.len() - 1], a[j]));
            } else {
                lemma_column_order(x, y, x);
            }
        }
        lemma_column_order(x, y, x);
        assert(a.drop_last() =~= a.remove(a.len() - 1));
        assert(b.drop_last() =~= b.remove(b.len() - 1));
        lemma_ordered_columns_equal(a.drop_last(), b.drop_last());
        assert(a =~= a.drop_last().push(x));
        assert(b =~= b.drop_last().push(y));
    }
}

/// The inverse of a predicate does not depend on the order in which its columns
/// were collected.
pub proof fn law_inverse_ignores_collection_order(
    first: Seq<ColumnModel>,
    second: Seq<ColumnModel>,
    nullable: Seq<bool>,
    first_inverse: InvertedModel,
    second_inverse: InvertedModel,
)
    requires
        first.to_multiset() == second.to_multiset(),
        is_inverse(first, nullable, first_inverse),
        is_inverse(second, nullable, second_inverse),
    ensures
        first_inverse == second_inverse,
{
    let a = choose|checked: Seq<ColumnModel>|
        {
            &&& columns_in_order(checked)
            &&& checked.to_multiset() == nullable_columns(first, nullable).to_multiset()
            &&& first_inverse == #[trigger] inverse_over(checked)
        };
    let b = choose|checked: Seq<ColumnModel>|
        {
            &&& columns_in_order(checked)
            &&& checked.to_multiset() == nullable_columns(second, nullable).to_multiset()
            &&& second_inverse == #[trigger] inverse_over(checked)
        };
    lemma_nullable_multiset(first, nullable);
    lemma_nullable_multiset(second, nullable);
    assert(a.to_multiset() =~= b.to_multiset());
    lemma_ordered_columns_equal(a, b);
}

/// The columns that can be null are counted as in the whole list.
proof fn lemma_nullable_multiset(columns: Seq<ColumnModel>, nullable: Seq<bool>)
    ensures
        forall|column: ColumnModel|
            #[trigger] nullable_columns(columns, nullable).to_multiset().count(column) == if nullable[column.index as int] {
                columns.to_multiset().count(column)
            } else {
                0
            },
    decreases columns.len(),
{
    if columns.len() > 0 {
        let front = columns.drop_last();
        lemma_nullable_multiset(front, nullable);
        front.to_multiset_ensures();
        nullable_columns(front, nullable).to_multiset_ensures();
        assert(columns =~= front.push(columns.last()));
    } else {
        columns.to_multiset_ensures();
        nullable_columns(columns, nullable).to_multiset_ensures();
    }
}

/// Whether an inverse keeps a row: the predicate is false of it, and not only `NULL`, or
/// a column that is asked for is null in it. `outcome` is what the predicate comes to on
/// the row, `None` for `NULL`.
pub open spec fn keeps_row(
    inverse: InvertedModel,
    outcome: Option<bool>,
    is_null: spec_fn(ColumnModel) -> bool,
) -> bool
    decreases inverse,
{
    match inverse {
        InvertedModel::Not => outcome == Some(false),
        InvertedModel::OrIsNull(inner, column) => is_null(column) || keeps_row(
            *inner,
            outcome,
            is_null,
        ),
    }
}

/// The inverse over a list of columns keeps the rows of which the predicate is false and
/// those in which any of the columns is null.
proof fn lemma_inverse_over(
    columns: Seq<ColumnModel>,
    outcome: Option<bool>,
    is_null: spec_fn(ColumnModel) -> bool,
)
    ensures
        keeps_row(inverse_over(columns), outcome, is_null) <==> outcome == Some(false) || exists|
            i: int,
        |
            0 <= i < columns.len() && is_null(#[trigger] columns[i]),
    decreases columns.len(),
{
    if columns.len() > 0 {
        let front = columns.drop_last();
        lemma_inverse_over(front, outcome, is_null);
        if keeps_row(inverse_over(columns), outcome, is_null) && outcome != Some(false) {
            if is_null(columns.last()) {
                assert(is_null(columns[columns.len() - 1]));
            } else {
                let i = choose|i: int| 0 <= i < front.len() && is_null(#[trigger] front[i]);
                assert(is_null(columns[i]));
            }
        }
        if exists|i: int| 0 <= i < columns.len() && is_null(#[trigger] columns[i]) {
            let i = choose|i: int| 0 <= i < columns.len() && is_null(#[trigger] columns[i]);
            if i < front.len() {
                assert(is_null(front[i]));
            }
        }
    }
}

/// The inverse of a predicate keeps exactly the rows of which the predicate is false and
/// those in which a column of it that can be null is, however many columns it has. So it
/// keeps every row that the predicate does not, where the predicate is `NULL` only by a
/// null in one of its columns.
pub proof fn law_the_inverse_keeps_what_the_predicate_does_not(
    columns: Seq<ColumnModel>,
    nullable: Seq<bool>,
    inverse: InvertedModel,
    outcome: Option<bool>,
    is_null: spec_fn(ColumnModel) -> bool,
)
    requires
        is_inverse(columns, nullable, inverse),
    ensures
        keeps_row(inverse, outcome, is_null) <==> outcome == Some(false) || exists|i: int|
            0 <= i < columns.len() && nullable[(#[trigger] columns[i]).index as int] && is_null(
                columns[i],
            ),
        outcome != Some(true) && (outcome is None ==> exists|i: int|
            0 <= i < columns.len() && is_null(#[trigger] columns[i])) && (forall|i: int|
            0 <= i < columns.len() && is_null(#[trigger] columns[i])
                ==> nullable[columns[i].index as int]) ==> keeps_row(inverse, outcome, is_null),
{
    let checked = choose|checked: Seq<ColumnModel>|
        {
            &&& columns_in_order(checked)
            &&& checked.to_multiset() == nullable_columns(columns, nullable).to_multiset()
            &&& inverse == #[trigger] inverse_over(checked)
        };
    lemma_inverse_over(checked, outcome, is_null);
    lemma_nullable_multiset(columns, nullable);
    if exists|i: int| 0 <= i < checked.len() && is_null(#[trigger] checked[i]) {
        let i = choose|i: int| 0 <= i < checked.len() && is_null(#[trigger] checked[i]);
        let column = checked[i];
        vstd::seq_lib::to_multiset_contains(checked, column);
        vstd::seq_lib::to_multiset_contains(columns, column);
        assert(checked.contains(column));
        assert(nullable_columns(columns, nullable).to_multiset().count(column) > 0);
        let j = choose|j: int| 0 <= j < columns.len() && columns[j] == column;
        assert(nullable[columns[j].index as int] && is_null(columns[j]));
    }
    if exists|i: int|
        0 <= i < columns.len() && nullable[(#[trigger] columns[i]).index as int] && is_null(
            columns[i],
        ) {
        let i = choose|i: int|
            0 <= i < columns.len() && nullable[(#[trigger] columns[i]).index as int] && is_null(
                columns[i],
            );
        let column = columns[i];
        vstd::seq_lib::to_multiset_contains(checked, column);
        vstd::seq_lib::to_multiset_contains(columns, column);
        assert(columns.contains(column));
        assert(nullable_columns(columns, nullable).to_multiset().count(column) > 0);
        let j = choose|j: int| 0 <= j < checked.len() && checked[j] == column;
        assert(is_null(checked[j]));
    }
    match outcome {
        Some(held) => {
            assert(!held ==> outcome == Some(false));
        },
        None => {},
    }
    if outcome is None && (exists|i: int| 0 <= i < columns.len() && is_null(#[trigger] columns[i]))
        && (forall|i: int|
        0 <= i < columns.len() && is_null(#[trigger] columns[i])
            ==> nullable[columns[i].index as int]) {
        let i = choose|i: int| 0 <= i < columns.len() && is_null(#[trigger] columns[i]);
        assert(nullable[columns[i].index as int] && is_null(columns[i]));
    }
}

} // verus!
