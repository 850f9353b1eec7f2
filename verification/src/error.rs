//! Why planning a scan can fail.

use vstd::prelude::*;

verus! {

/// Why a scan could not be planned or driven on.
#[derive(Debug, Clone, Copy, PartialEq, Eq, Structural)]
pub enum PlanError {
    /// A file-level row selection does not cover the rows of the file.
    RowSelectionLength {
        /// Rows in the file.
        file_rows: u128,
        /// Rows that the selection covers.
        selection_rows: u128,
    },
    /// A row group's selection does not cover the rows of the row group.
    RowGroupSelectionLength {
        /// The row group.
        row_group: usize,
        /// Rows in the row group.
        row_group_rows: usize,
        /// Rows that the selection covers.
        selection_rows: u128,
    },
    /// A file carries both an access plan and a row selection.
    ConflictingAccess,
    /// An access plan is for another number of row groups than the file has.
    AccessPlanLength {
        /// Row groups in the plan.
        plan_len: usize,
        /// Row groups in the file.
        row_group_count: usize,
    },
    /// The decoder is about to read a row group that is not planned.
    Diverged {
        /// The row group that the decoder reads next.
        target: usize,
    },
}

/// A digit as text.
pub open spec fn digit_text(digit: nat) -> Seq<char> {
    if digit == 0 {
        "0"@
    } else if digit == 1 {
        "1"@
    } else if digit == 2 {
        "2"@
    } else if digit == 3 {
        "3"@
    } else if digit == 4 {
        "4"@
    } else if digit == 5 {
        "5"@
    } else if digit == 6 {
        "6"@
    } else if digit == 7 {
        "7"@
    } else if digit == 8 {
        "8"@
    } else {
        "9"@
    }
}

/// A number as decimal text.
pub open spec fn decimal(number: nat) -> Seq<char>
    decreases number,
{
    if number < 10 {
        digit_text(number)
    } else {
        decimal(number / 10) + digit_text(number % 10)
    }
}

/// A digit as text.
fn digit(value: u128) -> (text: &'static str)
    requires
        value < 10,
    ensures
        text@ == digit_text(value as nat),
{
    if value == 0 {
        "0"
    } else if value == 1 {
        "1"
    } else if value == 2 {
        "2"
    } else if value == 3 {
        "3"
    } else if value == 4 {
        "4"
    } else if value == 5 {
        "5"
    } else if value == 6 {
        "6"
    } else if value == 7 {
        "7"
    } else if value == 8 {
        "8"
    } else {
        "9"
    }
}

/// A number as decimal text.
pub fn to_decimal(number: u128) -> (text: String)
    ensures
        text@ == decimal(number as nat),
    decreases number,
{
    if number < 10 {
        digit(number).to_owned()
    } else {
        to_decimal(number / 10).concat(digit(number % 10))
    }
}

impl PlanError {
    /// The text of the error for the file `file_name`.
    pub open spec fn text(self, file_name: Seq<char>) -> Seq<char> {
        match self {
            PlanError::RowSelectionLength { file_rows, selection_rows } =>
                "Invalid Parquet RowSelection. File has "@ + decimal(file_rows as nat)
                + " rows, but selection specifies "@ + decimal(selection_rows as nat) + " rows."@,
            PlanError::RowGroupSelectionLength { row_group, row_group_rows, selection_rows } =>
                "Invalid ParquetAccessPlan Selection. Row group "@ + decimal(row_group as nat)
                + " has "@ + decimal(row_group_rows as nat)
                + " rows but selection only specifies "@ + decimal(selection_rows as nat)
                + " rows"@,
            PlanError::ConflictingAccess => "Invalid parquet access extensions for "@ + file_name
                + ". Specify either ParquetAccessPlan or ParquetRowSelection, not both"@,
            PlanError::AccessPlanLength { plan_len, row_group_count } =>
                "Invalid ParquetAccessPlan for "@ + file_name + ". Specified "@ + decimal(
                plan_len as nat,
            ) + " row groups, but file has "@ + decimal(row_group_count as nat),
            PlanError::Diverged { target } => "push decoder frontier RG "@ + decimal(target as nat)
                + " is not in rg_plan; decoder and plan have diverged"@,
        }
    }

    /// The text of the error for the file `file_name`.
    pub fn message(&self, file_name: &str) -> (message: String)
        ensures
            message@ == self.text(file_name@),
    {
        match self {
            PlanError::RowSelectionLength {
                file_rows,
                selection_rows,
            } => "Invalid Parquet RowSelection. File has ".to_owned().concat(
                to_decimal(*file_rows).as_str(),
            ).concat(" rows, but selection specifies ").concat(
                to_decimal(*selection_rows).as_str(),
            ).concat(" rows."),
            PlanError::RowGroupSelectionLength {
                row_group,
                row_group_rows,
                selection_rows,
            } => "Invalid ParquetAccessPlan Selection. Row group ".to_owned().concat(
                to_decimal(*row_group as u128).as_str(),
            ).concat(" has ").concat(to_decimal(*row_group_rows as u128).as_str()).concat(
                " rows but selection only specifies ",
            ).concat(to_decimal(*selection_rows).as_str()).concat(" rows"),
            PlanError::ConflictingAccess => "Invalid parquet access extensions for ".to_owned().concat(
                file_name,
            ).concat(". Specify either ParquetAccessPlan or ParquetRowSelection, not both"),
            PlanError::AccessPlanLength {
                plan_len,
                row_group_count,
            } => "Invalid ParquetAccessPlan for ".to_owned().concat(file_name).concat(
                ". Specified ",
            ).concat(to_decimal(*plan_len as u128).as_str()).concat(
                " row groups, but file has ",
            ).concat(to_decimal(*row_group_count as u128).as_str()),
            PlanError::Diverged { target } => "push decoder frontier RG ".to_owned().concat(
                to_decimal(*target as u128).as_str(),
            ).concat(" is not in rg_plan; decoder and plan have diverged"),
        }
    }
}

/// The number that a text of decimal digits stands for.
pub open spec fn number_of(text: Seq<char>) -> int
    decreases text.len(),
{
    if text.len() == 0 {
        0
    } else {
        10 * number_of(text.drop_last()) + (text.last() as int - '0' as int)
    }
}

/// A number as text stands for that number, in digits, and no zero comes before others.
pub proof fn law_decimal_text_stands_for_its_number(number: nat)
    ensures
        number_of(decimal(number)) == number,
        decimal(number).len() > 0,
        forall|i: int|
            0 <= i < decimal(number).len() ==> '0' <= (#[trigger] decimal(number)[i]) <= '9',
        number > 0 ==> decimal(number)[0] != '0',
    decreases number,
{
    lemma_digit_text(number % 10);
    if number < 10 {
        lemma_digit_text(number);
        let text = decimal(number);
        assert(text.drop_last() =~= Seq::<char>::empty());
        assert(number_of(text.drop_last()) == 0);
    } else {
        law_decimal_text_stands_for_its_number(number / 10);
        let text = decimal(number);
        assert(text.drop_last() =~= decimal(number / 10));
        assert(text.last() == digit_text(number % 10)[0]);
    }
}

/// A digit is one character, that many after the first.
proof fn lemma_digit_text(digit: nat)
    requires
        digit < 10,
    ensures
        digit_text(digit).len() == 1,
        digit_text(digit)[0] as int == '0' as int + digit,
{
    reveal_strlit("0");
    reveal_strlit("1");
    reveal_strlit("2");
    reveal_strlit("3");
    reveal_strlit("4");
    reveal_strlit("5");
    reveal_strlit("6");
    reveal_strlit("7");
    reveal_strlit("8");
    reveal_strlit("9");
}

/// The text of an error tells its numbers: those of the file first, then those of what was
/// asked for, but for a plan, whose own number comes before that of the file. Where it
/// tells of a file it names it.
pub proof fn law_messages_tell_what_differs(error: PlanError, file_name: Seq<char>)
    ensures
        ({
            let text = error.text(file_name);
            match error {
                PlanError::RowSelectionLength { file_rows, selection_rows } => {
                    let start = "Invalid Parquet RowSelection. File has "@ + decimal(
                        file_rows as nat,
                    ) + " rows"@;
                    let end = decimal(selection_rows as nat) + " rows."@;
                    &&& start.len() + end.len() <= text.len()
                    &&& text.take(start.len() as int) == start
                    &&& text.skip(text.len() - end.len()) == end
                },
                PlanError::RowGroupSelectionLength { row_group, row_group_rows, selection_rows } => {
                    let start = "Invalid ParquetAccessPlan Selection. Row group "@ + decimal(
                        row_group as nat,
                    ) + " has "@ + decimal(row_group_rows as nat) + " rows"@;
                    let end = decimal(selection_rows as nat) + " rows"@;
                    &&& start.len() + end.len() <= text.len()
                    &&& text.take(start.len() as int) == start
                    &&& text.skip(text.len() - end.len()) == end
                },
                PlanError::ConflictingAccess => {
                    let start = "Invalid parquet access extensions for "@ + file_name;
                    &&& start.len() <= text.len()
                    &&& text.take(start.len() as int) == start
                },
                PlanError::AccessPlanLength { plan_len, row_group_count } => {
                    let start = "Invalid ParquetAccessPlan for "@ + file_name + ". Specified "@
                        + decimal(plan_len as nat);
                    let end = decimal(row_group_count as nat);
                    &&& start.len() + end.len() <= text.len()
                    &&& text.take(start.len() as int) == start
                    &&& text.skip(text.len() - end.len()) == end
                },
                PlanError::Diverged { target } => {
                    let start = "push decoder frontier RG "@ + decimal(target as nat);
                    &&& start.len() <= text.len()
                    &&& text.take(start.len() as int) == start
                },
            }
        }),
{
    reveal_strlit(" rows");
    reveal_strlit(" rows.");
    reveal_strlit(" rows, but selection specifies ");
    reveal_strlit(" rows but selection only specifies ");
}

} // verus!
