//! The parsed table and its operations: splitting a line into fields and
//! looking a row up as a column-name-to-value mapping.

use vstd::prelude::*;
use vstd::string::StrSliceExecFns;
use crate::split::{
    split_line, separators, separators_upto, field_at, field_start, field_end, quotes_upto,
    is_separator,
};

verus! {

/// The two reported failure conditions: a line whose unquoted commas do not
/// yield the expected number of fields, and a row index past the last row.
#[derive(Clone, Copy, Debug, PartialEq, Eq, Structural)]
pub enum CsvError {
    MalformedRow,
    RowIndexOutOfRange,
}

/// A parsed table: the column names of the header line and the rows below
/// it, every row holding exactly one field per column.
pub struct CsvParseResult {
    column_names: Vec<String>,
    rows: Vec<Vec<String>>,
}

impl CsvParseResult {
    /// The column names, as sequences of characters.
    pub closed spec fn spec_column_names(&self) -> Seq<Seq<char>> {
        self.column_names.deep_view()
    }

    /// The rows, each a sequence of fields.
    pub closed spec fn spec_rows(&self) -> Seq<Seq<Seq<char>>> {
        self.rows.deep_view()
    }

    /// The fixed column count of the table.
    pub open spec fn num_columns(&self) -> nat {
        self.spec_column_names().len()
    }

    pub open spec fn num_rows(&self) -> nat {
        self.spec_rows().len()
    }

    /// There is at least one column, and every row holds exactly one field
    /// per column.
    pub open spec fn wf(&self) -> bool {
        &&& self.num_columns() >= 1
        &&& forall|r: int| 0 <= r < self.spec_rows().len()
                ==> (#[trigger] self.spec_rows()[r]).len() == self.num_columns()
    }

    /// Build a table from a header and its rows. The caller guarantees the
    /// column-count invariant; the constructor takes ownership and stores
    /// both sequences unchanged.
    pub fn new(column_names: Vec<String>, rows: Vec<Vec<String>>) -> (t: Self)
        requires
            column_names.deep_view().len() >= 1,
            forall|r: int| 0 <= r < rows.deep_view().len()
                ==> (#[trigger] rows.deep_view()[r]).len() == column_names.deep_view().len(),
        ensures
            t.spec_column_names() == column_names.deep_view(),
            t.spec_rows() == rows.deep_view(),
            t.wf(),
    {
        CsvParseResult { column_names, rows }
    }

    /// The mapping from column name to field value for row `row_num`: the
    /// pair of the i-th column name with the i-th field of that row, for
    /// every column i in order. Under duplicate column names, reading the
    /// pairs as a map makes the last pair of a name win. An index at or past
    /// the number of rows is reported out of range, never answered with a
    /// default.
    pub fn get_row(&self, row_num: usize) -> (r: Result<Vec<(String, String)>, CsvError>)
        requires
            self.wf(),
        ensures
            r is Ok <==> row_num < self.num_rows(),
            r matches Ok(pairs) ==> {
                &&& pairs.deep_view().len() == self.num_columns()
                &&& forall|j: int| 0 <= j < self.num_columns()
                        ==> #[trigger] pairs.deep_view()[j] == (
                            self.spec_column_names()[j],
                            self.spec_rows()[row_num as int][j],
                        )
            },
            r is Err ==> r == Err::<Vec<(String, String)>, CsvError>(CsvError::RowIndexOutOfRange),
    {
        if row_num >= self.rows.len() {
            Err(CsvError::RowIndexOutOfRange)
        } else {
            let mut pairs: Vec<(String, String)> = Vec::new();
            let mut j: usize = 0;
            proof {
                assert(self.spec_rows()[row_num as int].len() == self.num_columns());
            }
            while j < self.column_names.len()
                invariant
                    self.wf(),
                    row_num < self.rows@.len(),
                    self.rows@[row_num as int]@.len() == self.column_names@.len(),
                    j <= self.column_names@.len(),
                    pairs@.len() == j,
                    forall|k: int| 0 <= k < j ==> #[trigger] pairs.deep_view()[k] == (
                        self.spec_column_names()[k],
                        self.spec_rows()[row_num as int][k],
                    ),
                decreases self.column_names@.len() - j,
            {
                let ghost dv0: Seq<(Seq<char>, Seq<char>)> = pairs.deep_view();
                let ghost vals0: Seq<(String, String)> = pairs@;
                let name: String = self.column_names[j].clone();
                let value: String = self.rows[row_num][j].clone();
                let ghost entry: (Seq<char>, Seq<char>) = (name@, value@);
                pairs.push((name, value));
                proof {
                    assert(entry == (
                        self.spec_column_names()[j as int],
                        self.spec_rows()[row_num as int][j as int],
                    ));
                    assert(pairs@.len() == vals0.len() + 1);
                    assert forall|k: int| 0 <= k < pairs@.len() implies #[trigger] pairs
                        .deep_view()[k] == (
                        self.spec_column_names()[k],
                        self.spec_rows()[row_num as int][k],
                    ) by {
                        assert(pairs.deep_view()[k] == pairs@[k].deep_view());
                        if k < vals0.len() {
                            assert(pairs@[k] == vals0[k]);
                            assert(dv0[k] == vals0[k].deep_view());
                        } else {
                            assert(pairs@[k].deep_view() == entry);
                        }
                    }
                }
                j = j + 1;
            }
            Ok(pairs)
        }
    }

    /// Split one line into its fields at unquoted commas, in a single
    /// left-to-right scan. A double quote toggles the quoted state and is
    /// kept verbatim in the field text. The line is accepted exactly when it
    /// yields `n_columns` fields, that is, when it holds `n_columns - 1`
    /// unquoted commas; any other line is rejected as malformed.
    pub fn read_row(row: &str, n_columns: usize) -> (r: Result<Vec<String>, CsvError>)
        requires
            n_columns >= 1,
        ensures
            r is Ok <==> split_line(row@).len() == n_columns,
            r matches Ok(fields) ==> fields.deep_view() == split_line(row@),
            r is Err ==> r == Err::<Vec<String>, CsvError>(CsvError::MalformedRow),
    {
        let ghost line: Seq<char> = row@;
        let n: usize = row.unicode_len();
        let mut fields: Vec<String> = Vec::new();
        let mut open_quote: bool = false;
        let mut col_start: usize = 0;
        let mut i: usize = 0;
        while i < n
            invariant
                line == row@,
                n == line.len(),
                i <= n,
                open_quote == (quotes_upto(line, i as int) % 2 == 1),
                fields@.len() == separators_upto(line, i as int).len(),
                col_start == field_start(separators_upto(line, i as int), fields@.len() as int),
                col_start <= i,
                forall|j: int| 0 <= j < fields@.len()
                    ==> #[trigger] fields.deep_view()[j]
                        == field_at(line, separators_upto(line, i as int), j),
            decreases n - i,
        {
            let ghost seps = separators_upto(line, i as int);
            let c: char = row.get_char(i);
            if c == '"' {
                open_quote = !open_quote;
                proof {
                    assert(quotes_upto(line, i as int + 1) == quotes_upto(line, i as int) + 1);
                    assert(separators_upto(line, i as int + 1) == seps);
                }
            } else if c == ',' && !open_quote {
                let field_text: String = row.substring_char(col_start, i).to_owned();
                let ghost nf: Seq<char> = field_text@;
                let ghost vals0: Seq<String> = fields@;
                let ghost dv0: Seq<Seq<char>> = fields.deep_view();
                fields.push(field_text);
                proof {
                    assert(nf == line.subrange(col_start as int, i as int));
                    assert(is_separator(line, i as int));
                    let grown = separators_upto(line, i as int + 1);
                    assert(grown == seps.push(i as int));
                    assert(quotes_upto(line, i as int + 1) == quotes_upto(line, i as int));
                    assert(fields@.len() == vals0.len() + 1);
                    assert(fields@[vals0.len() as int]@ == nf);
                    assert(field_start(grown, fields@.len() as int) == i + 1);
                    assert forall|j: int| 0 <= j < fields@.len() implies #[trigger] fields
                        .deep_view()[j] == field_at(line, grown, j) by {
                        assert(fields.deep_view()[j] == fields@[j]@);
                        if j < vals0.len() {
                            assert(fields@[j] == vals0[j]);
                            assert(dv0[j] == vals0[j]@);
                            assert(dv0[j] == field_at(line, seps, j));
                            assert(grown[j] == seps[j]);
                            if j > 0 {
                                assert(grown[j - 1] == seps[j - 1]);
                            }
                            assert(field_at(line, grown, j) == field_at(line, seps, j));
                        } else {
                            assert(grown[j] == i as int);
                            if j > 0 {
                                assert(grown[j - 1] == seps[j - 1]);
                            }
                            assert(field_start(grown, j) == col_start as int);
                            assert(field_end(line, grown, j) == i as int);
                            assert(field_at(line, grown, j) == nf);
                        }
                    }
                }
                col_start = i + 1;
            } else {
                proof {
                    assert(quotes_upto(line, i as int + 1) == quotes_upto(line, i as int));
                    assert(!is_separator(line, i as int));
                    assert(separators_upto(line, i as int + 1) == seps);
                }
            }
            i = i + 1;
        }
        let ghost seps = separators(line);
        let last_text: String = row.substring_char(col_start, n).to_owned();
        let ghost nf: Seq<char> = last_text@;
        let ghost vals0: Seq<String> = fields@;
        let ghost dv0: Seq<Seq<char>> = fields.deep_view();
        fields.push(last_text);
        proof {
            assert(seps == separators_upto(line, n as int));
            assert(vals0.len() == seps.len());
            assert(fields@.len() == vals0.len() + 1);
            assert(fields@[vals0.len() as int]@ == nf);
            assert(split_line(line).len() == seps.len() + 1);
            assert forall|j: int| 0 <= j < fields@.len() implies #[trigger] fields.deep_view()[j]
                == split_line(line)[j] by {
                assert(fields.deep_view()[j] == fields@[j]@);
                assert(split_line(line)[j] == field_at(line, seps, j));
                if j < vals0.len() {
                    assert(fields@[j] == vals0[j]);
                    assert(dv0[j] == vals0[j]@);
                    assert(dv0[j] == field_at(line, seps, j));
                } else {
                    assert(field_start(seps, j) == col_start as int);
                    assert(field_end(line, seps, j) == n as int);
                    assert(field_at(line, seps, j) == nf);
                }
            }
            assert(fields.deep_view() =~= split_line(line));
        }
        if fields.len() == n_columns {
            Ok(fields)
        } else {
            Err(CsvError::MalformedRow)
        }
    }
}


} // verus!
