//! The mathematical model of quote-aware line splitting.
//!
//! A line is split at every comma that stands outside a quoted span; a double
//! quote toggles the quoted state and is otherwise kept verbatim. The model
//! names the separator positions of a line and the fields between them, and
//! proves the general facts callers rely on: joining the fields with commas
//! restores the line, a quote-free line splits as a naive split on commas,
//! splitting is deterministic, and a comma-free line is one single field.

use vstd::prelude::*;

verus! {

/// How many double-quote characters occur among the first `i` characters of `line`.
pub open spec fn quotes_upto(line: Seq<char>, i: int) -> nat
    decreases i,
{
    if i <= 0 {
        0
    } else if line[i - 1] == '"' {
        quotes_upto(line, i - 1) + 1
    } else {
        quotes_upto(line, i - 1)
    }
}

/// Position `i` separates two fields: it holds a comma that stands outside
/// every quoted span, that is, the quotes before it pair off evenly.
pub open spec fn is_separator(line: Seq<char>, i: int) -> bool {
    &&& 0 <= i < line.len()
    &&& line[i] == ','
    &&& quotes_upto(line, i) % 2 == 0
}

/// The separator positions among the first `i` characters, in increasing order.
pub open spec fn separators_upto(line: Seq<char>, i: int) -> Seq<int>
    decreases i,
{
    if i <= 0 {
        Seq::empty()
    } else if is_separator(line, i - 1) {
        separators_upto(line, i - 1).push(i - 1)
    } else {
        separators_upto(line, i - 1)
    }
}

/// All separator positions of the line, in increasing order.
pub open spec fn separators(line: Seq<char>) -> Seq<int> {
    separators_upto(line, line.len() as int)
}

/// Where field `j` starts: at the head of the line, or right after the
/// previous separator.
pub open spec fn field_start(seps: Seq<int>, j: int) -> int {
    if j == 0 {
        0
    } else {
        seps[j - 1] + 1
    }
}

/// Where field `j` ends (exclusive): at its own separator, or, for the last
/// field, at the end of the line.
pub open spec fn field_end(line: Seq<char>, seps: Seq<int>, j: int) -> int {
    if j == seps.len() as int {
        line.len() as int
    } else {
        seps[j]
    }
}

/// Field `j` of the line, given the line's separator positions.
pub open spec fn field_at(line: Seq<char>, seps: Seq<int>, j: int) -> Seq<char> {
    line.subrange(field_start(seps, j), field_end(line, seps, j))
}

/// The fields of a line: the pieces between consecutive separators, the
/// separating commas left out, every other character kept verbatim. A line
/// with `k` separators has exactly `k + 1` fields.
pub open spec fn split_line(line: Seq<char>) -> Seq<Seq<char>> {
    Seq::new(separators(line).len() + 1, |j: int| field_at(line, separators(line), j))
}

/// The positions collected from the first `i` characters are separators,
/// all lie below `i`, and increase strictly.
pub proof fn lemma_separators_upto_wf(line: Seq<char>, i: int)
    ensures
        forall|j: int| 0 <= j < separators_upto(line, i).len()
            ==> is_separator(line, #[trigger] separators_upto(line, i)[j]),
        forall|j: int| 0 <= j < separators_upto(line, i).len()
            ==> #[trigger] separators_upto(line, i)[j] < i,
        forall|j: int, k: int| 0 <= j < k < separators_upto(line, i).len()
            ==> #[trigger] separators_upto(line, i)[j] < #[trigger] separators_upto(line, i)[k],
    decreases i,
{
    if i > 0 {
        lemma_separators_upto_wf(line, i - 1);
        let prev = separators_upto(line, i - 1);
        let cur = separators_upto(line, i);
        if is_separator(line, i - 1) {
            assert(cur == prev.push(i - 1));
            assert forall|j: int| 0 <= j < cur.len() implies is_separator(line, #[trigger] cur[j])
                && cur[j] < i by {
                if j < prev.len() {
                    assert(cur[j] == prev[j]);
                }
            }
            assert forall|j: int, k: int| 0 <= j < k < cur.len() implies #[trigger] cur[j]
                < #[trigger] cur[k] by {
                assert(cur[j] == prev[j]);
                if k < prev.len() {
                    assert(cur[k] == prev[k]);
                }
            }
        } else {
            assert(cur == prev);
        }
    }
}

/// The fields joined back together, with a comma between consecutive fields.
pub open spec fn join_with_commas(fields: Seq<Seq<char>>) -> Seq<char>
    decreases fields.len(),
{
    if fields.len() == 0 {
        Seq::empty()
    } else if fields.len() == 1 {
        fields[0]
    } else {
        fields[0] + seq![','] + join_with_commas(fields.drop_first())
    }
}

proof fn lemma_join_suffix(line: Seq<char>, j: int)
    requires
        0 <= j <= separators(line).len(),
    ensures
        join_with_commas(split_line(line).skip(j))
            == line.subrange(field_start(separators(line), j), line.len() as int),
    decreases separators(line).len() - j,
{
    let seps = separators(line);
    let fields = split_line(line);
    lemma_separators_upto_wf(line, line.len() as int);
    if j == seps.len() {
        assert(fields.skip(j) =~= seq![field_at(line, seps, j)]);
        assert(field_end(line, seps, j) == line.len() as int);
    } else {
        lemma_join_suffix(line, j + 1);
        let s = fields.skip(j);
        assert(s.len() >= 2);
        assert(s[0] == fields[j]);
        assert(s[0] == field_at(line, seps, j));
        assert(s.drop_first() =~= fields.skip(j + 1));
        assert(join_with_commas(s) == s[0] + seq![','] + join_with_commas(s.drop_first()));
        assert(is_separator(line, seps[j]));
        assert(line[seps[j]] == ',');
        assert(field_start(seps, j) <= seps[j]);
        assert(field_at(line, seps, j) + seq![','] + line.subrange(
            field_start(seps, j + 1),
            line.len() as int,
        ) =~= line.subrange(field_start(seps, j), line.len() as int));
    }
}

/// Round trip: joining the fields of a line back together with commas
/// restores the line, character for character.
pub proof fn lemma_split_join(line: Seq<char>)
    ensures
        join_with_commas(split_line(line)) == line,
{
    lemma_join_suffix(line, 0);
    assert(split_line(line).skip(0) =~= split_line(line));
    assert(line.subrange(0, line.len() as int) =~= line);
}

/// The comma positions among the first `i` characters, quoting ignored.
pub open spec fn commas_upto(line: Seq<char>, i: int) -> Seq<int>
    decreases i,
{
    if i <= 0 {
        Seq::empty()
    } else if 0 <= i - 1 < line.len() && line[i - 1] == ',' {
        commas_upto(line, i - 1).push(i - 1)
    } else {
        commas_upto(line, i - 1)
    }
}

/// A naive split: the line cut at every comma, quoting ignored.
pub open spec fn naive_split(line: Seq<char>) -> Seq<Seq<char>> {
    Seq::new(
        commas_upto(line, line.len() as int).len() + 1,
        |j: int| field_at(line, commas_upto(line, line.len() as int), j),
    )
}

proof fn lemma_no_quotes_positions(line: Seq<char>, i: int)
    requires
        forall|p: int| 0 <= p < line.len() ==> line[p] != '"',
        i <= line.len(),
    ensures
        quotes_upto(line, i) == 0,
        separators_upto(line, i) == commas_upto(line, i),
    decreases i,
{
    if i > 0 {
        lemma_no_quotes_positions(line, i - 1);
    }
}

/// On a line without any quote character, splitting at unquoted commas is
/// the naive split at every comma.
pub proof fn lemma_no_quotes_naive_split(line: Seq<char>)
    requires
        forall|p: int| 0 <= p < line.len() ==> line[p] != '"',
    ensures
        split_line(line) == naive_split(line),
{
    lemma_no_quotes_positions(line, line.len() as int);
    assert(split_line(line) =~= naive_split(line));
}

/// Splitting is deterministic: the fields are a function of the line's
/// characters alone, so parsing the same line twice yields field-for-field
/// identical results.
pub proof fn lemma_split_deterministic(line: Seq<char>, again: Seq<char>)
    requires
        line == again,
    ensures
        split_line(line).len() == split_line(again).len(),
        forall|j: int| 0 <= j < split_line(line).len()
            ==> split_line(line)[j] == split_line(again)[j],
{
}

proof fn lemma_no_commas_no_separators(line: Seq<char>, i: int)
    requires
        forall|p: int| 0 <= p < line.len() ==> line[p] != ',',
    ensures
        separators_upto(line, i) == Seq::<int>::empty(),
    decreases i,
{
    if i > 0 {
        lemma_no_commas_no_separators(line, i - 1);
    }
}

/// A line without commas is one single field: the whole line.
pub proof fn lemma_no_commas_single_field(line: Seq<char>)
    requires
        forall|p: int| 0 <= p < line.len() ==> line[p] != ',',
    ensures
        split_line(line) == seq![line],
{
    lemma_no_commas_no_separators(line, line.len() as int);
    assert(line.subrange(0, line.len() as int) =~= line);
    assert(split_line(line) =~= seq![line]);
}

} // verus!
