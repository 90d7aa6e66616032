//! Text into tables: splitting a text into lines, lines into records, and
//! records into the named columns of a data frame.

use vstd::prelude::*;
use crate::domains::{AllDomain, Domain, VectorDomain};
use crate::error::Fallible;
use crate::metrics::SymmetricDistance;
use crate::transformations::ConstantMap;
use crate::units::{Function, Transformation};

verus! {

/// The name of a column: a value that can be compared and copied.
pub trait Key: Sized {
    /// Whether the two values are the same name.
    spec fn spec_same(&self, other: &Self) -> bool;

    fn same(&self, other: &Self) -> (r: bool)
        ensures
            r == self.spec_same(other),
    ;

    fn duplicate(&self) -> (r: Self)
        ensures
            r == *self,
    ;
}

impl Key for u32 {
    open spec fn spec_same(&self, other: &Self) -> bool {
        *self == *other
    }

    fn same(&self, other: &Self) -> (r: bool) {
        *self == *other
    }

    fn duplicate(&self) -> (r: Self) {
        *self
    }
}

impl Key for i64 {
    open spec fn spec_same(&self, other: &Self) -> bool {
        *self == *other
    }

    fn same(&self, other: &Self) -> (r: bool) {
        *self == *other
    }

    fn duplicate(&self) -> (r: Self) {
        *self
    }
}

impl Key for String {
    open spec fn spec_same(&self, other: &Self) -> bool {
        self@ == other@
    }

    fn same(&self, other: &Self) -> (r: bool) {
        *self == *other
    }

    fn duplicate(&self) -> (r: Self) {
        self.clone()
    }
}

/// A column of a data frame: one cell for each record.
#[derive(Clone, Debug, PartialEq, Eq)]
pub struct Column {
    pub values: Vec<String>,
}

impl Column {
    pub fn new(values: Vec<String>) -> (r: Self)
        ensures
            r.values == values,
    {
        Column { values }
    }

    /// The cells of the column, each as the text it holds.
    pub open spec fn cells(&self) -> Seq<Seq<char>> {
        Seq::new(self.values@.len(), |i: int| self.values@[i]@)
    }
}

/// The columns, each with its name and its cells.
pub open spec fn frame_cells<K>(columns: Seq<(K, Column)>) -> Seq<(K, Seq<Seq<char>>)> {
    Seq::new(columns.len(), |c: int| (columns[c].0, columns[c].1.cells()))
}

/// A table with named columns, in the order in which they were named. No
/// name occurs twice. Two frames with the same columns in another order are
/// not equal; [`DataFrame::column`] finds a column whatever the order.
#[derive(Clone, Debug, PartialEq, Eq)]
pub struct DataFrame<K> {
    pub columns: Vec<(K, Column)>,
}

impl<K: Key> DataFrame<K> {
    /// The columns of the frame, each with its name and its cells.
    pub open spec fn cells(&self) -> Seq<(K, Seq<Seq<char>>)> {
        frame_cells(self.columns@)
    }

    /// The column with the given name, wherever it stands in the frame.
    pub fn column(&self, name: &K) -> (r: Option<&Column>)
        ensures
            r is Some <==> exists|i: int|
                0 <= i < self.columns@.len() && (#[trigger] self.columns@[i]).0.spec_same(name),
            r is Some ==> exists|i: int|
                0 <= i < self.columns@.len() && (#[trigger] self.columns@[i]).0.spec_same(name)
                    && *r->Some_0 == self.columns@[i].1 && forall|j: int|
                    0 <= j < i ==> !(#[trigger] self.columns@[j]).0.spec_same(name),
    {
        let mut i: usize = 0;
        while i < self.columns.len()
            invariant
                i <= self.columns@.len(),
                forall|j: int| 0 <= j < i ==> !(#[trigger] self.columns@[j]).0.spec_same(name),
            decreases self.columns@.len() - i,
        {
            if self.columns[i].0.same(name) {
                return Some(&self.columns[i].1);
            }
            i += 1;
        }
        None
    }

    /// Whether no name occurs twice.
    pub open spec fn wf(&self) -> bool {
        forall|i: int, j: int|
            0 <= i < j < self.columns@.len() ==> !(#[trigger] self.columns@[j]).0.spec_same(
                &(#[trigger] self.columns@[i]).0,
            )
    }
}

/// The data frames with column names of type `K`.
pub struct DataFrameDomain<K> {
    pub marker: std::marker::PhantomData<K>,
}

impl<K: Key> DataFrameDomain<K> {
    pub fn new_all() -> (r: Self) {
        DataFrameDomain { marker: std::marker::PhantomData }
    }
}

impl<K: Key> Domain for DataFrameDomain<K> {
    type Carrier = DataFrame<K>;

    open spec fn spec_member(&self, x: &DataFrame<K>) -> bool {
        x.wf()
    }

    open spec fn spec_same(&self, other: &Self) -> bool {
        true
    }

    fn member(&self, x: &DataFrame<K>) -> (r: bool) {
        let mut j: usize = 0;
        while j < x.columns.len()
            invariant
                j <= x.columns@.len(),
                forall|a: int, b: int|
                    0 <= a < b < j ==> !(#[trigger] x.columns@[b]).0.spec_same(
                        &(#[trigger] x.columns@[a]).0,
                    ),
            decreases x.columns@.len() - j,
        {
            let mut i: usize = 0;
            while i < j
                invariant
                    i <= j < x.columns@.len(),
                    forall|a: int|
                        0 <= a < i ==> !x.columns@[j as int].0.spec_same(&(#[trigger] x.columns@[a]).0),
                decreases j - i,
            {
                if x.columns[j].0.same(&x.columns[i].0) {
                    return false;
                }
                i += 1;
            }
            j += 1;
        }
        true
    }

    fn same(&self, other: &Self) -> (r: bool) {
        true
    }

    proof fn lemma_same_members(&self, other: &Self, x: &DataFrame<K>) {
    }
}

/// The place of the first newline at or after `from`, or the length of the
/// text if there is none.
pub open spec fn first_newline(text: Seq<char>, from: int) -> int
    decreases text.len() - from,
{
    if from < 0 || from >= text.len() {
        text.len() as int
    } else if text[from] == '\n' {
        from
    } else {
        first_newline(text, from + 1)
    }
}

/// A line without the carriage return at its end, if it has one.
pub open spec fn without_return(line: Seq<char>) -> Seq<char> {
    if line.len() > 0 && line.last() == '\r' {
        line.drop_last()
    } else {
        line
    }
}

/// The lines of a text. A line ends at a newline, or at a carriage return
/// followed by a newline; neither is part of the line. What follows the last
/// newline is a line too, unless it is empty.
pub open spec fn lines_of(text: Seq<char>) -> Seq<Seq<char>>
    decreases text.len(),
{
    let end = first_newline(text, 0);
    if text.len() == 0 {
        Seq::empty()
    } else if 0 <= end < text.len() {
        seq![without_return(text.subrange(0, end))] + lines_of(
            text.subrange(end + 1, text.len() as int),
        )
    } else {
        seq![text]
    }
}

/// The place of the first occurrence of the separator at or after `from`, or
/// the length of the line if there is none.
pub open spec fn first_occurrence(line: Seq<char>, separator: Seq<char>, from: int) -> int
    decreases line.len() - from,
{
    if from < 0 || from >= line.len() || from + separator.len() > line.len() {
        line.len() as int
    } else if line.subrange(from, from + separator.len()) == separator {
        from
    } else {
        first_occurrence(line, separator, from + 1)
    }
}

/// The pieces of a line between the occurrences of a separator that is not
/// empty, the occurrences taken from the left and none overlapping another.
pub open spec fn cut_at(line: Seq<char>, separator: Seq<char>) -> Seq<Seq<char>>
    decreases line.len(),
{
    let at = first_occurrence(line, separator, 0);
    if separator.len() > 0 && 0 <= at && at + separator.len() <= line.len() {
        seq![line.subrange(0, at)] + cut_at(
            line.subrange(at + separator.len(), line.len() as int),
            separator,
        )
    } else {
        seq![line]
    }
}

/// The pieces that `str::split` gives for an empty separator.
pub uninterp spec fn unseparated(line: Seq<char>) -> Seq<Seq<char>>;

/// The pieces of a line between the occurrences of a separator.
pub open spec fn pieces_of(line: Seq<char>, separator: Seq<char>) -> Seq<Seq<char>> {
    if separator.len() == 0 {
        unseparated(line)
    } else {
        cut_at(line, separator)
    }
}

/// A text without the white space at its ends, as `str::trim` gives it.
pub uninterp spec fn trimmed(text: Seq<char>) -> Seq<char>;

/// Calls `str::lines` and collects what it yields: the text cut at each
/// newline, each line without its newline and without a carriage return
/// before it, and no line for the empty rest after the last newline.
#[verifier::external_body]
fn split_lines<'a>(s: &'a str) -> (r: Vec<&'a str>)
    ensures
        r@.len() == lines_of(s@).len(),
        forall|i: int| 0 <= i < r@.len() ==> (#[trigger] r@[i])@ == lines_of(s@)[i],
{
    s.lines().collect()
}

/// Calls `str::split` and collects what it yields. For a separator that is
/// not empty these are the pieces between its occurrences, found from the
/// left. Of the pieces for an empty separator nothing is claimed but that
/// they depend on the line alone.
#[verifier::external_body]
fn split_pieces<'a>(line: &'a str, separator: &str) -> (r: Vec<&'a str>)
    ensures
        r@.len() == pieces_of(line@, separator@).len(),
        forall|i: int| 0 <= i < r@.len() ==> (#[trigger] r@[i])@ == pieces_of(line@, separator@)[i],
        separator@.len() == 0 ==> r@.len() == unseparated(line@).len(),
{
    line.split(separator).collect()
}

/// Calls `str::trim`. Nothing is claimed of the result but that it depends
/// on the text alone.
#[verifier::external_body]
fn trim<'a>(s: &'a str) -> (r: &'a str)
    ensures
        r@ == trimmed(s@),
{
    s.trim()
}

/// The texts that the strings hold.
pub open spec fn texts(strings: Seq<String>) -> Seq<Seq<char>> {
    Seq::new(strings.len(), |i: int| strings[i]@)
}

/// The texts that the rows of strings hold.
pub open spec fn text_rows(rows: Seq<Vec<String>>) -> Seq<Seq<Seq<char>>> {
    Seq::new(rows.len(), |i: int| texts(rows[i]@))
}

/// The texts that the slices hold.
pub open spec fn slice_texts(slices: Seq<&str>) -> Seq<Seq<char>> {
    Seq::new(slices.len(), |i: int| slices[i]@)
}

/// The texts that the rows of slices hold.
pub open spec fn slice_rows(rows: Seq<Vec<&str>>) -> Seq<Seq<Seq<char>>> {
    Seq::new(rows.len(), |i: int| slice_texts(rows[i]@))
}

/// Borrows each string.
pub fn vec_string_to_str<'a>(src: &'a Vec<String>) -> (r: Vec<&'a str>)
    ensures
        slice_texts(r@) == texts(src@),
{
    let mut r: Vec<&'a str> = Vec::new();
    let mut i: usize = 0;
    while i < src.len()
        invariant
            i <= src@.len(),
            r@.len() == i,
            forall|j: int| 0 <= j < i ==> (#[trigger] r@[j])@ == src@[j]@,
        decreases src@.len() - i,
    {
        r.push(src[i].as_str());
        i += 1;
    }
    assert(slice_texts(r@) =~= texts(src@));
    r
}

/// Copies each slice into a string of its own.
pub fn vec_str_to_string(src: Vec<&str>) -> (r: Vec<String>)
    ensures
        texts(r@) == slice_texts(src@),
{
    let mut r: Vec<String> = Vec::new();
    let mut i: usize = 0;
    while i < src.len()
        invariant
            i <= src@.len(),
            r@.len() == i,
            forall|j: int| 0 <= j < i ==> (#[trigger] r@[j])@ == src@[j]@,
        decreases src@.len() - i,
    {
        r.push(src[i].to_owned());
        i += 1;
    }
    assert(texts(r@) =~= slice_texts(src@));
    r
}

/// The cell at `i` of a record: the text there, or the empty text where the
/// record is too short.
pub open spec fn cell(record: Seq<Seq<char>>, i: int) -> Seq<char> {
    if 0 <= i < record.len() {
        record[i]
    } else {
        Seq::empty()
    }
}

/// The record made to hold `len` cells: cut off if it is longer, filled up
/// with empty cells if it is shorter.
pub open spec fn conformed(record: Seq<Seq<char>>, len: nat) -> Seq<Seq<char>> {
    Seq::new(len, |i: int| cell(record, i))
}

/// Makes every record `len` cells long.
pub fn conform_records<'a>(len: usize, records: &Vec<Vec<&'a str>>) -> (r: Vec<Vec<&'a str>>)
    ensures
        r@.len() == records@.len(),
        forall|i: int|
            0 <= i < r@.len() ==> slice_texts((#[trigger] r@[i])@) == conformed(
                slice_texts(records@[i]@),
                len as nat,
            ),
{
    let mut r: Vec<Vec<&'a str>> = Vec::new();
    let mut i: usize = 0;
    while i < records.len()
        invariant
            i <= records@.len(),
            r@.len() == i,
            forall|j: int|
                0 <= j < i ==> slice_texts((#[trigger] r@[j])@) == conformed(
                    slice_texts(records@[j]@),
                    len as nat,
                ),
        decreases records@.len() - i,
    {
        let record = &records[i];
        let mut cells: Vec<&'a str> = Vec::new();
        let mut c: usize = 0;
        while c < len
            invariant
                c <= len,
                cells@.len() == c,
                forall|k: int|
                    0 <= k < c ==> (#[trigger] cells@[k])@ == cell(slice_texts(record@), k),
            decreases len - c,
        {
            if c < record.len() {
                cells.push(record[c]);
            } else {
                proof {
                    reveal_strlit("");
                    assert(""@ =~= Seq::<char>::empty());
                }
                cells.push("");
            }
            c += 1;
        }
        assert(slice_texts(cells@) =~= conformed(slice_texts(record@), len as nat));
        r.push(cells);
        i += 1;
    }
    r
}

/// Whether the name at `i` does not occur again further on.
pub open spec fn is_last<K: Key>(names: Seq<K>, i: int) -> bool {
    forall|j: int| i < j < names.len() ==> !(#[trigger] names[j]).spec_same(&names[i])
}

/// The cells at `i` of all records.
pub open spec fn column_cells(records: Seq<Seq<Seq<char>>>, i: int) -> Seq<Seq<char>> {
    Seq::new(records.len(), |r: int| cell(records[r], i))
}

/// The columns for the first `n` names: for each name that does not occur
/// again, the cells that the records hold at its place.
pub open spec fn spec_columns<K: Key>(names: Seq<K>, records: Seq<Seq<Seq<char>>>, n: nat) -> Seq<
    (K, Seq<Seq<char>>),
>
    decreases n,
{
    if n == 0 {
        Seq::empty()
    } else {
        let front = spec_columns(names, records, (n - 1) as nat);
        if is_last(names, n - 1) {
            front.push((names[n - 1], column_cells(records, n - 1)))
        } else {
            front
        }
    }
}

/// Whether `name` stands at the last place of its name among the first `n`
/// names.
pub open spec fn is_kept_name<K: Key>(names: Seq<K>, n: nat, name: K) -> bool {
    exists|i: int| 0 <= i < n && is_last(names, i) && #[trigger] names[i] == name
}

/// The names of the columns for the first `n` names are among those names,
/// and none occurs twice.
proof fn lemma_columns_distinct<K: Key>(names: Seq<K>, records: Seq<Seq<Seq<char>>>, n: nat)
    requires
        n <= names.len(),
    ensures
        forall|c: int|
            0 <= c < spec_columns(names, records, n).len() ==> is_kept_name(
                names,
                n,
                (#[trigger] spec_columns(names, records, n)[c]).0,
            ),
        forall|a: int, b: int|
            0 <= a < b < spec_columns(names, records, n).len() ==> !(#[trigger] spec_columns(
                names,
                records,
                n,
            )[b]).0.spec_same(&(#[trigger] spec_columns(names, records, n)[a]).0),
    decreases n,
{
    if n > 0 {
        lemma_columns_distinct(names, records, (n - 1) as nat);
        let front = spec_columns(names, records, (n - 1) as nat);
        let all = spec_columns(names, records, n);
        assert forall|c: int| 0 <= c < all.len() implies is_kept_name(names, n, (#[trigger] all[c]).0) by {
            if c < front.len() {
                assert(all[c] == front[c]);
                assert(is_kept_name(names, (n - 1) as nat, front[c].0));
                let i = choose|i: int|
                    0 <= i < n - 1 && is_last(names, i) && #[trigger] names[i] == front[c].0;
                assert(0 <= i < n && is_last(names, i) && names[i] == all[c].0);
            } else {
                assert(is_last(names, n - 1) && names[n - 1] == all[c].0);
            }
        }
        assert forall|a: int, b: int| 0 <= a < b < all.len() implies !(#[trigger] all[b]).0.spec_same(
            &(#[trigger] all[a]).0,
        ) by {
            if b < front.len() {
                assert(all[a] == front[a] && all[b] == front[b]);
            } else {
                assert(all[a] == front[a]);
                assert(is_kept_name(names, (n - 1) as nat, front[a].0));
                let i = choose|i: int|
                    0 <= i < n - 1 && is_last(names, i) && #[trigger] names[i] == front[a].0;
                assert(!names[n - 1].spec_same(&names[i]));
            }
        }
    }
}

fn is_last_name<K: Key>(names: &Vec<K>, i: usize) -> (r: bool)
    requires
        i < names@.len(),
    ensures
        r == is_last(names@, i as int),
{
    let n = names.len();
    let mut j: usize = i + 1;
    while j < n
        invariant
            i < j <= n == names@.len(),
            forall|k: int| i < k < j ==> !(#[trigger] names@[k]).spec_same(&names@[i as int]),
        decreases n - j,
    {
        if names[j].same(&names[i]) {
            return false;
        }
        j += 1;
    }
    true
}

fn column_at(records: &Vec<Vec<&str>>, i: usize) -> (r: Column)
    requires
        forall|k: int| 0 <= k < records@.len() ==> i < (#[trigger] records@[k])@.len(),
    ensures
        r.cells() == Seq::new(records@.len(), |k: int| records@[k]@[i as int]@),
{
    let mut values: Vec<String> = Vec::new();
    let mut k: usize = 0;
    while k < records.len()
        invariant
            k <= records@.len(),
            values@.len() == k,
            forall|j: int| 0 <= j < records@.len() ==> i < (#[trigger] records@[j])@.len(),
            forall|j: int| 0 <= j < k ==> (#[trigger] values@[j])@ == records@[j]@[i as int]@,
        decreases records@.len() - k,
    {
        let record = &records[k];
        values.push(record[i].to_owned());
        k += 1;
    }
    let r = Column::new(values);
    assert(r.cells() =~= Seq::new(records@.len(), |k: int| records@[k]@[i as int]@));
    r
}

/// Builds a data frame with the given column names out of records. Each
/// record is first made as long as there are names. A name that occurs more
/// than once stands for the column at its last place.
pub fn create_dataframe<K: Key>(col_names: Vec<K>, records: &Vec<Vec<&str>>) -> (r: DataFrame<K>)
    ensures
        r.cells() == spec_columns(col_names@, slice_rows(records@), col_names@.len()),
        r.wf(),
{
    let ghost rows = slice_rows(records@);
    let padded = conform_records(col_names.len(), records);
    let mut columns: Vec<(K, Column)> = Vec::new();
    let mut i: usize = 0;
    while i < col_names.len()
        invariant
            i <= col_names@.len(),
            rows == slice_rows(records@),
            padded@.len() == records@.len(),
            forall|k: int|
                0 <= k < padded@.len() ==> slice_texts((#[trigger] padded@[k])@) == conformed(
                    slice_texts(records@[k]@),
                    col_names@.len() as nat,
                ),
            frame_cells(columns@) == spec_columns(col_names@, rows, i as nat),
        decreases col_names@.len() - i,
    {
        if is_last_name(&col_names, i) {
            proof {
                assert forall|k: int| 0 <= k < padded@.len() implies i < (#[trigger] padded@[k])@.len() by {
                    assert(slice_texts(padded@[k]@).len() == col_names@.len());
                }
            }
            let column = column_at(&padded, i);
            proof {
                assert(column.cells() =~= column_cells(rows, i as int)) by {
                    assert forall|k: int| 0 <= k < records@.len() implies padded@[k]@[i as int]@
                        == cell(rows[k], i as int) by {
                        assert(slice_texts(padded@[k]@)[i as int] == padded@[k]@[i as int]@);
                    }
                }
            }
            let ghost before = columns@;
            columns.push((col_names[i].duplicate(), column));
            proof {
                assert(frame_cells(columns@) =~= frame_cells(before).push(
                    (col_names@[i as int], column.cells()),
                ));
            }
        }
        i += 1;
    }
    let r = DataFrame { columns };
    proof {
        lemma_columns_distinct(col_names@, rows, col_names@.len());
        assert forall|a: int, b: int| 0 <= a < b < r.columns@.len() implies !(#[trigger] r.columns@[b]).0.spec_same(
            &(#[trigger] r.columns@[a]).0,
        ) by {
            assert(r.cells()[a].0 == r.columns@[a].0);
            assert(r.cells()[b].0 == r.columns@[b].0);
        }
    }
    r
}

/// The records of some lines: each line split at the separator, and each
/// piece trimmed.
pub open spec fn records_of(lines: Seq<Seq<char>>, separator: Seq<char>) -> Seq<Seq<Seq<char>>> {
    Seq::new(
        lines.len(),
        |i: int|
            Seq::new(
                pieces_of(lines[i], separator).len(),
                |j: int| trimmed(pieces_of(lines[i], separator)[j]),
            ),
    )
}

/// Splits each line at the separator and trims the pieces.
pub fn split_records<'a>(separator: &str, lines: &Vec<&'a str>) -> (r: Vec<Vec<&'a str>>)
    ensures
        slice_rows(r@) == records_of(slice_texts(lines@), separator@),
{
    let mut r: Vec<Vec<&'a str>> = Vec::new();
    let mut i: usize = 0;
    while i < lines.len()
        invariant
            i <= lines@.len(),
            r@.len() == i,
            forall|k: int|
                0 <= k < i ==> slice_texts((#[trigger] r@[k])@) == records_of(
                    slice_texts(lines@),
                    separator@,
                )[k],
        decreases lines@.len() - i,
    {
        let pieces = split_pieces(lines[i], separator);
        let mut record: Vec<&'a str> = Vec::new();
        let mut j: usize = 0;
        while j < pieces.len()
            invariant
                j <= pieces@.len(),
                record@.len() == j,
                forall|k: int| 0 <= k < j ==> (#[trigger] record@[k])@ == trimmed(pieces@[k]@),
            decreases pieces@.len() - j,
        {
            record.push(trim(pieces[j]));
            j += 1;
        }
        assert(slice_texts(record@) =~= records_of(slice_texts(lines@), separator@)[i as int]);
        r.push(record);
        i += 1;
    }
    assert(slice_rows(r@) =~= records_of(slice_texts(lines@), separator@));
    r
}

/// Splits a text into lines and the lines into records, and builds a data
/// frame with the given column names out of them.
pub fn split_dataframe<K: Key>(separator: &str, col_names: Vec<K>, s: &str) -> (r: DataFrame<K>)
    ensures
        r.cells() == spec_columns(col_names@, records_of(lines_of(s@), separator@), col_names@.len()),
        r.wf(),
{
    let lines = split_lines(s);
    assert(slice_texts(lines@) =~= lines_of(s@));
    let records = split_records(separator, &lines);
    create_dataframe(col_names, &records)
}

fn copy_names<K: Key>(names: &Vec<K>) -> (r: Vec<K>)
    ensures
        r@ == names@,
{
    let mut r: Vec<K> = Vec::new();
    let mut i: usize = 0;
    while i < names.len()
        invariant
            i <= names@.len(),
            r@.len() == i,
            forall|j: int| 0 <= j < i ==> #[trigger] r@[j] == names@[j],
        decreases names@.len() - i,
    {
        r.push(names[i].duplicate());
        i += 1;
    }
    assert(r@ =~= names@);
    r
}

/// The separator of the cells of a record where none is given: a comma.
pub fn separator_or_comma(separator: Option<&str>) -> (r: String)
    ensures
        r@ == match separator {
            Some(s) => s@,
            None => ","@,
        },
{
    match separator {
        Some(s) => s.to_owned(),
        None => ",".to_owned(),
    }
}

/// The function that builds a data frame out of records.
pub struct CreateDataframe<K> {
    pub col_names: Vec<K>,
}

impl<K: Key> Function for CreateDataframe<K> {
    type In = Vec<Vec<String>>;

    type Out = DataFrame<K>;

    open spec fn wf(&self) -> bool {
        true
    }

    open spec fn spec_eval(&self, arg: &Vec<Vec<String>>, out: &Fallible<DataFrame<K>>) -> bool {
        &&& *out is Ok
        &&& out->Ok_0.wf()
        &&& out->Ok_0.cells() == spec_columns(
            self.col_names@,
            text_rows(arg@),
            self.col_names@.len(),
        )
    }

    fn eval(&self, arg: &Vec<Vec<String>>) -> (r: Fallible<DataFrame<K>>) {
        let mut records: Vec<Vec<&str>> = Vec::new();
        let mut i: usize = 0;
        while i < arg.len()
            invariant
                i <= arg@.len(),
                records@.len() == i,
                forall|j: int| 0 <= j < i ==> slice_texts((#[trigger] records@[j])@) == texts(arg@[j]@),
            decreases arg@.len() - i,
        {
            records.push(vec_string_to_str(&arg[i]));
            i += 1;
        }
        assert(slice_rows(records@) =~= text_rows(arg@));
        Ok(create_dataframe(copy_names(&self.col_names), &records))
    }
}

/// The function that builds a data frame out of a text.
pub struct SplitDataframe<K> {
    pub separator: String,
    pub col_names: Vec<K>,
}

impl<K: Key> Function for SplitDataframe<K> {
    type In = String;

    type Out = DataFrame<K>;

    open spec fn wf(&self) -> bool {
        true
    }

    open spec fn spec_eval(&self, arg: &String, out: &Fallible<DataFrame<K>>) -> bool {
        &&& *out is Ok
        &&& out->Ok_0.wf()
        &&& out->Ok_0.cells() == spec_columns(
            self.col_names@,
            records_of(lines_of(arg@), self.separator@),
            self.col_names@.len(),
        )
    }

    fn eval(&self, arg: &String) -> (r: Fallible<DataFrame<K>>) {
        Ok(split_dataframe(self.separator.as_str(), copy_names(&self.col_names), arg.as_str()))
    }
}

/// The function that splits a text into its lines.
#[derive(Clone, Copy, Debug, PartialEq, Eq, Structural)]
pub struct SplitLines {}

impl Function for SplitLines {
    type In = String;

    type Out = Vec<String>;

    open spec fn wf(&self) -> bool {
        true
    }

    open spec fn spec_eval(&self, arg: &String, out: &Fallible<Vec<String>>) -> bool {
        *out is Ok && texts(out->Ok_0@) == lines_of(arg@)
    }

    fn eval(&self, arg: &String) -> (r: Fallible<Vec<String>>) {
        let lines = split_lines(arg.as_str());
        assert(slice_texts(lines@) =~= lines_of(arg@));
        Ok(vec_str_to_string(lines))
    }
}

/// The function that splits lines into records.
pub struct SplitRecords {
    pub separator: String,
}

impl Function for SplitRecords {
    type In = Vec<String>;

    type Out = Vec<Vec<String>>;

    open spec fn wf(&self) -> bool {
        true
    }

    open spec fn spec_eval(&self, arg: &Vec<String>, out: &Fallible<Vec<Vec<String>>>) -> bool {
        *out is Ok && text_rows(out->Ok_0@) == records_of(texts(arg@), self.separator@)
    }

    fn eval(&self, arg: &Vec<String>) -> (r: Fallible<Vec<Vec<String>>>) {
        let lines = vec_string_to_str(arg);
        let mut split = split_records(self.separator.as_str(), &lines);
        let ghost rows = slice_rows(split@);
        let mut records: Vec<Vec<String>> = Vec::new();
        while split.len() > 0
            invariant
                split@.len() + records@.len() == rows.len(),
                forall|j: int| 0 <= j < split@.len() ==> slice_texts((#[trigger] split@[j])@) == rows[j],
                forall|j: int|
                    0 <= j < records@.len() ==> texts((#[trigger] records@[j])@) == rows[rows.len() - 1
                        - j],
            decreases split@.len(),
        {
            let record = split.pop().unwrap();
            records.push(vec_str_to_string(record));
        }
        let mut ordered: Vec<Vec<String>> = Vec::new();
        while records.len() > 0
            invariant
                records@.len() + ordered@.len() == rows.len(),
                forall|j: int|
                    0 <= j < records@.len() ==> texts((#[trigger] records@[j])@) == rows[rows.len() - 1
                        - j],
                forall|j: int| 0 <= j < ordered@.len() ==> texts((#[trigger] ordered@[j])@) == rows[j],
            decreases records@.len(),
        {
            let record = records.pop().unwrap();
            ordered.push(record);
        }
        assert(text_rows(ordered@) =~= rows);
        Ok(ordered)
    }
}

/// The transformation that builds a data frame with the given column names
/// out of records. Records that differ in one place give data frames that
/// differ in one row.
pub fn make_create_dataframe<K: Key>(col_names: Vec<K>) -> (r: Fallible<
    Transformation<
        VectorDomain<VectorDomain<AllDomain<String>>>,
        DataFrameDomain<K>,
        CreateDataframe<K>,
        SymmetricDistance,
        SymmetricDistance,
        ConstantMap,
    >,
>)
    ensures
        r is Ok,
        r->Ok_0.wf(),
        forall|x: Vec<Vec<String>>| #[trigger] r->Ok_0.input_domain.spec_member(&x),
        r->Ok_0.function.col_names == col_names,
        r->Ok_0.stability_map.constant == 1,
{
    Ok(
        Transformation::new(
            VectorDomain::new(VectorDomain::new_all()),
            DataFrameDomain::new_all(),
            CreateDataframe { col_names },
            SymmetricDistance::default(),
            SymmetricDistance::default(),
            ConstantMap { constant: 1 },
        ),
    )
}

/// The transformation that builds a data frame with the given column names
/// out of a text, with one record to the line and the cells of a record set
/// apart by `separator`, by default a comma.
pub fn make_split_dataframe<K: Key>(separator: Option<&str>, col_names: Vec<K>) -> (r: Fallible<
    Transformation<
        AllDomain<String>,
        DataFrameDomain<K>,
        SplitDataframe<K>,
        SymmetricDistance,
        SymmetricDistance,
        ConstantMap,
    >,
>)
    ensures
        r is Ok,
        r->Ok_0.wf(),
        r->Ok_0.function.col_names == col_names,
        r->Ok_0.function.separator@ == match separator {
            Some(s) => s@,
            None => ","@,
        },
        r->Ok_0.stability_map.constant == 1,
{
    let separator = separator_or_comma(separator);
    Ok(
        Transformation::new(
            AllDomain::new(),
            DataFrameDomain::new_all(),
            SplitDataframe { separator, col_names },
            SymmetricDistance::default(),
            SymmetricDistance::default(),
            ConstantMap { constant: 1 },
        ),
    )
}

/// The transformation that takes a text and splits it into its lines.
pub fn make_split_lines() -> (r: Fallible<
    Transformation<
        AllDomain<String>,
        VectorDomain<AllDomain<String>>,
        SplitLines,
        SymmetricDistance,
        SymmetricDistance,
        ConstantMap,
    >,
>)
    ensures
        r is Ok,
        r->Ok_0.wf(),
        r->Ok_0.stability_map.constant == 1,
{
    Ok(
        Transformation::new(
            AllDomain::new(),
            VectorDomain::new_all(),
            SplitLines {  },
            SymmetricDistance::default(),
            SymmetricDistance::default(),
            ConstantMap { constant: 1 },
        ),
    )
}

/// The transformation that splits each line into a record of trimmed cells,
/// set apart by `separator`, by default a comma.
pub fn make_split_records(separator: Option<&str>) -> (r: Fallible<
    Transformation<
        VectorDomain<AllDomain<String>>,
        VectorDomain<VectorDomain<AllDomain<String>>>,
        SplitRecords,
        SymmetricDistance,
        SymmetricDistance,
        ConstantMap,
    >,
>)
    ensures
        r is Ok,
        r->Ok_0.wf(),
        forall|x: Vec<String>| #[trigger] r->Ok_0.input_domain.spec_member(&x),
        r->Ok_0.function.separator@ == match separator {
            Some(s) => s@,
            None => ","@,
        },
        r->Ok_0.stability_map.constant == 1,
{
    let separator = separator_or_comma(separator);
    Ok(
        Transformation::new(
            VectorDomain::new_all(),
            VectorDomain::new(VectorDomain::new_all()),
            SplitRecords { separator },
            SymmetricDistance::default(),
            SymmetricDistance::default(),
            ConstantMap { constant: 1 },
        ),
    )
}

} // verus!
