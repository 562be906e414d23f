//! Record reader: parses delimited tabular text into an ordered sequence of
//! rows of text fields, the first row being the header.
//!
//! Fields are separated by a configurable delimiter character and rows by
//! line breaks. A field wrapped in double quotes may contain the delimiter,
//! line breaks and doubled quotes (each doubled quote stands for one literal
//! quote). Unterminated quotes and stray characters after a closing quote
//! are kept literally rather than rejected. Lines with no content at all are
//! skipped.

use vstd::prelude::*;

verus! {

/// Where the parser stands inside the current row.
#[derive(Clone, Copy, Debug, PartialEq, Eq, Structural)]
pub enum Mode {
    /// At the start of a field (and possibly of a row).
    FieldStart,
    /// Inside an unquoted field.
    Unquoted,
    /// Inside a quoted field.
    Quoted,
    /// Just saw a quote while inside a quoted field: it either closes the
    /// field or, doubled, stands for a literal quote.
    QuoteEnd,
    /// Saw a carriage return that opens a row break if a line feed follows.
    AfterCr,
}

/// The parser state: the finished rows, the finished fields of the current
/// row, the characters of the current field, the mode, and whether the
/// current row has consumed any character yet.
pub struct ParseState {
    pub rows: Seq<Seq<Seq<char>>>,
    pub row: Seq<Seq<char>>,
    pub field: Seq<char>,
    pub mode: Mode,
    pub touched: bool,
}

/// The state in which parsing starts.
pub open spec fn init_state() -> ParseState {
    ParseState {
        rows: Seq::empty(),
        row: Seq::empty(),
        field: Seq::empty(),
        mode: Mode::FieldStart,
        touched: false,
    }
}

/// Closes the current field: it joins the current row.
pub open spec fn spec_end_field(st: ParseState) -> ParseState {
    ParseState {
        rows: st.rows,
        row: st.row.push(st.field),
        field: Seq::empty(),
        mode: Mode::FieldStart,
        touched: true,
    }
}

/// Closes the current row: with any content it joins the finished rows,
/// without content the line is skipped.
pub open spec fn spec_end_row(st: ParseState) -> ParseState {
    ParseState {
        rows: if st.touched {
            st.rows.push(st.row.push(st.field))
        } else {
            st.rows
        },
        row: Seq::empty(),
        field: Seq::empty(),
        mode: Mode::FieldStart,
        touched: false,
    }
}

/// Appends one character to the current field and moves to the given mode.
pub open spec fn spec_push_char(st: ParseState, c: char, m: Mode) -> ParseState {
    ParseState { field: st.field.push(c), mode: m, touched: true, ..st }
}

/// One step of the parser on one character, with delimiter `d`.
pub open spec fn csv_step(st: ParseState, c: char, d: char) -> ParseState {
    match st.mode {
        Mode::FieldStart => {
            if c == d {
                spec_end_field(st)
            } else if c == '"' {
                ParseState { mode: Mode::Quoted, touched: true, ..st }
            } else if c == '\n' {
                spec_end_row(st)
            } else if c == '\r' {
                ParseState { mode: Mode::AfterCr, ..st }
            } else {
                spec_push_char(st, c, Mode::Unquoted)
            }
        },
        Mode::Unquoted => {
            if c == d {
                spec_end_field(st)
            } else if c == '\n' {
                spec_end_row(st)
            } else if c == '\r' {
                ParseState { mode: Mode::AfterCr, ..st }
            } else {
                spec_push_char(st, c, Mode::Unquoted)
            }
        },
        Mode::Quoted => {
            if c == '"' {
                ParseState { mode: Mode::QuoteEnd, ..st }
            } else {
                spec_push_char(st, c, Mode::Quoted)
            }
        },
        Mode::QuoteEnd => {
            if c == '"' {
                spec_push_char(st, c, Mode::Quoted)
            } else if c == d {
                spec_end_field(st)
            } else if c == '\n' {
                spec_end_row(st)
            } else if c == '\r' {
                ParseState { mode: Mode::AfterCr, ..st }
            } else {
                spec_push_char(st, c, Mode::Unquoted)
            }
        },
        Mode::AfterCr => {
            if c == '\n' {
                spec_end_row(st)
            } else {
                let st1 = spec_push_char(st, '\r', Mode::Unquoted);
                if c == d {
                    spec_end_field(st1)
                } else if c == '\r' {
                    ParseState { mode: Mode::AfterCr, ..st1 }
                } else {
                    spec_push_char(st1, c, Mode::Unquoted)
                }
            }
        },
    }
}

/// Runs the parser over a whole input.
pub open spec fn csv_run(input: Seq<char>, d: char) -> ParseState
    decreases input.len(),
{
    if input.len() == 0 {
        init_state()
    } else {
        csv_step(csv_run(input.drop_last(), d), input.last(), d)
    }
}

/// Closes the final row at the end of the input. A pending carriage return
/// is an ordinary character; a row with any content still joins the rows.
pub open spec fn csv_finish(st: ParseState) -> Seq<Seq<Seq<char>>> {
    let st1 = if st.mode == Mode::AfterCr {
        spec_push_char(st, '\r', Mode::Unquoted)
    } else {
        st
    };
    if st1.touched {
        st1.rows.push(st1.row.push(st1.field))
    } else {
        st1.rows
    }
}

/// What parsing a whole input yields: the rows of fields, in input order.
pub open spec fn parse_rows_spec(input: Seq<char>, d: char) -> Seq<Seq<Seq<char>>> {
    csv_finish(csv_run(input, d))
}

/// Empties a vector and hands its contents out.
fn take_vec<T>(v: &mut Vec<T>) -> (r: Vec<T>)
    ensures
        r@ == old(v)@,
        final(v)@ == Seq::<T>::empty(),
{
    let mut tmp: Vec<T> = Vec::new();
    core::mem::swap(&mut tmp, v);
    proof {
        assert(v@ =~= Seq::<T>::empty());
    }
    tmp
}

/// Moves the finished field to the end of the current row.
fn do_end_field(row: &mut Vec<Vec<char>>, field: &mut Vec<char>)
    ensures
        final(row).deep_view() == old(row).deep_view().push(old(field)@),
        final(field)@ == Seq::<char>::empty(),
{
    let done = take_vec(field);
    proof {
        assert(done.deep_view() =~= done@);
    }
    row.push(done);
    proof {
        assert(row.deep_view() =~= old(row).deep_view().push(old(field)@));
    }
}

/// Moves the finished field and row to the end of the finished rows.
fn do_end_row(rows: &mut Vec<Vec<Vec<char>>>, row: &mut Vec<Vec<char>>, field: &mut Vec<char>)
    ensures
        final(rows).deep_view() == old(rows).deep_view().push(
            old(row).deep_view().push(old(field)@),
        ),
        final(row).deep_view() == Seq::<Seq<char>>::empty(),
        final(field)@ == Seq::<char>::empty(),
{
    do_end_field(row, field);
    let done = take_vec(row);
    proof {
        assert(done.deep_view() =~= old(row).deep_view().push(old(field)@));
        assert(row.deep_view() =~= Seq::<Seq<char>>::empty());
    }
    rows.push(done);
    proof {
        assert(rows.deep_view() =~= old(rows).deep_view().push(
            old(row).deep_view().push(old(field)@),
        ));
    }
}

/// Parses a whole input into rows of fields.
pub fn parse_rows(input: &str, d: char) -> (rows: Vec<Vec<Vec<char>>>)
    ensures
        rows.deep_view() == parse_rows_spec(input@, d),
{
    let n = input.unicode_len();
    let mut rows: Vec<Vec<Vec<char>>> = Vec::new();
    let mut row: Vec<Vec<char>> = Vec::new();
    let mut field: Vec<char> = Vec::new();
    let mut mode = Mode::FieldStart;
    let mut touched = false;
    proof {
        assert(rows.deep_view() =~= Seq::<Seq<Seq<char>>>::empty());
        assert(row.deep_view() =~= Seq::<Seq<char>>::empty());
        assert(input@.take(0) =~= Seq::<char>::empty());
    }
    for i in 0..n
        invariant
            n == input@.len(),
            rows.deep_view() == csv_run(input@.take(i as int), d).rows,
            row.deep_view() == csv_run(input@.take(i as int), d).row,
            field@ == csv_run(input@.take(i as int), d).field,
            mode == csv_run(input@.take(i as int), d).mode,
            touched == csv_run(input@.take(i as int), d).touched,
    {
        let ghost st = csv_run(input@.take(i as int), d);
        let c = input.get_char(i);
        proof {
            assert(input@.take(i as int + 1).drop_last() =~= input@.take(i as int));
            assert(input@.take(i as int + 1).last() == c);
        }
        if mode == Mode::Quoted {
            if c == '"' {
                mode = Mode::QuoteEnd;
            } else {
                field.push(c);
                touched = true;
            }
        } else if mode == Mode::AfterCr {
            if c == '\n' {
                if touched {
                    do_end_row(&mut rows, &mut row, &mut field);
                } else {
                    row.clear();
                    field.clear();
                    proof {
                        assert(row.deep_view() =~= Seq::<Seq<char>>::empty());
                    }
                }
                mode = Mode::FieldStart;
                touched = false;
            } else {
                field.push('\r');
                touched = true;
                if c == d {
                    do_end_field(&mut row, &mut field);
                    mode = Mode::FieldStart;
                } else if c == '\r' {
                    mode = Mode::AfterCr;
                } else {
                    field.push(c);
                    mode = Mode::Unquoted;
                }
            }
        } else if mode == Mode::FieldStart && c != d && c == '"' {
            mode = Mode::Quoted;
            touched = true;
        } else if mode == Mode::QuoteEnd && c == '"' {
            field.push(c);
            mode = Mode::Quoted;
            touched = true;
        } else if c == d {
            do_end_field(&mut row, &mut field);
            mode = Mode::FieldStart;
            touched = true;
        } else if c == '\n' {
            if touched {
                do_end_row(&mut rows, &mut row, &mut field);
            } else {
                row.clear();
                field.clear();
                proof {
                    assert(row.deep_view() =~= Seq::<Seq<char>>::empty());
                }
            }
            mode = Mode::FieldStart;
            touched = false;
        } else if c == '\r' {
            mode = Mode::AfterCr;
        } else {
            field.push(c);
            mode = Mode::Unquoted;
            touched = true;
        }
        proof {
            assert(csv_run(input@.take(i as int + 1), d) == csv_step(st, c, d));
        }
    }
    proof {
        assert(input@.take(n as int) =~= input@);
    }
    if mode == Mode::AfterCr {
        field.push('\r');
        touched = true;
    }
    if touched {
        do_end_row(&mut rows, &mut row, &mut field);
    }
    proof {
        assert(rows.deep_view() == parse_rows_spec(input@, d));
    }
    rows
}

/// One reading failure: empty input (no header) or a row whose width does
/// not match the header's.
#[derive(Clone, Copy, Debug, PartialEq, Eq, Structural)]
pub enum ReadError {
    /// The input has no rows at all, so there is no header.
    Empty,
    /// The first data row whose field count differs from the header's.
    WidthMismatch { row: usize, expected: usize, found: usize },
}

/// The mathematical content of a record set: the header names, and the data
/// rows, each an ordered sequence of text fields named positionally by the
/// header.
pub struct SpecRecords {
    pub header: Seq<Seq<char>>,
    pub rows: Seq<Seq<Seq<char>>>,
}

impl SpecRecords {
    /// Every row is as wide as the header.
    pub open spec fn wf(self) -> bool {
        forall|i: int|
            0 <= i < self.rows.len() ==> (#[trigger] self.rows[i]).len() == self.header.len()
    }
}

/// An ordered collection of records: a header of field names and the data
/// rows, all sharing the header's width.
#[derive(Debug)]
pub struct RecordSet {
    pub header: Vec<Vec<char>>,
    pub rows: Vec<Vec<Vec<char>>>,
}

impl View for RecordSet {
    type V = SpecRecords;

    open spec fn view(&self) -> SpecRecords {
        SpecRecords { header: self.header.deep_view(), rows: self.rows.deep_view() }
    }
}

/// The position of the first row from `i` on whose width differs from the
/// header row's, if any.
pub open spec fn first_mismatch_from(rows: Seq<Seq<Seq<char>>>, i: int) -> Option<int>
    decreases rows.len() - i,
{
    if i < 0 || i >= rows.len() {
        None
    } else if rows[i].len() != rows[0].len() {
        Some(i)
    } else {
        first_mismatch_from(rows, i + 1)
    }
}

/// What reading an input yields: the header and the data rows, or the first
/// reading failure.
pub open spec fn read_spec(input: Seq<char>, d: char) -> Result<SpecRecords, ReadError> {
    let rows = parse_rows_spec(input, d);
    if rows.len() == 0 {
        Err(ReadError::Empty)
    } else {
        match first_mismatch_from(rows, 1) {
            Some(i) => Err(
                ReadError::WidthMismatch {
                    row: i as usize,
                    expected: rows[0].len() as usize,
                    found: rows[i].len() as usize,
                },
            ),
            None => Ok(
                SpecRecords { header: rows[0], rows: rows.subrange(1, rows.len() as int) },
            ),
        }
    }
}

proof fn lemma_no_mismatch(rows: Seq<Seq<Seq<char>>>, lo: int)
    requires
        1 <= lo,
        forall|j: int| lo <= j < rows.len() ==> (#[trigger] rows[j]).len() == rows[0].len(),
    ensures
        first_mismatch_from(rows, lo) is None,
    decreases rows.len() - lo,
{
    if lo < rows.len() {
        lemma_no_mismatch(rows, lo + 1);
    }
}

proof fn lemma_first_mismatch(rows: Seq<Seq<Seq<char>>>, lo: int, k: int)
    requires
        1 <= lo <= k < rows.len(),
        forall|j: int| lo <= j < k ==> (#[trigger] rows[j]).len() == rows[0].len(),
        rows[k].len() != rows[0].len(),
    ensures
        first_mismatch_from(rows, lo) == Some(k),
    decreases k - lo,
{
    if lo < k {
        lemma_first_mismatch(rows, lo + 1, k);
    }
}

/// Reads a whole input into a record set: the first row is the header, and
/// every data row must have exactly the header's field count.
pub fn read_records(input: &str, d: char) -> (r: Result<RecordSet, ReadError>)
    ensures
        r is Ok <==> read_spec(input@, d) is Ok,
        r matches Ok(rs) ==> read_spec(input@, d) matches Ok(s) && rs@ == s && rs@.wf(),
        r matches Err(e) ==> read_spec(input@, d) matches Err(e2) && e == e2,
{
    let ghost all = parse_rows_spec(input@, d);
    let mut rows = parse_rows(input, d);
    if rows.len() == 0 {
        return Err(ReadError::Empty);
    }
    let ghost rows0: Seq<Vec<Vec<char>>> = rows@;
    let header = rows.remove(0);
    proof {
        assert forall|j: int| 0 <= j < rows@.len() implies rows.deep_view()[j] == all.subrange(
            1,
            all.len() as int,
        )[j] by {
            assert(rows@[j] == rows0[j + 1]) by {
                assert(rows@ == rows0.remove(0));
            }
        }
        assert(rows.deep_view() =~= all.subrange(1, all.len() as int));
        assert(header.deep_view() == all[0]);
    }
    let expected = header.len();
    let ghost data = all.subrange(1, all.len() as int);
    let mut i: usize = 0;
    while i < rows.len()
        invariant
            all == parse_rows_spec(input@, d),
            all.len() == rows@.len() + 1,
            rows.deep_view() == data,
            data == all.subrange(1, all.len() as int),
            all.len() > 0,
            expected == header@.len(),
            header.deep_view() == all[0],
            i <= rows@.len(),
            forall|j: int| 1 <= j <= i ==> (#[trigger] all[j]).len() == all[0].len(),
        decreases rows@.len() - i,
    {
        let found = rows[i].len();
        proof {
            assert(all[i as int + 1] == data[i as int]);
            assert(data[i as int] == rows@[i as int].deep_view());
        }
        if found != expected {
            proof {
                lemma_first_mismatch(all, 1, i as int + 1);
            }
            return Err(ReadError::WidthMismatch { row: i + 1, expected, found });
        }
        i = i + 1;
    }
    proof {
        lemma_no_mismatch(all, 1);
        assert forall|k: int| 0 <= k < data.len() implies (#[trigger] data[k]).len()
            == all[0].len() by {
            assert(data[k] == all[k + 1]);
        }
    }
    Ok(RecordSet { header, rows })
}

/// The input with every occurrence of one delimiter replaced by another.
pub open spec fn swap_delims(s: Seq<char>, d1: char, d2: char) -> Seq<char> {
    s.map_values(
        |c: char|
            if c == d1 {
                d2
            } else {
                c
            },
    )
}

proof fn lemma_delimiter_swap_run(input: Seq<char>, d1: char, d2: char)
    requires
        !input.contains('"'),
        !input.contains('\r'),
        !input.contains(d2),
        d2 != '"',
        d2 != '\r',
    ensures
        csv_run(swap_delims(input, d1, d2), d2) == csv_run(input, d1),
        csv_run(input, d1).mode == Mode::FieldStart || csv_run(input, d1).mode == Mode::Unquoted,
    decreases input.len(),
{
    if input.len() == 0 {
        assert(swap_delims(input, d1, d2) =~= input);
    } else {
        let rest = input.drop_last();
        let c = input.last();
        assert(input.contains(c)) by {
            assert(input[input.len() - 1] == c);
        }
        assert forall|x: char| rest.contains(x) implies input.contains(x) by {
            let i = choose|i: int| 0 <= i < rest.len() && rest[i] == x;
            assert(input[i] == x);
        }
        lemma_delimiter_swap_run(rest, d1, d2);
        assert(swap_delims(input, d1, d2).drop_last() =~= swap_delims(rest, d1, d2));
        assert(swap_delims(input, d1, d2).last() == (if c == d1 {
            d2
        } else {
            c
        }));
    }
}

/// Law: for an input free of quotes and carriage returns, parsing with a
/// delimiter yields exactly what the same input with every delimiter
/// occurrence replaced by a second, otherwise unused delimiter character
/// yields under that second delimiter — the same rows, fields and values.
pub proof fn lemma_delimiter_equivalence(input: Seq<char>, d1: char, d2: char)
    requires
        !input.contains('"'),
        !input.contains('\r'),
        !input.contains(d2),
        d2 != '"',
        d2 != '\r',
    ensures
        parse_rows_spec(swap_delims(input, d1, d2), d2) == parse_rows_spec(input, d1),
{
    lemma_delimiter_swap_run(input, d1, d2);
}

/// Law: a well-formed delimited input — one with a header row and data rows
/// that all share the header's field count — reads into a record set with
/// exactly one record per data row, each record exactly as wide as the
/// header, so that field names and field values correspond positionally in
/// header order.
pub proof fn lemma_reader_round_trip(input: Seq<char>, d: char)
    requires
        parse_rows_spec(input, d).len() > 0,
        forall|j: int|
            1 <= j < parse_rows_spec(input, d).len() ==> (#[trigger] parse_rows_spec(input, d)[j]).len()
                == parse_rows_spec(input, d)[0].len(),
    ensures
        read_spec(input, d) matches Ok(rs) && {
            &&& rs.rows.len() == parse_rows_spec(input, d).len() - 1
            &&& rs.header == parse_rows_spec(input, d)[0]
            &&& rs.wf()
        },
{
    let all = parse_rows_spec(input, d);
    lemma_no_mismatch(all, 1);
    let rs = read_spec(input, d)->Ok_0;
    assert forall|k: int| 0 <= k < rs.rows.len() implies (#[trigger] rs.rows[k]).len()
        == rs.header.len() by {
        assert(rs.rows[k] == all[k + 1]);
    }
}

} // verus!
