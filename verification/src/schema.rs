//! Schema adapter: turns a record set of untyped text fields into the typed
//! representation the emitter serializes.
//!
//! Without a schema every field stays text. With a schema the header must
//! spell out exactly the schema's field names, in order, and every cell of a
//! field declared numeric must parse as an unsigned integer fitting eight
//! bits; the first cell that does not ends the run with a coercion error.

use vstd::prelude::*;

use crate::reader::RecordSet;
use crate::reader::SpecRecords;

verus! {

/// The declared type of a field: text, or an unsigned 8-bit number.
#[derive(Clone, Copy, Debug, PartialEq, Eq, Structural)]
pub enum FieldKind {
    Text,
    Number,
}

/// A typed field value.
#[derive(Debug)]
pub enum Value {
    Text(Vec<char>),
    Number(u8),
}

/// The mathematical content of a typed field value.
pub enum SpecValue {
    Text(Seq<char>),
    Number(u8),
}

impl View for Value {
    type V = SpecValue;

    open spec fn view(&self) -> SpecValue {
        match self {
            Value::Text(t) => SpecValue::Text(t@),
            Value::Number(n) => SpecValue::Number(*n),
        }
    }
}

impl DeepView for Value {
    type V = SpecValue;

    open spec fn deep_view(&self) -> SpecValue {
        self.view()
    }
}

/// A schema: field names with the declared type of each.
#[derive(Debug)]
pub struct Schema {
    pub names: Vec<Vec<char>>,
    pub kinds: Vec<FieldKind>,
}

/// The mathematical content of a schema.
pub struct SpecSchema {
    pub names: Seq<Seq<char>>,
    pub kinds: Seq<FieldKind>,
}

impl SpecSchema {
    /// One declared type per field name.
    pub open spec fn wf(self) -> bool {
        self.names.len() == self.kinds.len()
    }
}

impl View for Schema {
    type V = SpecSchema;

    open spec fn view(&self) -> SpecSchema {
        SpecSchema { names: self.names.deep_view(), kinds: self.kinds@ }
    }
}

/// A record set after adaptation: the header, and rows of typed values.
#[derive(Debug)]
pub struct TypedRecordSet {
    pub header: Vec<Vec<char>>,
    pub rows: Vec<Vec<Value>>,
}

/// The mathematical content of an adapted record set.
pub struct SpecTyped {
    pub header: Seq<Seq<char>>,
    pub rows: Seq<Seq<SpecValue>>,
}

impl SpecTyped {
    /// Every row is as wide as the header.
    pub open spec fn wf(self) -> bool {
        forall|i: int|
            0 <= i < self.rows.len() ==> (#[trigger] self.rows[i]).len() == self.header.len()
    }
}

impl View for TypedRecordSet {
    type V = SpecTyped;

    open spec fn view(&self) -> SpecTyped {
        SpecTyped { header: self.header.deep_view(), rows: self.rows.deep_view() }
    }
}

/// Whether a character is a decimal digit.
pub open spec fn is_digit(c: char) -> bool {
    48 <= c as u32 && c as u32 <= 57
}

/// The value of one decimal digit.
pub open spec fn digit_val(c: char) -> int {
    c as u32 - 48
}

/// The value of a digit string read in base ten.
pub open spec fn digits_val(s: Seq<char>) -> int
    decreases s.len(),
{
    if s.len() == 0 {
        0
    } else {
        digits_val(s.drop_last()) * 10 + digit_val(s.last())
    }
}

/// Whether every character is a decimal digit.
pub open spec fn all_digits(s: Seq<char>) -> bool {
    forall|i: int| 0 <= i < s.len() ==> is_digit(#[trigger] s[i])
}

/// Whether a text cell is a valid unsigned 8-bit number: non-empty, digits
/// only, value at most 255.
pub open spec fn is_u8_text(s: Seq<char>) -> bool {
    s.len() > 0 && all_digits(s) && digits_val(s) <= 255
}

proof fn lemma_digits_val_nonneg(s: Seq<char>)
    requires
        all_digits(s),
    ensures
        digits_val(s) >= 0,
    decreases s.len(),
{
    if s.len() > 0 {
        assert forall|i: int| 0 <= i < s.drop_last().len() implies is_digit(
            #[trigger] s.drop_last()[i],
        ) by {
            assert(s.drop_last()[i] == s[i]);
        }
        lemma_digits_val_nonneg(s.drop_last());
        assert(is_digit(s.last()));
    }
}

proof fn lemma_digits_val_prefix(s: Seq<char>, i: int)
    requires
        all_digits(s),
        0 <= i <= s.len(),
    ensures
        digits_val(s.take(i)) <= digits_val(s),
    decreases s.len() - i,
{
    if i < s.len() {
        assert forall|k: int| 0 <= k < s.take(i).len() implies is_digit(
            #[trigger] s.take(i)[k],
        ) by {
            assert(s.take(i)[k] == s[k]);
        }
        lemma_digits_val_nonneg(s.take(i));
        assert(s.take(i + 1).drop_last() =~= s.take(i));
        assert(s.take(i + 1).last() == s[i]);
        assert(is_digit(s[i]));
        assert(digits_val(s.take(i + 1)) == digits_val(s.take(i)) * 10 + digit_val(s[i]));
        lemma_digits_val_prefix(s, i + 1);
    } else {
        assert(s.take(i) =~= s);
    }
}

/// Parses a text cell as an unsigned 8-bit number: digits only, no sign, at
/// most 255, leading zeroes allowed.
pub fn parse_u8(s: &Vec<char>) -> (r: Option<u8>)
    ensures
        r is Some <==> is_u8_text(s@),
        r matches Some(n) ==> n == digits_val(s@),
{
    if s.len() == 0 {
        return None;
    }
    let mut acc: u32 = 0;
    for i in 0..s.len()
        invariant
            s@.len() > 0,
            acc == digits_val(s@.take(i as int)),
            acc <= 255,
            forall|k: int| 0 <= k < i ==> is_digit(#[trigger] s@[k]),
    {
        let u = s[i] as u32;
        if u < 48 || u > 57 {
            proof {
                assert(!is_digit(s@[i as int]));
            }
            return None;
        }
        proof {
            assert(s@.take(i as int + 1).drop_last() =~= s@.take(i as int));
            assert(s@.take(i as int + 1).last() == s@[i as int]);
        }
        acc = acc * 10 + (u - 48);
        if acc > 255 {
            proof {
                assert(acc == digits_val(s@.take(i as int + 1)));
                if all_digits(s@) {
                    lemma_digits_val_prefix(s@, i as int + 1);
                }
                assert(!is_u8_text(s@));
            }
            return None;
        }
    }
    proof {
        assert(s@.take(s@.len() as int) =~= s@);
    }
    Some(acc as u8)
}

/// What one cell coerces to under a declared type, if anything.
pub open spec fn coerce_cell(kind: FieldKind, cell: Seq<char>) -> Option<SpecValue> {
    match kind {
        FieldKind::Text => Some(SpecValue::Text(cell)),
        FieldKind::Number => if is_u8_text(cell) {
            Some(SpecValue::Number(digits_val(cell) as u8))
        } else {
            None
        },
    }
}

/// A text row kept as it is: every cell stays text.
pub open spec fn text_row(row: Seq<Seq<char>>) -> Seq<SpecValue> {
    row.map_values(|c: Seq<char>| SpecValue::Text(c))
}

/// A row with every cell coerced under the schema's declared types.
pub open spec fn coerce_row(kinds: Seq<FieldKind>, row: Seq<Seq<char>>) -> Seq<SpecValue> {
    Seq::new(row.len(), |j: int| coerce_cell(kinds[j], row[j])->Some_0)
}

/// The position of the first cell in a row, from `j` on, that does not
/// coerce, if any.
pub open spec fn first_bad_col(kinds: Seq<FieldKind>, row: Seq<Seq<char>>, j: int) -> Option<int>
    decreases row.len() - j,
{
    if j < 0 || j >= row.len() {
        None
    } else if coerce_cell(kinds[j], row[j]) is None {
        Some(j)
    } else {
        first_bad_col(kinds, row, j + 1)
    }
}

/// The coordinates of the first cell, in row order from row `i` on, that
/// does not coerce, if any.
pub open spec fn first_bad_cell(kinds: Seq<FieldKind>, rows: Seq<Seq<Seq<char>>>, i: int) -> Option<
    (int, int),
>
    decreases rows.len() - i,
{
    if i < 0 || i >= rows.len() {
        None
    } else {
        match first_bad_col(kinds, rows[i], 0) {
            Some(j) => Some((i, j)),
            None => first_bad_cell(kinds, rows, i + 1),
        }
    }
}

/// One adaptation failure: the header does not match the schema, or a cell
/// does not parse into its declared type.
#[derive(Clone, Copy, Debug, PartialEq, Eq, Structural)]
pub enum CoerceError {
    /// The header does not spell out exactly the schema's field names.
    HeaderMismatch,
    /// The first cell, in row order, whose text does not parse into the
    /// declared type of its field.
    BadValue { row: usize, col: usize },
}

/// The schema of an optional schema reference.
pub open spec fn spec_schema_of(schema: Option<&Schema>) -> Option<SpecSchema> {
    match schema {
        Some(sc) => Some(sc@),
        None => None,
    }
}

/// What adapting a record set yields: without a schema, a passthrough with
/// every field as text; with one, the coerced rows, or the first failure.
pub open spec fn adapt_spec(rs: SpecRecords, schema: Option<SpecSchema>) -> Result<
    SpecTyped,
    CoerceError,
> {
    match schema {
        None => Ok(
            SpecTyped {
                header: rs.header,
                rows: rs.rows.map_values(|r: Seq<Seq<char>>| text_row(r)),
            },
        ),
        Some(sc) => {
            if rs.header != sc.names {
                Err(CoerceError::HeaderMismatch)
            } else {
                match first_bad_cell(sc.kinds, rs.rows, 0) {
                    Some(ij) => Err(
                        CoerceError::BadValue { row: ij.0 as usize, col: ij.1 as usize },
                    ),
                    None => Ok(
                        SpecTyped {
                            header: rs.header,
                            rows: rs.rows.map_values(|r: Seq<Seq<char>>| coerce_row(sc.kinds, r)),
                        },
                    ),
                }
            }
        },
    }
}

/// How an adaptation result corresponds to its mathematical description.
pub open spec fn adapt_matches(
    r: Result<TypedRecordSet, CoerceError>,
    s: Result<SpecTyped, CoerceError>,
) -> bool {
    match r {
        Ok(t) => s matches Ok(st) && t@ == st,
        Err(e) => s matches Err(e2) && e == e2,
    }
}

/// Copies a character vector.
pub fn clone_chars(v: &Vec<char>) -> (r: Vec<char>)
    ensures
        r@ == v@,
{
    let mut r: Vec<char> = Vec::new();
    for i in 0..v.len()
        invariant
            r@ == v@.take(i as int),
    {
        r.push(v[i]);
        proof {
            assert(r@ =~= v@.take(i as int + 1));
        }
    }
    proof {
        assert(r@ =~= v@);
    }
    r
}

/// Character-vector equality.
pub fn chars_eq(a: &Vec<char>, b: &Vec<char>) -> (r: bool)
    ensures
        r == (a@ == b@),
{
    if a.len() != b.len() {
        return false;
    }
    for i in 0..a.len()
        invariant
            a@.len() == b@.len(),
            forall|j: int| 0 <= j < i ==> a@[j] == b@[j],
    {
        if a[i] != b[i] {
            return false;
        }
    }
    proof {
        assert(a@ =~= b@);
    }
    true
}

/// Name-list equality, character for character.
#[verifier::loop_isolation(false)]
pub fn names_eq(a: &Vec<Vec<char>>, b: &Vec<Vec<char>>) -> (r: bool)
    ensures
        r == (a.deep_view() == b.deep_view()),
{
    if a.len() != b.len() {
        proof {
            assert(a.deep_view().len() != b.deep_view().len());
        }
        return false;
    }
    for i in 0..a.len()
        invariant
            a@.len() == b@.len(),
            forall|j: int| 0 <= j < i ==> a.deep_view()[j] == b.deep_view()[j],
    {
        let same = chars_eq(&a[i], &b[i]);
        proof {
            assert(a@[i as int].deep_view() =~= a@[i as int]@);
            assert(b@[i as int].deep_view() =~= b@[i as int]@);
            assert(a.deep_view()[i as int] == a@[i as int]@);
            assert(b.deep_view()[i as int] == b@[i as int]@);
        }
        if !same {
            return false;
        }
    }
    proof {
        assert(a.deep_view() =~= b.deep_view());
    }
    true
}

proof fn lemma_bad_col_none_all_ok(kinds: Seq<FieldKind>, row: Seq<Seq<char>>, lo: int)
    requires
        first_bad_col(kinds, row, lo) is None,
        0 <= lo,
    ensures
        forall|y: int|
            lo <= y < row.len() ==> coerce_cell(kinds[y], #[trigger] row[y]) is Some,
    decreases row.len() - lo,
{
    if lo < row.len() {
        lemma_bad_col_none_all_ok(kinds, row, lo + 1);
    }
}

proof fn lemma_bad_col_some(kinds: Seq<FieldKind>, row: Seq<Seq<char>>, lo: int, j: int)
    requires
        0 <= lo <= j < row.len(),
        forall|y: int| lo <= y < j ==> coerce_cell(kinds[y], #[trigger] row[y]) is Some,
        coerce_cell(kinds[j], row[j]) is None,
    ensures
        first_bad_col(kinds, row, lo) == Some(j),
    decreases j - lo,
{
    if lo < j {
        lemma_bad_col_some(kinds, row, lo + 1, j);
    }
}

proof fn lemma_bad_cell_none(kinds: Seq<FieldKind>, rows: Seq<Seq<Seq<char>>>, lo: int)
    requires
        0 <= lo,
        forall|x: int| lo <= x < rows.len() ==> first_bad_col(kinds, #[trigger] rows[x], 0) is None,
    ensures
        first_bad_cell(kinds, rows, lo) is None,
    decreases rows.len() - lo,
{
    if lo < rows.len() {
        lemma_bad_cell_none(kinds, rows, lo + 1);
    }
}

proof fn lemma_bad_cell_some(kinds: Seq<FieldKind>, rows: Seq<Seq<Seq<char>>>, lo: int, i: int)
    requires
        0 <= lo <= i < rows.len(),
        forall|x: int| lo <= x < i ==> first_bad_col(kinds, #[trigger] rows[x], 0) is None,
        first_bad_col(kinds, rows[i], 0) is Some,
    ensures
        first_bad_cell(kinds, rows, lo) == Some(
            (i, first_bad_col(kinds, rows[i], 0)->Some_0),
        ),
    decreases i - lo,
{
    if lo < i {
        lemma_bad_cell_some(kinds, rows, lo + 1, i);
    }
}

/// Adapts a record set: passthrough without a schema; with one, checks the
/// header against the schema's field names and coerces every numeric cell.
#[verifier::loop_isolation(false)]
pub fn adapt(rs: RecordSet, schema: Option<&Schema>) -> (r: Result<TypedRecordSet, CoerceError>)
    requires
        rs@.wf(),
        schema matches Some(sc) ==> sc@.wf(),
    ensures
        adapt_matches(r, adapt_spec(rs@, spec_schema_of(schema))),
        r matches Ok(t) ==> t@.wf(),
{
    let ghost rsv = rs@;
    let RecordSet { header, rows } = rs;
    match schema {
        None => {
            let ghost target = rsv.rows.map_values(|r: Seq<Seq<char>>| text_row(r));
            let mut out: Vec<Vec<Value>> = Vec::new();
            proof {
                assert(out.deep_view() =~= target.take(0));
            }
            for i in 0..rows.len()
                invariant
                    rows.deep_view() == rsv.rows,
                    target == rsv.rows.map_values(|r: Seq<Seq<char>>| text_row(r)),
                    out.deep_view() == target.take(i as int),
            {
                let row = &rows[i];
                let ghost rowv = rsv.rows[i as int];
                let mut orow: Vec<Value> = Vec::new();
                proof {
                    assert(orow.deep_view() =~= text_row(rowv).take(0));
                }
                for j in 0..row.len()
                    invariant
                        row.deep_view() == rowv,
                        orow.deep_view() == text_row(rowv).take(j as int),
                {
                    proof {
                        assert(row@[j as int].deep_view() =~= row@[j as int]@);
                        assert(rowv[j as int] == row@[j as int]@);
                    }
                    orow.push(Value::Text(clone_chars(&row[j])));
                    proof {
                        assert(orow.deep_view() =~= text_row(rowv).take(j as int + 1));
                    }
                }
                proof {
                    assert(orow.deep_view() =~= text_row(rowv));
                }
                out.push(orow);
                proof {
                    assert(out.deep_view() =~= target.take(i as int + 1));
                }
            }
            proof {
                assert(out.deep_view() =~= target);
            }
            let t = TypedRecordSet { header, rows: out };
            proof {
                assert forall|k: int| 0 <= k < t@.rows.len() implies (#[trigger] t@.rows[k]).len()
                    == t@.header.len() by {
                    assert(t@.rows[k] == text_row(rsv.rows[k]));
                    assert(rsv.rows[k].len() == rsv.header.len());
                }
            }
            Ok(t)
        },
        Some(sc) => {
            if !names_eq(&header, &sc.names) {
                return Err(CoerceError::HeaderMismatch);
            }
            let ghost kinds = sc@.kinds;
            let ghost target = rsv.rows.map_values(|r: Seq<Seq<char>>| coerce_row(kinds, r));
            let mut out: Vec<Vec<Value>> = Vec::new();
            proof {
                assert(out.deep_view() =~= target.take(0));
            }
            for i in 0..rows.len()
                invariant
                    rows.deep_view() == rsv.rows,
                    rsv.wf(),
                    sc@.wf(),
                    rsv.header == sc@.names,
                    kinds == sc@.kinds,
                    target == rsv.rows.map_values(|r: Seq<Seq<char>>| coerce_row(kinds, r)),
                    out.deep_view() == target.take(i as int),
                    forall|x: int|
                        0 <= x < i ==> first_bad_col(kinds, #[trigger] rsv.rows[x], 0) is None,
            {
                let row = &rows[i];
                let ghost rowv = rsv.rows[i as int];
                let mut orow: Vec<Value> = Vec::new();
                proof {
                    assert(orow.deep_view() =~= coerce_row(kinds, rowv).take(0));
                    assert(rowv.len() == rsv.header.len());
                }
                for j in 0..row.len()
                    invariant
                        row.deep_view() == rowv,
                        rowv.len() == sc@.names.len(),
                        sc@.wf(),
                        kinds == sc@.kinds,
                        orow.deep_view() == coerce_row(kinds, rowv).take(j as int),
                        forall|y: int|
                            0 <= y < j ==> coerce_cell(kinds[y], #[trigger] rowv[y]) is Some,
                {
                    proof {
                        assert(row@[j as int].deep_view() =~= row@[j as int]@);
                        assert(rowv[j as int] == row@[j as int]@);
                    }
                    let kind = sc.kinds[j];
                    match kind {
                        FieldKind::Text => {
                            orow.push(Value::Text(clone_chars(&row[j])));
                        },
                        FieldKind::Number => {
                            match parse_u8(&row[j]) {
                                Some(n) => {
                                    orow.push(Value::Number(n));
                                },
                                None => {
                                    proof {
                                        assert(coerce_cell(kinds[j as int], rowv[j as int])
                                            is None);
                                        lemma_bad_col_some(kinds, rowv, 0, j as int);
                                        lemma_bad_cell_some(kinds, rsv.rows, 0, i as int);
                                    }
                                    return Err(CoerceError::BadValue { row: i, col: j });
                                },
                            }
                        },
                    }
                    proof {
                        assert(coerce_cell(kinds[j as int], rowv[j as int]) is Some);
                        assert(orow.deep_view() =~= coerce_row(kinds, rowv).take(j as int + 1));
                    }
                }
                proof {
                    assert(orow.deep_view() =~= coerce_row(kinds, rowv));
                    lemma_bad_col_none_from_ok(kinds, rowv, 0);
                }
                out.push(orow);
                proof {
                    assert(out.deep_view() =~= target.take(i as int + 1));
                }
            }
            proof {
                assert(out.deep_view() =~= target);
                lemma_bad_cell_none(kinds, rsv.rows, 0);
            }
            let t = TypedRecordSet { header, rows: out };
            proof {
                assert forall|k: int| 0 <= k < t@.rows.len() implies (#[trigger] t@.rows[k]).len()
                    == t@.header.len() by {
                    assert(t@.rows[k] == coerce_row(kinds, rsv.rows[k]));
                    assert(rsv.rows[k].len() == rsv.header.len());
                }
            }
            Ok(t)
        },
    }
}

proof fn lemma_bad_col_none_from_ok(kinds: Seq<FieldKind>, row: Seq<Seq<char>>, lo: int)
    requires
        0 <= lo,
        forall|y: int| lo <= y < row.len() ==> coerce_cell(kinds[y], #[trigger] row[y]) is Some,
    ensures
        first_bad_col(kinds, row, lo) is None,
    decreases row.len() - lo,
{
    if lo < row.len() {
        lemma_bad_col_none_from_ok(kinds, row, lo + 1);
    }
}

/// Law: with a header that matches the schema, a record holding a
/// non-numeric value in a field the schema declares numeric makes the
/// adaptation fail, and the failure is a coercion error on a cell, not a
/// header mismatch.
pub proof fn lemma_schema_rejection(rs: SpecRecords, sc: SpecSchema, i: int, j: int)
    requires
        sc.wf(),
        rs.wf(),
        rs.header == sc.names,
        0 <= i < rs.rows.len(),
        0 <= j < rs.rows[i].len(),
        sc.kinds[j] == FieldKind::Number,
        !is_u8_text(rs.rows[i][j]),
    ensures
        adapt_spec(rs, Some(sc)) is Err,
        adapt_spec(rs, Some(sc))->Err_0 is BadValue,
{
    if first_bad_cell(sc.kinds, rs.rows, 0) is None {
        lemma_bad_cell_none_all_ok(sc.kinds, rs.rows, 0);
        assert(coerce_cell(sc.kinds[j], rs.rows[i][j]) is Some);
        assert(false);
    }
}

proof fn lemma_bad_cell_none_all_ok(kinds: Seq<FieldKind>, rows: Seq<Seq<Seq<char>>>, lo: int)
    requires
        0 <= lo,
        first_bad_cell(kinds, rows, lo) is None,
    ensures
        forall|x: int, y: int|
            lo <= x < rows.len() && 0 <= y < rows[x].len() ==> coerce_cell(
                kinds[y],
                #[trigger] rows[x][y],
            ) is Some,
    decreases rows.len() - lo,
{
    if lo < rows.len() {
        lemma_bad_col_none_all_ok(kinds, rows[lo], 0);
        lemma_bad_cell_none_all_ok(kinds, rows, lo + 1);
    }
}

} // verus!
