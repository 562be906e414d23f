//! The sample schema: squad players with four text fields and a numeric
//! kit number.

use vstd::prelude::*;

use crate::schema::FieldKind;
use crate::schema::Schema;
use crate::schema::SpecSchema;
use crate::schema::SpecValue;
use crate::schema::TypedRecordSet;
use crate::schema::Value;
use crate::schema::names_eq;
use crate::text::chars_to_string;
use crate::text::str_to_chars;

verus! {

/// One record of the sample schema.
#[derive(Debug)]
pub struct Player {
    pub name: String,
    pub position: String,
    pub dob: String,
    pub nationality: String,
    pub kit: u8,
}

/// The sample schema's field names and declared types.
pub open spec fn player_schema_spec() -> SpecSchema {
    SpecSchema {
        names: seq!["name"@, "position"@, "DOB"@, "nationality"@, "Kit Number"@],
        kinds: seq![
            FieldKind::Text,
            FieldKind::Text,
            FieldKind::Text,
            FieldKind::Text,
            FieldKind::Number,
        ],
    }
}

/// Builds the sample schema.
pub fn player_schema() -> (sc: Schema)
    ensures
        sc@ == player_schema_spec(),
        sc@.wf(),
{
    let mut names: Vec<Vec<char>> = Vec::new();
    names.push(str_to_chars("name"));
    names.push(str_to_chars("position"));
    names.push(str_to_chars("DOB"));
    names.push(str_to_chars("nationality"));
    names.push(str_to_chars("Kit Number"));
    let mut kinds: Vec<FieldKind> = Vec::new();
    kinds.push(FieldKind::Text);
    kinds.push(FieldKind::Text);
    kinds.push(FieldKind::Text);
    kinds.push(FieldKind::Text);
    kinds.push(FieldKind::Number);
    let sc = Schema { names, kinds };
    proof {
        assert forall|i: int| 0 <= i < 5 implies sc@.names[i]
            == player_schema_spec().names[i] by {
            assert(sc.names@[i].deep_view() =~= sc.names@[i]@);
        }
        assert(sc@.names =~= player_schema_spec().names);
        assert(sc@.kinds =~= player_schema_spec().kinds);
    }
    sc
}

/// Whether one adapted row has the sample shape: four text values and a
/// numeric kit number.
pub open spec fn player_row_ok(row: Seq<SpecValue>) -> bool {
    &&& row.len() == 5
    &&& row[0] is Text
    &&& row[1] is Text
    &&& row[2] is Text
    &&& row[3] is Text
    &&& row[4] is Number
}

/// How one such row reads as a player.
pub open spec fn player_of_row(row: Seq<SpecValue>) -> (Seq<char>, Seq<char>, Seq<char>, Seq<
    char,
>, u8) {
    (row[0]->Text_0, row[1]->Text_0, row[2]->Text_0, row[3]->Text_0, row[4]->Number_0)
}

/// Reads an adapted record set as players: it succeeds exactly when the
/// header spells the sample schema's field names and every row has the
/// sample shape, and then yields one player per row, fields in order.
#[verifier::loop_isolation(false)]
pub fn to_players(t: &TypedRecordSet) -> (r: Option<Vec<Player>>)
    ensures
        r is Some <==> (t@.header == player_schema_spec().names && (forall|i: int|
            0 <= i < t@.rows.len() ==> player_row_ok(#[trigger] t@.rows[i]))),
        r matches Some(ps) ==> ps@.len() == t@.rows.len(),
        r matches Some(ps) ==> forall|i: int|
            0 <= i < t@.rows.len() ==> {
                let (name, position, dob, nationality, kit) = player_of_row(#[trigger] t@.rows[i]);
                &&& ps@[i].name@ == name
                &&& ps@[i].position@ == position
                &&& ps@[i].dob@ == dob
                &&& ps@[i].nationality@ == nationality
                &&& ps@[i].kit == kit
            },
{
    let sc = player_schema();
    if !names_eq(&t.header, &sc.names) {
        return None;
    }
    let mut ps: Vec<Player> = Vec::new();
    for i in 0..t.rows.len()
        invariant
            ps@.len() == i as nat,
            forall|x: int| 0 <= x < i ==> player_row_ok(#[trigger] t@.rows[x]),
            forall|x: int|
                0 <= x < i ==> {
                    let (name, position, dob, nationality, kit) = player_of_row(
                        #[trigger] t@.rows[x],
                    );
                    &&& ps@[x].name@ == name
                    &&& ps@[x].position@ == position
                    &&& ps@[x].dob@ == dob
                    &&& ps@[x].nationality@ == nationality
                    &&& ps@[x].kit == kit
                },
    {
        let row = &t.rows[i];
        proof {
            assert(row.deep_view() == t@.rows[i as int]);
        }
        if row.len() != 5 {
            return None;
        }
        let name = match &row[0] {
            Value::Text(c) => chars_to_string(c),
            Value::Number(_) => {
                return None;
            },
        };
        let position = match &row[1] {
            Value::Text(c) => chars_to_string(c),
            Value::Number(_) => {
                return None;
            },
        };
        let dob = match &row[2] {
            Value::Text(c) => chars_to_string(c),
            Value::Number(_) => {
                return None;
            },
        };
        let nationality = match &row[3] {
            Value::Text(c) => chars_to_string(c),
            Value::Number(_) => {
                return None;
            },
        };
        let kit = match &row[4] {
            Value::Number(n) => *n,
            Value::Text(_) => {
                return None;
            },
        };
        ps.push(Player { name, position, dob, nationality, kit });
    }
    Some(ps)
}

} // verus!
