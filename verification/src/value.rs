//! The values that a record holds, and how a record is written as one line
//! of JSON or of CSV.

use crate::field::field_code;
use crate::field::Field;
use crate::text::decimal_text;
use crate::text::i64_to_decimal;
use crate::text::join_strings;
use crate::text::join_text;
use crate::text::texts;
use vstd::prelude::*;

verus! {

/// The value of one field of one commit.
#[derive(Debug, PartialEq, Eq)]
pub enum Value {
    /// A text.
    Text(String),
    /// A whole number.
    Integer(i64),
    /// A list of texts, in order.
    List(Vec<String>),
}

/// A [`Value`] with its texts as sequences of characters.
pub ghost enum ValueView {
    Text(Seq<char>),
    Integer(int),
    List(Seq<Seq<char>>),
}

impl View for Value {
    type V = ValueView;

    open spec fn view(&self) -> ValueView {
        match self {
            Value::Text(s) => ValueView::Text(s@),
            Value::Integer(n) => ValueView::Integer(*n as int),
            Value::List(items) => ValueView::List(texts(items@)),
        }
    }
}

/// The view of each value of a row.
pub open spec fn row_view(row: Seq<Value>) -> Seq<ValueView> {
    Seq::new(row.len(), |i: int| row[i]@)
}

/// A text as a JSON string: between double quotes, with the characters
/// escaped that JSON asks to escape, as `serde_json` writes it.
pub uninterp spec fn json_string_text(s: Seq<char>) -> Seq<char>;

/// Calls `serde_json` to write one text as a JSON string: the `Display` of
/// `serde_json::Value::String`, which is the compact serializer. The result
/// is given the name [`json_string_text`]: it depends on the text alone.
#[verifier::external_body]
fn json_string(s: &str) -> (quoted: String)
    ensures
        quoted@ == json_string_text(s@),
{
    serde_json::Value::String(s.to_owned()).to_string()
}

/// Each text of a list as a JSON string.
pub open spec fn json_strings_text(items: Seq<Seq<char>>) -> Seq<Seq<char>> {
    Seq::new(items.len(), |i: int| json_string_text(items[i]))
}

/// A list of texts as a compact JSON array.
pub open spec fn json_array_text(items: Seq<Seq<char>>) -> Seq<char> {
    "["@ + join_text(json_strings_text(items), ","@) + "]"@
}

/// A value as JSON.
pub open spec fn json_value_text(v: ValueView) -> Seq<char> {
    match v {
        ValueView::Text(s) => json_string_text(s),
        ValueView::Integer(n) => decimal_text(n),
        ValueView::List(items) => json_array_text(items),
    }
}

/// A value as a CSV cell: a text as it is, a number in decimal, a list as a
/// JSON array. Nothing is quoted or escaped.
pub open spec fn csv_value_text(v: ValueView) -> Seq<char> {
    match v {
        ValueView::Text(s) => s,
        ValueView::Integer(n) => decimal_text(n),
        ValueView::List(items) => json_array_text(items),
    }
}

/// One member of a JSON object: the field's code as the key, then the value.
pub open spec fn json_member_text(field: Field, v: ValueView) -> Seq<char> {
    json_string_text(field_code(field)) + ":"@ + json_value_text(v)
}

/// The members of a record's JSON object, one for each field, in order.
pub open spec fn json_members_text(fields: Seq<Field>, row: Seq<ValueView>) -> Seq<Seq<char>> {
    Seq::new(fields.len(), |i: int| json_member_text(fields[i], row[i]))
}

/// A record as one compact JSON object, its keys in the order of the fields.
pub open spec fn json_line_text(fields: Seq<Field>, row: Seq<ValueView>) -> Seq<char> {
    "{"@ + join_text(json_members_text(fields, row), ","@) + "}"@
}

/// The code of each field, in order.
pub open spec fn field_codes(fields: Seq<Field>) -> Seq<Seq<char>> {
    Seq::new(fields.len(), |i: int| field_code(fields[i]))
}

/// The CSV header: the field codes with commas between them.
pub open spec fn csv_header_text(fields: Seq<Field>) -> Seq<char> {
    join_text(field_codes(fields), ","@)
}

/// The cell of each value of a row, in order.
pub open spec fn csv_cells_text(row: Seq<ValueView>) -> Seq<Seq<char>> {
    Seq::new(row.len(), |i: int| csv_value_text(row[i]))
}

/// A record as one CSV line: its cells with commas between them.
pub open spec fn csv_row_text(row: Seq<ValueView>) -> Seq<char> {
    join_text(csv_cells_text(row), ","@)
}

/// Both shapes of output show the same record. Each has one entry for each
/// field, in the order of the fields: the header a code, the JSON object a
/// member under that code, the CSV line a cell. A number and a list are
/// written alike in both; a text is the cell as it is, and in JSON the same
/// text as a JSON string.
pub proof fn lemma_json_and_csv_show_the_same_record(
    fields: Seq<Field>,
    row: Seq<ValueView>,
    i: int,
)
    requires
        row.len() == fields.len(),
        0 <= i < fields.len(),
    ensures
        field_codes(fields).len() == fields.len(),
        json_members_text(fields, row).len() == fields.len(),
        csv_cells_text(row).len() == fields.len(),
        json_members_text(fields, row)[i] == json_string_text(field_codes(fields)[i]) + ":"@
            + json_value_text(row[i]),
        match row[i] {
            ValueView::Text(s) => csv_cells_text(row)[i] == s && json_value_text(row[i])
                == json_string_text(s),
            _ => csv_cells_text(row)[i] == json_value_text(row[i]),
        },
{
}

/// Writes a list of texts as a compact JSON array.
pub fn json_array(items: &Vec<String>) -> (s: String)
    ensures
        s@ == json_array_text(texts(items@)),
{
    let mut quoted: Vec<String> = Vec::new();
    let mut i: usize = 0;
    while i < items.len()
        invariant
            0 <= i <= items.len(),
            quoted@.len() == i,
            forall|j: int| 0 <= j < i ==> (#[trigger] quoted@[j])@ == json_string_text(items@[j]@),
        decreases items.len() - i,
    {
        quoted.push(json_string(items[i].as_str()));
        i += 1;
    }
    assert(texts(quoted@) =~= json_strings_text(texts(items@)));
    let mut s = "[".to_owned();
    s.append(join_strings(&quoted, ",").as_str());
    s.append("]");
    s
}

impl Value {
    /// Writes the value as JSON.
    pub fn to_json(&self) -> (s: String)
        ensures
            s@ == json_value_text(self@),
    {
        match self {
            Value::Text(text) => json_string(text.as_str()),
            Value::Integer(n) => i64_to_decimal(*n),
            Value::List(items) => json_array(items),
        }
    }

    /// Writes the value as a CSV cell.
    pub fn to_csv(&self) -> (s: String)
        ensures
            s@ == csv_value_text(self@),
    {
        match self {
            Value::Text(text) => text.clone(),
            Value::Integer(n) => i64_to_decimal(*n),
            Value::List(items) => json_array(items),
        }
    }
}

/// Writes a record as one JSON object.
pub fn json_line(fields: &Vec<Field>, row: &Vec<Value>) -> (s: String)
    requires
        row@.len() == fields@.len(),
    ensures
        s@ == json_line_text(fields@, row_view(row@)),
{
    let mut members: Vec<String> = Vec::new();
    let mut i: usize = 0;
    while i < fields.len()
        invariant
            0 <= i <= fields.len(),
            row@.len() == fields@.len(),
            members@.len() == i,
            forall|j: int|
                0 <= j < i ==> (#[trigger] members@[j])@ == json_member_text(
                    fields@[j],
                    row@[j]@,
                ),
        decreases fields.len() - i,
    {
        let mut member = json_string(fields[i].code());
        member.append(":");
        member.append(row[i].to_json().as_str());
        members.push(member);
        i += 1;
    }
    assert(texts(members@) =~= json_members_text(fields@, row_view(row@)));
    let mut s = "{".to_owned();
    s.append(join_strings(&members, ",").as_str());
    s.append("}");
    s
}

/// Writes the CSV header for a list of fields.
pub fn csv_header(fields: &Vec<Field>) -> (s: String)
    ensures
        s@ == csv_header_text(fields@),
{
    let mut codes: Vec<String> = Vec::new();
    let mut i: usize = 0;
    while i < fields.len()
        invariant
            0 <= i <= fields.len(),
            codes@.len() == i,
            forall|j: int| 0 <= j < i ==> (#[trigger] codes@[j])@ == field_code(fields@[j]),
        decreases fields.len() - i,
    {
        codes.push(fields[i].code().to_owned());
        i += 1;
    }
    assert(texts(codes@) =~= field_codes(fields@));
    join_strings(&codes, ",")
}

/// Writes a record as one CSV line.
pub fn csv_row(row: &Vec<Value>) -> (s: String)
    ensures
        s@ == csv_row_text(row_view(row@)),
{
    let mut cells: Vec<String> = Vec::new();
    let mut i: usize = 0;
    while i < row.len()
        invariant
            0 <= i <= row.len(),
            cells@.len() == i,
            forall|j: int| 0 <= j < i ==> (#[trigger] cells@[j])@ == csv_value_text(row@[j]@),
        decreases row.len() - i,
    {
        cells.push(row[i].to_csv());
        i += 1;
    }
    assert(texts(cells@) =~= csv_cells_text(row_view(row@)));
    join_strings(&cells, ",")
}

} // verus!
