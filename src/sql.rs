use vstd::prelude::*;
use vstd::string::*;
use crate::text::{contains_char, has_prefix, starts_with_text};
use crate::transform::CorrelationRecord;

verus! {

/// A column name as it stands in a statement: in brackets where it holds a
/// space or is a synthetic `Column_` name, bare otherwise.
pub open spec fn column_reference(name: Seq<char>) -> Seq<char> {
    if name.contains(' ') || has_prefix(name, "Column_"@) {
        "["@ + name + "]"@
    } else {
        name
    }
}

/// The statement that writes a record's new value into `table`.
pub open spec fn update_statement(table: Seq<char>, record: (Seq<char>, Seq<char>, Seq<char>)) -> Seq<char> {
    "UPDATE "@ + table + " SET "@ + column_reference(record.2) + " = '"@ + record.1 + "' WHERE Id = '"@
        + record.0 + "';"@
}

/// Renders a correlation record as an update statement on `table`. Quotes
/// in the values are not escaped.
pub fn format_update(record: &CorrelationRecord, table: &str) -> (r: String)
    ensures
        r@ == update_statement(table@, record@),
{
    let name = record.column_name.as_str();
    let mut out = String::from_str("UPDATE ");
    out.append(table);
    out.append(" SET ");
    if contains_char(name, ' ') || starts_with_text(name, "Column_") {
        out.append("[");
        out.append(name);
        out.append("]");
    } else {
        out.append(name);
    }
    out.append(" = '");
    out.append(record.new_value.as_str());
    out.append("' WHERE Id = '");
    out.append(record.identifier.as_str());
    out.append("';");
    out
}

/// The update statements of a sequence of records, in their order.
pub fn update_statements(records: &Vec<CorrelationRecord>, table: &str) -> (r: Vec<String>)
    ensures
        r.len() == records.len(),
        forall|i: int| 0 <= i < r.len() ==> r[i]@ == update_statement(table@, records[i]@),
{
    let mut out: Vec<String> = Vec::new();
    let mut i: usize = 0;
    while i < records.len()
        invariant
            i <= records.len(),
            out.len() == i,
            forall|j: int| 0 <= j < i ==> out[j]@ == update_statement(table@, records[j]@),
        decreases records.len() - i,
    {
        out.push(format_update(&records[i], table));
        i = i + 1;
    }
    out
}

} // verus!
