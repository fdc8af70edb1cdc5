//! The text of the statements that the store runs. Only column names of the
//! registry are written into a statement; values are bound to the `?`
//! places when the statement runs.

use crate::field_name::{all_field_names, registry, FieldName};
use vstd::prelude::*;

verus! {

/// `parts`, with `separator` between each two neighbours.
pub open spec fn joined(parts: Seq<Seq<char>>, separator: Seq<char>) -> Seq<char>
    decreases parts.len(),
{
    if parts.len() == 0 {
        Seq::empty()
    } else if parts.len() == 1 {
        parts[0]
    } else {
        joined(parts.drop_last(), separator) + separator + parts.last()
    }
}

/// The line that defines the column of `name` in the table.
pub open spec fn column_line(name: FieldName) -> Seq<char> {
    "\t"@ + name.column() + " TEXT NOT NULL"@
}

/// The lines that define the columns of `names`.
pub open spec fn column_lines(names: Seq<FieldName>) -> Seq<Seq<char>> {
    Seq::new(names.len(), |i: int| column_line(names[i]))
}

/// The column names of `names`.
pub open spec fn columns(names: Seq<FieldName>) -> Seq<Seq<char>> {
    Seq::new(names.len(), |i: int| names[i].column())
}

/// One `?` for each of `names`.
pub open spec fn places(names: Seq<FieldName>) -> Seq<Seq<char>> {
    Seq::new(names.len(), |i: int| "?"@)
}

/// The statement that creates the table unless it is there: a row id that
/// the store counts up by itself, then one text column for each field of
/// the registry.
pub open spec fn table_query() -> Seq<char> {
    "CREATE TABLE IF NOT EXISTS model_outputs (\n"@ + "\tid INTEGER PRIMARY KEY,\n"@ + joined(
        column_lines(registry()),
        ",\n"@,
    ) + "\n"@ + "\t)"@
}

/// The statement that appends one row: the columns of the registry in its
/// order, and one place for each.
pub open spec fn insert_query() -> Seq<char> {
    "INSERT INTO model_outputs ("@ + joined(columns(registry()), ", "@) + ") VALUES ("@ + joined(
        places(registry()),
        ", "@,
    ) + ")"@
}

/// The statement that finds the rows whose column `name` equals the one
/// bound value.
pub open spec fn select_query(name: FieldName) -> Seq<char> {
    "SELECT * FROM model_outputs WHERE "@ + name.column() + " = (?)"@
}

/// The statement that lists every row of the table.
pub open spec fn select_all_query() -> Seq<char> {
    "SELECT * FROM model_outputs"@
}

/// What `append_items` adds for `name`.
spec fn item(name: FieldName, before: Seq<char>, named: bool, after: Seq<char>) -> Seq<
    char,
> {
    before + (if named {
        name.column()
    } else {
        Seq::empty()
    }) + after
}

/// The items of `names`.
spec fn items(names: Seq<FieldName>, before: Seq<char>, named: bool, after: Seq<char>) -> Seq<
    Seq<char>,
> {
    Seq::new(names.len(), |i: int| item(names[i], before, named, after))
}

/// Appends one item for each of `names` to `out`, with `separator` between
/// each two: `before`, the column name where `named`, and `after`.
fn append_items(
    out: &mut String,
    names: &Vec<FieldName>,
    before: &str,
    named: bool,
    after: &str,
    separator: &str,
)
    ensures
        final(out)@ == old(out)@ + joined(items(names@, before@, named, after@), separator@),
{
    let ghost all = items(names@, before@, named, after@);
    let mut i: usize = 0;
    while i < names.len()
        invariant
            i <= names.len(),
            all == items(names@, before@, named, after@),
            out@ == old(out)@ + joined(all.take(i as int), separator@),
        decreases names.len() - i,
    {
        let ghost so_far = out@;
        if i > 0 {
            out.append(separator);
        }
        out.append(before);
        if named {
            out.append(names[i].as_str());
        }
        out.append(after);
        proof {
            let longer = all.take(i + 1);
            assert(longer.drop_last() =~= all.take(i as int));
            assert(longer.last() == item(names@[i as int], before@, named, after@));
            if i == 0 {
                assert(joined(all.take(0), separator@) =~= Seq::<char>::empty());
                assert(out@ =~= old(out)@ + joined(longer, separator@));
            } else {
                assert(out@ =~= old(out)@ + joined(longer, separator@));
            }
        }
        i += 1;
    }
    proof {
        assert(all.take(names.len() as int) =~= all);
    }
}

/// The text of the statement that creates the table unless it is there.
pub fn create_table_statement() -> (query: String)
    ensures
        query@ == table_query(),
{
    let names = all_field_names();
    let mut query = String::from_str("CREATE TABLE IF NOT EXISTS model_outputs (\n");
    query.append("\tid INTEGER PRIMARY KEY,\n");
    append_items(&mut query, &names, "\t", true, " TEXT NOT NULL", ",\n");
    query.append("\n");
    query.append("\t)");
    proof {
        assert(items(registry(), "\t"@, true, " TEXT NOT NULL"@) =~= column_lines(registry()));
    }
    query
}

/// The text of the statement that appends one row.
pub fn insert_statement() -> (query: String)
    ensures
        query@ == insert_query(),
{
    let names = all_field_names();
    let mut query = String::from_str("INSERT INTO model_outputs (");
    append_items(&mut query, &names, "", true, "", ", ");
    query.append(") VALUES (");
    append_items(&mut query, &names, "?", false, "", ", ");
    query.append(")");
    proof {
        reveal_strlit("");
        assert(items(registry(), ""@, true, ""@) =~= columns(registry())) by {
            assert forall|i: int| 0 <= i < registry().len() implies items(
                registry(),
                ""@,
                true,
                ""@,
            )[i] == columns(registry())[i] by {
                assert(""@ + registry()[i].column() + ""@ =~= registry()[i].column());
            }
        }
        assert(items(registry(), "?"@, false, ""@) =~= places(registry())) by {
            assert forall|i: int| 0 <= i < registry().len() implies items(
                registry(),
                "?"@,
                false,
                ""@,
            )[i] == places(registry())[i] by {
                assert("?"@ + Seq::<char>::empty() + ""@ =~= "?"@);
            }
        }
    }
    query
}

/// The text of the statement that lists every row of the table.
pub fn select_all_statement() -> (query: String)
    ensures
        query@ == select_all_query(),
{
    String::from_str("SELECT * FROM model_outputs")
}

/// The text of the statement that finds rows by the value of one field.
/// The column is the canonical name of `name`; the value is bound when the
/// statement runs.
pub fn select_statement(name: FieldName) -> (query: String)
    ensures
        query@ == select_query(name),
{
    let mut query = String::from_str("SELECT * FROM model_outputs WHERE ");
    query.append(name.as_str());
    query.append(" = (?)");
    query
}

} // verus!
