//! The closed registry of the attributes of a record. Each name has one
//! canonical column name, which is also the key by which it is queried.

use vstd::prelude::*;

verus! {

/// One storable attribute of a record.
#[derive(Clone, Copy, Debug, PartialEq, Eq, Structural)]
pub enum FieldName {
    Text,
    TokenIds,
    Logits,
    UUID,
    Timestamp,
}

/// Whether `c` may occur in a column name: a lower-case letter or an
/// underscore.
pub open spec fn is_column_char(c: char) -> bool {
    ('a' <= c && c <= 'z') || c == '_'
}

/// The registry in its fixed order: identity, timestamp, text, token ids,
/// scores. Table columns and bound values follow this order.
pub open spec fn registry() -> Seq<FieldName> {
    seq![
        FieldName::UUID,
        FieldName::Timestamp,
        FieldName::Text,
        FieldName::TokenIds,
        FieldName::Logits,
    ]
}

impl FieldName {
    /// The canonical column name of this field.
    pub open spec fn column(self) -> Seq<char> {
        match self {
            FieldName::Text => "text"@,
            FieldName::TokenIds => "token_ids"@,
            FieldName::Logits => "logits"@,
            FieldName::UUID => "uuid"@,
            FieldName::Timestamp => "timestamp"@,
        }
    }

    /// The position of this field in the registry.
    pub open spec fn position(self) -> int {
        match self {
            FieldName::UUID => 0,
            FieldName::Timestamp => 1,
            FieldName::Text => 2,
            FieldName::TokenIds => 3,
            FieldName::Logits => 4,
        }
    }

    /// The canonical column name, as a borrowed literal.
    pub fn as_str(&self) -> (name: &'static str)
        ensures
            name@ == self.column(),
    {
        match self {
            FieldName::Text => "text",
            FieldName::TokenIds => "token_ids",
            FieldName::Logits => "logits",
            FieldName::UUID => "uuid",
            FieldName::Timestamp => "timestamp",
        }
    }

    /// The canonical column name, as an owned string.
    pub fn to_string(&self) -> (name: String)
        ensures
            name@ == self.column(),
    {
        String::from_str(self.as_str())
    }
}

/// All field names, in registry order.
pub fn all_field_names() -> (names: Vec<FieldName>)
    ensures
        names@ == registry(),
{
    let mut names: Vec<FieldName> = Vec::new();
    names.push(FieldName::UUID);
    names.push(FieldName::Timestamp);
    names.push(FieldName::Text);
    names.push(FieldName::TokenIds);
    names.push(FieldName::Logits);
    names
}

/// Every field name stands in the registry exactly once, at its position.
pub proof fn lemma_registry_complete(name: FieldName)
    ensures
        0 <= name.position() < registry().len(),
        registry()[name.position()] == name,
        forall|i: int| 0 <= i < registry().len() && registry()[i] == name ==> i == name.position(),
{
}

/// A column name is not empty and holds only lower-case letters and
/// underscores, so it can stand in a statement as it is.
pub proof fn lemma_column_is_identifier(name: FieldName)
    ensures
        name.column().len() > 0,
        forall|i: int| 0 <= i < name.column().len() ==> is_column_char(#[trigger] name.column()[i]),
{
    reveal_strlit("text");
    reveal_strlit("token_ids");
    reveal_strlit("logits");
    reveal_strlit("uuid");
    reveal_strlit("timestamp");
}

/// Two different field names have different column names.
pub proof fn lemma_columns_distinct(a: FieldName, b: FieldName)
    requires
        a != b,
    ensures
        a.column() != b.column(),
{
    reveal_strlit("text");
    reveal_strlit("token_ids");
    reveal_strlit("logits");
    reveal_strlit("uuid");
    reveal_strlit("timestamp");
    assert(a.column().len() == b.column().len() ==> a.column()[1] != b.column()[1]);
}

} // verus!
