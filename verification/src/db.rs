//! What the store keeps of a record, and how a record is made into a row
//! and a row into a record. The token ids and the scores are stored as
//! bytes; the other fields as text.

use crate::codec::{scores_loaded, scores_stored, token_ids_loaded, CodecError, Storable};
use crate::field::Field;
use crate::field_name::{registry, FieldName};
use crate::outputs::{ModelOutput, OutputView};
use crate::score::Score;
use crate::sql::{create_table_statement, insert_query, insert_statement, table_query};
use crate::wire::token_ids_wire;
use vstd::prelude::*;

verus! {

/// One row of the table, without the row id that the store keeps for
/// itself.
#[derive(Clone, Debug)]
pub struct StoredRow {
    pub uuid: String,
    pub timestamp: String,
    pub text: String,
    pub token_ids: Vec<u8>,
    pub logits: Vec<u8>,
}

/// What a row holds, as mathematics.
pub struct RowView {
    pub uuid: Seq<char>,
    pub timestamp: Seq<char>,
    pub text: Seq<char>,
    pub token_ids: Seq<u8>,
    pub logits: Seq<u8>,
}

impl View for StoredRow {
    type V = RowView;

    open spec fn view(&self) -> RowView {
        RowView {
            uuid: self.uuid@,
            timestamp: self.timestamp@,
            text: self.text@,
            token_ids: self.token_ids@,
            logits: self.logits@,
        }
    }
}

/// A value that is bound to one place of a statement.
#[derive(Clone, Debug)]
pub enum Bound {
    Text(String),
    Bytes(Vec<u8>),
}

/// What a bound value holds, as mathematics.
pub enum BoundView {
    Text(Seq<char>),
    Bytes(Seq<u8>),
}

impl View for Bound {
    type V = BoundView;

    open spec fn view(&self) -> BoundView {
        match self {
            Bound::Text(text) => BoundView::Text(text@),
            Bound::Bytes(bytes) => BoundView::Bytes(bytes@),
        }
    }
}

/// The value that `row` has in the column of `name`.
pub open spec fn value_of(row: RowView, name: FieldName) -> BoundView {
    match name {
        FieldName::UUID => BoundView::Text(row.uuid),
        FieldName::Timestamp => BoundView::Text(row.timestamp),
        FieldName::Text => BoundView::Text(row.text),
        FieldName::TokenIds => BoundView::Bytes(row.token_ids),
        FieldName::Logits => BoundView::Bytes(row.logits),
    }
}

/// The values of `row` in the order of the registry, which is the order of
/// the places of the statement that appends a row.
pub fn bound_values(row: StoredRow) -> (values: Vec<Bound>)
    ensures
        values@.len() == registry().len(),
        forall|i: int|
            0 <= i < registry().len() ==> (#[trigger] values@[i])@ == value_of(row@, registry()[i]),
{
    let mut values: Vec<Bound> = Vec::new();
    values.push(Bound::Text(row.uuid));
    values.push(Bound::Text(row.timestamp));
    values.push(Bound::Text(row.text));
    values.push(Bound::Bytes(row.token_ids));
    values.push(Bound::Bytes(row.logits));
    values
}

/// Why a record was not stored.
#[derive(Clone, Debug)]
pub enum StorageError {
    /// A field of the record could not be written as bytes.
    Encode(CodecError),
    /// The store refused the statement; the text is what it said.
    Backend(String),
}

/// Why no record was returned for a query.
#[derive(Clone, Copy, Debug, PartialEq, Eq, Structural)]
pub enum QueryError {
    /// No row matches.
    NotFound,
    /// A row matches, and its bytes could not be read.
    DecodeFailure(CodecError),
}

impl QueryError {
    /// What `message` says of this error.
    pub open spec fn text(self) -> Seq<char> {
        match self {
            QueryError::NotFound => "Failed to retrieve query."@,
            QueryError::DecodeFailure(e) => "Failed to decode: "@ + e.text(),
        }
    }

    /// A sentence that describes the error.
    pub fn message(&self) -> (message: String)
        ensures
            message@ == self.text(),
    {
        match self {
            QueryError::NotFound => String::from_str("Failed to retrieve query."),
            QueryError::DecodeFailure(e) => {
                let mut message = String::from_str("Failed to decode: ");
                let reason = e.message();
                message.append(reason.as_str());
                message
            },
        }
    }
}

impl StorageError {
    /// What `message` says of this error.
    pub open spec fn text(self) -> Seq<char> {
        match self {
            StorageError::Encode(e) => "Failed to encode: "@ + e.text(),
            StorageError::Backend(said) => said@,
        }
    }

    /// A sentence that describes the error.
    pub fn message(&self) -> (message: String)
        ensures
            message@ == self.text(),
    {
        match self {
            StorageError::Encode(e) => {
                let mut message = String::from_str("Failed to encode: ");
                let reason = e.message();
                message.append(reason.as_str());
                message
            },
            StorageError::Backend(said) => said.clone(),
        }
    }
}

/// The row under which a record is stored.
pub open spec fn row_of(output: OutputView) -> Result<RowView, CodecError> {
    match scores_stored(output.logits) {
        Err(e) => Err(e),
        Ok(logits) => Ok(
            RowView {
                uuid: output.uuid,
                timestamp: output.timestamp,
                text: output.text,
                token_ids: token_ids_wire(output.token_ids),
                logits,
            },
        ),
    }
}

/// The record that a row holds. The token ids are read first.
pub open spec fn output_of(row: RowView) -> Result<OutputView, CodecError> {
    match token_ids_loaded(row.token_ids) {
        Err(e) => Err(e),
        Ok(token_ids) => match scores_loaded(row.logits) {
            Err(e) => Err(e),
            Ok(logits) => Ok(
                OutputView {
                    uuid: row.uuid,
                    timestamp: row.timestamp,
                    text: row.text,
                    token_ids,
                    logits,
                },
            ),
        },
    }
}

/// The row to store for `output`: its texts as they are, its token ids and
/// scores as bytes. Fails where a score is not finite, and only there.
pub fn insert_row(output: &ModelOutput) -> (r: Result<StoredRow, StorageError>)
    ensures
        match row_of(output@) {
            Ok(row) => r matches Ok(stored) && stored@ == row,
            Err(e) => r matches Err(StorageError::Encode(f)) && f == e,
        },
{
    let token_ids = match output.token_ids.encode() {
        Ok(bytes) => bytes,
        Err(e) => {
            return Err(StorageError::Encode(e));
        },
    };
    let logits = match output.logits.encode() {
        Ok(bytes) => bytes,
        Err(e) => {
            return Err(StorageError::Encode(e));
        },
    };
    Ok(
        StoredRow {
            uuid: output.uuid.value.clone(),
            timestamp: output.timestamp.value.clone(),
            text: output.text.value.clone(),
            token_ids,
            logits,
        },
    )
}

/// What the store is asked to do to keep one record: first to create the
/// table unless it is there, then to run the appending statement with the
/// values bound to its places in their order.
#[derive(Clone, Debug)]
pub struct InsertPlan {
    pub create_table: String,
    pub statement: String,
    pub values: Vec<Bound>,
}

/// The plan for storing `output`. Fails where a score is not finite, and
/// only there; nothing is asked of the store in that case.
pub fn insert_output(output: &ModelOutput) -> (r: Result<InsertPlan, StorageError>)
    ensures
        match row_of(output@) {
            Ok(row) => {
                &&& r matches Ok(plan)
                &&& plan.create_table@ == table_query()
                &&& plan.statement@ == insert_query()
                &&& plan.values@.len() == registry().len()
                &&& forall|i: int|
                    0 <= i < registry().len() ==> (#[trigger] plan.values@[i])@ == value_of(
                        row,
                        registry()[i],
                    )
            },
            Err(e) => r matches Err(StorageError::Encode(f)) && f == e,
        },
{
    match insert_row(output) {
        Err(e) => Err(e),
        Ok(row) => Ok(
            InsertPlan {
                create_table: create_table_statement(),
                statement: insert_statement(),
                values: bound_values(row),
            },
        ),
    }
}

/// The record that `row` holds. Fails where the bytes of the token ids or
/// of the scores cannot be read, with the reason of the first that cannot.
pub fn retrieve_metadata_from_row(row: StoredRow) -> (r: Result<ModelOutput, QueryError>)
    ensures
        match output_of(row@) {
            Ok(output) => r matches Ok(found) && found@ == output && found.well_formed(),
            Err(e) => r == Err::<ModelOutput, QueryError>(QueryError::DecodeFailure(e)),
        },
{
    let token_ids = match Field::<Vec<u32>>::decode(row.token_ids.as_slice()) {
        Ok(ids) => ids,
        Err(e) => {
            return Err(QueryError::DecodeFailure(e));
        },
    };
    let logits = match Field::<Vec<Score>>::decode(row.logits.as_slice()) {
        Ok(scores) => scores,
        Err(e) => {
            return Err(QueryError::DecodeFailure(e));
        },
    };
    Ok(ModelOutput::from_parts(row.uuid, row.timestamp, row.text, token_ids, logits))
}

/// What a query returns for what the store found: the record of the row,
/// or `NotFound` where no row matched. Never a record that is filled in
/// part.
pub fn query_result(fetched: Option<StoredRow>) -> (r: Result<ModelOutput, QueryError>)
    ensures
        match fetched {
            None => r == Err::<ModelOutput, QueryError>(QueryError::NotFound),
            Some(row) => match output_of(row@) {
                Ok(output) => r matches Ok(found) && found@ == output && found.well_formed(),
                Err(e) => r == Err::<ModelOutput, QueryError>(QueryError::DecodeFailure(e)),
            },
        },
{
    match fetched {
        None => Err(QueryError::NotFound),
        Some(row) => retrieve_metadata_from_row(row),
    }
}

/// A record that was stored is read back from its row as it was: the same
/// identity, timestamp, text, token ids and scores.
pub proof fn lemma_row_round_trip(output: OutputView, row: RowView)
    requires
        row_of(output) == Ok::<RowView, CodecError>(row),
        <Vec<u32> as Storable>::holdable(output.token_ids),
        <Vec<Score> as Storable>::holdable(output.logits),
    ensures
        output_of(row) == Ok::<OutputView, CodecError>(output),
{
    <Vec<u32> as Storable>::lemma_round_trip(output.token_ids, row.token_ids, Seq::empty());
    <Vec<Score> as Storable>::lemma_round_trip(output.logits, row.logits, Seq::empty());
    assert(row.token_ids + Seq::<u8>::empty() =~= row.token_ids);
    assert(row.logits + Seq::<u8>::empty() =~= row.logits);
}

} // verus!
