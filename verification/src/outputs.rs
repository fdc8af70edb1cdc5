//! The record of one model output: an identity, a timestamp, the decoded
//! text, and the token ids with their scores.

use crate::field::Field;
use crate::field_name::FieldName;
use crate::score::Score;
use crate::sql::{create_table_statement, table_query};
use crate::top_k::{is_top_k, DimensionMismatch};
use vstd::prelude::*;

verus! {

/// One model output. Token ids and scores are parallel: the score at a
/// position belongs to the token id at that position.
#[derive(Clone, Debug)]
pub struct ModelOutput {
    pub uuid: Field<String>,
    pub timestamp: Field<String>,
    pub text: Field<String>,
    pub token_ids: Field<Vec<u32>>,
    pub logits: Field<Vec<Score>>,
}

/// What a record holds, as mathematics.
pub struct OutputView {
    pub uuid: Seq<char>,
    pub timestamp: Seq<char>,
    pub text: Seq<char>,
    pub token_ids: Seq<u32>,
    pub logits: Seq<Score>,
}

impl View for ModelOutput {
    type V = OutputView;

    open spec fn view(&self) -> OutputView {
        OutputView {
            uuid: self.uuid.value@,
            timestamp: self.timestamp.value@,
            text: self.text.value@,
            token_ids: self.token_ids.value@,
            logits: self.logits.value@,
        }
    }
}

/// `uuid::Uuid::new_v4` and the text of its result. Trusted: the text of a
/// UUID in its hyphenated form has 36 characters. Which UUID comes is left
/// open. The call panics where the system hands out no random bytes.
#[verifier::external_body]
fn fresh_uuid() -> (text: String)
    ensures
        text@.len() == 36,
{
    uuid::Uuid::new_v4().to_string()
}

/// `time::OffsetDateTime::now_utc` and the text of its result. Trusted: the
/// text is not empty. Which moment comes is left open. The call panics
/// where the clock of the machine stands beyond the years that a date can
/// hold.
#[verifier::external_body]
fn utc_now() -> (text: String)
    ensures
        text@.len() > 0,
{
    time::OffsetDateTime::now_utc().to_string()
}

impl ModelOutput {
    /// Whether each field carries the name of the slot it stands in.
    pub open spec fn well_formed(&self) -> bool {
        &&& self.uuid.field_name == FieldName::UUID
        &&& self.timestamp.field_name == FieldName::Timestamp
        &&& self.text.field_name == FieldName::Text
        &&& self.token_ids.field_name == FieldName::TokenIds
        &&& self.logits.field_name == FieldName::Logits
    }

    /// Whether there is one score for each token id.
    pub open spec fn aligned(&self) -> bool {
        self.token_ids.value@.len() == self.logits.value@.len()
    }

    /// The record with the given identity, timestamp and contents.
    pub fn from_parts(
        uuid: String,
        timestamp: String,
        text: String,
        token_ids: Vec<u32>,
        logits: Vec<Score>,
    ) -> (output: ModelOutput)
        ensures
            output.well_formed(),
            output.uuid.value == uuid,
            output.timestamp.value == timestamp,
            output.text.value == text,
            output.token_ids.value == token_ids,
            output.logits.value == logits,
    {
        ModelOutput {
            uuid: Field { field_name: FieldName::UUID, value: uuid },
            timestamp: Field { field_name: FieldName::Timestamp, value: timestamp },
            text: Field { field_name: FieldName::Text, value: text },
            token_ids: Field { field_name: FieldName::TokenIds, value: token_ids },
            logits: Field { field_name: FieldName::Logits, value: logits },
        }
    }

    /// A new record with the given contents, a fresh identity and the
    /// current time. The lengths of `token_ids` and `logits` are taken as
    /// they come.
    pub fn new(text: String, token_ids: Vec<u32>, logits: Vec<Score>) -> (output: ModelOutput)
        ensures
            output.well_formed(),
            output.text.value == text,
            output.token_ids.value == token_ids,
            output.logits.value == logits,
            output.uuid.value@.len() == 36,
            output.timestamp.value@.len() > 0,
    {
        let uuid = fresh_uuid();
        let timestamp = utc_now();
        ModelOutput::from_parts(uuid, timestamp, text, token_ids, logits)
    }

    /// The values of the record as a tuple: identity, timestamp, text,
    /// token ids, scores.
    pub fn as_py_tuple(&self) -> (tuple: (String, String, String, Vec<u32>, Vec<Score>))
        ensures
            tuple.0@ == self.uuid.value@,
            tuple.1@ == self.timestamp.value@,
            tuple.2@ == self.text.value@,
            tuple.3@ == self.token_ids.value@,
            tuple.4@ == self.logits.value@,
    {
        (
            self.uuid.value.clone(),
            self.timestamp.value.clone(),
            self.text.value.clone(),
            self.token_ids.value.clone(),
            self.logits.value.clone(),
        )
    }

    /// The statement that creates the table of records unless it is there,
    /// with one column for each field of the registry.
    pub fn generate_table_query() -> (query: String)
        ensures
            query@ == table_query(),
    {
        create_table_statement()
    }

    /// The `top_k` best-scoring tokens of the record, each with its score,
    /// from the highest score down; all of them where the record has fewer.
    /// Fails where the record has not one score for each token id, and only
    /// there.
    pub fn get_top_token_id(&self, top_k: u64) -> (r: Result<Vec<(u32, Score)>, DimensionMismatch>)
        ensures
            match r {
                Ok(pairs) => self.aligned() && is_top_k(
                    self.token_ids.value@,
                    self.logits.value@,
                    top_k as nat,
                    pairs@,
                ),
                Err(e) => !self.aligned() && e.token_ids == self.token_ids.value@.len() && e.scores
                    == self.logits.value@.len(),
            },
    {
        crate::top_k::top_k(&self.token_ids.value, &self.logits.value, top_k)
    }
}

} // verus!
