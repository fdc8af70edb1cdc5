use sqlx::sqlite::{SqlitePool, SqlitePoolOptions, SqliteRow};
use sqlx::Row;
use vigilator::db::{bound_values, insert_row, query_result, Bound, QueryError, StoredRow};
use vigilator::field_name::FieldName;
use vigilator::outputs::ModelOutput;
use vigilator::score::Score;
use vigilator::sql::{create_table_statement, insert_statement, select_all_statement, select_statement};

fn scores(values: &[f32]) -> Vec<Score> {
    values.iter().map(|v| Score::from_bits(v.to_bits())).collect()
}

fn floats(values: &[Score]) -> Vec<f32> {
    values.iter().map(|s| f32::from_bits(s.to_bits())).collect()
}

fn runtime() -> tokio::runtime::Runtime {
    tokio::runtime::Builder::new_current_thread().enable_all().build().unwrap()
}

async fn open() -> SqlitePool {
    SqlitePoolOptions::new().max_connections(1).connect("sqlite::memory:").await.unwrap()
}

async fn create(pool: &SqlitePool) {
    sqlx::query(&create_table_statement()).execute(pool).await.unwrap();
}

async fn insert(pool: &SqlitePool, output: &ModelOutput) {
    let statement = insert_statement();
    let mut query = sqlx::query(&statement);
    for value in bound_values(insert_row(output).unwrap()) {
        query = match value {
            Bound::Text(text) => query.bind(text),
            Bound::Bytes(bytes) => query.bind(bytes),
        };
    }
    query.execute(pool).await.unwrap();
}

fn stored(row: &SqliteRow) -> StoredRow {
    StoredRow {
        uuid: row.try_get(FieldName::UUID.as_str()).unwrap(),
        timestamp: row.try_get(FieldName::Timestamp.as_str()).unwrap(),
        text: row.try_get(FieldName::Text.as_str()).unwrap(),
        token_ids: row.try_get(FieldName::TokenIds.as_str()).unwrap(),
        logits: row.try_get(FieldName::Logits.as_str()).unwrap(),
    }
}

async fn fetch(pool: &SqlitePool, name: FieldName, value: &str) -> Result<ModelOutput, QueryError> {
    let statement = select_statement(name);
    let found = sqlx::query(&statement).bind(value.to_string()).fetch_optional(pool).await.unwrap();
    query_result(found.as_ref().map(stored))
}

#[test]
fn a_stored_record_is_fetched_by_its_text() {
    runtime().block_on(async {
        let pool = open().await;
        create(&pool).await;
        let output = ModelOutput::new("foo bar".to_string(), vec![1, 2, 3], scores(&[0.1, 0.2, 0.3]));
        insert(&pool, &output).await;
        let found = fetch(&pool, FieldName::Text, "foo bar").await.unwrap();
        assert_eq!(found.text.value, "foo bar");
        assert_eq!(found.token_ids.value, vec![1, 2, 3]);
        assert_eq!(floats(&found.logits.value), vec![0.1, 0.2, 0.3]);
        assert_eq!(found.uuid.value, output.uuid.value);
        assert_eq!(found.timestamp.value, output.timestamp.value);
        assert!(uuid::Uuid::parse_str(&found.uuid.value).is_ok());
    });
}

#[test]
fn a_stored_record_is_fetched_by_its_identity() {
    runtime().block_on(async {
        let pool = open().await;
        create(&pool).await;
        let first = ModelOutput::new("same".to_string(), vec![1], scores(&[0.5]));
        let second = ModelOutput::new("same".to_string(), vec![2, 70000], scores(&[-0.5, 2.0]));
        insert(&pool, &first).await;
        insert(&pool, &second).await;
        let found = fetch(&pool, FieldName::UUID, &second.uuid.value).await.unwrap();
        assert_eq!(found.token_ids.value, vec![2, 70000]);
        assert_eq!(floats(&found.logits.value), vec![-0.5, 2.0]);
        let by_text = fetch(&pool, FieldName::Text, "same").await.unwrap();
        assert_eq!(by_text.uuid.value, first.uuid.value);
    });
}

#[test]
fn a_text_that_was_not_stored_is_not_found() {
    runtime().block_on(async {
        let pool = open().await;
        create(&pool).await;
        let output = ModelOutput::new("foo bar".to_string(), vec![1], scores(&[0.1]));
        insert(&pool, &output).await;
        let missing = fetch(&pool, FieldName::Text, "no-such-text").await;
        assert_eq!(missing.err(), Some(QueryError::NotFound));
    });
}

#[test]
fn creating_the_table_again_keeps_its_rows() {
    runtime().block_on(async {
        let pool = open().await;
        create(&pool).await;
        let output = ModelOutput::new("kept".to_string(), vec![9, 8], scores(&[1.0, 2.0]));
        insert(&pool, &output).await;
        create(&pool).await;
        create(&pool).await;
        let found = fetch(&pool, FieldName::Text, "kept").await.unwrap();
        assert_eq!(found.token_ids.value, vec![9, 8]);
        let all = sqlx::query(&select_all_statement()).fetch_all(&pool).await.unwrap();
        assert_eq!(all.len(), 1);
        let id: i64 = all[0].try_get("id").unwrap();
        assert_eq!(id, 1);
    });
}

#[test]
fn a_text_with_quotes_is_bound_and_not_written_into_the_statement() {
    runtime().block_on(async {
        let pool = open().await;
        create(&pool).await;
        let text = "x' OR '1'='1";
        let output = ModelOutput::new("plain".to_string(), vec![1], scores(&[0.1]));
        insert(&pool, &output).await;
        assert_eq!(fetch(&pool, FieldName::Text, text).await.err(), Some(QueryError::NotFound));
        let odd = ModelOutput::new(text.to_string(), vec![4], scores(&[0.4]));
        insert(&pool, &odd).await;
        let found = fetch(&pool, FieldName::Text, text).await.unwrap();
        assert_eq!(found.token_ids.value, vec![4]);
    });
}
