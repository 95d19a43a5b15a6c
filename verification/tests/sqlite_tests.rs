use rusqlite::Connection;
use share_tracker::date::Date;

#[test]
fn test_sqlite_integration() {
    // Create an in-memory SQLite database for testing
    let conn = Connection::open_in_memory().unwrap();

    // Create a test table with a date column
    conn.execute(
        "CREATE TABLE test_dates (id INTEGER PRIMARY KEY, date_value TEXT)",
        [],
    )
    .unwrap();

    // Insert a date as the text that the database keeps
    let test_date = Date::new(2024, 3, 25).unwrap();
    conn.execute(
        "INSERT INTO test_dates (id, date_value) VALUES (1, ?)",
        [&test_date.to_string()],
    )
    .unwrap();

    // Retrieve the text and read the date from it
    let text: String = conn
        .query_row(
            "SELECT date_value FROM test_dates WHERE id = 1",
            [],
            |row| row.get(0),
        )
        .unwrap();
    let retrieved_date = Date::try_from(text).unwrap();

    // Verify the retrieved date matches the one stored
    assert_eq!(retrieved_date, test_date);
    assert_eq!(retrieved_date.year(), 2024);
    assert_eq!(retrieved_date.month(), 3);
    assert_eq!(retrieved_date.day(), 25);
}
