use rhythm_core::map::{
    bufreader_to_fixed, bufreader_to_i128, parse_record, Note, V1NoteDataLoader,
    V1NoteDataLoaderError,
};

fn load(text: &[u8]) -> Result<Vec<Note>, V1NoteDataLoaderError> {
    V1NoteDataLoader.load(text).map(|d| d.0)
}

#[test]
fn parses_notes_in_file_order() {
    let notes = load(b"12345,1.5|0.5|1000,2|0|250").unwrap();
    assert_eq!(
        notes,
        vec![
            Note { hit_ms: 1000, x: 500_000, y: -500_000 },
            Note { hit_ms: 250, x: 1_000_000, y: -1_000_000 },
        ]
    );
}

#[test]
fn record_round_trip() {
    let n = parse_record(&b"0.25|1.75|4321".to_vec()).unwrap();
    assert_eq!(n, Note { hit_ms: 4321, x: -750_000, y: 750_000 });
}

#[test]
fn metadata_only_gives_no_notes() {
    assert_eq!(load(b"song name").unwrap(), vec![]);
    assert_eq!(load(b"").unwrap(), vec![]);
}

#[test]
fn missing_sub_field_is_malformed() {
    assert_eq!(load(b"id,1|1"), Err(V1NoteDataLoaderError::MalformedField));
}

#[test]
fn extra_sub_field_is_malformed() {
    assert_eq!(load(b"id,1|1|5|7"), Err(V1NoteDataLoaderError::MalformedField));
}

#[test]
fn non_numeric_sub_field_is_malformed() {
    assert_eq!(load(b"id,a|1|100"), Err(V1NoteDataLoaderError::MalformedField));
    assert_eq!(load(b"id,1|1|10x"), Err(V1NoteDataLoaderError::MalformedField));
    assert_eq!(load(b"id,1.x|1|10"), Err(V1NoteDataLoaderError::MalformedField));
    assert_eq!(load(b"id,.|1|10"), Err(V1NoteDataLoaderError::MalformedField));
}

#[test]
fn trailing_empty_record_is_malformed() {
    assert_eq!(load(b"id,1|1|100,"), Err(V1NoteDataLoaderError::MalformedField));
}

#[test]
fn invalid_text_is_an_encoding_error() {
    assert_eq!(load(&[b'i', 0xff, b',', b'1']), Err(V1NoteDataLoaderError::Encoding));
}

#[test]
fn integer_field_values() {
    assert_eq!(bufreader_to_i128(b"123".to_vec()), Ok(123));
    assert_eq!(bufreader_to_i128(b"0".to_vec()), Ok(0));
    assert_eq!(bufreader_to_i128(b"9223372036854775807".to_vec()), Ok(9_223_372_036_854_775_807));
    assert_eq!(
        bufreader_to_i128(b"9223372036854775808".to_vec()),
        Err(V1NoteDataLoaderError::MalformedField)
    );
    assert_eq!(bufreader_to_i128(b"".to_vec()), Err(V1NoteDataLoaderError::MalformedField));
    assert_eq!(bufreader_to_i128(b"-5".to_vec()), Err(V1NoteDataLoaderError::MalformedField));
}

#[test]
fn decimal_field_values() {
    assert_eq!(bufreader_to_fixed(b"1.25".to_vec()), Ok(1_250_000));
    assert_eq!(bufreader_to_fixed(b"2".to_vec()), Ok(2_000_000));
    assert_eq!(bufreader_to_fixed(b"0.1234567".to_vec()), Ok(123_456));
    assert_eq!(bufreader_to_fixed(b"1.2.3".to_vec()), Err(V1NoteDataLoaderError::MalformedField));
    assert_eq!(bufreader_to_fixed(b".5".to_vec()), Ok(500_000));
    assert_eq!(bufreader_to_fixed(b"1.".to_vec()), Ok(1_000_000));
    assert_eq!(bufreader_to_fixed(b".".to_vec()), Err(V1NoteDataLoaderError::MalformedField));
    assert_eq!(bufreader_to_fixed(b"".to_vec()), Err(V1NoteDataLoaderError::MalformedField));
}

#[test]
fn loader_reads_txt_files() {
    assert_eq!(V1NoteDataLoader.extensions(), "txt");
}
