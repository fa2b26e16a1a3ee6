use faster_all::ingest::{
    IngestError, collect_file_messages, extract_messages, find_column, flatten_groups,
};

fn column() -> String {
    String::from("Message")
}

#[test]
fn test_read_csv_files() {
    let files: Vec<(String, String)> = vec![
        (
            String::from("test1.csv"),
            String::from("Id,Message\n1,hello world\n2,hello there\n3,\n4,goodbye\n"),
        ),
        (
            String::from("test2.csv"),
            String::from("Id,Message\n1,foo bar\n2,foo baz\n"),
        ),
    ];
    let messages = collect_file_messages(&files, &column()).unwrap();
    assert_eq!(messages.len(), 2);
    let by_name = |name: &str| {
        messages
            .iter()
            .find(|(n, _)| n == name)
            .map(|(_, m)| m.clone())
            .unwrap()
    };
    assert_eq!(by_name("test1.csv").len(), 3);
    assert_eq!(by_name("test2.csv").len(), 2);
}

#[test]
fn test_extracted_column_content() {
    // Would fail if parsing handed the text back unchanged: the column must
    // be split out of each row and the empty entry dropped.
    let files: Vec<(String, String)> = vec![(
        String::from("one.csv"),
        String::from("Message,Other\nhello,x\n,y\nworld,z\n"),
    )];
    let messages = collect_file_messages(&files, &column()).unwrap();
    assert_eq!(messages[0].1, vec![String::from("hello"), String::from("world")]);
}

#[test]
fn test_missing_column() {
    let files: Vec<(String, String)> = vec![(
        String::from("bad.csv"),
        String::from("Id,Text\n1,hello\n"),
    )];
    assert_eq!(collect_file_messages(&files, &column()), Err(IngestError::MissingColumn));
}

#[test]
fn test_empty_file() {
    let files: Vec<(String, String)> = vec![(String::from("empty.csv"), String::new())];
    assert_eq!(collect_file_messages(&files, &column()), Err(IngestError::EmptyFile));
}

#[test]
fn test_short_row() {
    let rows: Vec<Vec<String>> = vec![
        vec![String::from("Id"), String::from("Message")],
        vec![String::from("1")],
    ];
    assert_eq!(extract_messages(&rows, &column()), Err(IngestError::ShortRow));
}

#[test]
fn test_short_row_through_files() {
    let files: Vec<(String, String)> = vec![(
        String::from("short.csv"),
        String::from("Id,Message\n1,hello\n2\n"),
    )];
    assert_eq!(collect_file_messages(&files, &column()), Err(IngestError::ShortRow));
}

#[test]
fn test_find_column_first_match() {
    let header: Vec<String> = vec![
        String::from("A"),
        String::from("Message"),
        String::from("Message"),
    ];
    assert_eq!(find_column(&header, &column()), Some(1));
    assert_eq!(find_column(&header, &String::from("B")), None);
}

#[test]
fn test_flatten_groups() {
    let groups: Vec<(String, Vec<String>)> = vec![
        (String::from("a"), vec![String::from("x"), String::from("y")]),
        (String::from("b"), vec![String::from("z")]),
    ];
    let flat = flatten_groups(&groups);
    assert_eq!(
        flat,
        vec![
            (String::from("a"), String::from("x")),
            (String::from("a"), String::from("y")),
            (String::from("b"), String::from("z")),
        ]
    );
}
