use rtok::toon::{decode, encode, encode_table, replacement, tabular_keys, Cell};

fn num(n: i64) -> Cell {
    Cell::Number(n.to_string())
}

fn text(s: &str) -> Cell {
    Cell::Str(s.to_string())
}

fn row(cells: Vec<(&str, Cell)>) -> Vec<(String, Cell)> {
    cells.into_iter().map(|(k, c)| (k.to_string(), c)).collect()
}

/// Three rows of four keys, as a JSON map reads them (keys in order).
fn rows_3x4() -> Vec<Vec<(String, Cell)>> {
    vec![
        row(vec![("a", num(11)), ("b", text("alpha-value-one")), ("c", num(33)), ("d", text("delta-value-one"))]),
        row(vec![("a", num(44)), ("b", text("beta-value-twoo")), ("c", num(66)), ("d", text("delta-value-two"))]),
        row(vec![("a", num(77)), ("b", text("gamma-value-thr")), ("c", num(99)), ("d", text("delta-value-tre"))]),
    ]
}

fn items(rows: Vec<Vec<(String, Cell)>>) -> Vec<Option<Vec<(String, Cell)>>> {
    rows.into_iter().map(Some).collect()
}

#[test]
fn round_trip_values() {
    let table = items(rows_3x4());
    let keys = tabular_keys(&table, 3).unwrap();
    let encoded = encode(&rows_3x4(), &keys);
    assert_eq!(decode(&encoded).unwrap(), rows_3x4());
}

#[test]
fn encodes_3x4_table_and_decode_recovers_keys() {
    let original = "[\n  {\n    \"a\": 11,\n    \"b\": \"alpha-value-one\",\n    \"c\": 33,\n    \"d\": \"delta-value-one\"\n  },\n  {\n    \"a\": 44,\n    \"b\": \"beta-value-twoo\",\n    \"c\": 66,\n    \"d\": \"delta-value-two\"\n  },\n  {\n    \"a\": 77,\n    \"b\": \"gamma-value-thr\",\n    \"c\": 99,\n    \"d\": \"delta-value-tre\"\n  }\n]";
    let block = encode_table(&items(rows_3x4()), 3).unwrap();
    let text = replacement("a1b2", &block);
    assert!(text.len() < original.len());
    let decoded = decode(text.split_once('\n').unwrap().1).unwrap();
    let keys: Vec<_> = decoded[0].iter().map(|(k, _)| k.clone()).collect();
    assert_eq!(keys, ["a", "b", "c", "d"]);
}

#[test]
fn the_block_names_rows_and_keys_then_one_line_per_row() {
    let block = encode_table(&items(rows_3x4()), 3).unwrap();
    assert_eq!(
        block,
        "[3]{a,b,c,d}:\n  11,alpha-value-one,33,delta-value-one\n  44,beta-value-twoo,66,delta-value-two\n  77,gamma-value-thr,99,delta-value-tre"
    );
    assert_eq!(replacement("x9", "B"), "[toon x9]\nB");
}

#[test]
fn only_uniform_scalar_tables_of_three_keys_encode() {
    // Too few rows for min_rows.
    assert!(tabular_keys(&items(rows_3x4()), 4).is_none());
    // Two keys are not a table.
    let narrow = items(vec![row(vec![("a", num(1)), ("b", num(2))])]);
    assert!(tabular_keys(&narrow, 1).is_none());
    // A nested value breaks the shape.
    let mut nested = rows_3x4();
    nested[1][2].1 = Cell::Nested;
    assert!(tabular_keys(&items(nested), 1).is_none());
    // So does an item that is not an object.
    let mut ragged = items(rows_3x4());
    ragged.push(None);
    assert!(encode_table(&ragged, 1).is_none());
    // An empty array never encodes, even with min_rows 0.
    assert!(tabular_keys(&Vec::new(), 0).is_none());
}

#[test]
fn strings_that_need_it_are_quoted_and_read_back() {
    let rows = vec![row(vec![
        ("a", text(" lead")),
        ("b", text("x{y}\"z\\")),
        ("c", Cell::Null),
        ("d", Cell::Bool(true)),
    ])];
    let keys: Vec<String> = ["a", "b", "c", "d"].iter().map(|k| k.to_string()).collect();
    let encoded = encode(&rows, &keys);
    assert_eq!(encoded, "[1]{a,b,c,d}:\n  \" lead\",\"x{y}\\\"z\\\\\",,true");
    assert_eq!(decode(&encoded).unwrap(), rows);
}

#[test]
fn a_string_that_looks_like_a_number_reads_back_as_one() {
    let rows = vec![row(vec![("a", text("12")), ("b", text("true")), ("c", text(""))])];
    let keys: Vec<String> = ["a", "b", "c"].iter().map(|k| k.to_string()).collect();
    let back = decode(&encode(&rows, &keys)).unwrap();
    assert_eq!(back[0], row(vec![("a", num(12)), ("b", Cell::Bool(true)), ("c", Cell::Null)]));
}

#[test]
fn malformed_blocks_do_not_decode() {
    assert!(decode("[1]{a,b}:").is_none());
    assert!(decode("[1]{a,b}\n  1,2").is_none());
    assert!(decode("1]{a,b}:\n  1,2").is_none());
    assert!(decode("[1]{a,b}:\n  1,2,3").is_none());
    assert_eq!(decode("[1]{a,b}:\n  1,2").unwrap(), vec![row(vec![("a", num(1)), ("b", num(2))])]);
}
