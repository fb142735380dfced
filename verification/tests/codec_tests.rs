use lakepipe::Cell;
use lakepipe::Column;
use lakepipe::ErrorKind;
use lakepipe::Table;
use lakepipe::decode_csv;
use lakepipe::encode_csv;

fn col(name: &[u8], cells: Vec<Cell>) -> Column {
    Column { name: name.to_vec(), cells }
}

#[test]
fn encode_exact_bytes() {
    let t = Table {
        columns: vec![
            col(b"a", vec![Cell::Int(1), Cell::Null]),
            col(b"b", vec![Cell::Text(b"x".to_vec()), Cell::Text(b"yz".to_vec())]),
        ],
    };
    let bytes = encode_csv(&t).unwrap();
    assert_eq!(bytes, b"a,b\n1,x\n,yz\n".to_vec());
}

#[test]
fn decode_exact_table() {
    let bytes = b"amount,note\n-17,alpha\n,\n205,beta\n".to_vec();
    let t = decode_csv(&bytes).unwrap();
    assert_eq!(t.width(), 2);
    assert_eq!(t.height(), 3);
    assert_eq!(t.columns[0].name, b"amount".to_vec());
    assert!(matches!(t.columns[0].cells[0], Cell::Int(-17)));
    assert!(matches!(t.columns[0].cells[1], Cell::Null));
    assert!(matches!(t.columns[0].cells[2], Cell::Int(205)));
    assert!(matches!(&t.columns[1].cells[0], Cell::Text(s) if s == &b"alpha".to_vec()));
    assert!(matches!(t.columns[1].cells[1], Cell::Null));
}

#[test]
fn round_trip_with_nulls_in_numeric_and_text_columns() {
    let t = Table {
        columns: vec![
            col(b"token_value", vec![Cell::Int(5), Cell::Null, Cell::Int(-31)]),
            col(
                b"note",
                vec![Cell::Text(b"alpha".to_vec()), Cell::Text(b"beta".to_vec()), Cell::Null],
            ),
        ],
    };
    let bytes = encode_csv(&t).unwrap();
    let back = decode_csv(&bytes).unwrap();
    assert!(back.same_as(&t));
}

#[test]
fn round_trip_of_any_decoded_table() {
    let bytes = b"k,v\n1,one\n2,\n,three\n".to_vec();
    let t = decode_csv(&bytes).unwrap();
    let again = decode_csv(&encode_csv(&t).unwrap()).unwrap();
    assert!(again.same_as(&t));
}

#[test]
fn all_digit_text_column_widens_to_integers() {
    // Documented widening rule: the dialect carries no type marker, so a
    // text column whose every value is a canonical decimal re-decodes as an
    // integer column.
    let t = Table {
        columns: vec![col(b"c", vec![Cell::Text(b"7".to_vec()), Cell::Text(b"8".to_vec())])],
    };
    let back = decode_csv(&encode_csv(&t).unwrap()).unwrap();
    assert!(matches!(back.columns[0].cells[0], Cell::Int(7)));
    assert!(matches!(back.columns[0].cells[1], Cell::Int(8)));
}

#[test]
fn leading_zero_and_minus_zero_stay_text() {
    let bytes = b"c\n05\n-0\n".to_vec();
    let t = decode_csv(&bytes).unwrap();
    assert!(matches!(&t.columns[0].cells[0], Cell::Text(s) if s == &b"05".to_vec()));
    assert!(matches!(&t.columns[0].cells[1], Cell::Text(s) if s == &b"-0".to_vec()));
    let again = decode_csv(&encode_csv(&t).unwrap()).unwrap();
    assert!(again.same_as(&t));
}

#[test]
fn nineteen_digit_number_stays_text() {
    let bytes = b"c\n1234567890123456789\n".to_vec();
    let t = decode_csv(&bytes).unwrap();
    assert!(matches!(&t.columns[0].cells[0], Cell::Text(_)));
}

#[test]
fn decode_empty_payload_is_empty_schema() {
    assert_eq!(decode_csv(&Vec::new()).unwrap_err(), ErrorKind::EmptySchema);
}

#[test]
fn decode_unterminated_line_is_corrupt() {
    assert_eq!(decode_csv(&b"a,b\n1,2".to_vec()).unwrap_err(), ErrorKind::CorruptPayload);
}

#[test]
fn decode_duplicate_names_is_corrupt() {
    assert_eq!(decode_csv(&b"a,a\n1,2\n".to_vec()).unwrap_err(), ErrorKind::CorruptPayload);
}

#[test]
fn decode_empty_name_is_corrupt() {
    assert_eq!(decode_csv(&b"a,\n1,2\n".to_vec()).unwrap_err(), ErrorKind::CorruptPayload);
}

#[test]
fn decode_ragged_row_is_corrupt() {
    assert_eq!(decode_csv(&b"a,b\n1,2,3\n".to_vec()).unwrap_err(), ErrorKind::CorruptPayload);
}

#[test]
fn encode_zero_columns_is_empty_schema() {
    let t = Table { columns: Vec::new() };
    assert_eq!(encode_csv(&t).unwrap_err(), ErrorKind::EmptySchema);
}

#[test]
fn encode_text_with_separator_is_unsupported() {
    let t = Table { columns: vec![col(b"c", vec![Cell::Text(b"x,y".to_vec())])] };
    assert_eq!(encode_csv(&t).unwrap_err(), ErrorKind::UnsupportedType);
}

#[test]
fn encode_empty_text_is_unsupported() {
    let t = Table { columns: vec![col(b"c", vec![Cell::Text(Vec::new())])] };
    assert_eq!(encode_csv(&t).unwrap_err(), ErrorKind::UnsupportedType);
}

#[test]
fn encode_out_of_range_integer_is_unsupported() {
    let t = Table { columns: vec![col(b"c", vec![Cell::Int(1_000_000_000_000_000_000)])] };
    assert_eq!(encode_csv(&t).unwrap_err(), ErrorKind::UnsupportedType);
}

#[test]
fn encode_largest_carried_integers() {
    let t = Table {
        columns: vec![
            col(b"c", vec![Cell::Int(999_999_999_999_999_999), Cell::Int(-999_999_999_999_999_999)]),
        ],
    };
    let bytes = encode_csv(&t).unwrap();
    assert_eq!(bytes, b"c\n999999999999999999\n-999999999999999999\n".to_vec());
    let back = decode_csv(&bytes).unwrap();
    assert!(back.same_as(&t));
}

#[test]
fn filter_non_null_keeps_matching_rows() {
    let bytes = b"k,token_value\na,1\nb,\nc,3\n".to_vec();
    let t = decode_csv(&bytes).unwrap();
    let f = t.filter_non_null(&b"token_value".to_vec()).unwrap();
    assert_eq!(f.height(), 2);
    assert_eq!(f.width(), 2);
    assert!(matches!(&f.columns[0].cells[0], Cell::Text(s) if s == &b"a".to_vec()));
    assert!(matches!(&f.columns[0].cells[1], Cell::Text(s) if s == &b"c".to_vec()));
    assert!(matches!(f.columns[1].cells[0], Cell::Int(1)));
    assert!(matches!(f.columns[1].cells[1], Cell::Int(3)));
}

#[test]
fn filter_on_missing_column_is_invalid_reference() {
    let t = decode_csv(&b"a\n1\n".to_vec()).unwrap();
    assert_eq!(t.filter_non_null(&b"missing".to_vec()).unwrap_err(), ErrorKind::InvalidReference);
}

#[test]
fn table_equality_detects_differences() {
    let a = decode_csv(&b"a\n1\n".to_vec()).unwrap();
    let b = decode_csv(&b"a\n2\n".to_vec()).unwrap();
    let c = decode_csv(&b"a\n1\n".to_vec()).unwrap();
    assert!(!a.same_as(&b));
    assert!(a.same_as(&c));
}
