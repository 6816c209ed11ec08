use resp_codec::resp::{
    binary_extract_bytes, binary_extract_line, binary_extract_line_as_string, bytes_to_resp,
    parse_bulk_string, parse_simple_string, resp_remove_type, RESP,
};
use resp_codec::resp_result::RESPError;
use resp_codec::resp_result::RESPError::OutOfBounds;

#[test]
fn test_binary_extract_line_empty_buffer() {
    let buffer = "".as_bytes();
    let mut index: usize = 0;

    match binary_extract_line(buffer, &mut index) {
        Err(OutOfBounds(index)) => {
            assert_eq!(index, 0);
        }
        _ => panic!(),
    }
}

#[test]
fn test_binary_extract_line_single_character() {
    let buffer = "O".as_bytes();
    let mut index: usize = 0;

    match binary_extract_line(buffer, &mut index) {
        Err(OutOfBounds(index)) => {
            assert_eq!(index, 1);
        }
        _ => panic!(),
    }
}

#[test]
fn test_binary_extract_line_index_too_advanced() {
    let buffer = "OK".as_bytes();
    let mut index: usize = 1;

    match binary_extract_line(buffer, &mut index) {
        Err(OutOfBounds(index)) => {
            assert_eq!(index, 2);
        }
        _ => panic!(),
    }
}

#[test]
fn test_binary_extract_line_no_separator() {
    let buffer = "OK".as_bytes();
    let mut index: usize = 0;

    match binary_extract_line(buffer, &mut index) {
        Err(OutOfBounds(index)) => {
            assert_eq!(index, 2);
        }
        _ => panic!(),
    }
}

#[test]
fn test_binary_extract_line_half_separator() {
    let buffer = "OK\r".as_bytes();
    let mut index: usize = 0;

    match binary_extract_line(buffer, &mut index) {
        Err(OutOfBounds(index)) => {
            assert_eq!(index, 3);
        }
        _ => panic!(),
    }
}

#[test]
fn test_binary_extract_line_incorrect_separator() {
    let buffer = "OK\n".as_bytes();
    let mut index: usize = 0;

    match binary_extract_line(buffer, &mut index) {
        Err(OutOfBounds(index)) => {
            assert_eq!(index, 3);
        }
        _ => panic!(),
    }
}

#[test]
fn test_binary_extract_line() {
    let buffer = "OK\r\n".as_bytes();
    let mut index: usize = 0;
    let output = binary_extract_line(buffer, &mut index).unwrap();

    assert_eq!(output, "OK".as_bytes());
    assert_eq!(index, 4);
}

#[test]
fn test_binary_extract_line_as_string() {
    let buffer = "OK\r\n".as_bytes();
    let mut index: usize = 0;
    let output = binary_extract_line_as_string(buffer, &mut index).unwrap();

    assert_eq!(output, String::from("OK"));
    assert_eq!(index, 4);
}

#[test]
fn test_binary_remove_type() {
    let buffer = "+OK\r\n".as_bytes();
    let mut index: usize = 0;
    resp_remove_type('+', buffer, &mut index).unwrap();

    assert_eq!(index, 1);
}

#[test]
fn test_binary_remove_type_error() {
    let buffer = "*OK\r\n".as_bytes();
    let mut index: usize = 0;
    let error = resp_remove_type('+', buffer, &mut index).unwrap_err();

    assert_eq!(index, 0);
    assert_eq!(error, RESPError::WrongType);
}

#[test]
fn test_parse_simple_string() {
    let buffer = "+OK\r\n".as_bytes();
    let mut index: usize = 0;
    let output = parse_simple_string(buffer, &mut index).unwrap();

    assert_eq!(output, RESP::SimpleString(String::from("OK")));
    assert_eq!(index, 5);
}

#[test]
fn test_bytes_to_resp_simple_string() {
    let buffer = "+OK\r\n".as_bytes();
    let mut index: usize = 0;
    let output = bytes_to_resp(buffer, &mut index).unwrap();

    assert_eq!(output, RESP::SimpleString(String::from("OK")));
    assert_eq!(index, 5);
}

#[test]
fn test_bytes_to_resp_unknown() {
    let buffer = "?OK\r\n".as_bytes();
    let mut index: usize = 0;
    let error = bytes_to_resp(buffer, &mut index).unwrap_err();

    assert_eq!(error, RESPError::Unknown);
    assert_eq!(index, 0);
}

#[test]
fn test_binary_extract_bytes() {
    let buffer = "SOMEBYTES".as_bytes();
    let mut index: usize = 0;
    let output = binary_extract_bytes(buffer, &mut index, 6).unwrap();

    assert_eq!(output, "SOMEBY".as_bytes().to_vec());
    assert_eq!(index, 6);
}

#[test]
fn test_binary_extract_bytes_out_of_bounds() {
    let buffer = "SOMEBYTES".as_bytes();
    let mut index: usize = 0;
    let error = binary_extract_bytes(buffer, &mut index, 10).unwrap_err();

    assert_eq!(error, RESPError::OutOfBounds(9));
    assert_eq!(index, 0);
}

#[test]
fn test_parse_bulk_string() {
    let buffer = "$2\r\nOK\r\n".as_bytes();
    let mut index: usize = 0;
    let output = parse_bulk_string(buffer, &mut index).unwrap();
    assert_eq!(output, RESP::BulkString(String::from("OK")));
    assert_eq!(index, 8);
}

#[test]
fn test_parse_bulk_string_empty() {
    let buffer = "$-1\r\n".as_bytes();
    let mut index: usize = 0;
    let output = parse_bulk_string(buffer, &mut index).unwrap();
    assert_eq!(output, RESP::Null);
    assert_eq!(index, 5);
}

#[test]
fn test_parse_bulk_string_wrong_type() {
    let buffer = "?2\r\nOK\r\n".as_bytes();
    let mut index: usize = 0;
    let error = parse_bulk_string(buffer, &mut index).unwrap_err();
    assert_eq!(error, RESPError::WrongType);
    assert_eq!(index, 0);
}

#[test]
fn test_parse_bulk_string_unparsable_length() {
    let buffer = "$wrong\r\nOK\r\n".as_bytes();
    let mut index: usize = 0;
    let error = parse_bulk_string(buffer, &mut index).unwrap_err();
    assert_eq!(error, RESPError::ParseInt);
    assert_eq!(index, 8);
}

#[test]
fn test_parse_bulk_string_negative_length() {
    let buffer = "$-7\r\nOK\r\n".as_bytes();
    let mut index: usize = 0;
    let error = parse_bulk_string(buffer, &mut index).unwrap_err();
    assert_eq!(error, RESPError::IncorrectLength(-7));
    assert_eq!(index, 5);
}

#[test]
fn test_parse_bulk_string_data_too_short() {
    let buffer = "$7\r\nOK\r\n".as_bytes();
    let mut index: usize = 0;
    let error = parse_bulk_string(buffer, &mut index).unwrap_err();
    assert_eq!(error, RESPError::OutOfBounds(12));
    assert_eq!(index, 4);
}

#[test]
fn test_bytes_to_resp_bulk_string() {
    let buffer = "$2\r\nOK\r\n".as_bytes();
    let mut index: usize = 0;
    let output = bytes_to_resp(buffer, &mut index).unwrap();
    assert_eq!(output, RESP::BulkString(String::from("OK")));
    assert_eq!(index, 8);
}
