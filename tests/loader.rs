use basic_interp::errors::{CodeErrorCode, ErrorCodes, ErrorTypes};
use basic_interp::loader::load_code_segment;

#[test]
fn test_loading_code() {
    let result = load_code_segment("0 let M0 = 3");
    assert_eq!(result.ok().unwrap(), vec![String::from("let M0 = 3")])
}

#[test]
fn test_missing_space_between_index_and_code() {
    let result = load_code_segment("0let M0 = 3");
    let expected_result = CodeErrorCode { error: ErrorTypes::MalformedSegment };
    assert_eq!(result.err().unwrap(), expected_result.value())
}
