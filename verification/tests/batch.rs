use lmc::batch::{parse_program, parse_test, parse_tests, parse_value, parse_values, BatchError, Test};
use lmc::numbers::{NumberError, ThreeDigitNumber};
use lmc::text::IntegerFault;

fn word(v: i16) -> ThreeDigitNumber {
    ThreeDigitNumber::new(v).unwrap()
}

fn words(values: &[i16]) -> Vec<ThreeDigitNumber> {
    values.iter().map(|v| word(*v)).collect()
}

fn lines(source: &[&str]) -> Vec<String> {
    source.iter().map(|l| l.to_string()).collect()
}

#[test]
fn a_listing_holds_one_word_per_line() {
    assert_eq!(
        parse_program(&lines(&["505", "106", " 307 ", "902", "000", "005", "+3", "0"])),
        Ok(words(&[505, 106, 307, 902, 0, 5, 3, 0]))
    );
    assert_eq!(parse_program(&lines(&[])), Ok(vec![]));
}

#[test]
fn a_listing_may_hold_words_with_commas_between_them() {
    assert_eq!(
        parse_program(&lines(&["505,106, 307", "902 , 000"])),
        Ok(words(&[505, 106, 307, 902, 0]))
    );
}

#[test]
fn a_listing_with_a_bad_word_is_refused() {
    assert_eq!(
        parse_program(&lines(&["505", "abc", "1000"])),
        Err(BatchError::InvalidInput(IntegerFault::InvalidDigit))
    );
    assert_eq!(
        parse_program(&lines(&["505", "1000", "abc"])),
        Err(BatchError::NumberError(NumberError::OutOfBounds(1000)))
    );
    assert_eq!(
        parse_program(&lines(&["505", ""])),
        Err(BatchError::InvalidInput(IntegerFault::Empty))
    );
    assert_eq!(
        parse_program(&lines(&["1,2,"])),
        Err(BatchError::InvalidInput(IntegerFault::Empty))
    );
    assert_eq!(
        parse_program(&lines(&["-1"])),
        Err(BatchError::NumberError(NumberError::OutOfBounds(-1)))
    );
    assert_eq!(
        parse_program(&lines(&["40000"])),
        Err(BatchError::NumberError(NumberError::OutOfBounds(40000)))
    );
    assert_eq!(
        parse_program(&lines(&["99999999999999999999"])),
        Err(BatchError::InvalidInput(IntegerFault::PosOverflow))
    );
}

#[test]
fn values_are_read_in_order_to_the_first_fault() {
    assert_eq!(parse_value("12"), Ok(word(12)));
    assert_eq!(
        parse_value(" 12"),
        Err(BatchError::InvalidInput(IntegerFault::InvalidDigit))
    );
    assert_eq!(parse_values(&lines(&["1", "2", "3"])), Ok(words(&[1, 2, 3])));
    assert_eq!(parse_values(&lines(&[])), Ok(vec![]));
    assert_eq!(
        parse_values(&lines(&["1", "2000", "x"])),
        Err(BatchError::NumberError(NumberError::OutOfBounds(2000)))
    );
}

#[test]
fn a_descriptor_has_four_fields() {
    let test = parse_test("sum;5,3;8;10").unwrap();
    assert_eq!(test.name(), "sum");
    assert_eq!(test.input(), &Some(words(&[5, 3])));
    assert_eq!(test.result(), Some(word(8)));
    assert_eq!(test.iterations(), 10);
    assert_eq!(
        test,
        Test::new(&"sum".to_string(), Some(words(&[5, 3])), Some(word(8)), 10)
    );
}

#[test]
fn an_empty_expected_field_means_no_comparison() {
    let test = parse_test("  echo;7;;1\n").unwrap();
    assert_eq!(test.name(), "echo");
    assert_eq!(test.input(), &Some(words(&[7])));
    assert_eq!(test.result(), None);
    assert_eq!(test.iterations(), 1);
    assert!(test.accepts(None));
    assert!(test.accepts(Some(word(0))));
    assert!(test.accepts(Some(word(999))));
    let test = parse_test("echo;7;none;1").unwrap();
    assert_eq!(test.result(), None);
}

#[test]
fn an_expected_value_must_be_in_the_output_slot() {
    let test = parse_test("sum;5,3;8;10").unwrap();
    assert!(test.accepts(Some(word(8))));
    assert!(!test.accepts(Some(word(9))));
    assert!(!test.accepts(None));
    let flagged = ThreeDigitNumber::new_with_flag(8, Some(lmc::numbers::Flag::OVERFLOW)).unwrap();
    assert!(test.accepts(Some(flagged)));
}

#[test]
fn further_fields_of_a_descriptor_are_not_looked_at() {
    let test = parse_test("t;1;2;3;whatever;else").unwrap();
    assert_eq!(test.iterations(), 3);
    assert_eq!(test.result(), Some(word(2)));
}

#[test]
fn a_descriptor_with_too_few_fields_is_refused() {
    assert_eq!(
        parse_test(" a;1;2 "),
        Err(BatchError::InvalidFormat(" a;1;2 ".to_string()))
    );
    assert_eq!(
        parse_test(""),
        Err(BatchError::InvalidFormat(String::new()))
    );
}

#[test]
fn a_descriptor_with_a_bad_field_is_refused() {
    assert_eq!(
        parse_test("a;1;2;many"),
        Err(BatchError::InvalidIterations(IntegerFault::InvalidDigit))
    );
    assert_eq!(
        parse_test("a;1;2;-3"),
        Err(BatchError::InvalidIterations(IntegerFault::InvalidDigit))
    );
    assert_eq!(
        parse_test("a;1;2;"),
        Err(BatchError::InvalidIterations(IntegerFault::Empty))
    );
    // The number of runs is looked at before the values.
    assert_eq!(
        parse_test("a;x;2;y"),
        Err(BatchError::InvalidIterations(IntegerFault::InvalidDigit))
    );
    assert_eq!(
        parse_test("a;1,x;2;3"),
        Err(BatchError::InvalidInput(IntegerFault::InvalidDigit))
    );
    assert_eq!(
        parse_test("a;1, 2;2;3"),
        Err(BatchError::InvalidInput(IntegerFault::InvalidDigit))
    );
    assert_eq!(
        parse_test("a;;2;3"),
        Err(BatchError::InvalidInput(IntegerFault::Empty))
    );
    assert_eq!(
        parse_test("a;1000;2;3"),
        Err(BatchError::NumberError(NumberError::OutOfBounds(1000)))
    );
    assert_eq!(
        parse_test("a;1;1000;3"),
        Err(BatchError::NumberError(NumberError::OutOfBounds(1000)))
    );
    assert_eq!(
        parse_test("a;1;-1;3"),
        Err(BatchError::NumberError(NumberError::OutOfBounds(-1)))
    );
    assert_eq!(
        parse_test("a;1;40000;3"),
        Err(BatchError::NumberError(NumberError::OutOfBounds(40000)))
    );
    assert_eq!(
        parse_test("a;40000;1;3"),
        Err(BatchError::NumberError(NumberError::OutOfBounds(40000)))
    );
}

#[test]
fn descriptors_are_read_in_order_to_the_first_fault() {
    let tests = parse_tests(&lines(&["a;1;2;3", "b;4,5;;6"])).unwrap();
    assert_eq!(tests.len(), 2);
    assert_eq!(tests[0].name(), "a");
    assert_eq!(tests[1].name(), "b");
    assert_eq!(tests[1].input(), &Some(words(&[4, 5])));
    assert_eq!(parse_tests(&lines(&[])), Ok(vec![]));
    assert_eq!(
        parse_tests(&lines(&["a;1;2;3", "broken", "c;1;2;x"])),
        Err(BatchError::InvalidFormat("broken".to_string()))
    );
}

#[test]
fn a_trial_keeps_what_it_is_given() {
    let test = Test::new(&"t".to_string(), None, None, 0);
    assert_eq!(test.name(), "t");
    assert_eq!(test.input(), &None);
    assert_eq!(test.result(), None);
    assert_eq!(test.iterations(), 0);
}

#[test]
fn batch_errors_are_written_out() {
    assert_eq!(
        BatchError::InvalidFormat("a;b".to_string()).to_string(),
        "Invalid test file format: a;b"
    );
    assert_eq!(
        BatchError::InvalidIterations(IntegerFault::InvalidDigit).to_string(),
        "Invalid number of iterations: invalid digit found in string"
    );
    assert_eq!(
        BatchError::InvalidInput(IntegerFault::Empty).to_string(),
        "Invalid input value: cannot parse integer from empty string"
    );
    assert_eq!(
        BatchError::NumberError(NumberError::OutOfBounds(1000)).to_string(),
        "number out of bounds: got 1000"
    );
}
