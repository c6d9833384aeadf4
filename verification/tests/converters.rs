use openxml_office::converters::ConverterUtil;
use openxml_office::error::OfficeError;

#[test]
fn column_key_of_small_numbers() {
    assert_eq!(ConverterUtil::get_column_key(1), Ok("A".to_string()));
    assert_eq!(ConverterUtil::get_column_key(26), Ok("Z".to_string()));
    assert_eq!(ConverterUtil::get_column_key(27), Ok("AA".to_string()));
    assert_eq!(ConverterUtil::get_column_key(28), Ok("AB".to_string()));
    assert_eq!(ConverterUtil::get_column_key(702), Ok("ZZ".to_string()));
    assert_eq!(ConverterUtil::get_column_key(703), Ok("AAA".to_string()));
}

#[test]
fn column_key_of_zero_is_refused() {
    assert_eq!(ConverterUtil::get_column_key(0), Err(OfficeError::Programmer));
}

#[test]
fn column_int_of_keys() {
    assert_eq!(ConverterUtil::get_column_int("A"), Ok(1));
    assert_eq!(ConverterUtil::get_column_int("Z"), Ok(26));
    assert_eq!(ConverterUtil::get_column_int("AA"), Ok(27));
    assert_eq!(ConverterUtil::get_column_int("AB"), Ok(28));
    assert_eq!(ConverterUtil::get_column_int("ZZ"), Ok(702));
    assert_eq!(ConverterUtil::get_column_int("AAA"), Ok(703));
    assert_eq!(ConverterUtil::get_column_int("ab12"), Ok(28));
    assert_eq!(ConverterUtil::get_column_int("AB12"), Ok(28));
}

#[test]
fn column_int_without_letters_is_refused() {
    assert_eq!(ConverterUtil::get_column_int(""), Err(OfficeError::Programmer));
    assert_eq!(ConverterUtil::get_column_int("12"), Err(OfficeError::Programmer));
}

#[test]
fn column_int_beyond_the_word_is_refused() {
    assert_eq!(
        ConverterUtil::get_column_int("ZZZZZZZZZZZZZZZZZZZZZZZZZZZZZZ"),
        Err(OfficeError::Programmer)
    );
}

#[test]
fn column_key_and_int_are_inverse() {
    for n in 1..2000usize {
        let key = ConverterUtil::get_column_key(n).unwrap();
        assert_eq!(ConverterUtil::get_column_int(&key), Ok(n));
    }
}
