use my_service_bus_shared::InvalidTopicName;
use my_service_bus_shared::validate_topic_name;

#[test]
fn test_lower_cases_and_dashes_ok() {
    let test_table_name = "my-test-name-5";

    let result = validate_topic_name(test_table_name);

    assert_eq!(true, result.is_ok());
}

#[test]
fn test_lower_cases_and_two_dashes() {
    let test_table_name = "my-test--name";

    let result = validate_topic_name(test_table_name);

    assert_eq!(false, result.is_ok());

    if let Err(err) = result {
        if let InvalidTopicName::InvalidNameFormat(name) = err {
            println!("{}", name);
        } else {
            panic!("Should not be here");
        }
    }
}

#[test]
fn test_lower_cases_and_start_with_dash() {
    let test_table_name = "-my-test-name";

    let result = validate_topic_name(test_table_name);

    assert_eq!(false, result.is_ok());

    if let Err(err) = result {
        if let InvalidTopicName::InvalidNameFormat(name) = err {
            println!("{}", name);
        } else {
            panic!("Should not be here");
        }
    }
}

#[test]
fn test_lower_cases_and_ended_with_dash() {
    let test_table_name = "my-test-name-";

    let result = validate_topic_name(test_table_name);

    assert_eq!(false, result.is_ok());

    if let Err(err) = result {
        if let InvalidTopicName::InvalidNameFormat(name) = err {
            println!("{}", name);
        } else {
            panic!("Should not be here");
        }
    }
}

#[test]
fn test_upper_cases_and_ended_with_dash() {
    let test_table_name = "my-test-Name";

    let result = validate_topic_name(test_table_name);

    assert_eq!(false, result.is_ok());

    if let Err(err) = result {
        if let InvalidTopicName::InvalidNameFormat(name) = err {
            println!("{}", name);
        } else {
            panic!("Should not be here");
        }
    }
}

#[test]
fn test_we_handle_reserved_name() {
    let test_table_name = "topics";

    let result = validate_topic_name(test_table_name);

    assert_eq!(false, result.is_ok());

    if let Err(err) = result {
        if let InvalidTopicName::NameIsReserved = err {
        } else {
            panic!("Should not be here");
        }
    }
}

#[test]
fn short_and_long_names_are_rejected() {
    assert!(validate_topic_name("ab").is_err());
    assert!(validate_topic_name("abc").is_ok());

    let long_ok: String = "a".repeat(63);
    assert!(validate_topic_name(&long_ok).is_ok());

    let too_long: String = "a".repeat(64);
    assert!(validate_topic_name(&too_long).is_err());
}
