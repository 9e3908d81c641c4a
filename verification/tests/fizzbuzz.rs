use async_channels::fizzbuzz::{fizz_buzz, FBResult, ParseFBError};

#[test]
fn test_fizz_buzz() {
    let lines = [
        "1", "2", "Fizz", "4", "Buzz", "Fizz", "7", "8", "Fizz", "Buzz", "11", "Fizz", "13",
        "14", "FizzBuzz", "16", "17", "Fizz", "19", "Buzz", "Fizz", "22", "23", "Fizz", "Buzz",
        "26", "Fizz", "28", "29", "FizzBuzz",
    ];

    for (i, line) in lines.iter().enumerate() {
        let num = i + 1;

        assert_eq!(
            Ok(fizz_buzz(num as u32)),
            FBResult::try_from_str(line),
            "number {num}"
        );
    }
}

#[test]
fn test_fizz_buzz_values() {
    assert_eq!(fizz_buzz(1), FBResult::Num(1));
    assert_eq!(fizz_buzz(3), FBResult::Fizz);
    assert_eq!(fizz_buzz(5), FBResult::Buzz);
    assert_eq!(fizz_buzz(15), FBResult::FizzBuzz);
    assert_eq!(fizz_buzz(30), FBResult::FizzBuzz);
    assert_eq!(fizz_buzz(98), FBResult::Num(98));
    assert_eq!(fizz_buzz(0), FBResult::FizzBuzz);
}

#[test]
fn test_parse_errors() {
    assert_eq!(FBResult::try_from_str(""), Err(ParseFBError::Empty));
    assert_eq!(
        FBResult::try_from_str("12a4"),
        Err(ParseFBError::InvalidDigit { position: 2 })
    );
    assert_eq!(
        FBResult::try_from_str("Fuzz"),
        Err(ParseFBError::InvalidDigit { position: 0 })
    );
    assert_eq!(
        FBResult::try_from_str("99999999999"),
        Err(ParseFBError::TooLarge)
    );
    assert_eq!(FBResult::try_from_str("4294967295"), Ok(FBResult::Num(u32::MAX)));
    assert_eq!(FBResult::try_from_str("4294967296"), Err(ParseFBError::TooLarge));
    assert_eq!(FBResult::try_from_str("Fizz"), Ok(FBResult::Fizz));
    assert_eq!(FBResult::try_from_str("Buzz"), Ok(FBResult::Buzz));
    assert_eq!(FBResult::try_from_str("FizzBuzz"), Ok(FBResult::FizzBuzz));
    assert_eq!(FBResult::try_from_str("042"), Ok(FBResult::Num(42)));
}
