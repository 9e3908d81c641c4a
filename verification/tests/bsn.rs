use async_channels::bsn::{Bsn, Error};

#[test]
fn test_validation() {
    let valid_bsns = ["999998456", "111222333", "123456782", "10000001", "100000009"];
    valid_bsns.iter().for_each(|bsn| {
        assert!(
            Bsn::validate(bsn).is_ok(),
            "BSN {bsn} is valid, but did not pass validation"
        )
    });

    let invalid_bsns = ["999998455", "1112223334", "12345678", "abcdefghi", ""];
    invalid_bsns.iter().for_each(|bsn| {
        assert!(
            Bsn::validate(bsn).is_err(),
            "BSN {bsn} invalid, but passed validation"
        )
    });
}

#[test]
fn test_validation_errors() {
    assert_eq!(Bsn::validate(""), Err(Error::InvalidBsnLength(0)));
    assert_eq!(Bsn::validate("1234567"), Err(Error::InvalidBsnLength(7)));
    assert_eq!(Bsn::validate("1234567890"), Err(Error::InvalidBsnLength(10)));
    assert_eq!(
        Bsn::validate("12x45678"),
        Err(Error::InvalidBsnDigit { position: 2, digit: b'x' })
    );
    assert_eq!(
        Bsn::validate("x2y45678"),
        Err(Error::InvalidBsnDigit { position: 0, digit: b'x' })
    );
    assert_eq!(Bsn::validate("12345678"), Err(Error::Failed11Check));
    assert_eq!(Bsn::validate("999998455"), Err(Error::Failed11Check));
}

#[test]
fn test_try_from_string() {
    let bsn = Bsn::try_from_string("999998456".to_owned()).unwrap();
    assert_eq!(bsn, Bsn::try_from_string("999998456".to_owned()).unwrap());
    assert_eq!(
        Bsn::try_from_string("1112223334".to_owned()),
        Err(Error::InvalidBsnLength(10))
    );
    assert_eq!(
        Bsn::try_from_string("99999845x".to_owned()),
        Err(Error::InvalidBsnDigit { position: 8, digit: b'x' })
    );
    assert_eq!(
        Bsn::try_from_string("999998455".to_owned()),
        Err(Error::Failed11Check)
    );
}
