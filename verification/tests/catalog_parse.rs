use starstuff_types::number::{Decimal, Sign};
use starstuff_types::catalog::parse::{
    degree_compact, hour_compact, sexagesimal_space, sexagesimal_underscore, ParsedSexagesimal,
};
use starstuff_types::error::Error;

#[test]
fn test_sex() {
    sexagesimal_underscore("12_34_56.7890").unwrap();
    sexagesimal_underscore("-12_34_56.7890").unwrap();
    sexagesimal_space("12 34 56.7890").unwrap();
    sexagesimal_space("-12 34 56.7890").unwrap();
    degree_compact("+444022").unwrap();
    degree_compact("-444022").unwrap();
    hour_compact("000509.9").unwrap();
}

#[test]
fn sexagesimal_values() {
    let second = Decimal { negative: false, mantissa: 567890, scale: 4 };
    assert_eq!(
        sexagesimal_underscore("12_34_56.7890"),
        Ok((13, ParsedSexagesimal { sign: Sign::Positive, major: 12, minor: 34, second }))
    );
    assert_eq!(
        sexagesimal_space("-12 34 56.7890 rest"),
        Ok((14, ParsedSexagesimal { sign: Sign::Negative, major: 12, minor: 34, second }))
    );
    assert_eq!(
        degree_compact("-444022"),
        Ok((
            7,
            ParsedSexagesimal {
                sign: Sign::Negative,
                major: 44,
                minor: 40,
                second: Decimal { negative: false, mantissa: 22, scale: 0 },
            }
        ))
    );
    assert_eq!(
        hour_compact("000509.9"),
        Ok((
            8,
            ParsedSexagesimal {
                sign: Sign::Positive,
                major: 0,
                minor: 5,
                second: Decimal { negative: false, mantissa: 99, scale: 1 },
            }
        ))
    );
}

#[test]
fn sexagesimal_keeps_the_sign_of_zero() {
    let (_, t) = sexagesimal_underscore("-00_00_00.0").unwrap();
    assert_eq!(t.sign, Sign::Negative);
    assert_eq!(t.major, 0);
}

#[test]
fn sexagesimal_malformed() {
    assert_eq!(sexagesimal_underscore(""), Err(Error::MalformedSexagesimal));
    assert_eq!(sexagesimal_underscore("12_34"), Err(Error::MalformedSexagesimal));
    assert_eq!(sexagesimal_underscore("12 34 56"), Err(Error::MalformedSexagesimal));
    assert_eq!(sexagesimal_underscore("12_60_00"), Err(Error::MalformedSexagesimal));
    assert_eq!(sexagesimal_underscore("12_59_60"), Err(Error::MalformedSexagesimal));
    assert_eq!(sexagesimal_underscore("12_-5_00"), Err(Error::MalformedSexagesimal));
    assert_eq!(sexagesimal_space("4294967296 00 00"), Err(Error::MalformedSexagesimal));
    assert_eq!(degree_compact("+4440"), Err(Error::MalformedSexagesimal));
    assert_eq!(degree_compact("+4a4022"), Err(Error::MalformedSexagesimal));
    assert_eq!(hour_compact("0005"), Err(Error::MalformedSexagesimal));
    assert_eq!(hour_compact("246009.9"), Err(Error::MalformedSexagesimal));
}
