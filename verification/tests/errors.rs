use ffsvm::Error;

#[test]
fn integer_parse_failure_becomes_a_parsing_error() {
    let failure = "twelve".parse::<u32>().unwrap_err();
    let error: Error<f32> = Error::from(failure);
    assert_eq!(error, Error::ParsingError("ParseIntError".to_owned()));
}

#[test]
fn float_parse_failure_becomes_a_parsing_error() {
    let failure = "1.2.3".parse::<f32>().unwrap_err();
    let error: Error<f32> = Error::from(failure);
    assert_eq!(error, Error::ParsingError("ParseFloatError".to_owned()));
}

#[test]
fn missing_value_becomes_a_parsing_error() {
    let missing: Option<u32> = None;
    assert_eq!(
        Error::<f32>::required(missing),
        Err(Error::ParsingError("NoneError".to_owned()))
    );
    assert_eq!(Error::<f32>::required(Some(17u32)), Ok(17u32));
}

#[test]
fn question_mark_converts_parse_failures() {
    fn parse(text: &str) -> Result<u32, Error<f32>> {
        Ok(text.parse::<u32>()?)
    }
    assert_eq!(parse("31"), Ok(31));
    assert_eq!(parse("x"), Err(Error::ParsingError("ParseIntError".to_owned())));
}

#[test]
fn variants_are_distinct() {
    let all: Vec<Error<f32>> = vec![
        Error::AttributesUnordered { index: 1, value: 0.0, last_index: 0 },
        Error::NoProbabilities,
        Error::IterationsExceeded,
        Error::NoGamma,
        Error::NoCoef0,
        Error::NoDegree,
        Error::ParsingError("tag".to_owned()),
    ];
    for (i, a) in all.iter().enumerate() {
        for (j, b) in all.iter().enumerate() {
            assert_eq!(a == b, i == j);
        }
    }
}
