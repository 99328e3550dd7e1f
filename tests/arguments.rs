use fractal::{parsed_max_iterations, parsed_resolution, ArgumentError};

#[test]
fn parsed_resolution_reads_width_and_height() {
    assert_eq!(parsed_resolution("1024x768"), Ok((1024, 768)));
    assert_eq!(parsed_resolution("+64x+48"), Ok((64, 48)));
    assert_eq!(parsed_resolution("4294967295x1"), Ok((4294967295, 1)));
}

#[test]
fn parsed_resolution_rejects_bad_format() {
    assert_eq!(parsed_resolution("1024"), Err(ArgumentError::ResolutionFormat));
    assert_eq!(parsed_resolution("1x2x3"), Err(ArgumentError::ResolutionFormat));
    assert_eq!(parsed_resolution(""), Err(ArgumentError::ResolutionFormat));
}

#[test]
fn parsed_resolution_rejects_bad_numbers() {
    assert_eq!(parsed_resolution("x768"), Err(ArgumentError::InvalidWidth));
    assert_eq!(parsed_resolution("-1x768"), Err(ArgumentError::InvalidWidth));
    assert_eq!(parsed_resolution("4294967296x1"), Err(ArgumentError::InvalidWidth));
    assert_eq!(parsed_resolution("10x"), Err(ArgumentError::InvalidHeight));
    assert_eq!(parsed_resolution("10x7 "), Err(ArgumentError::InvalidHeight));
    assert_eq!(parsed_resolution("10x+"), Err(ArgumentError::InvalidHeight));
}

#[test]
fn parsed_resolution_agrees_with_std() {
    for text in ["0x0", "007x08", "12x34", "+1x+2", "99999999999x1", "1x99999999999", "a1x2"] {
        let tokens: Vec<&str> = text.split('x').collect();
        let expected = match (tokens[0].parse::<u32>(), tokens[1].parse::<u32>()) {
            (Ok(w), Ok(h)) => Ok((w, h)),
            (Err(_), _) => Err(ArgumentError::InvalidWidth),
            (_, Err(_)) => Err(ArgumentError::InvalidHeight),
        };
        assert_eq!(parsed_resolution(text), expected, "{}", text);
    }
}

#[test]
fn parsed_max_iterations_reads_a_byte() {
    assert_eq!(parsed_max_iterations("255"), Ok(255));
    assert_eq!(parsed_max_iterations("50"), Ok(50));
    assert_eq!(parsed_max_iterations("+0"), Ok(0));
    assert_eq!(parsed_max_iterations("256"), Err(ArgumentError::InvalidMaxIterations));
    assert_eq!(parsed_max_iterations(""), Err(ArgumentError::InvalidMaxIterations));
    assert_eq!(parsed_max_iterations("1e2"), Err(ArgumentError::InvalidMaxIterations));
}
