use rsomics_anderson_darling::{AdError, ValueField, value_fields};

fn fields_of(text: &str) -> Result<Vec<(usize, String)>, AdError> {
    let chars: Vec<char> = text.chars().collect();
    value_fields(&chars).map(|fs| {
        fs.iter()
            .map(|f| (f.line, chars[f.start..f.end].iter().collect()))
            .collect()
    })
}

fn values_of(text: &str) -> Result<Vec<f64>, String> {
    let fields = fields_of(text).map_err(|e| e.message())?;
    fields
        .into_iter()
        .map(|(line, f)| {
            f.parse::<f64>()
                .map_err(|_| format!("line {line}: value '{f}' is not a number"))
        })
        .collect()
}

#[test]
fn parse_skips_blank_lines() {
    let input = "1.0\n\n2.5\n3\n";
    let v = values_of(input).unwrap();
    assert_eq!(v, vec![1.0, 2.5, 3.0]);
}

#[test]
fn parse_rejects_non_numeric() {
    assert!(values_of("1.0\nfoo\n").is_err());
    assert_eq!(
        values_of("1.0\nfoo\n").unwrap_err(),
        "line 2: value 'foo' is not a number"
    );
}

#[test]
fn parse_rejects_empty() {
    assert!(values_of("\n\n").is_err());
    assert!(matches!(fields_of("\n\n"), Err(AdError::NoObservations)));
    assert!(matches!(fields_of(""), Err(AdError::NoObservations)));
    assert!(matches!(fields_of(" \t\r\n\u{a0}\u{3000}"), Err(AdError::NoObservations)));
    assert_eq!(AdError::NoObservations.message(), "no observations in input");
}

#[test]
fn first_field_of_each_line() {
    let f = fields_of("  1.5\t7\tx\n\n-2 3\r\nlast").unwrap();
    assert_eq!(
        f,
        vec![
            (1, "1.5".to_string()),
            (3, "-2".to_string()),
            (4, "last".to_string())
        ]
    );
}

#[test]
fn unicode_whitespace_delimits_fields() {
    let f = fields_of("\u{2003}4.25\u{00a0}9\n\u{3000}\n5").unwrap();
    assert_eq!(f, vec![(1, "4.25".to_string()), (3, "5".to_string())]);
}

#[test]
fn field_positions_are_character_positions() {
    let chars: Vec<char> = "ab\n  cd e\n".chars().collect();
    let fs = value_fields(&chars).unwrap();
    assert_eq!(
        fs,
        vec![
            ValueField { line: 1, start: 0, end: 2 },
            ValueField { line: 2, start: 5, end: 7 },
        ]
    );
}
