use pwdict::error::{GenericError, GenericErrorKind};

#[test]
fn kind_names_are_upper_case_words() {
    assert_eq!(GenericErrorKind::PWGEN.to_string(), "PWGEN");
    assert_eq!(GenericErrorKind::WORDS.to_string(), "WORDS");
    assert_eq!(GenericErrorKind::PIPEREAD.to_string(), "PIPEREAD");
}

#[test]
fn new_error_carries_the_message_of_its_kind() {
    let generator = GenericError::new(GenericErrorKind::PWGEN);
    assert_eq!(generator.kind, GenericErrorKind::PWGEN);
    assert_eq!(generator.message, "Unable to generate pwgen data");

    let words = GenericError::new(GenericErrorKind::WORDS);
    assert_eq!(words.kind, GenericErrorKind::WORDS);
    assert_eq!(words.message, "Unable to read dictionary");

    let pipe = GenericError::new(GenericErrorKind::PIPEREAD);
    assert_eq!(pipe.kind, GenericErrorKind::PIPEREAD);
    assert_eq!(pipe.message, "Unable to read stdin");
}

#[test]
fn report_line_has_kind_in_brackets_then_message() {
    assert_eq!(
        GenericError::new(GenericErrorKind::WORDS).to_string(),
        "[WORDS] Error: Unable to read dictionary"
    );
    assert_eq!(
        GenericError::new(GenericErrorKind::PWGEN).to_string(),
        "[PWGEN] Error: Unable to generate pwgen data"
    );
    assert_eq!(
        GenericError::new(GenericErrorKind::PIPEREAD).to_string(),
        "[PIPEREAD] Error: Unable to read stdin"
    );
}

#[test]
fn report_line_uses_the_message_it_is_given() {
    let error = GenericError {
        kind: GenericErrorKind::PIPEREAD,
        message: String::from("stream closed early"),
    };
    assert_eq!(error.to_string(), "[PIPEREAD] Error: stream closed early");
}

#[test]
fn report_line_with_empty_message_keeps_the_frame() {
    let error = GenericError { kind: GenericErrorKind::PWGEN, message: String::new() };
    assert_eq!(error.to_string(), "[PWGEN] Error: ");
}

#[test]
fn description_is_the_message_alone() {
    let error = GenericError::new(GenericErrorKind::WORDS);
    assert_eq!(error.description(), "Unable to read dictionary");
    let custom = GenericError { kind: GenericErrorKind::WORDS, message: String::from("x y") };
    assert_eq!(custom.description(), "x y");
}

#[test]
fn exit_codes_follow_sysexits() {
    assert_eq!(GenericErrorKind::WORDS.exit_code(), 66);
    assert_eq!(GenericErrorKind::PWGEN.exit_code(), 69);
    assert_eq!(GenericErrorKind::PIPEREAD.exit_code(), 74);
}

#[test]
fn exit_codes_are_nonzero_and_distinct() {
    let kinds = [GenericErrorKind::PWGEN, GenericErrorKind::WORDS, GenericErrorKind::PIPEREAD];
    for (i, a) in kinds.iter().enumerate() {
        assert_ne!(a.exit_code(), 0);
        for b in kinds.iter().skip(i + 1) {
            assert_ne!(a.exit_code(), b.exit_code());
        }
    }
}

#[test]
fn clone_keeps_kind_and_message() {
    let error = GenericError { kind: GenericErrorKind::PWGEN, message: String::from("gone") };
    let copy = error.clone();
    assert_eq!(copy.kind, GenericErrorKind::PWGEN);
    assert_eq!(copy.message, "gone");
    assert_eq!(copy.to_string(), error.to_string());
}
