use template_overlay::errors::NameError;
use template_overlay::names::validate_project_name;

#[test]
fn plain_names_are_accepted() {
    assert_eq!(validate_project_name(b"my-app"), Ok(()));
    assert_eq!(validate_project_name(b"My_App2"), Ok(()));
    assert_eq!(validate_project_name(b"x"), Ok(()));
    assert_eq!(validate_project_name(b"0-9_AZ-az"), Ok(()));
}

#[test]
fn empty_name_is_rejected() {
    assert_eq!(validate_project_name(b""), Err(NameError::Empty));
}

#[test]
fn names_with_other_characters_are_rejected() {
    assert_eq!(
        validate_project_name(b"my app"),
        Err(NameError::DisallowedCharacter)
    );
    assert_eq!(
        validate_project_name(b"dot.name"),
        Err(NameError::DisallowedCharacter)
    );
    assert_eq!(
        validate_project_name("caf\u{e9}".as_bytes()),
        Err(NameError::DisallowedCharacter)
    );
    assert_eq!(
        validate_project_name(b"slash/name"),
        Err(NameError::DisallowedCharacter)
    );
}
