use tweep::Contextual;
use tweep::DiagnosticsConfig;
use tweep::Error;
use tweep::ErrorList;
use tweep::ErrorType;
use tweep::FullContext;
use tweep::Warning;
use tweep::WarningType;

#[test]
fn error_list_basic() {
    let mut errs = ErrorList::new();
    assert!(errs.is_empty());
    let context = FullContext::from(None, "::".to_string());
    let expected = context.clone();
    errs.push(Error::new(ErrorType::EmptyName, Some(context)));
    assert!(!errs.is_empty());
    assert_eq!(errs.errors, vec![Error::new(ErrorType::EmptyName, Some(expected))]);
}

#[test]
fn error_list_positional() {
    let mut errs = ErrorList::new();
    assert!(errs.is_empty());
    errs.push(Error::new(ErrorType::EmptyName, Some(FullContext::from(None, "::".to_string()))));
    errs.push(
        Error::new(ErrorType::MissingSigil, Some(FullContext::from(None, "Blah".to_string()))),
    );
    assert!(!errs.is_empty());
    assert_eq!(
        errs.errors,
        vec![
            Error::new(ErrorType::EmptyName, Some(FullContext::from(None, "::".to_string()))),
            Error::new(ErrorType::MissingSigil, Some(FullContext::from(None, "Blah".to_string()))),
        ]
    );
}

#[test]
fn merge() {
    let mut ok_left: Result<(), ErrorList> = Ok(());
    let mut ok_right: Result<(), ErrorList> = Ok(());

    assert!(ErrorList::merge(&mut ok_left, &mut ok_right).is_ok());

    let left_errors =
        vec![Error::new(ErrorType::EmptyName, Some(FullContext::from(None, "::".to_string())))];
    let right_errors = vec![Error::new(
        ErrorType::MissingSigil,
        Some(FullContext::from(None, "Blah".to_string())),
    )];

    let mut err_left: Result<(), _> = Err(ErrorList { errors: left_errors.clone() });
    let errs = ErrorList::merge(&mut err_left, &mut ok_right).err().unwrap();
    assert_eq!(&errs.errors, &left_errors);

    let mut err_right: Result<(), _> = Err(ErrorList { errors: right_errors.clone() });
    let errs = ErrorList::merge(&mut ok_left, &mut err_right).err().unwrap();
    assert_eq!(&errs.errors, &right_errors);

    let mut err_left: Result<(), _> = Err(ErrorList { errors: left_errors.clone() });
    let mut err_right: Result<(), _> = Err(ErrorList { errors: right_errors.clone() });
    let errs = ErrorList::merge(&mut err_left, &mut err_right).err().unwrap();
    let mut expected = left_errors.clone();
    expected.append(&mut right_errors.clone());
    assert_eq!(errs.errors, expected);
}

#[test]
fn incremental() {
    let context = FullContext::from(None, "[[".to_string());
    let mut warning = Warning::new(WarningType::UnclosedLink, Some(context));
    assert!(!warning.has_referent());
    assert!(warning.get_referent().is_none());

    let ref_context = FullContext::from(None, "foo bar".to_string());
    warning.set_referent(ref_context.clone());
    assert!(warning.has_referent());
    assert_eq!(warning.get_referent(), Some(&ref_context));
}

#[test]
fn unchanged_referent() {
    let context = FullContext::from(None, "[[".to_string());
    let ref_context = FullContext::from(None, "foo bar".to_string());
    let warning =
        Warning::new(WarningType::UnclosedLink, Some(context)).with_referent(ref_context.clone());
    assert_eq!(warning.get_referent(), Some(&ref_context));
}

#[test]
fn test_name() {
    let context = FullContext::from(None, "[[".to_string());
    let warning = Warning::new(WarningType::UnclosedLink, Some(context));
    assert_eq!(warning.get_name(), "UnclosedLink");
}

#[test]
fn test_names() {
    assert_eq!(WarningType::EscapedOpenSquare.get_name(), "EscapedOpenSquare");
    assert_eq!(WarningType::EscapedCloseSquare.get_name(), "EscapedCloseSquare");
    assert_eq!(WarningType::EscapedOpenCurly.get_name(), "EscapedOpenCurly");
    assert_eq!(WarningType::EscapedCloseCurly.get_name(), "EscapedCloseCurly");
    assert_eq!(WarningType::JsonError("x".to_string()).get_name(), "JsonError");
    assert_eq!(WarningType::DuplicateStoryData.get_name(), "DuplicateStoryData");
    assert_eq!(WarningType::DuplicateStoryTitle.get_name(), "DuplicateStoryTitle");
    assert_eq!(WarningType::MissingStoryData.get_name(), "MissingStoryData");
    assert_eq!(WarningType::MissingStoryTitle.get_name(), "MissingStoryTitle");
    assert_eq!(WarningType::UnclosedLink.get_name(), "UnclosedLink");
    assert_eq!(WarningType::WhitespaceInLink.get_name(), "WhitespaceInLink");
    assert_eq!(WarningType::DeadLink("x".to_string()).get_name(), "DeadLink");
    assert_eq!(WarningType::MissingStartPassage.get_name(), "MissingStartPassage");
    assert_eq!(WarningType::DeadStartPassage("x".to_string()).get_name(), "DeadStartPassage");
    assert_eq!(WarningType::DuplicatePassage("x".to_string()).get_name(), "DuplicatePassage");
}

#[test]
fn bad_input_path_error() {
    let e = Error::new(
        ErrorType::BadInputPath("nowhere.tw".to_string(), "unreadable".to_string()),
        None,
    );
    let list: ErrorList = e.clone().into();
    assert_eq!(list.errors, vec![e]);
}

#[test]
fn diagnostics_config_context_length() {
    let context = FullContext::from(None, "[[unclosed".to_string());
    let warning = Warning::new(WarningType::UnclosedLink, Some(context.clone()));
    assert_eq!(*warning.get_context_len(), None);

    // The quiet configuration leaves diagnostics as they are
    let quiet = DiagnosticsConfig::new(false);
    let w = quiet.annotate_warning(warning.clone());
    assert_eq!(*w.get_context_len(), None);

    // The verbose configuration attaches the context's length at runtime
    let verbose = DiagnosticsConfig::new(true);
    let w = verbose.annotate_warning(warning);
    assert_eq!(*w.get_context_len(), Some(10));

    let error = Error::new(ErrorType::MissingSigil, Some(context));
    let e = verbose.annotate_error(error.clone());
    assert_eq!(*e.get_context_len(), Some(10));
    let e = quiet.annotate_error(error);
    assert_eq!(*e.get_context_len(), None);
}
