use hashedbuild::cli::{Cli, Commands};
use hashedbuild::paths::{store, DirObtainError, StoreVariable, STORE};
use hashedbuild::scheme::SchemeType;
use hashedbuild::store_dir::{ensure, ensure_step, EnsureError, EnsureEvent, Ensuring};

#[test]
fn store_comes_from_the_variable_first() {
    let r = store(StoreVariable::Holds("/var/cache".to_owned()), Some("/home/u/.local/share".to_owned()));
    assert_eq!(r, Ok("/var/cache".to_owned()));
}

#[test]
fn store_falls_back_to_the_data_directory() {
    let r = store(StoreVariable::NotSet, Some("/home/u/.local/share".to_owned()));
    assert_eq!(r, Ok("/home/u/.local/share/hashedbuild/store".to_owned()));
    assert_eq!(store(StoreVariable::NotSet, None), Err(DirObtainError::XdgData));
}

#[test]
fn store_variable_that_is_not_unicode_is_an_error() {
    assert_eq!(store(StoreVariable::NotUnicode, Some("/d".to_owned())), Err(DirObtainError::NotUnicode));
}

#[test]
fn dir_errors_have_messages() {
    assert_eq!(DirObtainError::XdgData.message(), "XDG_DATA_HOME directory path have been inaccesible.");
    assert_eq!(
        DirObtainError::NotUnicode.message(),
        format!("{} environment variable contains an invalid Unicode character.", STORE)
    );
}

fn finished(e: &Ensuring) -> Option<Result<String, String>> {
    match e {
        Ensuring::Finished(Ok(p)) => Some(Ok(p.clone())),
        Ensuring::Finished(Err(err)) => Some(Err(err.message())),
        _ => None,
    }
}

#[test]
fn ensure_uses_an_existing_directory() {
    let s = ensure(Ok("/s".to_owned()));
    assert!(matches!(s, Ensuring::Check(ref p) if p == "/s"));
    let s = ensure_step(s, EnsureEvent::Exists(Ok(true)));
    assert_eq!(finished(&s), Some(Ok("/s".to_owned())));
}

#[test]
fn ensure_creates_a_missing_directory() {
    let s = ensure_step(ensure(Ok("/s".to_owned())), EnsureEvent::Exists(Ok(false)));
    assert!(matches!(s, Ensuring::Create(ref p) if p == "/s"));
    let s = ensure_step(s, EnsureEvent::Created(Ok(())));
    assert_eq!(finished(&s), Some(Ok("/s".to_owned())));
}

#[test]
fn ensure_reports_each_failure() {
    let s = ensure(Err(DirObtainError::XdgData));
    assert_eq!(finished(&s), Some(Err("XDG_DATA_HOME directory path have been inaccesible.".to_owned())));

    let s = ensure_step(ensure(Ok("/s".to_owned())), EnsureEvent::Exists(Err("denied".to_owned())));
    assert_eq!(finished(&s), Some(Err("Could not check whether the store path (/s) exists: denied.".to_owned())));

    let missing = ensure_step(ensure(Ok("/s".to_owned())), EnsureEvent::Exists(Ok(false)));
    let s = ensure_step(missing, EnsureEvent::Created(Err("full".to_owned())));
    assert_eq!(finished(&s), Some(Err("Could not create the /s directory: full.".to_owned())));
    assert!(matches!(s, Ensuring::Finished(Err(EnsureError::Create(_, _)))));
}

#[test]
fn ensure_ignores_an_event_of_another_step() {
    let s = ensure_step(ensure(Ok("/s".to_owned())), EnsureEvent::Created(Ok(())));
    assert!(matches!(s, Ensuring::Check(ref p) if p == "/s"));
}

#[test]
fn command_line_and_scheme_data() {
    let cli = Cli { command: Commands::Eval { argument: None, file: "script.hashb".to_owned(), source: ".".to_owned() } };
    match cli.command {
        Commands::Eval { argument, file, source } => {
            assert!(argument.is_none());
            assert_eq!(file, "script.hashb");
            assert_eq!(source, ".");
        },
    }
    assert_ne!(SchemeType::Concrete, SchemeType::Future);
}
