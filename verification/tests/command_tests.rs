use devpkg::PackageIdentity;
use devpkg::command::Command;
use devpkg::command::FlagValues;
use devpkg::command::command_error_exit_code;
use devpkg::command::select_command;
use devpkg::errors::CommandError;
use devpkg::executor::BuildSpec;

fn no_flags() -> FlagValues {
    FlagValues {
        setup: false,
        list: false,
        help: false,
        install_url: None,
        fetch_url: None,
        build_url: None,
        configure_opts: None,
        make_opts: None,
        install_target: None,
    }
}

#[test]
fn help_takes_precedence() {
    let f = FlagValues { help: true, setup: true, list: true, ..no_flags() };
    assert_eq!(select_command(f), Ok(Command::Help));
}

#[test]
fn setup_selects_init() {
    let f = FlagValues { setup: true, ..no_flags() };
    assert_eq!(select_command(f), Ok(Command::Init));
}

#[test]
fn list_selects_list() {
    let f = FlagValues { list: true, ..no_flags() };
    assert_eq!(select_command(f), Ok(Command::List));
}

#[test]
fn no_mode_flag_is_unknown() {
    assert_eq!(select_command(no_flags()), Ok(Command::Unknown));
}

#[test]
fn install_carries_url_and_build_options() {
    let f = FlagValues {
        install_url: Some(b"http://example.test/pkg-1.0.tar.gz".to_vec()),
        configure_opts: Some("--with-ssl".to_string()),
        make_opts: Some("-j4".to_string()),
        install_target: Some("/opt/pkg".to_string()),
        ..no_flags()
    };
    let expected = Command::Install {
        url: PackageIdentity::new(b"http://example.test/pkg-1.0.tar.gz".to_vec()).unwrap(),
        build: BuildSpec {
            configure_opts: Some("--with-ssl".to_string()),
            make_opts: Some("-j4".to_string()),
            install_target: Some("/opt/pkg".to_string()),
        },
    };
    assert_eq!(select_command(f), Ok(expected));
}

#[test]
fn fetch_carries_its_own_url() {
    let f = FlagValues { fetch_url: Some(b"http://example.test/src.tar.gz".to_vec()), ..no_flags() };
    let expected = Command::Fetch {
        url: PackageIdentity::new(b"http://example.test/src.tar.gz".to_vec()).unwrap(),
    };
    assert_eq!(select_command(f), Ok(expected));
}

#[test]
fn build_carries_url_and_build_options() {
    let f = FlagValues {
        build_url: Some(b"http://example.test/src.tar.gz".to_vec()),
        make_opts: Some("-j2".to_string()),
        ..no_flags()
    };
    let expected = Command::Build {
        url: PackageIdentity::new(b"http://example.test/src.tar.gz".to_vec()).unwrap(),
        build: BuildSpec {
            configure_opts: None,
            make_opts: Some("-j2".to_string()),
            install_target: None,
        },
    };
    assert_eq!(select_command(f), Ok(expected));
}

#[test]
fn empty_install_url_is_missing_url() {
    let f = FlagValues { install_url: Some(Vec::new()), ..no_flags() };
    assert_eq!(select_command(f), Err(CommandError::MissingUrl));
}

#[test]
fn malformed_install_url_is_invalid_flags() {
    let f = FlagValues { install_url: Some(b"not-a-url".to_vec()), ..no_flags() };
    assert_eq!(select_command(f), Err(CommandError::InvalidFlags));
}

#[test]
fn empty_fetch_url_is_missing_url() {
    let f = FlagValues { fetch_url: Some(Vec::new()), ..no_flags() };
    assert_eq!(select_command(f), Err(CommandError::MissingUrl));
}

#[test]
fn setup_takes_precedence_over_install() {
    let f = FlagValues {
        setup: true,
        install_url: Some(b"http://example.test/p".to_vec()),
        ..no_flags()
    };
    assert_eq!(select_command(f), Ok(Command::Init));
}

#[test]
fn command_errors_exit_nonzero() {
    assert_ne!(command_error_exit_code(&CommandError::MissingUrl), 0);
    assert_ne!(command_error_exit_code(&CommandError::InvalidFlags), 0);
}
