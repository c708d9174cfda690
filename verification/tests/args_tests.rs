use mcping::args::CommandLineArguments;

#[test]
fn test_parse_when_no_arguments_given() {
    let cli_args = vec![String::from("./command")];
    let args = CommandLineArguments::parse(&cli_args);

    assert!(args.is_err());
}

#[test]
fn test_parse_address() {
    let cli_args = vec![String::from("./command"), String::from("127.0.0.1")];
    let args = CommandLineArguments::parse(&cli_args);
    let expected = Ok(CommandLineArguments {
        get_favicon: false,
        raw_response: false,
        verbose: false,
        open_to_lan: false,
        host: "127.0.0.1".to_owned(),
        port: 25565,
    });
    assert_eq!(expected, args);
}

#[test]
fn test_parse_address_and_port() {
    let cli_args = vec![
        String::from("./command"),
        String::from("127.0.0.1"),
        String::from("25560"),
    ];
    let args = CommandLineArguments::parse(&cli_args);
    let expected = Ok(CommandLineArguments {
        get_favicon: false,
        raw_response: false,
        verbose: false,
        open_to_lan: false,
        host: "127.0.0.1".to_owned(),
        port: 25560,
    });
    assert_eq!(expected, args);
}

#[test]
fn test_parse_unrecognized_flag() {
    let cli_args = vec![
        String::from("./command"),
        String::from("--unrecognized-flag"),
        String::from("localhost"),
    ];
    let args = CommandLineArguments::parse(&cli_args);
    assert!(args.is_err());
}

#[test]
fn test_parse_verbose_flag() {
    let cli_args = vec![
        String::from("./command"),
        String::from("-v"),
        String::from("localhost"),
    ];
    let args = CommandLineArguments::parse(&cli_args);
    let expected = Ok(CommandLineArguments {
        get_favicon: false,
        raw_response: false,
        verbose: true,
        open_to_lan: false,
        host: "localhost".to_owned(),
        port: 25565,
    });
    assert_eq!(expected, args);
}

#[test]
fn test_parse_verbose_flag_and_address_and_port() {
    let cli_args = vec![
        String::from("./command"),
        String::from("-v"),
        String::from("localhost"),
        String::from("1000"),
    ];
    let args = CommandLineArguments::parse(&cli_args);
    let expected = Ok(CommandLineArguments {
        get_favicon: false,
        raw_response: false,
        verbose: true,
        open_to_lan: false,
        host: "localhost".to_owned(),
        port: 1000,
    });
    assert_eq!(expected, args);
}

#[test]
fn test_parse_disordered_flags() {
    let cli_args = vec![
        String::from("./command"),
        String::from("localhost"),
        String::from("-v"),
        String::from("1000"),
    ];
    let args = CommandLineArguments::parse(&cli_args);
    assert!(args.is_err());
}

#[test]
fn test_parse_flags_at_end() {
    let cli_args = vec![
        String::from("./command"),
        String::from("localhost"),
        String::from("1000"),
        String::from("-v"),
    ];
    let args = CommandLineArguments::parse(&cli_args);
    assert!(args.is_err());
}

#[test]
fn test_parse_lan_flag() {
    let cli_args = vec![String::from("./command"), String::from("--lan")];
    let args = CommandLineArguments::parse(&cli_args).unwrap();
    assert!(args.open_to_lan);
    assert_eq!(args.port, 25565);
}

#[test]
fn test_parse_favicon_with_lan_conflict() {
    let cli_args = vec![
        String::from("./command"),
        String::from("-l"),
        String::from("-f"),
    ];
    let args = CommandLineArguments::parse(&cli_args);
    assert_eq!(args, Err(mcping::args::ArgsError::FaviconWithLan));
}

#[test]
fn test_parse_invalid_port() {
    let cli_args = vec![
        String::from("./command"),
        String::from("localhost"),
        String::from("65536"),
    ];
    let args = CommandLineArguments::parse(&cli_args);
    assert_eq!(args, Err(mcping::args::ArgsError::InvalidPort));
}
