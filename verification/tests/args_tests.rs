use emblem::args::{
    Args, ArgsError, ColouriseOutput, MemoryLimit, SandboxLevel, SearchPath, Verbosity,
};

fn from(args: &[&str]) -> Args {
    Args::from_vec(args.iter().map(|s| s.to_string()).collect()).expect("arguments should parse")
}

#[test]
fn colourise_output() {
    assert_eq!(from(&["em"]).colour, ColouriseOutput::Auto);
    assert_eq!(from(&["em", "--colour", "never"]).colour, ColouriseOutput::Never);
    assert_eq!(from(&["em", "--colour", "auto"]).colour, ColouriseOutput::Auto);
    assert_eq!(from(&["em", "--colour", "always"]).colour, ColouriseOutput::Always);
}

#[test]
fn fatal_warnings() {
    assert!(!from(&["em"]).fatal_warnings);
    assert!(from(&["em", "-E"]).fatal_warnings);
}

#[test]
fn input_driver() {
    assert_eq!(from(&["em"]).input_driver, None);
    assert_eq!(
        from(&["em", "-i", "chickens"]).input_driver,
        Some("chickens".to_owned())
    );
}

#[test]
fn output_driver() {
    assert_eq!(from(&["em"]).output_driver, None);
    assert_eq!(
        from(&["em", "-o", "pies"]).output_driver,
        Some("pies".to_owned())
    );
}

#[test]
fn input_file() {
    assert_eq!(from(&["em"]).input_file, None);
    assert_eq!(
        from(&["em", "chickens"]).input_file,
        Some("chickens".to_owned())
    );
}

#[test]
fn output_file() {
    assert_eq!(from(&["em"]).output_file, None);
    assert_eq!(
        from(&["em", "_", "pies"]).output_file,
        Some("pies".to_owned())
    );
}

#[test]
fn max_mem() {
    assert_eq!(from(&["em"]).max_mem, MemoryLimit::Unlimited);
    assert_eq!(
        from(&["em", "--max-mem", "25"]).max_mem,
        MemoryLimit::Limited(25)
    );
    assert_eq!(
        from(&["em", "--max-mem", "25K"]).max_mem,
        MemoryLimit::Limited(25 * 1024)
    );
    assert_eq!(
        from(&["em", "--max-mem", "25M"]).max_mem,
        MemoryLimit::Limited(25 * 1024 * 1024)
    );
    assert_eq!(
        from(&["em", "--max-mem", "25G"]).max_mem,
        MemoryLimit::Limited(25 * 1024 * 1024 * 1024)
    );
}

#[test]
fn style() {
    assert_eq!(from(&["em"]).style, None);
    assert_eq!(from(&["em", "-s", "funk"]).style, Some("funk".to_owned()));
}

#[test]
fn sandbox() {
    assert_eq!(from(&["em"]).sandbox, SandboxLevel::Standard);
    assert_eq!(
        from(&["em", "--sandbox", "unrestricted"]).sandbox,
        SandboxLevel::Unrestricted
    );
    assert_eq!(
        from(&["em", "--sandbox", "standard"]).sandbox,
        SandboxLevel::Standard
    );
    assert_eq!(
        from(&["em", "--sandbox", "strict"]).sandbox,
        SandboxLevel::Strict
    );
}

#[test]
fn style_path() {
    assert_eq!(from(&["em"]).style_path, SearchPath::default());
    assert_eq!(
        from(&["em", "--style-path", "club:house"]).style_path,
        SearchPath::of_dirs(vec!["club".to_owned(), "house".to_owned()])
    );
}

#[test]
fn verbosity() {
    assert_eq!(
        {
            let empty: Vec<String> = vec![];
            Args::from_vec(empty).expect("empty arguments should parse").verbosity
        },
        Verbosity::Terse
    );
    assert_eq!(from(&["em"]).verbosity, Verbosity::Terse);
    assert_eq!(from(&["em", "-v"]).verbosity, Verbosity::Verbose);
    assert_eq!(from(&["em", "-vv"]).verbosity, Verbosity::Debug);
}

#[test]
fn too_verbose_is_rejected() {
    let args: Vec<String> = ["em", "-vvv"].iter().map(|s| s.to_string()).collect();
    assert_eq!(Args::from_vec(args), Err(ArgsError::TooVerbose));
}

#[test]
fn extensions() {
    let empty: [String; 0] = [];
    assert_eq!(from(&["em"]).extensions, empty);
    assert_eq!(
        from(&["em", "-x", "foo", "-x", "bar", "-x", "baz"]).extensions,
        ["foo".to_owned(), "bar".to_owned(), "baz".to_owned()]
    );
}

#[test]
fn extension_args() {
    assert_eq!(from(&["em"]).extension_args, vec![]);

    {
        let valid_ext_args = from(&["em", "-ak=v", "-ak2=v2", "-ak3="]).extension_args;
        assert_eq!(valid_ext_args.len(), 3);
        assert_eq!(valid_ext_args[0].name(), "k");
        assert_eq!(valid_ext_args[0].value(), "v");
        assert_eq!(valid_ext_args[1].name(), "k2");
        assert_eq!(valid_ext_args[1].value(), "v2");
        assert_eq!(valid_ext_args[2].name(), "k3");
        assert_eq!(valid_ext_args[2].value(), "");
    }
}

#[test]
fn extension_path() {
    assert_eq!(from(&["em"]).extension_path, SearchPath::default());
    assert_eq!(
        from(&["em", "--extension-path", "club:house"]).extension_path,
        SearchPath::of_dirs(vec!["club".to_owned(), "house".to_owned()])
    );
}

#[test]
fn search_path_from() {
    assert_eq!(
        SearchPath::of_str("foo:bar::baz"),
        SearchPath::of_dirs(vec!["foo".to_owned(), "bar".to_owned(), "baz".to_owned()])
    );

    assert_eq!(
        SearchPath::of_str(&"foo:bar::baz".to_owned()),
        SearchPath::of_dirs(vec!["foo".to_owned(), "bar".to_owned(), "baz".to_owned()])
    );

    assert_eq!(
        SearchPath::of_dirs(
            vec!["foo", "bar", "baz"]
                .iter()
                .map(|d| d.to_string())
                .collect::<Vec<_>>()
        ),
        SearchPath::of_dirs(vec!["foo".to_owned(), "bar".to_owned(), "baz".to_owned()])
    );
}

#[test]
fn to_string() {
    let path = SearchPath::of_str("asdf:fdsa: ::q");
    assert_eq!(path.to_string(), "asdf:fdsa: :q");
}

#[test]
fn mem_limit_errors() {
    assert_eq!(MemoryLimit::parse(""), Err(ArgsError::InvalidValue));
    assert_eq!(MemoryLimit::parse("abc"), Err(ArgsError::InvalidValue));
    assert_eq!(MemoryLimit::parse("25X"), Err(ArgsError::InvalidValue));
    assert_eq!(MemoryLimit::parse("25KK"), Err(ArgsError::InvalidValue));
    assert_eq!(MemoryLimit::parse("unlimited"), Ok(MemoryLimit::Unlimited));
    assert_eq!(MemoryLimit::parse("2K5"), Ok(MemoryLimit::Limited(25 * 1024)));
}

#[test]
fn walker_errors() {
    let cases: &[(&[&str], ArgsError)] = &[
        (&["em", "--frobnicate"], ArgsError::UnknownFlag),
        (&["em", "--colour"], ArgsError::MissingValue),
        (&["em", "--colour", "sometimes"], ArgsError::InvalidValue),
        (&["em", "a", "b", "c"], ArgsError::TooManyArgs),
        (&["em", "-a", "=v"], ArgsError::InvalidValue),
    ];
    for (argv, want) in cases {
        let args: Vec<String> = argv.iter().map(|s| s.to_string()).collect();
        assert_eq!(Args::from_vec(args), Err(*want), "for {:?}", argv);
    }
}
