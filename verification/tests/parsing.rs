use parallel::arguments::{Args, Flags, InputItem, ParseErr, ParseOutcome, parse_jobs};
use parallel::inputs::assemble_inputs;
use parallel::tokens::Token;

fn s(v: &str) -> String {
    v.to_string()
}

fn sv(vs: &[&str]) -> Vec<String> {
    vs.iter().map(|v| v.to_string()).collect()
}

#[test]
fn defaults() {
    let f = Flags::new();
    assert!(f.grouped);
    assert!(f.uses_shell);
    assert!(!f.quiet);
    assert!(!f.verbose);
    assert!(!f.inputs_are_commands);
    let a = Args::new();
    assert!(a.ncores >= 1);
    assert_eq!(a.ninputs, 0);
    assert!(a.inputs.is_empty());
    assert!(a.arguments.is_empty());
}

#[test]
fn no_arguments_is_an_error() {
    let mut a = Args::new();
    assert_eq!(a.parse(Vec::new()), Err(ParseErr::NoArguments));
}

#[test]
fn plain_command_with_inline_inputs() {
    let mut a = Args::new();
    let r = a.parse(sv(&["echo", "{}", ":::", "a", "b", "c"]));
    match r {
        Ok(ParseOutcome::Run(lists)) => {
            assert_eq!(
                lists,
                vec![vec![
                    InputItem::Value(s("a")),
                    InputItem::Value(s("b")),
                    InputItem::Value(s("c")),
                ]]
            );
        },
        other => panic!("expected a run, got {:?}", other),
    }
    assert_eq!(a.arguments, vec![Token::Literal(s("echo ")), Token::Placeholder]);
    assert!(!a.flags.inputs_are_commands);
}

#[test]
fn leading_inputs_are_commands() {
    let mut a = Args::new();
    let r = a.parse(sv(&[":::", "ls", "pwd"]));
    match r {
        Ok(ParseOutcome::Run(lists)) => {
            assert_eq!(
                lists,
                vec![vec![InputItem::Value(s("ls")), InputItem::Value(s("pwd"))]]
            );
        },
        other => panic!("expected a run, got {:?}", other),
    }
    assert!(a.flags.inputs_are_commands);
}

#[test]
fn short_flags_combined() {
    let mut a = Args::new();
    let r = a.parse(sv(&["-nuqv", "echo", ":::", "x"]));
    assert!(matches!(r, Ok(ParseOutcome::Run(_))));
    assert!(!a.flags.uses_shell);
    assert!(!a.flags.grouped);
    assert!(a.flags.quiet);
    assert!(a.flags.verbose);
}

#[test]
fn jobs_inline_and_separate() {
    let mut a = Args::new();
    assert!(matches!(a.parse(sv(&["-j4", "echo", ":::", "x"])), Ok(ParseOutcome::Run(_))));
    assert_eq!(a.ncores, 4);

    let mut b = Args::new();
    assert!(matches!(b.parse(sv(&["-j", "7", "echo", ":::", "x"])), Ok(ParseOutcome::Run(_))));
    assert_eq!(b.ncores, 7);

    let mut c = Args::new();
    assert!(matches!(c.parse(sv(&["--jobs", "2", "echo", ":::", "x"])), Ok(ParseOutcome::Run(_))));
    assert_eq!(c.ncores, 2);
}

#[test]
fn jobs_errors() {
    let mut a = Args::new();
    assert_eq!(a.parse(sv(&["-j", "many"])), Err(ParseErr::JobsNaN(s("many"))));

    let mut b = Args::new();
    assert_eq!(b.parse(sv(&["--jobs"])), Err(ParseErr::JobsNoValue));

    let mut c = Args::new();
    assert_eq!(c.parse(sv(&["-j"])), Err(ParseErr::JobsNoValue));
}

#[test]
fn invalid_arguments() {
    let mut a = Args::new();
    assert_eq!(a.parse(sv(&["-x"])), Err(ParseErr::InvalidArgument(s("-x"))));

    let mut b = Args::new();
    assert_eq!(b.parse(sv(&["--frobnicate"])), Err(ParseErr::InvalidArgument(s("--frobnicate"))));

    let mut c = Args::new();
    assert_eq!(c.parse(sv(&["-"])), Err(ParseErr::InvalidArgument(s("-"))));
}

#[test]
fn early_exits() {
    let mut a = Args::new();
    assert_eq!(a.parse(sv(&["-h"])), Ok(ParseOutcome::Help));
    let mut b = Args::new();
    assert_eq!(b.parse(sv(&["--help"])), Ok(ParseOutcome::Help));
    let mut c = Args::new();
    assert_eq!(c.parse(sv(&["--version"])), Ok(ParseOutcome::Version));
    let mut d = Args::new();
    assert_eq!(d.parse(sv(&["--num-cpu-cores"])), Ok(ParseOutcome::NumCores));
}

#[test]
fn long_flags() {
    let mut a = Args::new();
    let r = a.parse(sv(&["--ungroup", "--no-shell", "--quiet", "--verbose", "echo", ":::", "x"]));
    assert!(matches!(r, Ok(ParseOutcome::Run(_))));
    assert!(!a.flags.grouped);
    assert!(!a.flags.uses_shell);
    assert!(a.flags.quiet);
    assert!(a.flags.verbose);
}

#[test]
fn multiple_lists_and_appends() {
    let mut a = Args::new();
    let r = a.parse(sv(&["echo", "{}", ":::", "a", "b", ":::+", "c", ":::", "1", "2"]));
    match r {
        Ok(ParseOutcome::Run(lists)) => {
            assert_eq!(
                lists,
                vec![
                    vec![
                        InputItem::Value(s("a")),
                        InputItem::Value(s("b")),
                        InputItem::Value(s("c")),
                    ],
                    vec![InputItem::Value(s("1")), InputItem::Value(s("2"))],
                ]
            );
        },
        other => panic!("expected a run, got {:?}", other),
    }
}

#[test]
fn file_lists_are_returned_for_resolution() {
    let mut a = Args::new();
    let r = a.parse(sv(&["wc", "-l", "{}", "::::", "names.txt", "::::+", "more.txt"]));
    match r {
        Ok(ParseOutcome::Run(lists)) => {
            assert_eq!(
                lists,
                vec![vec![InputItem::File(s("names.txt")), InputItem::File(s("more.txt"))]]
            );
        },
        other => panic!("expected a run, got {:?}", other),
    }
}

#[test]
fn command_words_join_with_spaces() {
    let mut a = Args::new();
    let r = a.parse(sv(&["sh", "-c", "sleep 1; echo {}", ":::", "x"]));
    assert!(matches!(r, Ok(ParseOutcome::Run(_))));
    // literal text of the template: the words joined by single spaces
    match &a.arguments[0] {
        Token::Literal(l) => assert_eq!(l, "sh -c sleep 1; echo "),
        other => panic!("expected a literal, got {:?}", other),
    }
    assert_eq!(a.arguments[1], Token::Placeholder);
}

#[test]
fn stdin_fallback_leaves_inputs_empty() {
    // no ::: appears: the caller sees no lists and reads standard input
    let mut a = Args::new();
    let r = a.parse(sv(&["echo", "{}"]));
    match r {
        Ok(ParseOutcome::Run(lists)) => assert!(lists.is_empty()),
        other => panic!("expected a run, got {:?}", other),
    }
    let stdin_lines = sv(&["one", "two"]);
    a.set_inputs(stdin_lines.clone());
    assert_eq!(a.ninputs, 2);
    assert_eq!(a.inputs, stdin_lines);
}

#[test]
fn cartesian_input_assembly() {
    // ::: a b ::: 1 2 gives the outer-first product
    let lists = vec![sv(&["a", "b"]), sv(&["1", "2"])];
    assert_eq!(assemble_inputs(lists), sv(&["a 1", "a 2", "b 1", "b 2"]));
}

#[test]
fn single_list_passes_through() {
    assert_eq!(assemble_inputs(vec![sv(&["x", "y"])]), sv(&["x", "y"]));
    assert_eq!(assemble_inputs(Vec::new()), Vec::<String>::new());
}

#[test]
fn empty_groups_fall_away() {
    let lists = vec![sv(&["a", "b"]), Vec::new(), sv(&["1"])];
    assert_eq!(assemble_inputs(lists), sv(&["a 1", "b 1"]));
}

#[test]
fn three_way_product_order() {
    let lists = vec![sv(&["a", "b"]), sv(&["x"]), sv(&["1", "2"])];
    assert_eq!(assemble_inputs(lists), sv(&["a x 1", "a x 2", "b x 1", "b x 2"]));
}

#[test]
fn jobs_parse_values() {
    assert_eq!(parse_jobs("12"), Ok(12));
    assert_eq!(parse_jobs("+3"), Ok(3));
    assert_eq!(parse_jobs("0"), Ok(0));
    assert_eq!(parse_jobs(""), Err(ParseErr::JobsNaN(s(""))));
    assert_eq!(parse_jobs("+"), Err(ParseErr::JobsNaN(s("+"))));
    assert_eq!(parse_jobs("4x"), Err(ParseErr::JobsNaN(s("4x"))));
    assert_eq!(
        parse_jobs("99999999999999999999999999"),
        Err(ParseErr::JobsNaN(s("99999999999999999999999999")))
    );
}

#[test]
fn error_messages() {
    assert_eq!(
        ParseErr::JobsNaN(s("abc")).message(),
        "parallel: parsing error: jobs parameter, 'abc', is not a number.\n"
    );
    assert_eq!(
        ParseErr::JobsNoValue.message(),
        "parallel: parsing error: no jobs parameter was defined.\n"
    );
    assert_eq!(
        ParseErr::InvalidArgument(s("-z")).message(),
        "parallel: parsing error: invalid argument: -z\n"
    );
    assert_eq!(
        ParseErr::NoArguments.message(),
        "parallel: parsing error: no input arguments were given.\n"
    );
    assert_eq!(
        ParseErr::InputFileError(s("f.txt"), s("missing")).message(),
        "parallel: parsing error: unable to open f.txt: missing\n"
    );
}
