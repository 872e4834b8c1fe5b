//! The command line.

use luau_lad_backend::cli::{
    check_against, classify, parse_args, ArgumentKind, Command, Destination, Job, UsageError, USAGE,
};
use luau_lad_backend::Options;

fn strings(list: &[&str]) -> Vec<String> {
    list.iter().map(|s| s.to_string()).collect()
}

fn job(list: &[&str]) -> Job {
    match parse_args(&strings(list)) {
        Ok(Command::Convert(job)) => job,
        other => panic!("no conversion: {other:?}"),
    }
}

fn failure(list: &[&str]) -> UsageError {
    match parse_args(&strings(list)) {
        Err(error) => error,
        other => panic!("no failure: {other:?}"),
    }
}

#[test]
fn arguments_are_classified() {
    assert_eq!(classify("-h"), ArgumentKind::Help);
    assert_eq!(classify("--help"), ArgumentKind::Help);
    assert_eq!(classify("-V"), ArgumentKind::Version);
    assert_eq!(classify("--version"), ArgumentKind::Version);
    assert_eq!(classify("--fflags"), ArgumentKind::Fflags);
    assert_eq!(classify("-c"), ArgumentKind::Check);
    assert_eq!(classify("--check"), ArgumentKind::Check);
    assert_eq!(classify("--no-init-types"), ArgumentKind::NoInitTypes);
    assert_eq!(classify("-v"), ArgumentKind::Unknown);
    assert_eq!(classify("-"), ArgumentKind::Unknown);
    assert_eq!(classify(""), ArgumentKind::Positional);
    assert_eq!(classify("in.lad.json"), ArgumentKind::Positional);
}

#[test]
fn a_conversion_takes_one_or_two_paths() {
    let one = job(&["in.json"]);
    assert_eq!(one.input, "in.json");
    assert_eq!(one.output, None);
    assert!(!one.check);
    assert!(one.options.init_types);
    let two = job(&["in.json", "--no-init-types", "out.luau", "-c"]);
    assert_eq!(two.input, "in.json");
    assert_eq!(two.output, Some("out.luau".to_string()));
    assert!(two.check);
    assert!(!two.options.init_types);
}

#[test]
fn the_first_settling_argument_decides() {
    assert!(matches!(parse_args(&strings(&["a", "b", "c", "-h", "--nope"])), Ok(Command::Help)));
    assert!(matches!(parse_args(&strings(&["-V", "-h"])), Ok(Command::Version)));
    assert!(matches!(parse_args(&strings(&["-c", "--fflags"])), Ok(Command::Fflags)));
    assert!(matches!(failure(&["--nope", "-h"]), UsageError::UnknownOption(o) if o == "--nope"));
}

#[test]
fn usage_errors_show_the_usage() {
    let unknown = failure(&["-x"]);
    assert_eq!(unknown.message(), format!("unknown option `-x`\n\n{USAGE}"));
    let missing = failure(&["--check"]);
    assert!(matches!(missing, UsageError::MissingInput));
    assert_eq!(missing.message(), format!("missing <input.lad.json>\n\n{USAGE}"));
    let many = failure(&["a", "b", "c"]);
    assert!(matches!(many, UsageError::TooManyArguments));
    assert_eq!(many.message(), format!("too many arguments\n\n{USAGE}"));
    assert_eq!(
        UsageError::MissingOutput.message(),
        format!("--check needs an <output.d.luau> to compare against\n\n{USAGE}")
    );
    assert!(USAGE.starts_with("lad-luau — convert a bevy_mod_scripting LAD file"));
    assert!(USAGE.ends_with("    -V, --version       Print the version.\n"));
}

#[test]
fn the_destination_follows_from_the_job() {
    let plain = job(&["in"]);
    assert!(matches!(plain.destination(), Ok(Destination::Stdout)));
    let written = job(&["in", "out"]);
    assert!(matches!(written.destination(), Ok(Destination::Write("out"))));
    let compared = job(&["-c", "in", "out"]);
    assert!(matches!(compared.destination(), Ok(Destination::Compare("out"))));
    let nowhere = Job {
        input: "in".to_string(),
        output: None,
        check: true,
        options: Options::default(),
    };
    assert!(matches!(nowhere.destination(), Err(UsageError::MissingOutput)));
}

#[test]
fn checking_reports_the_first_difference() {
    let same = check_against("x.luau", &Some("a\nb\n".to_string()), "a\nb\n");
    assert!(same.up_to_date);
    assert_eq!(same.report, "x.luau is up to date\n");

    let absent = check_against("x.luau", &None, "a\n");
    assert!(!absent.up_to_date);
    assert_eq!(absent.report, "x.luau does not exist; run without --check\n");

    let changed = check_against("x.luau", &Some("a\nb\nc\n".to_string()), "a\nB\nc\n");
    assert!(!changed.up_to_date);
    assert_eq!(
        changed.report,
        "x.luau is out of date; regenerate it\n  first difference at line 2:\n    on disk:   b\n    generated: B\n"
    );

    let shorter = check_against("x.luau", &Some("a\n".to_string()), "a\nb\n");
    assert!(!shorter.up_to_date);
    assert_eq!(
        shorter.report,
        "x.luau is out of date; regenerate it\n  first difference at line 2:\n    on disk:   <end of file>\n    generated: b\n"
    );

    let longer = check_against("x.luau", &Some("a\nb".to_string()), "a");
    assert_eq!(
        longer.report,
        "x.luau is out of date; regenerate it\n  first difference at line 2:\n    on disk:   b\n    generated: <end of file>\n"
    );
}

#[test]
fn differing_line_ends_alone_are_stale_without_a_line() {
    let outcome = check_against("x", &Some("a\r\nb".to_string()), "a\nb\n");
    assert!(!outcome.up_to_date);
    assert_eq!(outcome.report, "x is out of date; regenerate it\n");
}
