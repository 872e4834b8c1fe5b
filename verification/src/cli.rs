//! The command line: what the arguments ask for, where the definitions go, and
//! how they compare with what is there.

use vstd::prelude::*;

use crate::docs::{self, split_lines};
use crate::options::Options;
use crate::text::{
    decimal, lemma_take_push, lemma_texts_push, option_text, same_text, starts_with, texts,
    to_decimal,
};

verus! {

/// The help text.
pub const USAGE: &'static str =
    "lad-luau — convert a bevy_mod_scripting LAD file into Luau definitions\n\nUSAGE:\n    lad-luau <input.lad.json> [output.d.luau]\n    lad-luau --check <input.lad.json> <output.d.luau>\n\nARGS:\n    <input.lad.json>    The LAD file to convert.\n    <output.d.luau>     Where to write the definitions; stdout if omitted.\n\nOPTIONS:\n    -c, --check         Do not write. Compare the generated definitions against\n                        <output.d.luau> and exit non-zero if they differ, so CI\n                        can catch committed definitions that have gone stale\n                        relative to the reflection registry.\n        --fflags        Print the luau-lsp analyze flags a full registry needs,\n                        one per line, and exit.\n        --no-init-types Skip the `<Class>Init` construct-payload aliases. Smaller\n                        output and notably faster to analyze; only worth it if\n                        your scripts rarely call `construct`.\n    -h, --help          Print this help.\n    -V, --version       Print the version.\n";

/// What one argument is.
#[derive(Debug, PartialEq, Eq, Structural, Clone, Copy)]
pub enum ArgumentKind {
    /// Asks for the help text.
    Help,
    /// Asks for the version.
    Version,
    /// Asks for the analysis flags.
    Fflags,
    /// Asks to compare rather than write.
    Check,
    /// Asks to leave the payload aliases out.
    NoInitTypes,
    /// An option that does not exist.
    Unknown,
    /// A path.
    Positional,
}

/// What the program is asked to do.
#[derive(Debug)]
pub enum Command {
    /// Print the help text.
    Help,
    /// Print the version.
    Version,
    /// Print the analysis flags.
    Fflags,
    /// Convert a file.
    Convert(Job),
}

/// A conversion.
#[derive(Debug)]
pub struct Job {
    /// The LAD file to convert.
    pub input: String,
    /// Where the definitions go.
    pub output: Option<String>,
    /// Whether to compare rather than write.
    pub check: bool,
    /// Rendering options.
    pub options: Options,
}

/// Why the arguments make no sense.
#[derive(Debug)]
pub enum UsageError {
    /// There is no such option.
    UnknownOption(String),
    /// There is nothing to convert.
    MissingInput,
    /// There are more than two paths.
    TooManyArguments,
    /// There is nothing to compare against.
    MissingOutput,
}

/// What happens with the definitions.
#[derive(Debug)]
pub enum Destination<'a> {
    /// They are printed.
    Stdout,
    /// They are written to a file.
    Write(&'a str),
    /// They are compared with a file.
    Compare(&'a str),
}

/// How the definitions compare with what is on disk.
#[derive(Debug)]
pub struct CheckOutcome {
    /// Whether nothing has to be regenerated.
    pub up_to_date: bool,
    /// What is reported.
    pub report: String,
}

/// A [`Command`] in specifications.
pub enum CommandView {
    Help,
    Version,
    Fflags,
    Convert(JobView),
}

/// A [`Job`] in specifications.
pub struct JobView {
    pub input: Seq<char>,
    pub output: Option<Seq<char>>,
    pub check: bool,
    pub init_types: bool,
}

/// A [`UsageError`] in specifications.
pub enum UsageErrorView {
    UnknownOption(Seq<char>),
    MissingInput,
    TooManyArguments,
    MissingOutput,
}

impl View for Command {
    type V = CommandView;

    open spec fn view(&self) -> CommandView {
        match self {
            Command::Help => CommandView::Help,
            Command::Version => CommandView::Version,
            Command::Fflags => CommandView::Fflags,
            Command::Convert(job) => CommandView::Convert(job@),
        }
    }
}

impl View for Job {
    type V = JobView;

    open spec fn view(&self) -> JobView {
        JobView {
            input: self.input@,
            output: option_text(self.output),
            check: self.check,
            init_types: self.options.init_types,
        }
    }
}

impl View for UsageError {
    type V = UsageErrorView;

    open spec fn view(&self) -> UsageErrorView {
        match self {
            UsageError::UnknownOption(option) => UsageErrorView::UnknownOption(option@),
            UsageError::MissingInput => UsageErrorView::MissingInput,
            UsageError::TooManyArguments => UsageErrorView::TooManyArguments,
            UsageError::MissingOutput => UsageErrorView::MissingOutput,
        }
    }
}

/// What one argument is.
pub open spec fn argument_kind(arg: Seq<char>) -> ArgumentKind {
    if arg == "-h"@ || arg == "--help"@ {
        ArgumentKind::Help
    } else if arg == "-V"@ || arg == "--version"@ {
        ArgumentKind::Version
    } else if arg == "--fflags"@ {
        ArgumentKind::Fflags
    } else if arg == "-c"@ || arg == "--check"@ {
        ArgumentKind::Check
    } else if arg == "--no-init-types"@ {
        ArgumentKind::NoInitTypes
    } else if "-"@.is_prefix_of(arg) {
        ArgumentKind::Unknown
    } else {
        ArgumentKind::Positional
    }
}

/// Whether an argument settles what happens, whatever comes behind it.
pub open spec fn settles(arg: Seq<char>) -> bool {
    match argument_kind(arg) {
        ArgumentKind::Help => true,
        ArgumentKind::Version => true,
        ArgumentKind::Fflags => true,
        ArgumentKind::Unknown => true,
        _ => false,
    }
}

/// Whether one of the arguments is of the given kind.
pub open spec fn has_kind(args: Seq<Seq<char>>, kind: ArgumentKind) -> bool {
    exists|i: int| 0 <= i < args.len() && argument_kind(#[trigger] args[i]) == kind
}

/// The arguments that are paths.
pub open spec fn paths(args: Seq<Seq<char>>) -> Seq<Seq<char>>
    decreases args.len(),
{
    if args.len() == 0 {
        Seq::empty()
    } else if argument_kind(args.last()) == ArgumentKind::Positional {
        paths(args.drop_last()).push(args.last())
    } else {
        paths(args.drop_last())
    }
}

/// What an argument that settles what happens asks for.
pub open spec fn settled(arg: Seq<char>) -> Result<CommandView, UsageErrorView> {
    match argument_kind(arg) {
        ArgumentKind::Help => Ok(CommandView::Help),
        ArgumentKind::Version => Ok(CommandView::Version),
        ArgumentKind::Fflags => Ok(CommandView::Fflags),
        _ => Err(UsageErrorView::UnknownOption(arg)),
    }
}

/// What the arguments ask for if none of them settles it.
pub open spec fn conversion(args: Seq<Seq<char>>) -> Result<CommandView, UsageErrorView> {
    let given = paths(args);
    if given.len() == 0 {
        Err(UsageErrorView::MissingInput)
    } else if given.len() > 2 {
        Err(UsageErrorView::TooManyArguments)
    } else {
        Ok(
            CommandView::Convert(
                JobView {
                    input: given[0],
                    output: if given.len() == 2 {
                        Some(given[1])
                    } else {
                        None
                    },
                    check: has_kind(args, ArgumentKind::Check),
                    init_types: !has_kind(args, ArgumentKind::NoInitTypes),
                },
            ),
        )
    }
}

/// Whether `k` is the position of the first argument that settles what
/// happens.
pub open spec fn first_settles(args: Seq<Seq<char>>, k: int) -> bool {
    &&& 0 <= k < args.len()
    &&& settles(args[k])
    &&& forall|i: int| 0 <= i < k ==> !settles(#[trigger] args[i])
}

/// What the arguments ask for: the first one that settles it decides; if none
/// does, a conversion is asked for.
pub open spec fn parsed(args: Seq<Seq<char>>) -> Result<CommandView, UsageErrorView> {
    if exists|k: int| first_settles(args, k) {
        settled(args[choose|k: int| first_settles(args, k)])
    } else {
        conversion(args)
    }
}

/// The outcome of reading the arguments.
pub open spec fn outcome(r: Result<Command, UsageError>) -> Result<CommandView, UsageErrorView> {
    match r {
        Ok(command) => Ok(command@),
        Err(error) => Err(error@),
    }
}

/// What a failure to understand the arguments is reported as.
pub open spec fn error_text(error: UsageErrorView) -> Seq<char> {
    match error {
        UsageErrorView::UnknownOption(option) => "unknown option `"@ + option + "`"@ + "\n\n"@
            + USAGE@,
        UsageErrorView::MissingInput => "missing <input.lad.json>"@ + "\n\n"@ + USAGE@,
        UsageErrorView::TooManyArguments => "too many arguments"@ + "\n\n"@ + USAGE@,
        UsageErrorView::MissingOutput => "--check needs an <output.d.luau> to compare against"@
            + "\n\n"@ + USAGE@,
    }
}

/// Every line at the same position is the same, up to the first `k` lines.
pub open spec fn agree_up_to(a: Seq<Seq<char>>, b: Seq<Seq<char>>, k: int) -> bool {
    0 <= k <= a.len() && k <= b.len() && a.take(k) == b.take(k)
}

/// The line at the given position, if there is one.
pub open spec fn line_at(lines: Seq<Seq<char>>, k: int) -> Option<Seq<char>> {
    if 0 <= k < lines.len() {
        Some(lines[k])
    } else {
        None
    }
}

/// Whether `k` is the first position at which the lines differ.
pub open spec fn first_differs(a: Seq<Seq<char>>, b: Seq<Seq<char>>, k: int) -> bool {
    agree_up_to(a, b, k) && line_at(a, k) != line_at(b, k)
}

/// A line as it is reported.
pub open spec fn reported(line: Option<Seq<char>>) -> Seq<char> {
    match line {
        Some(text) => text,
        None => "<end of file>"@,
    }
}

/// The report of a difference at position `k`.
pub open spec fn difference_at(a: Seq<Seq<char>>, b: Seq<Seq<char>>, k: int) -> Seq<char> {
    "  first difference at line "@ + decimal((k + 1) as nat) + ":\n    on disk:   "@
        + reported(line_at(a, k)) + "\n    generated: "@ + reported(line_at(b, k)) + "\n"@
}

/// The report of the first difference, if there is one.
pub open spec fn difference_text(a: Seq<Seq<char>>, b: Seq<Seq<char>>) -> Seq<char> {
    if exists|k: int| first_differs(a, b, k) {
        difference_at(a, b, choose|k: int| first_differs(a, b, k))
    } else {
        Seq::empty()
    }
}

/// The report of a comparison between the definitions and what is on disk.
pub open spec fn check_report(
    path: Seq<char>,
    existing: Option<Seq<char>>,
    defs: Seq<char>,
) -> Seq<char> {
    match existing {
        Some(text) => if text == defs {
            path + " is up to date\n"@
        } else {
            path + " is out of date; regenerate it\n"@ + difference_text(
                docs::lines(text),
                docs::lines(defs),
            )
        },
        None => path + " does not exist; run without --check\n"@,
    }
}

/// Two texts have a first line at which they differ exactly if they do not
/// consist of the same lines, and there is only one such line.
pub proof fn law_first_difference(a: Seq<Seq<char>>, b: Seq<Seq<char>>)
    ensures
        (exists|k: int| first_differs(a, b, k)) <==> a != b,
        forall|k: int, j: int| first_differs(a, b, k) && first_differs(a, b, j) ==> k == j,
{
    if a != b && !(exists|k: int| first_differs(a, b, k)) {
        lemma_agree(a, b, a.len() as int);
        assert(a.take(a.len() as int) =~= a);
        assert(!first_differs(a, b, a.len() as int));
        assert(b.take(a.len() as int) =~= b);
    }
    assert forall|k: int| first_differs(a, b, k) implies a != b by {
        if a == b {
            assert(line_at(a, k) == line_at(b, k));
        }
    }
    assert forall|k: int, j: int|
        first_differs(a, b, k) && first_differs(a, b, j) implies k == j by {
        if k < j {
            assert(a.take(j)[k] == b.take(j)[k]);
        }
        if j < k {
            assert(a.take(k)[j] == b.take(k)[j]);
        }
    }
}

/// Lines without a first difference agree.
proof fn lemma_agree(a: Seq<Seq<char>>, b: Seq<Seq<char>>, n: int)
    requires
        0 <= n <= a.len(),
        forall|k: int| !first_differs(a, b, k),
    ensures
        agree_up_to(a, b, n),
    decreases n,
{
    if n == 0 {
        assert(a.take(0) =~= b.take(0));
    } else {
        lemma_agree(a, b, n - 1);
        assert(!first_differs(a, b, n - 1));
        lemma_take_push(a, n - 1);
        lemma_take_push(b, n - 1);
    }
}

/// Classifies one argument.
pub fn classify(arg: &str) -> (r: ArgumentKind)
    ensures
        r == argument_kind(arg@),
{
    if same_text(arg, "-h") || same_text(arg, "--help") {
        ArgumentKind::Help
    } else if same_text(arg, "-V") || same_text(arg, "--version") {
        ArgumentKind::Version
    } else if same_text(arg, "--fflags") {
        ArgumentKind::Fflags
    } else if same_text(arg, "-c") || same_text(arg, "--check") {
        ArgumentKind::Check
    } else if same_text(arg, "--no-init-types") {
        ArgumentKind::NoInitTypes
    } else if starts_with(arg, "-") {
        ArgumentKind::Unknown
    } else {
        ArgumentKind::Positional
    }
}

/// Reads the command line, the program's own name left out.
pub fn parse_args(args: &Vec<String>) -> (r: Result<Command, UsageError>)
    ensures
        outcome(r) == parsed(texts(args@)),
{
    let ghost all = texts(args@);
    let mut options = Options::default();
    let mut check = false;
    let mut positional: Vec<String> = Vec::new();
    let mut i: usize = 0;
    assert(texts(positional@) =~= paths(all.take(0)));
    while i < args.len()
        invariant
            i <= args@.len(),
            all == texts(args@),
            forall|j: int| 0 <= j < i ==> !settles(#[trigger] all[j]),
            texts(positional@) == paths(all.take(i as int)),
            check == has_kind(all.take(i as int), ArgumentKind::Check),
            options.init_types == !has_kind(all.take(i as int), ArgumentKind::NoInitTypes),
        decreases args@.len() - i,
    {
        let kind = classify(args[i].as_str());
        proof {
            assert(all[i as int] == args@[i as int]@);
            assert(all.take(i + 1).drop_last() =~= all.take(i as int));
            lemma_has_kind_step(all, i as int, ArgumentKind::Check);
            lemma_has_kind_step(all, i as int, ArgumentKind::NoInitTypes);
            if settles(all[i as int]) {
                lemma_first_settles(all, i as int);
            }
        }
        match kind {
            ArgumentKind::Help => {
                return Ok(Command::Help);
            },
            ArgumentKind::Version => {
                return Ok(Command::Version);
            },
            ArgumentKind::Fflags => {
                return Ok(Command::Fflags);
            },
            ArgumentKind::Unknown => {
                return Err(UsageError::UnknownOption(args[i].clone()));
            },
            ArgumentKind::Check => {
                check = true;
            },
            ArgumentKind::NoInitTypes => {
                options.init_types = false;
            },
            ArgumentKind::Positional => {
                proof {
                    lemma_texts_push(positional@, args@[i as int]);
                }
                positional.push(args[i].clone());
            },
        }
        i += 1;
    }
    proof {
        assert(all.take(i as int) =~= all);
        assert forall|k: int| !first_settles(all, k) by {}
    }
    assert(texts(positional@).len() == positional@.len());
    if positional.len() == 0 {
        return Err(UsageError::MissingInput);
    }
    if positional.len() > 2 {
        return Err(UsageError::TooManyArguments);
    }
    let output = if positional.len() == 2 {
        Some(positional[1].clone())
    } else {
        None
    };
    let input = positional[0].clone();
    proof {
        assert(texts(positional@)[0] == input@);
        if positional@.len() == 2 {
            assert(texts(positional@)[1] == positional@[1]@);
        }
    }
    Ok(Command::Convert(Job { input, output, check, options }))
}

/// One more argument.
proof fn lemma_has_kind_step(args: Seq<Seq<char>>, i: int, kind: ArgumentKind)
    requires
        0 <= i < args.len(),
    ensures
        has_kind(args.take(i + 1), kind) == (has_kind(args.take(i), kind) || argument_kind(args[i])
            == kind),
{
    if has_kind(args.take(i + 1), kind) {
        let j = choose|j: int|
            0 <= j < args.take(i + 1).len() && argument_kind(#[trigger] args.take(i + 1)[j])
                == kind;
        if j < i {
            assert(argument_kind(args.take(i)[j]) == kind);
        }
    }
    if has_kind(args.take(i), kind) {
        let j = choose|j: int|
            0 <= j < args.take(i).len() && argument_kind(#[trigger] args.take(i)[j]) == kind;
        assert(argument_kind(args.take(i + 1)[j]) == kind);
    }
    if argument_kind(args[i]) == kind {
        assert(argument_kind(args.take(i + 1)[i]) == kind);
    }
}

/// There is one first argument that settles what happens.
proof fn lemma_first_settles(args: Seq<Seq<char>>, k: int)
    requires
        first_settles(args, k),
    ensures
        parsed(args) == settled(args[k]),
{
    let other = choose|j: int| first_settles(args, j);
    assert(first_settles(args, other));
    if other < k {
        assert(!settles(args[other]));
    }
    if k < other {
        assert(!settles(args[k]));
    }
}

impl Job {
    /// What happens with the definitions once they are generated.
    pub fn destination(&self) -> (r: Result<Destination, UsageError>)
        ensures
            match self.output {
                Some(path) => match r {
                    Ok(Destination::Compare(to)) => self.check && to@ == path@,
                    Ok(Destination::Write(to)) => !self.check && to@ == path@,
                    _ => false,
                },
                None => match r {
                    Ok(Destination::Stdout) => !self.check,
                    Err(error) => self.check && error is MissingOutput,
                    _ => false,
                },
            },
    {
        match &self.output {
            Some(path) => if self.check {
                Ok(Destination::Compare(path.as_str()))
            } else {
                Ok(Destination::Write(path.as_str()))
            },
            None => if self.check {
                Err(UsageError::MissingOutput)
            } else {
                Ok(Destination::Stdout)
            },
        }
    }
}

impl UsageError {
    /// What the failure is reported as.
    pub fn message(&self) -> (r: String)
        ensures
            r@ == error_text(self@),
    {
        let mut out = match self {
            UsageError::UnknownOption(option) => {
                let mut text = "unknown option `".to_owned();
                text.append(option.as_str());
                text.append("`");
                text
            },
            UsageError::MissingInput => "missing <input.lad.json>".to_owned(),
            UsageError::TooManyArguments => "too many arguments".to_owned(),
            UsageError::MissingOutput =>
                "--check needs an <output.d.luau> to compare against".to_owned(),
        };
        out.append("\n\n");
        out.append(USAGE);
        out
    }
}

/// The first position at which the lines differ.
fn first_difference(a: &Vec<String>, b: &Vec<String>) -> (r: Option<usize>)
    ensures
        match r {
            Some(k) => {
                &&& first_differs(texts(a@), texts(b@), k as int)
                &&& k < a.len() || k < b.len()
            },
            None => forall|k: int| !first_differs(texts(a@), texts(b@), k),
        },
{
    let ghost x = texts(a@);
    let ghost y = texts(b@);
    let mut k: usize = 0;
    assert(x.take(0) =~= y.take(0));
    while k < a.len() && k < b.len()
        invariant
            x == texts(a@),
            y == texts(b@),
            agree_up_to(x, y, k as int),
        decreases a@.len() - k,
    {
        if a[k] != b[k] {
            assert(x[k as int] != y[k as int]);
            return Some(k);
        }
        proof {
            lemma_take_push(x, k as int);
            lemma_take_push(y, k as int);
            assert(x[k as int] == y[k as int]);
        }
        k += 1;
    }
    if a.len() == b.len() {
        proof {
            assert(x.take(k as int) =~= x);
            assert(y.take(k as int) =~= y);
            law_first_difference(x, y);
            assert forall|j: int| !first_differs(x, y, j) by {}
        }
        None
    } else {
        Some(k)
    }
}

fn reported_line(lines: &Vec<String>, k: usize) -> (r: &str)
    ensures
        r@ == reported(line_at(texts(lines@), k as int)),
{
    if k < lines.len() {
        lines[k].as_str()
    } else {
        "<end of file>"
    }
}

/// The report of the first difference.
fn describe_difference(existing: &str, defs: &str) -> (r: String)
    ensures
        r@ == difference_text(docs::lines(existing@), docs::lines(defs@)),
{
    let on_disk = split_lines(existing);
    let generated = split_lines(defs);
    let ghost a = texts(on_disk@);
    let ghost b = texts(generated@);
    match first_difference(&on_disk, &generated) {
        Some(k) => {
            proof {
                law_first_difference(a, b);
                assert(first_differs(a, b, choose|j: int| first_differs(a, b, j)));
            }
            assert(k < usize::MAX) by {
                assert(k < on_disk.len() || k < generated.len());
            }
            let mut out = "  first difference at line ".to_owned();
            out.append(to_decimal(k + 1).as_str());
            out.append(":\n    on disk:   ");
            out.append(reported_line(&on_disk, k));
            out.append("\n    generated: ");
            out.append(reported_line(&generated, k));
            out.append("\n");
            out
        },
        None => String::new(),
    }
}

/// Compare freshly generated definitions against what is on disk (`None` if
/// there is nothing), reporting the first line that differs. That they differ
/// is a normal outcome, not a malfunction.
pub fn check_against(path: &str, existing: &Option<String>, defs: &str) -> (r: CheckOutcome)
    ensures
        r.up_to_date == (option_text(*existing) == Some(defs@)),
        r.report@ == check_report(path@, option_text(*existing), defs@),
{
    let mut report = path.to_owned();
    match existing {
        Some(text) => {
            if same_text(text.as_str(), defs) {
                report.append(" is up to date\n");
                CheckOutcome { up_to_date: true, report }
            } else {
                report.append(" is out of date; regenerate it\n");
                report.append(describe_difference(text.as_str(), defs).as_str());
                CheckOutcome { up_to_date: false, report }
            }
        },
        None => {
            report.append(" does not exist; run without --check\n");
            CheckOutcome { up_to_date: false, report }
        },
    }
}

} // verus!
