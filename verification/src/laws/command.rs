//! What the command line asks for, and what is reported.

use vstd::prelude::*;

use crate::cli::{
    argument_kind, ArgumentKind, check_report, CommandView, error_text, first_differs,
    first_settles, has_kind, JobView, law_first_difference, parsed, paths, settles, UsageErrorView,
    USAGE,
};
use crate::docs::lines;
use crate::text::decimal;

verus! {

/// What an argument is: a request for help, the version or the flags, an option
/// of the conversion, an option that does not exist if it begins with a dash,
/// and else a path.
pub proof fn law_arguments(arg: Seq<char>)
    ensures
        argument_kind(arg) == ArgumentKind::Help <==> arg == "-h"@ || arg == "--help"@,
        argument_kind(arg) == ArgumentKind::Version <==> arg == "-V"@ || arg == "--version"@,
        argument_kind(arg) == ArgumentKind::Fflags <==> arg == "--fflags"@,
        argument_kind(arg) == ArgumentKind::Check <==> arg == "-c"@ || arg == "--check"@,
        argument_kind(arg) == ArgumentKind::NoInitTypes <==> arg == "--no-init-types"@,
        argument_kind(arg) == ArgumentKind::Positional <==> !(arg.len() > 0 && arg[0] == '-'),
{
    reveal_strlit("-");
    reveal_strlit("-h");
    reveal_strlit("--help");
    reveal_strlit("-V");
    reveal_strlit("--version");
    reveal_strlit("--fflags");
    reveal_strlit("-c");
    reveal_strlit("--check");
    reveal_strlit("--no-init-types");
    assert("--help"@.len() == 6 && "--version"@.len() == 9 && "--fflags"@.len() == 8
        && "--check"@.len() == 7 && "--no-init-types"@.len() == 15);
    assert("--version"@[2] == 'v');
    assert("-h"@[1] == 'h' && "-V"@[1] == 'V' && "-c"@[1] == 'c');
    assert("-"@.is_prefix_of(arg) <==> arg.len() > 0 && arg[0] == '-') by {
        if arg.len() > 0 && arg[0] == '-' {
            assert("-"@ =~= arg.subrange(0, 1));
        }
        if "-"@.is_prefix_of(arg) {
            assert(arg.subrange(0, 1)[0] == arg[0]);
        }
    }
}

/// The first argument that asks for help, the version or the flags, or is no
/// option that exists, decides, whatever stands around it.
pub proof fn law_first_request_decides(args: Seq<Seq<char>>, k: int)
    requires
        0 <= k < args.len(),
        forall|i: int|
            0 <= i < k ==> {
                let arg = #[trigger] args[i];
                ||| !(arg.len() > 0 && arg[0] == '-')
                ||| arg == "-c"@
                ||| arg == "--check"@
                ||| arg == "--no-init-types"@
            },
        args[k].len() > 0 && args[k][0] == '-',
        args[k] != "-c"@,
        args[k] != "--check"@,
        args[k] != "--no-init-types"@,
    ensures
        parsed(args) == if args[k] == "-h"@ || args[k] == "--help"@ {
            Ok::<CommandView, UsageErrorView>(CommandView::Help)
        } else if args[k] == "-V"@ || args[k] == "--version"@ {
            Ok(CommandView::Version)
        } else if args[k] == "--fflags"@ {
            Ok(CommandView::Fflags)
        } else {
            Err(UsageErrorView::UnknownOption(args[k]))
        },
{
    law_arguments(args[k]);
    assert forall|i: int| 0 <= i < k implies !settles(#[trigger] args[i]) by {
        law_arguments(args[i]);
    }
    assert(first_settles(args, k));
    let j = choose|j: int| first_settles(args, j);
    if j < k {
        assert(!settles(args[j]));
    }
    if k < j {
        assert(!settles(args[k]));
    }
}

/// The paths among the arguments.
proof fn lemma_paths(args: Seq<Seq<char>>)
    ensures
        paths(args) == args.filter(|arg: Seq<char>| !(arg.len() > 0 && arg[0] == '-')),
    decreases args.len(),
{
    reveal(Seq::filter);
    if args.len() > 0 {
        lemma_paths(args.drop_last());
        law_arguments(args.last());
    }
}

/// Arguments that are paths or options of the conversion ask for a conversion:
/// the first path is the input, a second one the output; without a path, or
/// with more than two, they make no sense. Comparing rather than writing, and
/// leaving the payloads out, is asked for by their options, wherever those
/// stand.
pub proof fn law_conversion(args: Seq<Seq<char>>)
    requires
        forall|i: int|
            0 <= i < args.len() ==> {
                let arg = #[trigger] args[i];
                ||| !(arg.len() > 0 && arg[0] == '-')
                ||| arg == "-c"@
                ||| arg == "--check"@
                ||| arg == "--no-init-types"@
            },
    ensures
        ({
            let given = args.filter(|arg: Seq<char>| !(arg.len() > 0 && arg[0] == '-'));
            parsed(args) == if given.len() == 0 {
                Err::<CommandView, UsageErrorView>(UsageErrorView::MissingInput)
            } else if given.len() > 2 {
                Err(UsageErrorView::TooManyArguments)
            } else {
                Ok(
                    CommandView::Convert(
                        JobView {
                            input: given[0],
                            output: if given.len() == 2 {
                                Some(given[1])
                            } else {
                                None
                            },
                            check: args.contains("-c"@) || args.contains("--check"@),
                            init_types: !args.contains("--no-init-types"@),
                        },
                    ),
                )
            }
        }),
{
    lemma_paths(args);
    assert forall|k: int| !first_settles(args, k) by {
        if first_settles(args, k) {
            law_arguments(args[k]);
            assert(settles(args[k]));
        }
    }
    assert(has_kind(args, ArgumentKind::Check) <==> args.contains("-c"@) || args.contains(
        "--check"@,
    )) by {
        if has_kind(args, ArgumentKind::Check) {
            let i = choose|i: int|
                0 <= i < args.len() && argument_kind(#[trigger] args[i]) == ArgumentKind::Check;
            law_arguments(args[i]);
        }
        if args.contains("-c"@) {
            let i = choose|i: int| 0 <= i < args.len() && args[i] == "-c"@;
            law_arguments(args[i]);
            assert(argument_kind(args[i]) == ArgumentKind::Check);
        }
        if args.contains("--check"@) {
            let i = choose|i: int| 0 <= i < args.len() && args[i] == "--check"@;
            law_arguments(args[i]);
            assert(argument_kind(args[i]) == ArgumentKind::Check);
        }
    }
    assert(has_kind(args, ArgumentKind::NoInitTypes) <==> args.contains("--no-init-types"@)) by {
        if has_kind(args, ArgumentKind::NoInitTypes) {
            let i = choose|i: int|
                0 <= i < args.len() && argument_kind(#[trigger] args[i])
                    == ArgumentKind::NoInitTypes;
            law_arguments(args[i]);
        }
        if args.contains("--no-init-types"@) {
            let i = choose|i: int| 0 <= i < args.len() && args[i] == "--no-init-types"@;
            law_arguments(args[i]);
            assert(argument_kind(args[i]) == ArgumentKind::NoInitTypes);
        }
    }
}

/// How the program is used: it takes a file to convert and where to write the
/// definitions, and the options are these.
pub proof fn law_usage()
    ensures
        USAGE@
            == "lad-luau — convert a bevy_mod_scripting LAD file into Luau definitions\n\nUSAGE:\n    lad-luau <input.lad.json> [output.d.luau]\n    lad-luau --check <input.lad.json> <output.d.luau>\n\nARGS:\n    <input.lad.json>    The LAD file to convert.\n    <output.d.luau>     Where to write the definitions; stdout if omitted.\n\nOPTIONS:\n    -c, --check         Do not write. Compare the generated definitions against\n                        <output.d.luau> and exit non-zero if they differ, so CI\n                        can catch committed definitions that have gone stale\n                        relative to the reflection registry.\n        --fflags        Print the luau-lsp analyze flags a full registry needs,\n                        one per line, and exit.\n        --no-init-types Skip the `<Class>Init` construct-payload aliases. Smaller\n                        output and notably faster to analyze; only worth it if\n                        your scripts rarely call `construct`.\n    -h, --help          Print this help.\n    -V, --version       Print the version.\n"@,
{
}

/// Every complaint about the arguments says what is wrong and how the program
/// is used.
pub proof fn law_complaints(option: Seq<char>)
    ensures
        error_text(UsageErrorView::UnknownOption(option)) == "unknown option `"@ + option + "`"@
            + "\n\n"@ + USAGE@,
        error_text(UsageErrorView::MissingInput) == "missing <input.lad.json>"@ + "\n\n"@ + USAGE@,
        error_text(UsageErrorView::TooManyArguments) == "too many arguments"@ + "\n\n"@ + USAGE@,
        error_text(UsageErrorView::MissingOutput)
            == "--check needs an <output.d.luau> to compare against"@ + "\n\n"@ + USAGE@,
{
}

/// A comparison reports that there is nothing, that nothing differs, or that
/// something does. Texts that differ only in how their lines end have no line
/// that differs.
pub proof fn law_comparison(path: Seq<char>, existing: Seq<char>, defs: Seq<char>)
    ensures
        check_report(path, None, defs) == path + " does not exist; run without --check\n"@,
        existing == defs ==> check_report(path, Some(existing), defs) == path
            + " is up to date\n"@,
        existing != defs && lines(existing) == lines(defs) ==> check_report(
            path,
            Some(existing),
            defs,
        ) == path + " is out of date; regenerate it\n"@,
{
    law_first_difference(lines(existing), lines(defs));
    let out = path + " is out of date; regenerate it\n"@;
    assert(out + Seq::<char>::empty() =~= out);
}

/// A comparison reports the number of the first line that differs, counted from
/// one, and the line as it is on either side, or that the text ends before it.
pub proof fn law_first_difference_is_reported(
    path: Seq<char>,
    existing: Seq<char>,
    defs: Seq<char>,
    k: int,
)
    requires
        existing != defs,
        0 <= k,
        forall|j: int|
            0 <= j < k ==> j < lines(existing).len() && j < lines(defs).len() && #[trigger] lines(
                existing,
            )[j] == lines(defs)[j],
        k < lines(existing).len() || k < lines(defs).len(),
        k < lines(existing).len() && k < lines(defs).len() ==> lines(existing)[k] != lines(
            defs,
        )[k],
    ensures
        check_report(path, Some(existing), defs) == path + " is out of date; regenerate it\n"@ + (
        "  first difference at line "@ + decimal((k + 1) as nat) + ":\n    on disk:   "@ + (if k
            < lines(existing).len() {
            lines(existing)[k]
        } else {
            "<end of file>"@
        }) + "\n    generated: "@ + (if k < lines(defs).len() {
            lines(defs)[k]
        } else {
            "<end of file>"@
        }) + "\n"@),
{
    let a = lines(existing);
    let b = lines(defs);
    law_first_difference(a, b);
    if k > 0 {
        assert(a[k - 1] == b[k - 1]);
    }
    assert(a.take(k) =~= b.take(k));
    assert(first_differs(a, b, k));
    let j = choose|j: int| first_differs(a, b, j);
    assert(first_differs(a, b, j));
    assert(j == k);
}

} // verus!
