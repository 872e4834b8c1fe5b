//! What the values that callers hold stand for in specifications.

use vstd::prelude::*;

use crate::cli::{Command, CommandView, Job, outcome, UsageError, UsageErrorView};
use crate::converter::option_int;
use crate::lad::LadTypeId;
use crate::order::{at_positions, ints, key_texts};
use crate::overloads::Place;
use crate::signature::treatment;
use crate::text::{option_text, option_texts, texts};
use crate::types::option_list;

verus! {

/// Strings stand for their characters, one by one and in lists.
pub proof fn law_texts(
    list: Seq<String>,
    options: Seq<Option<String>>,
    pairs: Seq<(String, String)>,
)
    ensures
        texts(list).len() == list.len(),
        forall|k: int| 0 <= k < list.len() ==> #[trigger] texts(list)[k] == list[k]@,
        option_texts(options).len() == options.len(),
        forall|k: int|
            0 <= k < options.len() ==> #[trigger] option_texts(options)[k] == match options[k] {
                Some(text) => Some(text@),
                None => None,
            },
        key_texts(pairs).len() == pairs.len(),
        forall|k: int|
            0 <= k < pairs.len() ==> #[trigger] key_texts(pairs)[k] == (pairs[k].0@, pairs[k].1@),
{
}

/// An optional string stands for its characters, and an optional list for those
/// of its strings.
pub proof fn law_optional_texts(text: String, list: Vec<String>)
    ensures
        option_text(None) == None::<Seq<char>>,
        option_text(Some(text)) == Some(text@),
        option_list(None) == None::<Seq<Seq<char>>>,
        option_list(Some(list)) matches Some(held) && held.len() == list@.len() && forall|k: int|
            0 <= k < held.len() ==> #[trigger] held[k] == list@[k]@,
{
}

/// Positions stand for themselves.
pub proof fn law_positions(list: Seq<usize>, at: usize, brand: String)
    ensures
        ints(list).len() == list.len(),
        forall|k: int| 0 <= k < list.len() ==> #[trigger] ints(list)[k] == list[k],
        option_int(None) == None::<int>,
        option_int(Some(at)) == Some(at as int),
        treatment(None) == None::<(int, Seq<char>)>,
        treatment(Some((at, brand))) == Some((at as int, brand@)),
{
}

/// What stands at positions is picked one by one.
pub proof fn law_picked(list: Seq<Seq<char>>, positions: Seq<int>)
    ensures
        at_positions(list, positions).len() == positions.len(),
        forall|k: int|
            0 <= k < positions.len() ==> #[trigger] at_positions(list, positions)[k]
                == list[positions[k]],
{
}

/// A command, a job and a complaint stand for what they hold.
pub proof fn law_commands(job: Job, option: String)
    ensures
        Command::Help@ == CommandView::Help,
        Command::Version@ == CommandView::Version,
        Command::Fflags@ == CommandView::Fflags,
        Command::Convert(job)@ == CommandView::Convert(job@),
        job@.input == job.input@,
        job@.output == match job.output {
            Some(path) => Some(path@),
            None => None,
        },
        job@.check == job.check,
        job@.init_types == job.options.init_types,
        UsageError::UnknownOption(option)@ == UsageErrorView::UnknownOption(option@),
        UsageError::MissingInput@ == UsageErrorView::MissingInput,
        UsageError::TooManyArguments@ == UsageErrorView::TooManyArguments,
        UsageError::MissingOutput@ == UsageErrorView::MissingOutput,
{
}

/// What comes of reading the arguments stands for the command or the complaint.
pub proof fn law_outcomes(command: Command, error: UsageError)
    ensures
        outcome(Ok(command)) == Ok::<CommandView, UsageErrorView>(command@),
        outcome(Err(error)) == Err::<CommandView, UsageErrorView>(error@),
{
}

/// An id stands for its characters, and a place for the name of its class and
/// whether that is the base class.
pub proof fn law_ids_and_places(id: LadTypeId, place: Place)
    ensures
        id@ == id.0@,
        place@.is_base == place.is_base,
        place@.owner == match place.owner {
            Some(name) => Some(name@),
            None => None,
        },
{
}

} // verus!
