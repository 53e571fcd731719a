//! From what a caller asked for, on the command line or in a line typed at
//! the prompt, to the operation that is meant and the output that is wanted.

use crate::data::{clock_now, DataStore, Timestamp, Unreadable};
use crate::effects::{effected, stack_history_of, Outcome, StackEffect};
use crate::output::{NoiseLevel, OutputFormat};
use crate::text::{ascii_lowercase, join_from, joined, joined_with, lowercased, same_text};
use vstd::prelude::*;

pub mod interact;

verus! {

/// How many items a short listing shows where no number is given.
pub const DEFAULT_SHORT_LIST_LIMIT: usize = 10;

/// The name of the stack that is meant where none is named.
pub open spec fn default_stack_name() -> Seq<char> {
    "sigi"@
}

/// The output that is wanted where none is asked for.
pub open spec fn default_format() -> OutputFormat {
    OutputFormat::Human(NoiseLevel::Normal)
}

/// A format made for programs to read.
#[derive(Clone, Copy, Debug, PartialEq, Eq, Structural)]
pub enum ProgrammaticFormat {
    Csv,
    Json,
    JsonCompact,
    Tsv,
}

/// The complaint about a format that is not known.
#[derive(Debug, PartialEq, Eq)]
pub struct UnknownFormat {
    pub format: String,
}

impl UnknownFormat {
    /// The complaint in words.
    pub fn message(&self) -> (text: String)
        ensures
            text@ == "Unknown format: "@ + self.format@,
    {
        joined("Unknown format: ", self.format.as_str())
    }
}

impl ProgrammaticFormat {
    /// The format that a word names, whatever the case of its letters.
    pub open spec fn named(word: Seq<char>) -> Option<ProgrammaticFormat> {
        let lower = ascii_lowercase(word);
        if lower == "csv"@ {
            Some(ProgrammaticFormat::Csv)
        } else if lower == "json"@ {
            Some(ProgrammaticFormat::Json)
        } else if lower == "json-compact"@ {
            Some(ProgrammaticFormat::JsonCompact)
        } else if lower == "tsv"@ {
            Some(ProgrammaticFormat::Tsv)
        } else {
            None
        }
    }

    /// Reads the name of a format. An unknown name comes back in lower
    /// case, in the complaint.
    pub fn from_text(format: &str) -> (result: Result<ProgrammaticFormat, UnknownFormat>)
        ensures
            match result {
                Ok(known) => ProgrammaticFormat::named(format@) == Some(known),
                Err(unknown) => ProgrammaticFormat::named(format@) is None && unknown.format@
                    == ascii_lowercase(format@),
            },
    {
        let format = lowercased(format);
        if same_text(format.as_str(), "csv") {
            Ok(ProgrammaticFormat::Csv)
        } else if same_text(format.as_str(), "json") {
            Ok(ProgrammaticFormat::Json)
        } else if same_text(format.as_str(), "json-compact") {
            Ok(ProgrammaticFormat::JsonCompact)
        } else if same_text(format.as_str(), "tsv") {
            Ok(ProgrammaticFormat::Tsv)
        } else {
            Err(UnknownFormat { format })
        }
    }
}

impl std::str::FromStr for ProgrammaticFormat {
    type Err = UnknownFormat;

    fn from_str(format: &str) -> (result: Result<ProgrammaticFormat, UnknownFormat>)
        ensures
            match result {
                Ok(known) => ProgrammaticFormat::named(format@) == Some(known),
                Err(unknown) => ProgrammaticFormat::named(format@) is None && unknown.format@
                    == ascii_lowercase(format@),
            },
    {
        ProgrammaticFormat::from_text(format)
    }
}

/// What a caller said about the output.
#[derive(Clone, Copy, Debug, PartialEq, Eq, Structural)]
pub struct FormatConfig {
    /// Leave out labels and symbols.
    pub quiet: bool,
    /// Leave out all output.
    pub silent: bool,
    /// Say more.
    pub verbose: bool,
    /// Write for a program.
    pub format: Option<ProgrammaticFormat>,
}

impl FormatConfig {
    /// The output that was asked for, if any was: a format for programs
    /// before all else, then verbose before silent before quiet.
    pub open spec fn spec_resolve(self) -> Option<OutputFormat> {
        match self.format {
            Some(ProgrammaticFormat::Csv) => Some(OutputFormat::Csv),
            Some(ProgrammaticFormat::Json) => Some(OutputFormat::Json),
            Some(ProgrammaticFormat::JsonCompact) => Some(OutputFormat::JsonCompact),
            Some(ProgrammaticFormat::Tsv) => Some(OutputFormat::Tsv),
            None => if self.verbose {
                Some(OutputFormat::Human(NoiseLevel::Verbose))
            } else if self.silent {
                Some(OutputFormat::Silent)
            } else if self.quiet {
                Some(OutputFormat::Human(NoiseLevel::Quiet))
            } else {
                None
            },
        }
    }

    /// The output that was asked for, if any was.
    #[verifier::when_used_as_spec(spec_resolve)]
    pub fn resolve(self) -> (format: Option<OutputFormat>)
        ensures
            format == self.spec_resolve(),
    {
        match self.format {
            Some(ProgrammaticFormat::Csv) => Some(OutputFormat::Csv),
            Some(ProgrammaticFormat::Json) => Some(OutputFormat::Json),
            Some(ProgrammaticFormat::JsonCompact) => Some(OutputFormat::JsonCompact),
            Some(ProgrammaticFormat::Tsv) => Some(OutputFormat::Tsv),
            None => if self.verbose {
                Some(OutputFormat::Human(NoiseLevel::Verbose))
            } else if self.silent {
                Some(OutputFormat::Silent)
            } else if self.quiet {
                Some(OutputFormat::Human(NoiseLevel::Quiet))
            } else {
                None
            },
        }
    }

    /// The output for a command: what the command itself asked for, else
    /// what was asked for before the command, else the default.
    pub open spec fn spec_as_fallback(self, fc: FormatConfig) -> OutputFormat {
        match fc.resolve() {
            Some(format) => format,
            None => match self.resolve() {
                Some(format) => format,
                None => default_format(),
            },
        }
    }

    /// The output for a command, with `self` as what was asked for before
    /// the command and `fc` as what the command itself asked for.
    #[verifier::when_used_as_spec(spec_as_fallback)]
    pub fn as_fallback(self, fc: FormatConfig) -> (format: OutputFormat)
        ensures
            format == self.spec_as_fallback(fc),
    {
        match fc.resolve() {
            Some(format) => format,
            None => match self.resolve() {
                Some(format) => format,
                None => OutputFormat::Human(NoiseLevel::Normal),
            },
        }
    }
}

/// What a caller can ask for on the command line, each with what was said
/// about the output behind the command.
#[derive(Debug, PartialEq, Eq)]
pub enum Command {
    /// Move the current item to the history stack and mark it as completed.
    Complete { fc: FormatConfig },
    /// Say how many items the stack has.
    Count { fc: FormatConfig },
    /// Move the current item to the history stack and mark it as deleted.
    Delete { fc: FormatConfig },
    /// Move all items to the history stack and mark them as deleted.
    DeleteAll { fc: FormatConfig },
    /// List the first `n` items.
    Head { n: Option<usize>, fc: FormatConfig },
    /// Say whether the stack has no items.
    IsEmpty { fc: FormatConfig },
    /// List all items.
    List { fc: FormatConfig },
    /// Move the current item to another stack.
    Move { dest: String, fc: FormatConfig },
    /// Move all items to another stack.
    MoveAll { dest: String, fc: FormatConfig },
    /// Go to the next item; the current item becomes the last.
    Next { fc: FormatConfig },
    /// Show the current item.
    Peek { fc: FormatConfig },
    /// Move items to the top of the stack by their number.
    Pick { ns: Vec<usize>, fc: FormatConfig },
    /// Make a new item of the words given.
    Push { content: Vec<String>, fc: FormatConfig },
    /// Turn the three latest items.
    Rot { fc: FormatConfig },
    /// Exchange the two latest items.
    Swap { fc: FormatConfig },
    /// List the last `n` items.
    Tail { n: Option<usize>, fc: FormatConfig },
}

impl Command {
    /// What was said about the output behind the command.
    pub open spec fn spec_fc(&self) -> FormatConfig {
        match *self {
            Command::Complete { fc } => fc,
            Command::Count { fc } => fc,
            Command::Delete { fc } => fc,
            Command::DeleteAll { fc } => fc,
            Command::Head { n, fc } => fc,
            Command::IsEmpty { fc } => fc,
            Command::List { fc } => fc,
            Command::Move { dest, fc } => fc,
            Command::MoveAll { dest, fc } => fc,
            Command::Next { fc } => fc,
            Command::Peek { fc } => fc,
            Command::Pick { ns, fc } => fc,
            Command::Push { content, fc } => fc,
            Command::Rot { fc } => fc,
            Command::Swap { fc } => fc,
            Command::Tail { n, fc } => fc,
        }
    }

    /// What was said about the output behind the command.
    #[verifier::when_used_as_spec(spec_fc)]
    pub fn fc(&self) -> (fc: FormatConfig)
        ensures
            fc == self.spec_fc(),
    {
        match self {
            Command::Complete { fc } => *fc,
            Command::Count { fc } => *fc,
            Command::Delete { fc } => *fc,
            Command::DeleteAll { fc } => *fc,
            Command::Head { n: _, fc } => *fc,
            Command::IsEmpty { fc } => *fc,
            Command::List { fc } => *fc,
            Command::Move { dest: _, fc } => *fc,
            Command::MoveAll { dest: _, fc } => *fc,
            Command::Next { fc } => *fc,
            Command::Peek { fc } => *fc,
            Command::Pick { ns: _, fc } => *fc,
            Command::Push { content: _, fc } => *fc,
            Command::Rot { fc } => *fc,
            Command::Swap { fc } => *fc,
            Command::Tail { n: _, fc } => *fc,
        }
    }
}

/// How many items a short listing shows.
pub open spec fn short_list_limit(n: Option<usize>) -> usize {
    match n {
        Some(n) => n,
        None => DEFAULT_SHORT_LIST_LIMIT,
    }
}

/// What a command line asks for.
#[derive(Debug, PartialEq, Eq)]
pub struct Cli {
    /// What was said about the output before the command.
    pub fc: FormatConfig,
    /// The stack that is meant.
    pub stack: Option<String>,
    pub command: Option<Command>,
}

impl Cli {
    /// The name of the stack that is meant.
    pub open spec fn stack_name(&self) -> Seq<char> {
        match self.stack {
            Some(stack) => stack@,
            None => default_stack_name(),
        }
    }

    /// The output that is wanted.
    pub open spec fn format(&self) -> OutputFormat {
        match self.command {
            Some(command) => self.fc.as_fallback(command.fc()),
            None => match self.fc.resolve() {
                Some(format) => format,
                None => default_format(),
            },
        }
    }

    /// Whether `effect` is the operation that is meant: a peek where there
    /// is no command, and else the operation that the command names, on the
    /// stack that is meant. Completing and deleting are about the current
    /// item, a short listing without a number shows ten items, and the
    /// words of a push make one text, with a space between each two.
    pub open spec fn means(&self, effect: StackEffect) -> bool {
        let name = self.stack_name();
        match self.command {
            None => effect matches StackEffect::Peek { stack } && stack@ == name,
            Some(Command::Complete { fc }) => effect matches StackEffect::Complete { stack, index }
                && stack@ == name && index == 0,
            Some(Command::Count { fc }) => effect matches StackEffect::Count { stack } && stack@
                == name,
            Some(Command::Delete { fc }) => effect matches StackEffect::Delete { stack, index }
                && stack@ == name && index == 0,
            Some(Command::DeleteAll { fc }) => effect matches StackEffect::DeleteAll { stack }
                && stack@ == name,
            Some(Command::Head { n, fc }) => effect matches StackEffect::Head { stack, n: limit }
                && stack@ == name && limit == short_list_limit(n),
            Some(Command::IsEmpty { fc }) => effect matches StackEffect::IsEmpty { stack }
                && stack@ == name,
            Some(Command::List { fc }) => effect matches StackEffect::ListAll { stack } && stack@
                == name,
            Some(Command::Move { dest, fc }) => effect matches StackEffect::Move {
                stack,
                dest: to,
            } && stack@ == name && to@ == dest@,
            Some(Command::MoveAll { dest, fc }) => effect matches StackEffect::MoveAll {
                stack,
                dest: to,
            } && stack@ == name && to@ == dest@,
            Some(Command::Next { fc }) => effect matches StackEffect::Next { stack } && stack@
                == name,
            Some(Command::Peek { fc }) => effect matches StackEffect::Peek { stack } && stack@
                == name,
            Some(Command::Pick { ns, fc }) => effect matches StackEffect::Pick { stack, indices }
                && stack@ == name && indices@ == ns@,
            Some(Command::Push { content, fc }) => effect matches StackEffect::Push {
                stack,
                content: text,
            } && stack@ == name && text@ == joined_with(content.deep_view(), " "@),
            Some(Command::Rot { fc }) => effect matches StackEffect::Rot { stack } && stack@
                == name,
            Some(Command::Swap { fc }) => effect matches StackEffect::Swap { stack } && stack@
                == name,
            Some(Command::Tail { n, fc }) => effect matches StackEffect::Tail { stack, n: limit }
                && stack@ == name && limit == short_list_limit(n),
        }
    }

    /// What the operation that is meant needs to find in the store: the
    /// stacks that it loads or saves.
    pub fn reach(&self) -> (names: Vec<String>)
        ensures
            forall|effect: StackEffect| self.means(effect) ==> names.deep_view() == effect.touched(),
    {
        let stack = match &self.stack {
            Some(stack) => stack.clone(),
            None => "sigi".to_owned(),
        };
        let names = match &self.command {
            Some(Command::Complete { fc: _ }) | Some(Command::Delete { fc: _ }) | Some(
                Command::DeleteAll { fc: _ },
            ) => {
                let history = stack_history_of(stack.as_str());
                vec![stack, history]
            },
            Some(Command::Move { dest, fc: _ }) | Some(Command::MoveAll { dest, fc: _ }) => {
                vec![stack, dest.clone()]
            },
            _ => vec![stack],
        };
        assert forall|effect: StackEffect| self.means(effect) implies names.deep_view()
            == effect.touched() by {
            assert(names.deep_view() =~= effect.touched());
        }
        names
    }

    /// The operation that is meant, and the output that is wanted.
    pub fn plan(self) -> (planned: (StackEffect, OutputFormat))
        ensures
            self.means(planned.0),
            planned.1 == self.format(),
    {
        let stack = match self.stack {
            Some(stack) => stack,
            None => "sigi".to_owned(),
        };
        let command = match self.command {
            Some(command) => command,
            None => {
                let format = match self.fc.resolve() {
                    Some(format) => format,
                    None => OutputFormat::Human(NoiseLevel::Normal),
                };
                return (StackEffect::Peek { stack }, format);
            },
        };
        let format = self.fc.as_fallback(command.fc());
        let effect = match command {
            Command::Complete { fc: _ } => StackEffect::Complete { stack, index: 0 },
            Command::Count { fc: _ } => StackEffect::Count { stack },
            Command::Delete { fc: _ } => StackEffect::Delete { stack, index: 0 },
            Command::DeleteAll { fc: _ } => StackEffect::DeleteAll { stack },
            Command::Head { n, fc: _ } => StackEffect::Head {
                stack,
                n: match n {
                    Some(n) => n,
                    None => DEFAULT_SHORT_LIST_LIMIT,
                },
            },
            Command::IsEmpty { fc: _ } => StackEffect::IsEmpty { stack },
            Command::List { fc: _ } => StackEffect::ListAll { stack },
            Command::Move { dest, fc: _ } => StackEffect::Move { stack, dest },
            Command::MoveAll { dest, fc: _ } => StackEffect::MoveAll { stack, dest },
            Command::Next { fc: _ } => StackEffect::Next { stack },
            Command::Peek { fc: _ } => StackEffect::Peek { stack },
            Command::Pick { ns, fc: _ } => StackEffect::Pick { stack, indices: ns },
            Command::Push { content, fc: _ } => {
                let text = join_from(&content, 0, " ");
                assert(content.deep_view().subrange(0, content@.len() as int)
                    =~= content.deep_view());
                StackEffect::Push { stack, content: text }
            },
            Command::Rot { fc: _ } => StackEffect::Rot { stack },
            Command::Swap { fc: _ } => StackEffect::Swap { stack },
            Command::Tail { n, fc: _ } => StackEffect::Tail {
                stack,
                n: match n {
                    Some(n) => n,
                    None => DEFAULT_SHORT_LIST_LIMIT,
                },
            },
        };
        (effect, format)
    }
}

/// Whether running what the command line asks for on `store` comes to
/// `after`, for some moment that the clock may have shown.
pub open spec fn runs_to(
    args: Cli,
    store: crate::data::StoreView,
    after: crate::effects::Effected,
) -> bool {
    exists|effect: StackEffect, now: Timestamp|
        args.means(effect) && effect.runs_to(store, args.format(), now, after)
}

/// Runs what a command line asks for, on a store that holds what the
/// operation needs to find, and says with it for which output the reports
/// are meant.
pub fn run(args: Cli, data_store: &mut DataStore) -> (done: (
    OutputFormat,
    Result<Outcome, Unreadable>,
))
    ensures
        done.0 == args.format(),
        runs_to(args, old(data_store)@, effected(final(data_store)@, done.1)),
{
    let (effect, format) = args.plan();
    let now = clock_now();
    let result = effect.run_at(now, data_store, &format);
    assert(args.means(effect) && effect.runs_to(
        old(data_store)@,
        args.format(),
        now,
        effected(data_store@, result),
    ));
    (format, result)
}

} // verus!
