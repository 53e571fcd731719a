//! Lines typed at the prompt: which operation a line asks for.

use crate::cli::DEFAULT_SHORT_LIST_LIMIT;
use crate::effects::StackEffect;
use crate::output::{Report, ReportView};
use crate::text::{
    ascii_lowercase, join_from, joined_with, lowercased, parse_number, same_text, words, words_of,
    written_number,
};
use vstd::prelude::*;

verus! {

/// The words that complete an item.
pub open spec fn complete_terms() -> Seq<Seq<char>> {
    seq!["complete"@, "done"@, "finish"@, "fulfill"@]
}

fn complete_words() -> (terms: Vec<&'static str>)
    ensures
        terms.deep_view() == complete_terms(),
{
    let terms = vec!["complete", "done", "finish", "fulfill"];
    assert(terms.deep_view() =~= complete_terms());
    terms
}

/// The words that count the items.
pub open spec fn count_terms() -> Seq<Seq<char>> {
    seq!["count"@, "size"@, "length"@]
}

fn count_words() -> (terms: Vec<&'static str>)
    ensures
        terms.deep_view() == count_terms(),
{
    let terms = vec!["count", "size", "length"];
    assert(terms.deep_view() =~= count_terms());
    terms
}

/// The words that delete an item.
pub open spec fn delete_terms() -> Seq<Seq<char>> {
    seq!["delete"@, "pop"@, "remove"@, "cancel"@, "drop"@]
}

fn delete_words() -> (terms: Vec<&'static str>)
    ensures
        terms.deep_view() == delete_terms(),
{
    let terms = vec!["delete", "pop", "remove", "cancel", "drop"];
    assert(terms.deep_view() =~= delete_terms());
    terms
}

/// The words that delete all items.
pub open spec fn delete_all_terms() -> Seq<Seq<char>> {
    seq!["delete-all"@, "purge"@, "pop-all"@, "remove-all"@, "cancel-all"@, "drop-all"@]
}

fn delete_all_words() -> (terms: Vec<&'static str>)
    ensures
        terms.deep_view() == delete_all_terms(),
{
    let terms = vec!["delete-all", "purge", "pop-all", "remove-all", "cancel-all", "drop-all"];
    assert(terms.deep_view() =~= delete_all_terms());
    terms
}

/// The words that list the first items.
pub open spec fn head_terms() -> Seq<Seq<char>> {
    seq!["head"@, "top"@, "first"@]
}

fn head_words() -> (terms: Vec<&'static str>)
    ensures
        terms.deep_view() == head_terms(),
{
    let terms = vec!["head", "top", "first"];
    assert(terms.deep_view() =~= head_terms());
    terms
}

/// The words that ask whether the stack is empty.
pub open spec fn is_empty_terms() -> Seq<Seq<char>> {
    seq!["is-empty"@, "empty"@]
}

fn is_empty_words() -> (terms: Vec<&'static str>)
    ensures
        terms.deep_view() == is_empty_terms(),
{
    let terms = vec!["is-empty", "empty"];
    assert(terms.deep_view() =~= is_empty_terms());
    terms
}

/// The words that list all items.
pub open spec fn list_terms() -> Seq<Seq<char>> {
    seq!["list"@, "ls"@, "snoop"@, "show"@, "all"@]
}

fn list_words() -> (terms: Vec<&'static str>)
    ensures
        terms.deep_view() == list_terms(),
{
    let terms = vec!["list", "ls", "snoop", "show", "all"];
    assert(terms.deep_view() =~= list_terms());
    terms
}

/// The words that list the stacks.
pub open spec fn list_stacks_terms() -> Seq<Seq<char>> {
    seq!["list-stacks"@, "stacks"@]
}

fn list_stacks_words() -> (terms: Vec<&'static str>)
    ensures
        terms.deep_view() == list_stacks_terms(),
{
    let terms = vec!["list-stacks", "stacks"];
    assert(terms.deep_view() =~= list_stacks_terms());
    terms
}

/// The words that move an item to another stack.
pub open spec fn move_terms() -> Seq<Seq<char>> {
    seq!["move"@]
}

fn move_words() -> (terms: Vec<&'static str>)
    ensures
        terms.deep_view() == move_terms(),
{
    let terms = vec!["move"];
    assert(terms.deep_view() =~= move_terms());
    terms
}

/// The words that move all items to another stack.
pub open spec fn move_all_terms() -> Seq<Seq<char>> {
    seq!["move-all"@]
}

fn move_all_words() -> (terms: Vec<&'static str>)
    ensures
        terms.deep_view() == move_all_terms(),
{
    let terms = vec!["move-all"];
    assert(terms.deep_view() =~= move_all_terms());
    terms
}

/// The words that go to the next item.
pub open spec fn next_terms() -> Seq<Seq<char>> {
    seq!["next"@, "later"@, "cycle"@, "bury"@]
}

fn next_words() -> (terms: Vec<&'static str>)
    ensures
        terms.deep_view() == next_terms(),
{
    let terms = vec!["next", "later", "cycle", "bury"];
    assert(terms.deep_view() =~= next_terms());
    terms
}

/// The words that show the current item.
pub open spec fn peek_terms() -> Seq<Seq<char>> {
    seq!["peek"@, "show"@]
}

fn peek_words() -> (terms: Vec<&'static str>)
    ensures
        terms.deep_view() == peek_terms(),
{
    let terms = vec!["peek", "show"];
    assert(terms.deep_view() =~= peek_terms());
    terms
}

/// The words that pick items.
pub open spec fn pick_terms() -> Seq<Seq<char>> {
    seq!["pick"@]
}

fn pick_words() -> (terms: Vec<&'static str>)
    ensures
        terms.deep_view() == pick_terms(),
{
    let terms = vec!["pick"];
    assert(terms.deep_view() =~= pick_terms());
    terms
}

/// The words that push an item.
pub open spec fn push_terms() -> Seq<Seq<char>> {
    seq!["push"@, "create"@, "add"@, "do"@, "start"@, "new"@]
}

fn push_words() -> (terms: Vec<&'static str>)
    ensures
        terms.deep_view() == push_terms(),
{
    let terms = vec!["push", "create", "add", "do", "start", "new"];
    assert(terms.deep_view() =~= push_terms());
    terms
}

/// The words that turn the three latest items.
pub open spec fn rot_terms() -> Seq<Seq<char>> {
    seq!["rot"@, "rotate"@]
}

fn rot_words() -> (terms: Vec<&'static str>)
    ensures
        terms.deep_view() == rot_terms(),
{
    let terms = vec!["rot", "rotate"];
    assert(terms.deep_view() =~= rot_terms());
    terms
}

/// The words that exchange the two latest items.
pub open spec fn swap_terms() -> Seq<Seq<char>> {
    seq!["swap"@]
}

fn swap_words() -> (terms: Vec<&'static str>)
    ensures
        terms.deep_view() == swap_terms(),
{
    let terms = vec!["swap"];
    assert(terms.deep_view() =~= swap_terms());
    terms
}

/// The words that list the oldest items.
pub open spec fn tail_terms() -> Seq<Seq<char>> {
    seq!["tail"@, "bottom"@, "last"@]
}

fn tail_words() -> (terms: Vec<&'static str>)
    ensures
        terms.deep_view() == tail_terms(),
{
    let terms = vec!["tail", "bottom", "last"];
    assert(terms.deep_view() =~= tail_terms());
    terms
}

fn is_one_of(term: &str, terms: Vec<&'static str>) -> (found: bool)
    ensures
        found == terms.deep_view().contains(term@),
{
    let mut i: usize = 0;
    while i < terms.len()
        invariant
            i <= terms@.len(),
            forall|j: int| 0 <= j < i ==> terms.deep_view()[j] != term@,
        decreases terms.len() - i,
    {
        if same_text(terms[i], term) {
            assert(terms.deep_view()[i as int] == term@);
            return true;
        }
        i += 1;
    }
    false
}

/// The number that the second word writes, and ten where there is no
/// second word or it writes none.
pub open spec fn listing_limit(tokens: Seq<Seq<char>>) -> usize {
    if tokens.len() > 1 && written_number(tokens[1]) is Some {
        written_number(tokens[1])->0
    } else {
        DEFAULT_SHORT_LIST_LIMIT
    }
}

/// The numbers that the words write, in their order; a word that writes no
/// number is passed over.
pub open spec fn numbers_in(tokens: Seq<Seq<char>>) -> Seq<usize>
    decreases tokens.len(),
{
    if tokens.len() == 0 {
        Seq::empty()
    } else if written_number(tokens.last()) is Some {
        numbers_in(tokens.drop_last()).push(written_number(tokens.last())->0)
    } else {
        numbers_in(tokens.drop_last())
    }
}

/// What the words of a line come to.
#[derive(Debug, PartialEq, Eq)]
pub enum Parsed {
    /// An operation.
    Effect(StackEffect),
    /// A move that does not say where to.
    NoDestination,
    /// Nothing: the first word names no operation.
    NoSuchTerm,
}

/// Whether the words of a line, about the stack `stack`, come to `parsed`.
/// The first word decides, as it is written; where a word stands for two
/// operations, the one that is tried first wins. Completing and deleting
/// are about the current item.
pub open spec fn parses_to(tokens: Seq<Seq<char>>, stack: Seq<char>, parsed: Parsed) -> bool {
    let term = if tokens.len() > 0 {
        tokens[0]
    } else {
        Seq::empty()
    };
    if complete_terms().contains(term) {
        parsed matches Parsed::Effect(StackEffect::Complete { stack: s, index }) && s@ == stack
            && index == 0
    } else if count_terms().contains(term) {
        parsed matches Parsed::Effect(StackEffect::Count { stack: s }) && s@ == stack
    } else if delete_terms().contains(term) {
        parsed matches Parsed::Effect(StackEffect::Delete { stack: s, index }) && s@ == stack
            && index == 0
    } else if delete_all_terms().contains(term) {
        parsed matches Parsed::Effect(StackEffect::DeleteAll { stack: s }) && s@ == stack
    } else if head_terms().contains(term) {
        parsed matches Parsed::Effect(StackEffect::Head { stack: s, n }) && s@ == stack && n
            == listing_limit(tokens)
    } else if is_empty_terms().contains(term) {
        parsed matches Parsed::Effect(StackEffect::IsEmpty { stack: s }) && s@ == stack
    } else if list_terms().contains(term) {
        parsed matches Parsed::Effect(StackEffect::ListAll { stack: s }) && s@ == stack
    } else if list_stacks_terms().contains(term) {
        parsed == Parsed::Effect(StackEffect::ListStacks)
    } else if move_terms().contains(term) {
        if tokens.len() > 1 {
            parsed matches Parsed::Effect(StackEffect::Move { stack: s, dest }) && s@ == stack
                && dest@ == tokens[1]
        } else {
            parsed == Parsed::NoDestination
        }
    } else if move_all_terms().contains(term) {
        if tokens.len() > 1 {
            parsed matches Parsed::Effect(StackEffect::MoveAll { stack: s, dest }) && s@ == stack
                && dest@ == tokens[1]
        } else {
            parsed == Parsed::NoDestination
        }
    } else if next_terms().contains(term) {
        parsed matches Parsed::Effect(StackEffect::Next { stack: s }) && s@ == stack
    } else if peek_terms().contains(term) {
        parsed matches Parsed::Effect(StackEffect::Peek { stack: s }) && s@ == stack
    } else if pick_terms().contains(term) {
        parsed matches Parsed::Effect(StackEffect::Pick { stack: s, indices }) && s@ == stack
            && indices@ == numbers_in(tokens)
    } else if push_terms().contains(term) {
        parsed matches Parsed::Effect(StackEffect::Push { stack: s, content }) && s@ == stack
            && content@ == joined_with(tokens.subrange(1, tokens.len() as int), " "@)
    } else if rot_terms().contains(term) {
        parsed matches Parsed::Effect(StackEffect::Rot { stack: s }) && s@ == stack
    } else if swap_terms().contains(term) {
        parsed matches Parsed::Effect(StackEffect::Swap { stack: s }) && s@ == stack
    } else if tail_terms().contains(term) {
        parsed matches Parsed::Effect(StackEffect::Tail { stack: s, n }) && s@ == stack && n
            == listing_limit(tokens)
    } else {
        parsed == Parsed::NoSuchTerm
    }
}

fn limit_of(tokens: &Vec<String>) -> (n: usize)
    ensures
        n == listing_limit(tokens.deep_view()),
{
    if tokens.len() > 1 {
        assert(tokens.deep_view()[1] == tokens@[1]@);
        match parse_number(tokens[1].as_str()) {
            Some(n) => n,
            None => DEFAULT_SHORT_LIST_LIMIT,
        }
    } else {
        DEFAULT_SHORT_LIST_LIMIT
    }
}

fn numbers_of(tokens: &Vec<String>) -> (numbers: Vec<usize>)
    ensures
        numbers@ == numbers_in(tokens.deep_view()),
{
    let ghost all = tokens.deep_view();
    let mut numbers: Vec<usize> = Vec::new();
    let mut i: usize = 0;
    assert(all.subrange(0, 0) =~= Seq::<Seq<char>>::empty());
    while i < tokens.len()
        invariant
            i <= tokens@.len(),
            all == tokens.deep_view(),
            numbers@ == numbers_in(all.subrange(0, i as int)),
        decreases tokens.len() - i,
    {
        assert(all.subrange(0, i + 1).drop_last() =~= all.subrange(0, i as int));
        assert(all.subrange(0, i + 1).last() == tokens@[i as int]@);
        match parse_number(tokens[i].as_str()) {
            Some(n) => numbers.push(n),
            None => {},
        }
        i += 1;
    }
    assert(all.subrange(0, i as int) =~= all);
    numbers
}

/// Tells from the words of a line which operation is asked for.
pub fn parse_effect(tokens: &Vec<String>, stack: &str) -> (parsed: Parsed)
    ensures
        parses_to(tokens.deep_view(), stack@, parsed),
{
    let term: &str = if tokens.len() > 0 {
        assert(tokens.deep_view()[0] == tokens@[0]@);
        tokens[0].as_str()
    } else {
        ""
    };
    proof {
        reveal_strlit("");
        assert(""@ =~= Seq::<char>::empty());
    }
    let stack = stack.to_owned();
    if is_one_of(term, complete_words()) {
        return Parsed::Effect(StackEffect::Complete { stack, index: 0 });
    }
    if is_one_of(term, count_words()) {
        return Parsed::Effect(StackEffect::Count { stack });
    }
    if is_one_of(term, delete_words()) {
        return Parsed::Effect(StackEffect::Delete { stack, index: 0 });
    }
    if is_one_of(term, delete_all_words()) {
        return Parsed::Effect(StackEffect::DeleteAll { stack });
    }
    if is_one_of(term, head_words()) {
        let n = limit_of(tokens);
        return Parsed::Effect(StackEffect::Head { stack, n });
    }
    if is_one_of(term, is_empty_words()) {
        return Parsed::Effect(StackEffect::IsEmpty { stack });
    }
    if is_one_of(term, list_words()) {
        return Parsed::Effect(StackEffect::ListAll { stack });
    }
    if is_one_of(term, list_stacks_words()) {
        return Parsed::Effect(StackEffect::ListStacks);
    }
    if is_one_of(term, move_words()) {
        if tokens.len() > 1 {
            assert(tokens.deep_view()[1] == tokens@[1]@);
            let dest = tokens[1].clone();
            return Parsed::Effect(StackEffect::Move { stack, dest });
        }
        return Parsed::NoDestination;
    }
    if is_one_of(term, move_all_words()) {
        if tokens.len() > 1 {
            assert(tokens.deep_view()[1] == tokens@[1]@);
            let dest = tokens[1].clone();
            return Parsed::Effect(StackEffect::MoveAll { stack, dest });
        }
        return Parsed::NoDestination;
    }
    if is_one_of(term, next_words()) {
        return Parsed::Effect(StackEffect::Next { stack });
    }
    if is_one_of(term, peek_words()) {
        return Parsed::Effect(StackEffect::Peek { stack });
    }
    if is_one_of(term, pick_words()) {
        let indices = numbers_of(tokens);
        return Parsed::Effect(StackEffect::Pick { stack, indices });
    }
    if is_one_of(term, push_words()) {
        let content = join_from(tokens, 1, " ");
        assert(tokens@.len() >= 1) by {
            if tokens@.len() == 0 {
                reveal_strlit("push");
                reveal_strlit("create");
                reveal_strlit("add");
                reveal_strlit("do");
                reveal_strlit("start");
                reveal_strlit("new");
                assert(term@.len() == 0);
                let k = choose|k: int| 0 <= k < push_terms().len() && push_terms()[k] == term@;
                assert(push_terms()[k].len() > 0);
            }
        }
        return Parsed::Effect(StackEffect::Push { stack, content });
    }
    if is_one_of(term, rot_words()) {
        return Parsed::Effect(StackEffect::Rot { stack });
    }
    if is_one_of(term, swap_words()) {
        return Parsed::Effect(StackEffect::Swap { stack });
    }
    if is_one_of(term, tail_words()) {
        let n = limit_of(tokens);
        return Parsed::Effect(StackEffect::Tail { stack, n });
    }
    Parsed::NoSuchTerm
}

/// What came of reading a line at the prompt.
#[derive(Debug, PartialEq, Eq)]
pub enum LineRead {
    /// A line, as it was typed.
    Line(String),
    /// The reader was interrupted.
    Interrupted,
    /// The input has ended.
    Eof,
    /// Reading failed, for the reason given.
    Failed(String),
}

/// What a line at the prompt asks for.
#[derive(Debug, PartialEq, Eq)]
pub enum ParseResult {
    ShortHelp,
    LongHelp,
    DoEffect(StackEffect),
    NoContent,
    /// To leave, for the reason given.
    Exit(String),
    /// Nothing: reading failed, for the reason given.
    Error(String),
    /// Nothing that is known: the first word, in lower case.
    Unknown(String),
    /// A move that does not say where to: the first word, in lower case.
    NoDestination(String),
}

/// Whether what was read at the prompt, about the stack `stack`, asks for
/// `result`. A line is taken by its words. The first word, in lower case,
/// may ask for help or to leave; else the words are read as an operation.
pub open spec fn reads_as(line: LineRead, stack: Seq<char>, result: ParseResult) -> bool {
    match line {
        LineRead::Interrupted => result matches ParseResult::Exit(reason) && reason@ == "CTRL-C"@,
        LineRead::Eof => result matches ParseResult::Exit(reason) && reason@ == "CTRL-D"@,
        LineRead::Failed(why) => result matches ParseResult::Error(reason) && reason@ == why@,
        LineRead::Line(text) => {
            let tokens = words(text@, true);
            let term = ascii_lowercase(tokens[0]);
            if tokens.len() == 0 {
                result == ParseResult::NoContent
            } else if term == "?"@ {
                result == ParseResult::ShortHelp
            } else if term == "help"@ {
                result == ParseResult::LongHelp
            } else if term == "exit"@ || term == "quit"@ || term == "q"@ {
                result matches ParseResult::Exit(reason) && reason@ == term
            } else {
                match result {
                    ParseResult::DoEffect(effect) => parses_to(
                        tokens,
                        stack,
                        Parsed::Effect(effect),
                    ),
                    ParseResult::NoDestination(word) => word@ == term && parses_to(
                        tokens,
                        stack,
                        Parsed::NoDestination,
                    ),
                    ParseResult::Unknown(word) => word@ == term && parses_to(
                        tokens,
                        stack,
                        Parsed::NoSuchTerm,
                    ),
                    _ => false,
                }
            }
        },
    }
}

/// Tells what was read at the prompt asks for.
pub fn parse_line(line: LineRead, stack: &str) -> (result: ParseResult)
    ensures
        reads_as(line, stack@, result),
{
    let line = match line {
        LineRead::Interrupted => {
            return ParseResult::Exit("CTRL-C".to_owned());
        },
        LineRead::Eof => {
            return ParseResult::Exit("CTRL-D".to_owned());
        },
        LineRead::Failed(why) => {
            return ParseResult::Error(why);
        },
        LineRead::Line(text) => text,
    };
    let tokens = words_of(line.as_str(), true);
    if tokens.len() == 0 {
        return ParseResult::NoContent;
    }
    assert(tokens.deep_view()[0] == tokens@[0]@);
    let term = lowercased(tokens[0].as_str());
    if same_text(term.as_str(), "?") {
        ParseResult::ShortHelp
    } else if same_text(term.as_str(), "help") {
        ParseResult::LongHelp
    } else if same_text(term.as_str(), "exit") || same_text(term.as_str(), "quit") || same_text(
        term.as_str(),
        "q",
    ) {
        ParseResult::Exit(term)
    } else {
        match parse_effect(&tokens, stack) {
            Parsed::Effect(effect) => ParseResult::DoEffect(effect),
            Parsed::NoDestination => ParseResult::NoDestination(term),
            Parsed::NoSuchTerm => ParseResult::Unknown(term),
        }
    }
}

/// The farewell, with the reason for leaving.
pub fn print_goodbye_msg(reason: &str) -> (report: Report)
    ensures
        report@ == ReportView::log(
            seq!["exit-reason"@, "exit-message"@],
            seq![seq![reason@, "Buen bi\u{e5}he!"@]],
        ),
{
    let labels = vec!["exit-reason", "exit-message"];
    assert(labels.deep_view() =~= seq!["exit-reason"@, "exit-message"@]);
    let row = vec![reason, "Buen bi\u{e5}he!"];
    assert(row.deep_view() =~= seq![reason@, "Buen bi\u{e5}he!"@]);
    let rows = vec![row];
    assert(rows.deep_view() =~= seq![seq![reason@, "Buen bi\u{e5}he!"@]]);
    Report::log(labels, rows)
}

/// The complaint about a move that does not say where to.
pub fn missing_destination() -> (report: Report)
    ensures
        report@ == ReportView::log(
            seq!["error"@],
            seq![seq!["No destination stack was provided"@]],
        ),
{
    let labels = vec!["error"];
    assert(labels.deep_view() =~= seq!["error"@]);
    let row = vec!["No destination stack was provided"];
    assert(row.deep_view() =~= seq!["No destination stack was provided"@]);
    let rows = vec![row];
    assert(rows.deep_view() =~= seq![seq!["No destination stack was provided"@]]);
    Report::log(labels, rows)
}

/// The complaint about a word that names nothing, for a reader that is not
/// human.
pub fn unknown_term(term: &str) -> (report: Report)
    ensures
        report@ == ReportView::log(seq!["term"@, "error"@], seq![seq![term@, "unknown term"@]]),
{
    let labels = vec!["term", "error"];
    assert(labels.deep_view() =~= seq!["term"@, "error"@]);
    let row = vec![term, "unknown term"];
    assert(row.deep_view() =~= seq![term@, "unknown term"@]);
    let rows = vec![row];
    assert(rows.deep_view() =~= seq![seq![term@, "unknown term"@]]);
    Report::log(labels, rows)
}

/// The report on a failure to read a line: the word `Error` in one row, the
/// reason in the next.
pub fn read_failure(reason: &str) -> (report: Report)
    ensures
        report@ == ReportView::log(
            seq!["exit-message"@, "exit-reason"@],
            seq![seq!["Error"@], seq![reason@]],
        ),
{
    let labels = vec!["exit-message", "exit-reason"];
    assert(labels.deep_view() =~= seq!["exit-message"@, "exit-reason"@]);
    let first = vec!["Error"];
    assert(first.deep_view() =~= seq!["Error"@]);
    let second = vec![reason];
    assert(second.deep_view() =~= seq![reason@]);
    let rows = vec![first, second];
    assert(rows.deep_view() =~= seq![seq!["Error"@], seq![reason@]]);
    Report::log(labels, rows)
}

} // verus!
