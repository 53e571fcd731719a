//! The operations on stacks. Each loads what it needs from the store, changes
//! it, saves the result and says what it did.

use crate::data::{
    clock_now, created_from, DataStore, Item, ItemView, StoreView, Timestamp, Unreadable,
};
use crate::output::{Cell, CellView, OutputFormat, Report, ReportView};
use crate::text::{ascending, decimal, decimal_text, joined, same_text, sorted_texts, words, words_of};
use vstd::prelude::*;

verus! {

/// The wish to have an item's text changed in an editor: which item, the
/// words of the command that starts the editor, and the text as it stands.
#[derive(Debug, PartialEq, Eq)]
pub struct EditRequest {
    pub stack: String,
    pub index: usize,
    pub command: Vec<String>,
    pub contents: String,
}

/// An edit request as contracts see it.
pub struct EditRequestView {
    pub stack: Seq<char>,
    pub index: nat,
    pub command: Seq<Seq<char>>,
    pub contents: Seq<char>,
}

impl View for EditRequest {
    type V = EditRequestView;

    open spec fn view(&self) -> EditRequestView {
        EditRequestView {
            stack: self.stack@,
            index: self.index as nat,
            command: self.command.deep_view(),
            contents: self.contents@,
        }
    }
}

/// What an operation hands back: its reports in the order in which they were
/// made, the status with which the process should end, and, where an item is
/// to be edited, the request for it.
#[derive(Debug, PartialEq, Eq)]
pub struct Outcome {
    pub reports: Vec<Report>,
    pub exit_code: i32,
    pub edit: Option<EditRequest>,
}

/// An outcome as contracts see it.
pub struct OutcomeView {
    pub reports: Seq<ReportView>,
    pub exit_code: i32,
    pub edit: Option<EditRequestView>,
}

/// An edit request, where there is one, as contracts see it.
pub open spec fn edit_view(edit: Option<EditRequest>) -> Option<EditRequestView> {
    match edit {
        Some(request) => Some(request@),
        None => None,
    }
}

impl View for Outcome {
    type V = OutcomeView;

    open spec fn view(&self) -> OutcomeView {
        OutcomeView {
            reports: self.reports.deep_view(),
            exit_code: self.exit_code,
            edit: edit_view(self.edit),
        }
    }
}

impl OutcomeView {
    /// Nothing to report, and all is well.
    pub open spec fn nothing() -> OutcomeView {
        OutcomeView { reports: Seq::empty(), exit_code: 0, edit: None }
    }

    /// The given reports, and all is well.
    pub open spec fn of(reports: Seq<ReportView>) -> OutcomeView {
        OutcomeView { reports, exit_code: 0, edit: None }
    }

    /// This outcome followed by the reports of another that asks for no
    /// edit. A failure of either is a failure of both.
    pub open spec fn followed_by(self, next: OutcomeView) -> OutcomeView {
        OutcomeView {
            reports: self.reports + next.reports,
            exit_code: if self.exit_code != 0 {
                self.exit_code
            } else {
                next.exit_code
            },
            edit: self.edit,
        }
    }
}

/// What an operation answers in contracts: an outcome, or the name of the
/// stack that could not be read.
pub type Said = Result<OutcomeView, Seq<char>>;

/// What an operation that changes the store comes to: the store as it
/// leaves it, and its answer.
pub struct Effected {
    pub store: StoreView,
    pub said: Said,
}

/// The answer of an operation as contracts see it.
pub open spec fn said(result: Result<Outcome, Unreadable>) -> Said {
    match result {
        Ok(outcome) => Ok(outcome@),
        Err(e) => Err(e.stack@),
    }
}

impl Outcome {
    fn nothing() -> (outcome: Outcome)
        ensures
            outcome@ == OutcomeView::nothing(),
    {
        let outcome = Outcome { reports: Vec::new(), exit_code: 0, edit: None };
        assert(outcome@.reports =~= Seq::<ReportView>::empty());
        outcome
    }

    fn of(report: Report) -> (outcome: Outcome)
        ensures
            outcome@ == OutcomeView::of(seq![report@]),
    {
        let mut reports: Vec<Report> = Vec::new();
        reports.push(report);
        let outcome = Outcome { reports, exit_code: 0, edit: None };
        assert(outcome@.reports =~= seq![report@]);
        outcome
    }

    fn followed_by(self, next: Outcome) -> (outcome: Outcome)
        ensures
            outcome@ == self@.followed_by(next@),
    {
        let mut reports = self.reports;
        let mut more = next.reports;
        let ghost first = reports.deep_view();
        let ghost second = more.deep_view();
        let ghost a = reports@;
        let ghost b = more@;
        reports.append(&mut more);
        assert(reports@ == a + b);
        assert(reports.deep_view() =~= first + second);
        let exit_code = if self.exit_code != 0 {
            self.exit_code
        } else {
            next.exit_code
        };
        Outcome { reports, exit_code, edit: self.edit }
    }
}

/// The name of the stack that keeps what was completed in or deleted from
/// `stack`.
pub open spec fn history_name(stack: Seq<char>) -> Seq<char> {
    stack + "_history"@
}

/// The name of the stack that keeps what was completed in or deleted from
/// `stack`.
pub fn stack_history_of(stack: &str) -> (name: String)
    ensures
        name@ == history_name(stack@),
{
    joined(stack, "_history")
}

fn one<'a>(a: &'a str) -> (texts: Vec<&'a str>)
    ensures
        texts.deep_view() == seq![a@],
{
    let texts = vec![a];
    assert(texts.deep_view() =~= seq![a@]);
    texts
}

fn two<'a>(a: &'a str, b: &'a str) -> (texts: Vec<&'a str>)
    ensures
        texts.deep_view() == seq![a@, b@],
{
    let texts = vec![a, b];
    assert(texts.deep_view() =~= seq![a@, b@]);
    texts
}

fn three<'a>(a: &'a str, b: &'a str, c: &'a str) -> (texts: Vec<&'a str>)
    ensures
        texts.deep_view() == seq![a@, b@, c@],
{
    let texts = vec![a, b, c];
    assert(texts.deep_view() =~= seq![a@, b@, c@]);
    texts
}

fn four<'a>(a: &'a str, b: &'a str, c: &'a str, d: &'a str) -> (texts: Vec<&'a str>)
    ensures
        texts.deep_view() == seq![a@, b@, c@, d@],
{
    let texts = vec![a, b, c, d];
    assert(texts.deep_view() =~= seq![a@, b@, c@, d@]);
    texts
}

fn one_row<'a>(row: Vec<&'a str>) -> (rows: Vec<Vec<&'a str>>)
    ensures
        rows.deep_view() == seq![row.deep_view()],
{
    let ghost texts = row.deep_view();
    let rows = vec![row];
    assert(rows.deep_view() =~= seq![texts]);
    rows
}

fn no_rows<'a>() -> (rows: Vec<Vec<&'a str>>)
    ensures
        rows.deep_view() == Seq::<Seq<Seq<char>>>::empty(),
{
    let rows: Vec<Vec<&str>> = Vec::new();
    assert(rows.deep_view() =~= Seq::<Seq<Seq<char>>>::empty());
    rows
}

/// The store as an operation left it, with what the operation answered.
pub open spec fn effected(store: StoreView, result: Result<Outcome, Unreadable>) -> Effected {
    Effected { store, said: said(result) }
}

// ===== Peek and Count =====

/// What peeking says of a stack's items: the text of the current item, or,
/// for a human who did not ask for quiet, a word that says that there is none.
pub open spec fn peek_report(items: Seq<ItemView>, output: OutputFormat) -> ReportView {
    let labels = seq!["position"@, "item"@];
    if items.len() > 0 {
        ReportView::log_always(labels, seq![seq!["Now"@, items.last().contents]])
    } else if output.is_nonquiet_for_humans() {
        ReportView::log_always(labels, seq![seq!["Now"@, "NOTHING"@]])
    } else {
        ReportView::log_always(labels, Seq::empty())
    }
}

/// Peeking: nothing at all where the output is silent; else a failure where
/// the stack cannot be read, and else the report on its current item.
pub open spec fn spec_peek(store: StoreView, stack: Seq<char>, output: OutputFormat) -> Said {
    if output.is_silent() {
        Ok(OutcomeView::nothing())
    } else if !store.readable(stack) {
        Err(stack)
    } else {
        Ok(OutcomeView::of(seq![peek_report(store.items(stack), output)]))
    }
}

/// Reports the current item of a stack: the last that was pushed and is
/// still there.
pub fn peek_latest_item(stack: &str, data_store: &DataStore, output: &OutputFormat) -> (result:
    Result<Outcome, Unreadable>)
    ensures
        said(result) == spec_peek(data_store@, stack@, *output),
{
    if output.is_silent() {
        return Ok(Outcome::nothing());
    }
    let items = data_store.load(stack)?;
    let n = items.len();
    let report = if n > 0 {
        let contents = items[n - 1].contents.as_str();
        assert(items.deep_view().last() == items@[n - 1]@);
        Report::log_always(two("position", "item"), one_row(two("Now", contents)))
    } else if output.is_nonquiet_for_humans() {
        Report::log_always(two("position", "item"), one_row(two("Now", "NOTHING")))
    } else {
        Report::log_always(two("position", "item"), no_rows())
    };
    Ok(Outcome::of(report))
}

/// Counting: nothing at all where the output is silent; else a failure where
/// the stack cannot be read, and else the number of its items.
pub open spec fn spec_count(store: StoreView, stack: Seq<char>, output: OutputFormat) -> Said {
    if output.is_silent() {
        Ok(OutcomeView::nothing())
    } else if !store.readable(stack) {
        Err(stack)
    } else {
        Ok(
            OutcomeView::of(
                seq![
                    ReportView::log_always(
                        seq!["items"@],
                        seq![seq![decimal_text(store.items(stack).len())]],
                    ),
                ],
            ),
        )
    }
}

/// Reports how many items a stack holds.
pub fn count_all_items(stack: &str, data_store: &DataStore, output: &OutputFormat) -> (result:
    Result<Outcome, Unreadable>)
    ensures
        said(result) == spec_count(data_store@, stack@, *output),
{
    if output.is_silent() {
        return Ok(Outcome::nothing());
    }
    let items = data_store.load(stack)?;
    let len = decimal(items.len());
    Ok(Outcome::of(Report::log_always(one("items"), one_row(one(len.as_str())))))
}

// ===== ListAll, Head, Tail =====

/// Which part of a stack to list, counted from its current item.
#[derive(Debug)]
pub struct ListRange {
    pub stack: String,
    /// The position of the first item listed; not looked at where
    /// `from_end` is set.
    pub start: usize,
    /// How many items to list at most; all of them where there is no limit.
    pub limit: Option<usize>,
    /// Whether the items listed are the oldest ones.
    pub from_end: bool,
}

/// How a position is written: for a human reader the current item is `Now`
/// and the numbers below 100 are padded to three places; elsewhere the bare
/// number.
pub open spec fn position_text(position: nat, human: bool) -> Seq<char> {
    if !human {
        decimal_text(position)
    } else if position == 0 {
        "Now"@
    } else if position <= 9 {
        "  "@ + decimal_text(position)
    } else if position <= 99 {
        " "@ + decimal_text(position)
    } else {
        decimal_text(position)
    }
}

/// The cell that says when an item was created: the moment of its first
/// `created` event, or the word `unknown`.
pub open spec fn created_cell(item: ItemView) -> CellView {
    match item.created() {
        Some(at) => CellView::Time(at),
        None => CellView::Text("unknown"@),
    }
}

/// The row for the item at `position`, the current item being at 0.
pub open spec fn listing_row(items: Seq<ItemView>, position: int, human: bool) -> Seq<CellView> {
    let item = items[items.len() - 1 - position];
    seq![
        CellView::Text(position_text(position as nat, human)),
        CellView::Text(item.contents),
        created_cell(item),
    ]
}

/// The position at which a listing starts.
pub open spec fn listing_start(len: nat, start: nat, limit: Option<nat>, from_end: bool) -> nat {
    let limit = match limit {
        Some(n) => n,
        None => len,
    };
    if from_end {
        if limit <= len {
            (len - limit) as nat
        } else {
            0
        }
    } else {
        start
    }
}

/// The position before which a listing stops.
pub open spec fn listing_end(len: nat, start: nat, limit: Option<nat>, from_end: bool) -> nat {
    let limit = match limit {
        Some(n) => n,
        None => len,
    };
    let first = listing_start(len, start, Some(limit), from_end);
    if first >= len {
        first
    } else if first + limit >= len {
        len
    } else {
        first + limit
    }
}

/// The rows of a listing: one for each position from `first` up to, and not
/// including, `end`, the current item first.
pub open spec fn listing_rows(items: Seq<ItemView>, first: nat, end: nat, human: bool) -> Seq<
    Seq<CellView>,
> {
    Seq::new((end - first) as nat, |k: int| listing_row(items, first + k, human))
}

/// What a listing says of a stack's items.
pub open spec fn listing_reports(
    items: Seq<ItemView>,
    start: nat,
    limit: Option<nat>,
    from_end: bool,
    output: OutputFormat,
) -> Seq<ReportView> {
    let labels = seq!["position"@, "item"@, "created"@];
    let first = listing_start(items.len(), start, limit, from_end);
    let end = listing_end(items.len(), start, limit, from_end);
    let human = output.is_nonquiet_for_humans();
    if end > first {
        seq![ReportView { always: true, labels, rows: listing_rows(items, first, end, human) }]
    } else if human {
        seq![ReportView::log(labels, seq![seq!["Now"@, "NOTHING"@]])]
    } else {
        Seq::empty()
    }
}

/// Listing: nothing at all where the output is silent; else a failure where
/// the stack cannot be read, and else the rows of the items in the range, or,
/// where there are none, for a human who did not ask for quiet, a word that
/// says so.
pub open spec fn spec_list_range(
    store: StoreView,
    stack: Seq<char>,
    start: nat,
    limit: Option<nat>,
    from_end: bool,
    output: OutputFormat,
) -> Said {
    if output.is_silent() {
        Ok(OutcomeView::nothing())
    } else if !store.readable(stack) {
        Err(stack)
    } else {
        Ok(OutcomeView::of(listing_reports(store.items(stack), start, limit, from_end, output)))
    }
}

/// The limit of a range as contracts see it.
pub open spec fn limit_view(limit: Option<usize>) -> Option<nat> {
    match limit {
        Some(n) => Some(n as nat),
        None => None,
    }
}

fn position_label(position: usize, human: bool) -> (label: String)
    ensures
        label@ == position_text(position as nat, human),
{
    if !human {
        decimal(position)
    } else if position == 0 {
        "Now".to_owned()
    } else if position <= 9 {
        joined("  ", decimal(position).as_str())
    } else if position <= 99 {
        joined(" ", decimal(position).as_str())
    } else {
        decimal(position)
    }
}

fn created_of(item: &Item) -> (cell: Cell)
    ensures
        cell@ == created_cell(item@),
{
    let mut i: usize = 0;
    while i < item.history.len()
        invariant
            i <= item.history@.len(),
            item@.created() == created_from(item@.history, i as int),
        decreases item.history.len() - i,
    {
        if same_text(item.history[i].0.as_str(), "created") {
            return Cell::Time(item.history[i].1);
        }
        i += 1;
    }
    Cell::Text("unknown".to_owned())
}

/// Lists the items of a stack that fall into a range, the current item
/// first, each with its position, its text and the moment it was created.
pub fn list_range(range: ListRange, data_store: &DataStore, output: &OutputFormat) -> (result:
    Result<Outcome, Unreadable>)
    ensures
        said(result) == spec_list_range(
            data_store@,
            range.stack@,
            range.start as nat,
            limit_view(range.limit),
            range.from_end,
            *output,
        ),
{
    if output.is_silent() {
        return Ok(Outcome::nothing());
    }
    let items = data_store.load(range.stack.as_str())?;
    let len = items.len();
    let limit = match range.limit {
        Some(n) => n,
        None => len,
    };
    let first = if range.from_end {
        if limit <= len {
            len - limit
        } else {
            0
        }
    } else {
        range.start
    };
    let end = if first >= len {
        first
    } else if limit >= len - first {
        len
    } else {
        first + limit
    };
    let human = output.is_nonquiet_for_humans();
    let ghost shown = items.deep_view();
    assert(first == listing_start(shown.len(), range.start as nat, limit_view(range.limit), range.from_end));
    assert(end == listing_end(shown.len(), range.start as nat, limit_view(range.limit), range.from_end));
    if end <= first {
        if human {
            let report = Report::log(
                three("position", "item", "created"),
                one_row(two("Now", "NOTHING")),
            );
            return Ok(Outcome::of(report));
        }
        let outcome = Outcome::nothing();
        return Ok(outcome);
    }
    let mut rows: Vec<Vec<Cell>> = Vec::new();
    let mut position: usize = first;
    while position < end
        invariant
            first <= position <= end <= len,
            len == items@.len(),
            shown == items.deep_view(),
            rows@.len() == position - first,
            forall|k: int|
                0 <= k < rows@.len() ==> (#[trigger] rows@[k]).deep_view() == listing_row(
                    shown,
                    first + k,
                    human,
                ),
        decreases end - position,
    {
        let item = &items[len - 1 - position];
        assert(shown[len - 1 - position] == item@);
        let row = vec![
            Cell::Text(position_label(position, human)),
            Cell::Text(item.contents.clone()),
            created_of(item),
        ];
        assert(row.deep_view() =~= listing_row(shown, position as int, human));
        rows.push(row);
        position += 1;
    }
    assert(rows.deep_view() =~= listing_rows(shown, first as nat, end as nat, human));
    let labels = vec!["position".to_owned(), "item".to_owned(), "created".to_owned()];
    assert(labels.deep_view() =~= seq!["position"@, "item"@, "created"@]);
    Ok(Outcome::of(Report { always: true, labels, rows }))
}

/// Lists all items of a stack.
pub fn list_all_items(stack: &str, data_store: &DataStore, output: &OutputFormat) -> (result:
    Result<Outcome, Unreadable>)
    ensures
        said(result) == spec_list_range(data_store@, stack@, 0, None, false, *output),
{
    let range = ListRange { stack: stack.to_owned(), start: 0, limit: None, from_end: false };
    list_range(range, data_store, output)
}

/// Lists the `n` items of a stack that were pushed last.
pub fn list_n_latest_items(
    stack: &str,
    n: usize,
    data_store: &DataStore,
    output: &OutputFormat,
) -> (result: Result<Outcome, Unreadable>)
    ensures
        said(result) == spec_list_range(data_store@, stack@, 0, Some(n as nat), false, *output),
{
    let range = ListRange { stack: stack.to_owned(), start: 0, limit: Some(n), from_end: false };
    list_range(range, data_store, output)
}

/// Lists the `n` oldest items of a stack.
pub fn list_n_oldest_items(
    stack: &str,
    n: usize,
    data_store: &DataStore,
    output: &OutputFormat,
) -> (result: Result<Outcome, Unreadable>)
    ensures
        said(result) == spec_list_range(data_store@, stack@, 0, Some(n as nat), true, *output),
{
    let range = ListRange { stack: stack.to_owned(), start: 0, limit: Some(n), from_end: true };
    list_range(range, data_store, output)
}

// ===== Push =====

/// Pushing: a failure where the stack cannot be read; else the item is saved
/// at the end of the stack, and reported as created.
pub open spec fn spec_push(store: StoreView, stack: Seq<char>, item: ItemView) -> Effected {
    if !store.readable(stack) {
        Effected { store, said: Err(stack) }
    } else {
        Effected {
            store: store.saved(stack, store.items(stack).push(item)),
            said: Ok(
                OutcomeView::of(
                    seq![
                        ReportView::log(
                            seq!["action"@, "item"@],
                            seq![seq!["Created"@, item.contents]],
                        ),
                    ],
                ),
            ),
        }
    }
}

/// Pushes an item onto a stack: it becomes the stack's current item.
pub fn push_item(stack: &str, item: Item, data_store: &mut DataStore) -> (result: Result<
    Outcome,
    Unreadable,
>)
    ensures
        effected(final(data_store)@, result) == spec_push(old(data_store)@, stack@, item@),
{
    let contents = item.contents.clone();
    let mut items = data_store.load(stack)?;
    let ghost before = items.deep_view();
    items.push(item);
    assert(items.deep_view() =~= before.push(item@));
    data_store.save(stack, items);
    Ok(Outcome::of(Report::log(two("action", "item"), one_row(two("Created", contents.as_str())))))
}

/// Pushes a new item with the given text, created at the moment `now`.
pub fn push_content(stack: &str, content: &str, now: Timestamp, data_store: &mut DataStore) -> (result:
    Result<Outcome, Unreadable>)
    ensures
        effected(final(data_store)@, result) == spec_push(
            old(data_store)@,
            stack@,
            ItemView::fresh(content@, now),
        ),
{
    let item = Item::created_at(content, now);
    push_item(stack, item, data_store)
}

// ===== Complete, Delete, DeleteAll =====

/// The peek that follows an operation, for a human who did not ask for
/// quiet.
pub open spec fn trailing_peek(items: Seq<ItemView>, output: OutputFormat) -> OutcomeView {
    if output.is_nonquiet_for_humans() {
        OutcomeView::of(seq![peek_report(items, output)])
    } else {
        OutcomeView::nothing()
    }
}

/// Retiring the item at `index`, counted from the current item: a failure
/// where the stack, or the stack that keeps its history, cannot be read; no
/// change where the stack has no such item; else the item leaves the stack
/// and goes, with one more event named `event` at the moment `now`, to the
/// end of the history stack, and is reported under the word `action`. In each
/// case but the failure a peek follows for a human who did not ask for quiet.
pub open spec fn spec_retire(
    store: StoreView,
    stack: Seq<char>,
    index: nat,
    event: Seq<char>,
    action: Seq<char>,
    now: Timestamp,
    output: OutputFormat,
) -> Effected {
    let items = store.items(stack);
    let history = history_name(stack);
    if !store.readable(stack) {
        Effected { store, said: Err(stack) }
    } else if index >= items.len() {
        Effected { store, said: Ok(trailing_peek(items, output)) }
    } else if !store.readable(history) {
        Effected { store, said: Err(history) }
    } else {
        let place = items.len() - 1 - index;
        let item = items[place].with_event(event, now);
        let left = items.remove(place);
        Effected {
            store: store.saved(history, store.items(history).push(item)).saved(stack, left),
            said: Ok(
                OutcomeView::of(
                    seq![ReportView::log(seq!["action"@, "item"@], seq![seq![action, item.contents]])],
                ).followed_by(trailing_peek(left, output)),
            ),
        }
    }
}

fn after_peek(stack: &str, data_store: &DataStore, output: &OutputFormat) -> (result: Result<
    Outcome,
    Unreadable,
>)
    ensures
        data_store@.readable(stack@) ==> said(result) == Ok::<OutcomeView, Seq<char>>(
            trailing_peek(data_store@.items(stack@), *output),
        ),
{
    if output.is_nonquiet_for_humans() {
        peek_latest_item(stack, data_store, output)
    } else {
        Ok(Outcome::nothing())
    }
}

proof fn lemma_history_name_differs(stack: Seq<char>)
    ensures
        history_name(stack) != stack,
{
    reveal_strlit("_history");
    assert(history_name(stack).len() == stack.len() + 8);
}

fn retire_item(
    stack: &str,
    index: usize,
    event: &str,
    action: &str,
    now: Timestamp,
    data_store: &mut DataStore,
    output: &OutputFormat,
) -> (result: Result<Outcome, Unreadable>)
    ensures
        effected(final(data_store)@, result) == spec_retire(
            old(data_store)@,
            stack@,
            index as nat,
            event@,
            action@,
            now,
            *output,
        ),
{
    let mut items = data_store.load(stack)?;
    if index >= items.len() {
        return after_peek(stack, data_store, output);
    }
    let history = stack_history_of(stack);
    let mut kept = data_store.load(history.as_str())?;
    proof {
        lemma_history_name_differs(stack@);
    }
    let ghost before = items.deep_view();
    let ghost kept_before = kept.deep_view();
    let place = items.len() - index - 1;
    let mut item = items.remove(place);
    assert(items.deep_view() =~= before.remove(place as int));
    assert(item@ == before[place as int]);
    item.record(event, now);
    let contents = item.contents.clone();
    kept.push(item);
    assert(kept.deep_view() =~= kept_before.push(item@));
    data_store.save(history.as_str(), kept);
    data_store.save(stack, items);
    let done = Outcome::of(Report::log(two("action", "item"), one_row(two(action, contents.as_str()))));
    let peek = after_peek(stack, data_store, output)?;
    Ok(done.followed_by(peek))
}

/// Completing the item at `index`, counted from the current item.
pub open spec fn spec_complete(
    store: StoreView,
    stack: Seq<char>,
    index: nat,
    now: Timestamp,
    output: OutputFormat,
) -> Effected {
    spec_retire(store, stack, index, "completed"@, "Completed"@, now, output)
}

/// Completes an item: it leaves its stack for the history stack, marked as
/// completed at the moment `now`.
pub fn complete_item(
    stack: &str,
    index: usize,
    now: Timestamp,
    data_store: &mut DataStore,
    output: &OutputFormat,
) -> (result: Result<Outcome, Unreadable>)
    ensures
        effected(final(data_store)@, result) == spec_complete(
            old(data_store)@,
            stack@,
            index as nat,
            now,
            *output,
        ),
{
    retire_item(stack, index, "completed", "Completed", now, data_store, output)
}

/// Deleting the item at `index`, counted from the current item.
pub open spec fn spec_delete(
    store: StoreView,
    stack: Seq<char>,
    index: nat,
    now: Timestamp,
    output: OutputFormat,
) -> Effected {
    spec_retire(store, stack, index, "deleted"@, "Deleted"@, now, output)
}

/// Deletes an item: it leaves its stack for the history stack, marked as
/// deleted at the moment `now`.
pub fn delete_latest_item(
    stack: &str,
    index: usize,
    now: Timestamp,
    data_store: &mut DataStore,
    output: &OutputFormat,
) -> (result: Result<Outcome, Unreadable>)
    ensures
        effected(final(data_store)@, result) == spec_delete(
            old(data_store)@,
            stack@,
            index as nat,
            now,
            *output,
        ),
{
    retire_item(stack, index, "deleted", "Deleted", now, data_store, output)
}

/// Every item of a stack with one more event, named `event`, at the moment
/// `now`.
pub open spec fn all_marked(items: Seq<ItemView>, event: Seq<char>, now: Timestamp) -> Seq<
    ItemView,
> {
    Seq::new(items.len(), |i: int| items[i].with_event(event, now))
}

/// Deleting all items: a failure where the stack, or the stack that keeps
/// its history, cannot be read; else every item, marked as deleted at the
/// moment `now`, goes to the end of the history stack in the order it had,
/// the stack is saved empty, and the number of items is reported.
pub open spec fn spec_delete_all(store: StoreView, stack: Seq<char>, now: Timestamp) -> Effected {
    let items = store.items(stack);
    let history = history_name(stack);
    if !store.readable(stack) {
        Effected { store, said: Err(stack) }
    } else if !store.readable(history) {
        Effected { store, said: Err(history) }
    } else {
        Effected {
            store: store.saved(
                history,
                store.items(history) + all_marked(items, "deleted"@, now),
            ).saved(stack, Seq::empty()),
            said: Ok(
                OutcomeView::of(
                    seq![
                        ReportView::log(
                            seq!["action"@, "item"@],
                            seq![seq!["Deleted"@, decimal_text(items.len()) + " items"@]],
                        ),
                    ],
                ),
            ),
        }
    }
}

/// Deletes all items of a stack: they go to the history stack, marked as
/// deleted at the moment `now`.
pub fn delete_all_items(stack: &str, now: Timestamp, data_store: &mut DataStore) -> (result:
    Result<Outcome, Unreadable>)
    ensures
        effected(final(data_store)@, result) == spec_delete_all(old(data_store)@, stack@, now),
{
    let mut items = data_store.load(stack)?;
    let history = stack_history_of(stack);
    let mut kept = data_store.load(history.as_str())?;
    let ghost before = items.deep_view();
    let ghost kept_before = kept.deep_view();
    let n_deleted = items.len();
    let mut i: usize = 0;
    while i < n_deleted
        invariant
            i <= n_deleted,
            n_deleted == items@.len(),
            before.len() == n_deleted,
            forall|j: int| 0 <= j < i ==> (#[trigger] items@[j])@ == before[j].with_event("deleted"@, now),
            forall|j: int| i <= j < n_deleted ==> (#[trigger] items@[j])@ == before[j],
        decreases n_deleted - i,
    {
        let mut item = Item { contents: String::new(), history: Vec::new() };
        std::mem::swap(&mut item, &mut items[i]);
        item.record("deleted", now);
        items.set(i, item);
        i += 1;
    }
    assert(items.deep_view() =~= all_marked(before, "deleted"@, now));
    let ghost a = kept@;
    let ghost b = items@;
    kept.append(&mut items);
    assert(kept@ == a + b);
    assert(kept.deep_view() =~= kept_before + all_marked(before, "deleted"@, now));
    assert(items.deep_view() =~= Seq::<ItemView>::empty());
    data_store.save(history.as_str(), kept);
    data_store.save(stack, items);
    let count = joined(decimal(n_deleted).as_str(), " items");
    Ok(Outcome::of(Report::log(two("action", "item"), one_row(two("Deleted", count.as_str())))))
}

// ===== Pick =====

/// A stack after the item at distance `index` from its end was moved to the
/// end.
pub open spec fn promoted(items: Seq<ItemView>, index: int) -> Seq<ItemView> {
    let place = items.len() - 1 - index;
    items.remove(place).push(items[place])
}

/// Picking, from the place `from` of `indices` on: each index in turn is
/// counted from the current item of the stack as the picks before it left it,
/// and the item there becomes the current item. An index beyond the stack,
/// or one that was applied before, is passed over. The result is the stack
/// and the indices that were applied.
pub open spec fn picked_from(
    items: Seq<ItemView>,
    applied: Seq<usize>,
    indices: Seq<usize>,
    from: int,
) -> (Seq<ItemView>, Seq<usize>)
    decreases indices.len() - from,
{
    if from < 0 || from >= indices.len() {
        (items, applied)
    } else if indices[from] >= items.len() || applied.contains(indices[from]) {
        picked_from(items, applied, indices, from + 1)
    } else {
        picked_from(
            promoted(items, indices[from] as int),
            applied.push(indices[from]),
            indices,
            from + 1,
        )
    }
}

/// Picking all of `indices`, in the order given.
pub open spec fn picked(items: Seq<ItemView>, indices: Seq<usize>) -> (Seq<ItemView>, Seq<usize>) {
    picked_from(items, Seq::empty(), indices, 0)
}

/// Picking: a failure where the stack cannot be read; else the stack is
/// saved as the picks left it, and for a human who did not ask for quiet as
/// many of its latest items are listed as indices were applied.
pub open spec fn spec_pick(
    store: StoreView,
    stack: Seq<char>,
    indices: Seq<usize>,
    output: OutputFormat,
) -> Effected {
    if !store.readable(stack) {
        Effected { store, said: Err(stack) }
    } else {
        let (items, applied) = picked(store.items(stack), indices);
        Effected {
            store: store.saved(stack, items),
            said: Ok(
                if output.is_nonquiet_for_humans() {
                    OutcomeView::of(listing_reports(items, 0, Some(applied.len()), false, output))
                } else {
                    OutcomeView::nothing()
                },
            ),
        }
    }
}

fn holds_index(seen: &Vec<usize>, index: usize) -> (found: bool)
    ensures
        found == seen@.contains(index),
{
    let mut i: usize = 0;
    while i < seen.len()
        invariant
            i <= seen@.len(),
            forall|j: int| 0 <= j < i ==> seen@[j] != index,
        decreases seen.len() - i,
    {
        if seen[i] == index {
            return true;
        }
        i += 1;
    }
    false
}

fn after_listing(
    stack: &str,
    n: usize,
    data_store: &DataStore,
    output: &OutputFormat,
) -> (result: Result<Outcome, Unreadable>)
    ensures
        data_store@.readable(stack@) ==> said(result) == Ok::<OutcomeView, Seq<char>>(
            if output.is_nonquiet_for_humans() {
                OutcomeView::of(
                    listing_reports(data_store@.items(stack@), 0, Some(n as nat), false, *output),
                )
            } else {
                OutcomeView::nothing()
            },
        ),
{
    if output.is_nonquiet_for_humans() {
        list_n_latest_items(stack, n, data_store, output)
    } else {
        Ok(Outcome::nothing())
    }
}

/// Moves items to the top of a stack by their distance from its current
/// item.
pub fn pick_indices(
    stack: &str,
    indices: Vec<usize>,
    data_store: &mut DataStore,
    output: &OutputFormat,
) -> (result: Result<Outcome, Unreadable>)
    ensures
        effected(final(data_store)@, result) == spec_pick(
            old(data_store)@,
            stack@,
            indices@,
            *output,
        ),
{
    let mut items = data_store.load(stack)?;
    let ghost before = items.deep_view();
    let mut seen: Vec<usize> = Vec::new();
    let mut k: usize = 0;
    while k < indices.len()
        invariant
            k <= indices@.len(),
            picked(before, indices@) == picked_from(items.deep_view(), seen@, indices@, k as int),
        decreases indices.len() - k,
    {
        let index = indices[k];
        if index < items.len() && !holds_index(&seen, index) {
            let ghost current = items.deep_view();
            let place = items.len() - 1 - index;
            let item = items.remove(place);
            items.push(item);
            seen.push(index);
            assert(items.deep_view() =~= promoted(current, index as int));
        }
        k += 1;
    }
    let n = seen.len();
    data_store.save(stack, items);
    after_listing(stack, n, data_store, output)
}

// ===== Move, MoveAll =====

/// Moving the current item: a failure where the source cannot be read; no
/// change where it is empty; a failure where the destination cannot be read;
/// else the source is saved without its current item, which is then saved at
/// the end of the destination, and the move is reported.
pub open spec fn spec_move(store: StoreView, source: Seq<char>, dest: Seq<char>) -> Effected {
    let items = store.items(source);
    if !store.readable(source) {
        Effected { store, said: Err(source) }
    } else if items.len() == 0 {
        Effected { store, said: Ok(OutcomeView::nothing()) }
    } else if !store.readable(dest) {
        Effected { store, said: Err(dest) }
    } else {
        let taken = store.saved(source, items.drop_last());
        Effected {
            store: taken.saved(dest, taken.items(dest).push(items.last())),
            said: Ok(
                OutcomeView::of(
                    seq![
                        ReportView::log(
                            seq!["action"@, "new-stack"@, "old-stack"@],
                            seq![seq!["Move"@, dest, source]],
                        ),
                    ],
                ),
            ),
        }
    }
}

/// Moves the current item of one stack to another, where it becomes the
/// current item.
pub fn move_latest_item(source: &str, dest: &str, data_store: &mut DataStore) -> (result:
    Result<Outcome, Unreadable>)
    ensures
        effected(final(data_store)@, result) == spec_move(old(data_store)@, source@, dest@),
{
    let mut items = data_store.load(source)?;
    if items.len() == 0 {
        return Ok(Outcome::nothing());
    }
    let _ = data_store.load(dest)?;
    let ghost before = items.deep_view();
    let item = items.pop().unwrap();
    assert(items.deep_view() =~= before.drop_last());
    assert(item@ == before.last());
    data_store.save(source, items);
    let mut there = data_store.load(dest)?;
    let ghost there_before = there.deep_view();
    there.push(item);
    assert(there.deep_view() =~= there_before.push(item@));
    data_store.save(dest, there);
    Ok(
        Outcome::of(
            Report::log(
                three("action", "new-stack", "old-stack"),
                one_row(three("Move", dest, source)),
            ),
        ),
    )
}

/// Moving all items: a failure where the source cannot be read, or where it
/// has items and the destination cannot be read; else, where the source has
/// items, the destination is saved with them after its own, in the order
/// they had, and the source is saved empty. The number moved is reported
/// also where it is none.
pub open spec fn spec_move_all(store: StoreView, source: Seq<char>, dest: Seq<char>) -> Effected {
    let items = store.items(source);
    let report = ReportView::log(
        seq!["action"@, "new-stack"@, "old-stack"@, "num-moved"@],
        seq![seq!["Move All"@, dest, source, decimal_text(items.len())]],
    );
    if !store.readable(source) {
        Effected { store, said: Err(source) }
    } else if items.len() == 0 {
        Effected { store, said: Ok(OutcomeView::of(seq![report])) }
    } else if !store.readable(dest) {
        Effected { store, said: Err(dest) }
    } else {
        Effected {
            store: store.saved(dest, store.items(dest) + items).saved(source, Seq::empty()),
            said: Ok(OutcomeView::of(seq![report])),
        }
    }
}

/// Moves all items of one stack to the top of another.
pub fn move_all_items(source: &str, dest: &str, data_store: &mut DataStore) -> (result: Result<
    Outcome,
    Unreadable,
>)
    ensures
        effected(final(data_store)@, result) == spec_move_all(old(data_store)@, source@, dest@),
{
    let mut items = data_store.load(source)?;
    let count = decimal(items.len());
    if items.len() > 0 {
        let mut all = data_store.load(dest)?;
        let ghost first = all.deep_view();
        let ghost second = items.deep_view();
        let ghost a = all@;
        let ghost b = items@;
        all.append(&mut items);
        assert(all@ == a + b);
        assert(all.deep_view() =~= first + second);
        assert(items.deep_view() =~= Seq::<ItemView>::empty());
        data_store.save(dest, all);
        data_store.save(source, items);
    }
    Ok(
        Outcome::of(
            Report::log(
                four("action", "new-stack", "old-stack", "num-moved"),
                one_row(four("Move All", dest, source, count.as_str())),
            ),
        ),
    )
}

// ===== Swap, Rot, Next =====

/// A stack of two or more items with the last two exchanged.
pub open spec fn swapped(items: Seq<ItemView>) -> Seq<ItemView> {
    let n = items.len() as int;
    items.subrange(0, n - 2).push(items[n - 1]).push(items[n - 2])
}

/// A stack of three or more items with the last three turned: the current
/// item goes below the two under it, which keep their order.
pub open spec fn rotated(items: Seq<ItemView>) -> Seq<ItemView> {
    let n = items.len() as int;
    items.subrange(0, n - 3).push(items[n - 1]).push(items[n - 3]).push(items[n - 2])
}

/// A stack with one or more items, with the current item put below all
/// others.
pub open spec fn buried(items: Seq<ItemView>) -> Seq<ItemView> {
    items.drop_last().insert(0, items.last())
}

/// The listing of the `n` latest items that follows an operation, for a
/// human who did not ask for quiet.
pub open spec fn trailing_listing(items: Seq<ItemView>, n: nat, output: OutputFormat) -> OutcomeView {
    if output.is_nonquiet_for_humans() {
        OutcomeView::of(listing_reports(items, 0, Some(n), false, output))
    } else {
        OutcomeView::nothing()
    }
}

/// Swapping: a failure where the stack cannot be read; no change and no
/// report where it has fewer than two items; else it is saved with its last
/// two items exchanged, and for a human who did not ask for quiet the two
/// latest are listed.
pub open spec fn spec_swap(store: StoreView, stack: Seq<char>, output: OutputFormat) -> Effected {
    let items = store.items(stack);
    if !store.readable(stack) {
        Effected { store, said: Err(stack) }
    } else if items.len() < 2 {
        Effected { store, said: Ok(OutcomeView::nothing()) }
    } else {
        Effected {
            store: store.saved(stack, swapped(items)),
            said: Ok(trailing_listing(swapped(items), 2, output)),
        }
    }
}

/// Exchanges the two latest items of a stack.
pub fn swap_latest_two_items(stack: &str, data_store: &mut DataStore, output: &OutputFormat) -> (result:
    Result<Outcome, Unreadable>)
    ensures
        effected(final(data_store)@, result) == spec_swap(old(data_store)@, stack@, *output),
{
    let mut items = data_store.load(stack)?;
    if items.len() < 2 {
        return Ok(Outcome::nothing());
    }
    let ghost before = items.deep_view();
    let a = items.pop().unwrap();
    let b = items.pop().unwrap();
    items.push(a);
    items.push(b);
    assert(items.deep_view() =~= swapped(before));
    data_store.save(stack, items);
    after_listing(stack, 2, data_store, output)
}

/// Rotating: where the stack can be read and has fewer than three items,
/// what swapping does; else a failure where it cannot be read, and else it
/// is saved with its last three items turned, and for a human who did not
/// ask for quiet the three latest are listed.
pub open spec fn spec_rot(store: StoreView, stack: Seq<char>, output: OutputFormat) -> Effected {
    let items = store.items(stack);
    if !store.readable(stack) {
        Effected { store, said: Err(stack) }
    } else if items.len() < 3 {
        spec_swap(store, stack, output)
    } else {
        Effected {
            store: store.saved(stack, rotated(items)),
            said: Ok(trailing_listing(rotated(items), 3, output)),
        }
    }
}

/// Turns the three latest items of a stack.
pub fn rotate_latest_three_items(
    stack: &str,
    data_store: &mut DataStore,
    output: &OutputFormat,
) -> (result: Result<Outcome, Unreadable>)
    ensures
        effected(final(data_store)@, result) == spec_rot(old(data_store)@, stack@, *output),
{
    let mut items = data_store.load(stack)?;
    if items.len() < 3 {
        return swap_latest_two_items(stack, data_store, output);
    }
    let ghost before = items.deep_view();
    let a = items.pop().unwrap();
    let b = items.pop().unwrap();
    let c = items.pop().unwrap();
    items.push(a);
    items.push(c);
    items.push(b);
    assert(items.deep_view() =~= rotated(before));
    data_store.save(stack, items);
    after_listing(stack, 3, data_store, output)
}

/// Going to the next item: a failure where the stack cannot be read; no
/// change and no report where it is empty; else it is saved with its
/// current item put below all others, and a peek follows for a human who did
/// not ask for quiet.
pub open spec fn spec_next(store: StoreView, stack: Seq<char>, output: OutputFormat) -> Effected {
    let items = store.items(stack);
    if !store.readable(stack) {
        Effected { store, said: Err(stack) }
    } else if items.len() == 0 {
        Effected { store, said: Ok(OutcomeView::nothing()) }
    } else {
        Effected {
            store: store.saved(stack, buried(items)),
            said: Ok(trailing_peek(buried(items), output)),
        }
    }
}

/// Cycles to the next item: the current item becomes the oldest.
pub fn next_to_latest(stack: &str, data_store: &mut DataStore, output: &OutputFormat) -> (result:
    Result<Outcome, Unreadable>)
    ensures
        effected(final(data_store)@, result) == spec_next(old(data_store)@, stack@, *output),
{
    let mut items = data_store.load(stack)?;
    if items.len() == 0 {
        return Ok(Outcome::nothing());
    }
    let ghost before = items.deep_view();
    let to_the_back = items.pop().unwrap();
    items.insert(0, to_the_back);
    assert(items.deep_view() =~= buried(before));
    data_store.save(stack, items);
    after_peek(stack, data_store, output)
}

// ===== IsEmpty =====

/// Asking whether a stack is empty: a failure where it cannot be read; else
/// the answer, and where the answer is no, a status that says so, unless the
/// output is bare text.
pub open spec fn spec_is_empty(store: StoreView, stack: Seq<char>, output: OutputFormat) -> Said {
    if !store.readable(stack) {
        Err(stack)
    } else if store.items(stack).len() > 0 {
        Ok(
            OutcomeView {
                reports: seq![ReportView::log_always(seq!["empty"@], seq![seq!["false"@]])],
                exit_code: if output.is_terse() {
                    0
                } else {
                    1
                },
                edit: None,
            },
        )
    } else {
        Ok(OutcomeView::of(seq![ReportView::log_always(seq!["empty"@], seq![seq!["true"@]])]))
    }
}

/// Reports whether a stack has no items.
pub fn is_empty(stack: &str, data_store: &DataStore, output: &OutputFormat) -> (result: Result<
    Outcome,
    Unreadable,
>)
    ensures
        said(result) == spec_is_empty(data_store@, stack@, *output),
{
    let items = data_store.load(stack)?;
    if items.len() > 0 {
        let mut outcome = Outcome::of(Report::log_always(one("empty"), one_row(one("false"))));
        if !output.is_terse() {
            outcome.exit_code = 1;
        }
        return Ok(outcome);
    }
    Ok(Outcome::of(Report::log_always(one("empty"), one_row(one("true")))))
}

// ===== ListStacks =====

/// Whether `names` are the names under which the store keeps something,
/// each once, in ascending order.
pub open spec fn listed_names(store: StoreView, names: Seq<Seq<char>>) -> bool {
    &&& ascending(names)
    &&& names.no_duplicates()
    &&& forall|name: Seq<char>| names.contains(name) <==> store.stacks.contains_key(name)
}

/// The report that lists stacks by name, one to a row.
pub open spec fn stacks_report(names: Seq<Seq<char>>) -> ReportView {
    ReportView::log_always(seq!["stack"@], Seq::new(names.len(), |i: int| seq![names[i]]))
}

/// Reports the names of all stacks, in ascending order.
pub fn list_stacks(data_store: &DataStore) -> (outcome: Outcome)
    ensures
        exists|names: Seq<Seq<char>>|
            listed_names(data_store@, names) && outcome@ == OutcomeView::of(
                seq![stacks_report(names)],
            ),
{
    let found = data_store.list_stacks();
    let ghost unsorted = found.deep_view();
    let stacks = sorted_texts(found);
    let ghost names = stacks.deep_view();
    proof {
        broadcast use vstd::seq_lib::to_multiset_contains;

        unsorted.lemma_multiset_has_no_duplicates();
        names.lemma_multiset_has_no_duplicates_conv();
        assert forall|name: Seq<char>| names.contains(name) <==> data_store@.stacks.contains_key(
            name,
        ) by {
            assert(names.contains(name) <==> names.to_multiset().count(name) > 0);
            assert(unsorted.contains(name) <==> unsorted.to_multiset().count(name) > 0);
        }
    }
    let mut rows: Vec<Vec<&str>> = Vec::new();
    let mut i: usize = 0;
    while i < stacks.len()
        invariant
            i <= stacks@.len(),
            rows@.len() == i,
            names == stacks.deep_view(),
            forall|j: int| 0 <= j < i ==> (#[trigger] rows@[j]).deep_view() == seq![names[j]],
        decreases stacks.len() - i,
    {
        rows.push(one(stacks[i].as_str()));
        i += 1;
    }
    assert(rows.deep_view() =~= Seq::new(names.len(), |i: int| seq![names[i]]));
    let outcome = Outcome::of(Report::log_always(one("stack"), rows));
    assert(listed_names(data_store@, names));
    assert(outcome@ == OutcomeView::of(seq![stacks_report(names)]));
    outcome
}

// ===== Edit =====

/// Asking for an edit: a failure where the stack cannot be read; else, where
/// the stack has an item at place `index`, counted from its oldest item, the
/// request to edit that item with the editor whose command is given; else
/// nothing.
pub open spec fn spec_edit(store: StoreView, stack: Seq<char>, editor: Seq<char>, index: nat) -> Said {
    let items = store.items(stack);
    if !store.readable(stack) {
        Err(stack)
    } else if index < items.len() {
        Ok(
            OutcomeView {
                reports: Seq::empty(),
                exit_code: 0,
                edit: Some(
                    EditRequestView {
                        stack,
                        index,
                        command: words(editor, false),
                        contents: items[index as int].contents,
                    },
                ),
            },
        )
    } else {
        Ok(OutcomeView::nothing())
    }
}

/// Prepares the edit of an item's text: says which text an editor is to be
/// started on, and with which command.
pub fn edit_item(stack: &str, editor: &str, index: usize, data_store: &DataStore) -> (result:
    Result<Outcome, Unreadable>)
    ensures
        said(result) == spec_edit(data_store@, stack@, editor@, index as nat),
{
    let items = data_store.load(stack)?;
    if index < items.len() {
        assert(items.deep_view()[index as int] == items@[index as int]@);
        let request = EditRequest {
            stack: stack.to_owned(),
            index,
            command: words_of(editor, false),
            contents: items[index].contents.clone(),
        };
        let outcome = Outcome { reports: Vec::new(), exit_code: 0, edit: Some(request) };
        assert(outcome@.reports =~= Seq::<ReportView>::empty());
        Ok(outcome)
    } else {
        Ok(Outcome::nothing())
    }
}

/// An item with another text and the same history.
pub open spec fn reworded(item: ItemView, contents: Seq<char>) -> ItemView {
    ItemView { contents, history: item.history }
}

/// Taking over an edited text: a failure where the stack cannot be read; no
/// change where it has no item at place `index`, counted from its oldest
/// item; else the stack is saved with the new text in that item, whose
/// history stays as it is, and the new text is reported.
pub open spec fn spec_edited(
    store: StoreView,
    stack: Seq<char>,
    index: nat,
    contents: Seq<char>,
) -> Effected {
    let items = store.items(stack);
    if !store.readable(stack) {
        Effected { store, said: Err(stack) }
    } else if index < items.len() {
        Effected {
            store: store.saved(
                stack,
                items.update(index as int, reworded(items[index as int], contents)),
            ),
            said: Ok(
                OutcomeView::of(
                    seq![ReportView::log(seq!["action"@, "item"@], seq![seq!["Edited"@, contents]])],
                ),
            ),
        }
    } else {
        Effected { store, said: Ok(OutcomeView::nothing()) }
    }
}

/// Puts the text that an editor left in place of an item's text. It is for
/// the caller to see that the editor ended well.
pub fn finish_edit(stack: &str, index: usize, new_content: &str, data_store: &mut DataStore) -> (result:
    Result<Outcome, Unreadable>)
    ensures
        effected(final(data_store)@, result) == spec_edited(
            old(data_store)@,
            stack@,
            index as nat,
            new_content@,
        ),
{
    let mut items = data_store.load(stack)?;
    if index >= items.len() {
        return Ok(Outcome::nothing());
    }
    let ghost before = items.deep_view();
    let mut item = Item { contents: String::new(), history: Vec::new() };
    std::mem::swap(&mut item, &mut items[index]);
    assert(item@ == before[index as int]);
    item.contents = new_content.to_owned();
    items.set(index, item);
    assert(items.deep_view() =~= before.update(
        index as int,
        reworded(before[index as int], new_content@),
    ));
    data_store.save(stack, items);
    Ok(Outcome::of(Report::log(two("action", "item"), one_row(two("Edited", new_content)))))
}

// ===== The operations as values =====

/// What an operation needs to find in the store.
#[derive(Debug, PartialEq, Eq)]
pub enum Reach {
    /// The stacks of these names, as far as they are kept.
    Stacks(Vec<String>),
    /// Every name under which something is kept; what is kept there does
    /// not matter.
    Names,
}

fn only(name: String) -> (names: Vec<String>)
    ensures
        names.deep_view() == seq![name@],
{
    let names = vec![name];
    assert(names.deep_view() =~= seq![name@]);
    names
}

fn both(first: String, second: String) -> (names: Vec<String>)
    ensures
        names.deep_view() == seq![first@, second@],
{
    let names = vec![first, second];
    assert(names.deep_view() =~= seq![first@, second@]);
    names
}

/// An operation on a stack, with what it needs to know.
#[derive(Debug, PartialEq, Eq)]
pub enum StackEffect {
    Push { stack: String, content: String },
    Complete { stack: String, index: usize },
    Delete { stack: String, index: usize },
    DeleteAll { stack: String },
    Edit { stack: String, editor: String, index: usize },
    Pick { stack: String, indices: Vec<usize> },
    Move { stack: String, dest: String },
    MoveAll { stack: String, dest: String },
    Swap { stack: String },
    Rot { stack: String },
    Next { stack: String },
    Peek { stack: String },
    ListAll { stack: String },
    ListStacks,
    Head { stack: String, n: usize },
    Tail { stack: String, n: usize },
    Count { stack: String },
    IsEmpty { stack: String },
}

impl StackEffect {
    /// Whether running the operation on `store` at the moment `now`, for the
    /// output `output`, comes to `after`.
    pub open spec fn runs_to(
        self,
        store: StoreView,
        output: OutputFormat,
        now: Timestamp,
        after: Effected,
    ) -> bool {
        match self {
            StackEffect::Push { stack, content } => after == spec_push(
                store,
                stack@,
                ItemView::fresh(content@, now),
            ),
            StackEffect::Complete { stack, index } => after == spec_complete(
                store,
                stack@,
                index as nat,
                now,
                output,
            ),
            StackEffect::Delete { stack, index } => after == spec_delete(
                store,
                stack@,
                index as nat,
                now,
                output,
            ),
            StackEffect::DeleteAll { stack } => after == spec_delete_all(store, stack@, now),
            StackEffect::Edit { stack, editor, index } => after == (Effected {
                store,
                said: spec_edit(store, stack@, editor@, index as nat),
            }),
            StackEffect::Pick { stack, indices } => after == spec_pick(
                store,
                stack@,
                indices@,
                output,
            ),
            StackEffect::Move { stack, dest } => after == spec_move(store, stack@, dest@),
            StackEffect::MoveAll { stack, dest } => after == spec_move_all(store, stack@, dest@),
            StackEffect::Swap { stack } => after == spec_swap(store, stack@, output),
            StackEffect::Rot { stack } => after == spec_rot(store, stack@, output),
            StackEffect::Next { stack } => after == spec_next(store, stack@, output),
            StackEffect::Peek { stack } => after == (Effected {
                store,
                said: spec_peek(store, stack@, output),
            }),
            StackEffect::ListAll { stack } => after == (Effected {
                store,
                said: spec_list_range(store, stack@, 0, None, false, output),
            }),
            StackEffect::ListStacks => after.store == store && exists|names: Seq<Seq<char>>|
                listed_names(store, names) && after.said == Ok::<OutcomeView, Seq<char>>(
                    OutcomeView::of(seq![stacks_report(names)]),
                ),
            StackEffect::Head { stack, n } => after == (Effected {
                store,
                said: spec_list_range(store, stack@, 0, Some(n as nat), false, output),
            }),
            StackEffect::Tail { stack, n } => after == (Effected {
                store,
                said: spec_list_range(store, stack@, 0, Some(n as nat), true, output),
            }),
            StackEffect::Count { stack } => after == (Effected {
                store,
                said: spec_count(store, stack@, output),
            }),
            StackEffect::IsEmpty { stack } => after == (Effected {
                store,
                said: spec_is_empty(store, stack@, output),
            }),
        }
    }

    /// The names of the stacks that the operation loads or saves. Listing
    /// the stacks names none: it asks only which stacks there are.
    pub open spec fn touched(self) -> Seq<Seq<char>> {
        match self {
            StackEffect::Push { stack, content } => seq![stack@],
            StackEffect::Complete { stack, index } => seq![stack@, history_name(stack@)],
            StackEffect::Delete { stack, index } => seq![stack@, history_name(stack@)],
            StackEffect::DeleteAll { stack } => seq![stack@, history_name(stack@)],
            StackEffect::Edit { stack, editor, index } => seq![stack@],
            StackEffect::Pick { stack, indices } => seq![stack@],
            StackEffect::Move { stack, dest } => seq![stack@, dest@],
            StackEffect::MoveAll { stack, dest } => seq![stack@, dest@],
            StackEffect::Swap { stack } => seq![stack@],
            StackEffect::Rot { stack } => seq![stack@],
            StackEffect::Next { stack } => seq![stack@],
            StackEffect::Peek { stack } => seq![stack@],
            StackEffect::ListAll { stack } => seq![stack@],
            StackEffect::ListStacks => Seq::empty(),
            StackEffect::Head { stack, n } => seq![stack@],
            StackEffect::Tail { stack, n } => seq![stack@],
            StackEffect::Count { stack } => seq![stack@],
            StackEffect::IsEmpty { stack } => seq![stack@],
        }
    }

    /// What the operation needs to find in the store: the stacks that it
    /// loads or saves, or, for a listing of the stacks, every name under
    /// which something is kept.
    pub fn reach(&self) -> (reach: Reach)
        ensures
            match reach {
                Reach::Names => *self == StackEffect::ListStacks,
                Reach::Stacks(names) => *self != StackEffect::ListStacks && names.deep_view()
                    == self.touched(),
            },
    {
        let names = match self {
            StackEffect::ListStacks => {
                return Reach::Names;
            },
            StackEffect::Complete { stack, index: _ } => both(
                stack.clone(),
                stack_history_of(stack.as_str()),
            ),
            StackEffect::Delete { stack, index: _ } => both(
                stack.clone(),
                stack_history_of(stack.as_str()),
            ),
            StackEffect::DeleteAll { stack } => both(
                stack.clone(),
                stack_history_of(stack.as_str()),
            ),
            StackEffect::Move { stack, dest } => both(stack.clone(), dest.clone()),
            StackEffect::MoveAll { stack, dest } => both(stack.clone(), dest.clone()),
            StackEffect::Push { stack, content: _ } => only(stack.clone()),
            StackEffect::Edit { stack, editor: _, index: _ } => only(stack.clone()),
            StackEffect::Pick { stack, indices: _ } => only(stack.clone()),
            StackEffect::Swap { stack } => only(stack.clone()),
            StackEffect::Rot { stack } => only(stack.clone()),
            StackEffect::Next { stack } => only(stack.clone()),
            StackEffect::Peek { stack } => only(stack.clone()),
            StackEffect::ListAll { stack } => only(stack.clone()),
            StackEffect::Head { stack, n: _ } => only(stack.clone()),
            StackEffect::Tail { stack, n: _ } => only(stack.clone()),
            StackEffect::Count { stack } => only(stack.clone()),
            StackEffect::IsEmpty { stack } => only(stack.clone()),
        };
        Reach::Stacks(names)
    }

    /// Runs the operation as if the clock stood at `now`.
    pub fn run_at(self, now: Timestamp, data_store: &mut DataStore, output: &OutputFormat) -> (result:
        Result<Outcome, Unreadable>)
        ensures
            self.runs_to(old(data_store)@, *output, now, effected(final(data_store)@, result)),
    {
        match self {
            StackEffect::Push { stack, content } => push_content(
                stack.as_str(),
                content.as_str(),
                now,
                data_store,
            ),
            StackEffect::Complete { stack, index } => complete_item(
                stack.as_str(),
                index,
                now,
                data_store,
                output,
            ),
            StackEffect::Delete { stack, index } => delete_latest_item(
                stack.as_str(),
                index,
                now,
                data_store,
                output,
            ),
            StackEffect::DeleteAll { stack } => delete_all_items(stack.as_str(), now, data_store),
            StackEffect::Edit { stack, editor, index } => edit_item(
                stack.as_str(),
                editor.as_str(),
                index,
                data_store,
            ),
            StackEffect::Pick { stack, indices } => pick_indices(
                stack.as_str(),
                indices,
                data_store,
                output,
            ),
            StackEffect::Move { stack, dest } => move_latest_item(
                stack.as_str(),
                dest.as_str(),
                data_store,
            ),
            StackEffect::MoveAll { stack, dest } => move_all_items(
                stack.as_str(),
                dest.as_str(),
                data_store,
            ),
            StackEffect::Swap { stack } => swap_latest_two_items(stack.as_str(), data_store, output),
            StackEffect::Rot { stack } => rotate_latest_three_items(
                stack.as_str(),
                data_store,
                output,
            ),
            StackEffect::Next { stack } => next_to_latest(stack.as_str(), data_store, output),
            StackEffect::Peek { stack } => peek_latest_item(stack.as_str(), data_store, output),
            StackEffect::ListAll { stack } => list_all_items(stack.as_str(), data_store, output),
            StackEffect::ListStacks => Ok(list_stacks(data_store)),
            StackEffect::Head { stack, n } => list_n_latest_items(
                stack.as_str(),
                n,
                data_store,
                output,
            ),
            StackEffect::Tail { stack, n } => list_n_oldest_items(
                stack.as_str(),
                n,
                data_store,
                output,
            ),
            StackEffect::Count { stack } => count_all_items(stack.as_str(), data_store, output),
            StackEffect::IsEmpty { stack } => is_empty(stack.as_str(), data_store, output),
        }
    }

    /// Runs the operation now. What it comes to is what `run_at` comes to at
    /// the moment that the clock shows.
    pub fn run(self, data_store: &mut DataStore, output: &OutputFormat) -> (result: Result<
        Outcome,
        Unreadable,
    >)
        ensures
            exists|now: Timestamp|
                self.runs_to(old(data_store)@, *output, now, effected(final(data_store)@, result)),
    {
        let now = clock_now();
        self.run_at(now, data_store, output)
    }
}

} // verus!
