//! What holds of the operations taken together.

use crate::data::{created_from, legacy_history, ItemView, StoreView, Timestamp};
use crate::effects::{
    history_name, listed_names, listing_rows, picked, rotated, spec_complete, spec_count,
    spec_is_empty, spec_list_range, spec_move_all, spec_peek, spec_pick, spec_push, spec_rot,
    spec_swap, stacks_report, swapped, Effected, OutcomeView, StackEffect,
};
use crate::output::{OutputFormat, ReportView};
use crate::text::{decimal_text, lemma_text_order_is_total, precedes};
use vstd::prelude::*;

verus! {

/// What was saved under a name is what loading that name gives, and other
/// names give what they gave before.
pub proof fn law_save_then_load(
    store: StoreView,
    name: Seq<char>,
    items: Seq<ItemView>,
    other: Seq<char>,
)
    ensures
        store.saved(name, items).readable(name),
        store.saved(name, items).items(name) == items,
        other != name ==> store.saved(name, items).readable(other) == store.readable(other),
        other != name ==> store.saved(name, items).items(other) == store.items(other),
{
}

/// After a push onto a stack that can be read, a peek shows the text that
/// was pushed, and the count is one more than it was.
pub proof fn law_push_then_peek_and_count(
    store: StoreView,
    stack: Seq<char>,
    item: ItemView,
    output: OutputFormat,
)
    requires
        store.readable(stack),
        !output.is_silent(),
    ensures
        spec_peek(spec_push(store, stack, item).store, stack, output) == Ok::<
            OutcomeView,
            Seq<char>,
        >(
            OutcomeView::of(
                seq![
                    ReportView::log_always(
                        seq!["position"@, "item"@],
                        seq![seq!["Now"@, item.contents]],
                    ),
                ],
            ),
        ),
        spec_push(store, stack, item).store.items(stack).len() == store.items(stack).len() + 1,
        spec_count(spec_push(store, stack, item).store, stack, output) == Ok::<
            OutcomeView,
            Seq<char>,
        >(
            OutcomeView::of(
                seq![
                    ReportView::log_always(
                        seq!["items"@],
                        seq![seq![decimal_text(store.items(stack).len() + 1)]],
                    ),
                ],
            ),
        ),
{
}

/// A listing of all items has one row for each item there is: as many as
/// the count says. Of a stack that has items, the listing that is reported
/// has exactly these rows.
pub proof fn law_listing_matches_count(store: StoreView, stack: Seq<char>, output: OutputFormat)
    requires
        store.readable(stack),
        !output.is_silent(),
    ensures
        listing_rows(
            store.items(stack),
            0,
            store.items(stack).len(),
            output.is_nonquiet_for_humans(),
        ).len() == store.items(stack).len(),
        spec_count(store, stack, output) == Ok::<OutcomeView, Seq<char>>(
            OutcomeView::of(
                seq![
                    ReportView::log_always(
                        seq!["items"@],
                        seq![seq![decimal_text(store.items(stack).len())]],
                    ),
                ],
            ),
        ),
        store.items(stack).len() > 0 ==> (spec_list_range(store, stack, 0, None, false, output)
            matches Ok(listing) && listing.reports.len() == 1 && listing.reports[0].rows.len()
            == store.items(stack).len()),
{
}

/// Completing the current item of a stack takes it off the stack and puts
/// it, with one more event that says so, at the end of the history stack.
pub proof fn law_complete_moves_to_history(
    store: StoreView,
    stack: Seq<char>,
    now: Timestamp,
    output: OutputFormat,
)
    requires
        store.readable(stack),
        store.readable(history_name(stack)),
        store.items(stack).len() > 0,
    ensures
        spec_complete(store, stack, 0, now, output).said is Ok,
        spec_complete(store, stack, 0, now, output).store.items(stack) == store.items(
            stack,
        ).drop_last(),
        spec_complete(store, stack, 0, now, output).store.items(history_name(stack))
            == store.items(history_name(stack)).push(
            store.items(stack).last().with_event("completed"@, now),
        ),
{
    reveal_strlit("_history");
    assert(history_name(stack).len() == stack.len() + 8);
    let items = store.items(stack);
    assert(items.remove(items.len() - 1) =~= items.drop_last());
}

/// Swapping exchanges the two items of a stack of two, and leaves a stack
/// of fewer items, and what is said of it, alone. Swapping twice gives back
/// the stack of before.
pub proof fn law_swap(store: StoreView, stack: Seq<char>, output: OutputFormat)
    requires
        store.readable(stack),
    ensures
        store.items(stack).len() == 2 ==> spec_swap(store, stack, output).store.items(stack)
            == seq![store.items(stack)[1], store.items(stack)[0]],
        store.items(stack).len() < 2 ==> spec_swap(store, stack, output).store == store
            && spec_swap(store, stack, output).said == Ok::<OutcomeView, Seq<char>>(
            OutcomeView::nothing(),
        ),
        spec_swap(spec_swap(store, stack, output).store, stack, output).store.items(stack)
            == store.items(stack),
{
    let items = store.items(stack);
    if items.len() == 2 {
        assert(swapped(items) =~= seq![items[1], items[0]]);
    }
    if items.len() >= 2 {
        assert(swapped(swapped(items)) =~= items);
    }
}

/// Rotating a stack of three or more items three times gives back the
/// stack of before.
pub proof fn law_rot_three_times(store: StoreView, stack: Seq<char>, output: OutputFormat)
    requires
        store.readable(stack),
        store.items(stack).len() >= 3,
    ensures
        spec_rot(
            spec_rot(spec_rot(store, stack, output).store, stack, output).store,
            stack,
            output,
        ).store.items(stack) == store.items(stack),
        rotated(rotated(rotated(store.items(stack)))) == store.items(stack),
{
    let items = store.items(stack);
    let once = rotated(items);
    let twice = rotated(once);
    assert(rotated(twice) =~= items);
}

/// Picking the current item of a stack that has items changes nothing in
/// what the store keeps.
pub proof fn law_pick_top_changes_nothing(store: StoreView, stack: Seq<char>, output: OutputFormat)
    requires
        store.readable(stack),
        store.items(stack).len() > 0,
    ensures
        picked(store.items(stack), seq![0usize]).0 == store.items(stack),
        spec_pick(store, stack, seq![0usize], output).store.stacks == store.stacks,
{
    let items = store.items(stack);
    let indices = seq![0usize];
    reveal_with_fuel(crate::effects::picked_from, 3);
    assert(!Seq::<usize>::empty().contains(0usize));
    assert(crate::effects::promoted(items, 0) =~= items);
    assert(picked(items, indices).0 == items);
    assert(store.stacks.insert(stack, Some(items)) =~= store.stacks);
}

/// Moving all items to another stack leaves the source empty and the
/// destination with its own items followed by those of the source, each in
/// the order they had: as many as the two held together.
pub proof fn law_move_all(store: StoreView, source: Seq<char>, dest: Seq<char>)
    requires
        store.readable(source),
        store.readable(dest),
        source != dest,
    ensures
        spec_move_all(store, source, dest).said is Ok,
        spec_move_all(store, source, dest).store.items(source).len() == 0,
        spec_move_all(store, source, dest).store.items(dest) == store.items(dest) + store.items(
            source,
        ),
        spec_move_all(store, source, dest).store.items(dest).len() == store.items(dest).len()
            + store.items(source).len(),
{
    if store.items(source).len() == 0 {
        assert(store.items(dest) + store.items(source) =~= store.items(dest));
    }
}

/// An item that was just created knows when; an event more does not make
/// it forget.
pub proof fn law_items_keep_their_creation(
    contents: Seq<char>,
    at: Timestamp,
    item: ItemView,
    kind: Seq<char>,
    then: Timestamp,
)
    ensures
        ItemView::fresh(contents, at).created() == Some(at),
        item.created() is Some ==> item.with_event(kind, then).created() == item.created(),
{
    if item.created() is Some {
        lemma_created_stays(item.history, (kind, then), 0);
    }
}

proof fn lemma_created_stays(
    history: Seq<(Seq<char>, Timestamp)>,
    event: (Seq<char>, Timestamp),
    from: int,
)
    requires
        0 <= from,
        created_from(history, from) is Some,
    ensures
        created_from(history.push(event), from) == created_from(history, from),
    decreases history.len() - from,
{
    if from < history.len() && history[from].0 != "created"@ {
        lemma_created_stays(history, event, from + 1);
    }
}

/// An earlier item that succeeded no earlier than it was created stands for
/// an item that was created and then completed.
pub proof fn law_legacy_item_that_succeeded(created: Timestamp, succeeded: Timestamp)
    requires
        created.not_after(succeeded),
    ensures
        legacy_history(created, Some(succeeded), None) == seq![
            ("created"@, created),
            ("completed"@, succeeded),
        ],
{
    let begun = seq![("created"@, created)];
    assert(begun.last() == ("created"@, created));
    assert(begun.push(("completed"@, succeeded)) =~= seq![
        ("created"@, created),
        ("completed"@, succeeded),
    ]);
}

/// The history that stands for an earlier item is sorted by time.
pub proof fn law_legacy_history_ascending(
    created: Timestamp,
    succeeded: Option<Timestamp>,
    failed: Option<Timestamp>,
)
    ensures
        forall|i: int, j: int|
            0 <= i < j < legacy_history(created, succeeded, failed).len() ==> legacy_history(
                created,
                succeeded,
                failed,
            )[i].1.not_after(legacy_history(created, succeeded, failed)[j].1),
{
    reveal_with_fuel(crate::data::placed, 4);
    let begun = seq![("created"@, created)];
    match succeeded {
        Some(at) => {
            let ended = crate::data::placed(begun, ("completed"@, at));
            assert(begun.drop_last() =~= Seq::empty());
            match failed {
                Some(then) => {
                    if ended.last().1.not_after(then) {
                    } else {
                        assert(ended.len() == 2);
                        let head = ended.drop_last();
                        assert(head.len() == 1);
                        assert(head.drop_last() =~= Seq::empty());
                    }
                },
                None => {},
            }
        },
        None => {
            match failed {
                Some(then) => {
                    assert(begun.drop_last() =~= Seq::empty());
                },
                None => {},
            }
        },
    }
}

/// There is one way only to list the names of a store's stacks in
/// ascending order.
pub proof fn law_stacks_are_listed_one_way(
    store: StoreView,
    names: Seq<Seq<char>>,
    others: Seq<Seq<char>>,
)
    requires
        listed_names(store, names),
        listed_names(store, others),
    ensures
        names == others,
{
    broadcast use vstd::seq_lib::to_multiset_contains;

    let leq = |a: Seq<char>, b: Seq<char>| !precedes(b, a);
    lemma_text_order_is_total();
    names.lemma_multiset_has_no_duplicates();
    others.lemma_multiset_has_no_duplicates();
    assert forall|name: Seq<char>| names.to_multiset().count(name) == others.to_multiset().count(
        name,
    ) by {
        assert(names.contains(name) <==> names.to_multiset().count(name) > 0);
        assert(others.contains(name) <==> others.to_multiset().count(name) > 0);
        assert(names.contains(name) <==> others.contains(name));
        if names.contains(name) {
            assert(names.to_multiset().contains(name));
            assert(others.to_multiset().contains(name));
        }
    }
    assert(names.to_multiset() =~= others.to_multiset());
    assert(vstd::relations::sorted_by(names, leq)) by {
        assert forall|i: int, j: int| 0 <= i < j < names.len() implies #[trigger] leq(
            names[i],
            names[j],
        ) by {}
    }
    assert(vstd::relations::sorted_by(others, leq)) by {
        assert forall|i: int, j: int| 0 <= i < j < others.len() implies #[trigger] leq(
            others[i],
            others[j],
        ) by {}
    }
    vstd::seq_lib::lemma_sorted_unique(names, others, leq);
}

/// Whether two stores keep the same under a name.
pub open spec fn same_under(first: StoreView, second: StoreView, name: Seq<char>) -> bool {
    first.stacks.contains_key(name) == second.stacks.contains_key(name) && (
    first.stacks.contains_key(name) ==> first.stacks[name] == second.stacks[name])
}

proof fn lemma_one_name(a: Seq<char>, name: Seq<char>)
    ensures
        seq![a].contains(name) <==> name == a,
{
    assert(seq![a][0] == a);
}

proof fn lemma_two_names(a: Seq<char>, b: Seq<char>, name: Seq<char>)
    ensures
        seq![a, b].contains(name) <==> (name == a || name == b),
{
    assert(seq![a, b][0] == a);
    assert(seq![a, b][1] == b);
}

/// An operation leaves alone what is kept under the names that it does not
/// touch, and the place and the format of the store; what it adds to the
/// journal are names that it touches.
pub proof fn law_only_touched_stacks_change(
    effect: StackEffect,
    store: StoreView,
    output: OutputFormat,
    now: Timestamp,
    after: Effected,
    name: Seq<char>,
)
    requires
        effect.runs_to(store, output, now, after),
    ensures
        !effect.touched().contains(name) ==> same_under(after.store, store, name),
        after.store.working_dir == store.working_dir,
        after.store.data_format == store.data_format,
        after.store.journal.len() >= store.journal.len(),
        after.store.journal.subrange(0, store.journal.len() as int) == store.journal,
        forall|i: int|
            store.journal.len() <= i < after.store.journal.len() ==> effect.touched().contains(
                #[trigger] after.store.journal[i],
            ),
{
    assert(store.journal.subrange(0, store.journal.len() as int) =~= store.journal);
    match effect {
        StackEffect::Push { stack, content } => {
            lemma_one_name(stack@, name);
            lemma_one_name(stack@, stack@);
            assert(after.store.journal.subrange(0, store.journal.len() as int)
                =~= store.journal);
        },
        StackEffect::Complete { stack, index } => {
            lemma_two_names(stack@, history_name(stack@), name);
            lemma_two_names(stack@, history_name(stack@), stack@);
            lemma_two_names(stack@, history_name(stack@), history_name(stack@));
            assert(after.store.journal.subrange(0, store.journal.len() as int)
                =~= store.journal);
        },
        StackEffect::Delete { stack, index } => {
            lemma_two_names(stack@, history_name(stack@), name);
            lemma_two_names(stack@, history_name(stack@), stack@);
            lemma_two_names(stack@, history_name(stack@), history_name(stack@));
            assert(after.store.journal.subrange(0, store.journal.len() as int)
                =~= store.journal);
        },
        StackEffect::DeleteAll { stack } => {
            lemma_two_names(stack@, history_name(stack@), name);
            lemma_two_names(stack@, history_name(stack@), stack@);
            lemma_two_names(stack@, history_name(stack@), history_name(stack@));
            assert(after.store.journal.subrange(0, store.journal.len() as int)
                =~= store.journal);
        },
        StackEffect::Move { stack, dest } => {
            lemma_two_names(stack@, dest@, name);
            lemma_two_names(stack@, dest@, stack@);
            lemma_two_names(stack@, dest@, dest@);
            assert(after.store.journal.subrange(0, store.journal.len() as int)
                =~= store.journal);
        },
        StackEffect::MoveAll { stack, dest } => {
            lemma_two_names(stack@, dest@, name);
            lemma_two_names(stack@, dest@, stack@);
            lemma_two_names(stack@, dest@, dest@);
            assert(after.store.journal.subrange(0, store.journal.len() as int)
                =~= store.journal);
        },
        StackEffect::Pick { stack, indices } => {
            lemma_one_name(stack@, name);
            lemma_one_name(stack@, stack@);
            assert(after.store.journal.subrange(0, store.journal.len() as int)
                =~= store.journal);
        },
        StackEffect::Swap { stack } => {
            lemma_one_name(stack@, name);
            lemma_one_name(stack@, stack@);
            assert(after.store.journal.subrange(0, store.journal.len() as int)
                =~= store.journal);
        },
        StackEffect::Rot { stack } => {
            lemma_one_name(stack@, name);
            lemma_one_name(stack@, stack@);
            assert(after.store.journal.subrange(0, store.journal.len() as int)
                =~= store.journal);
        },
        StackEffect::Next { stack } => {
            lemma_one_name(stack@, name);
            lemma_one_name(stack@, stack@);
            assert(after.store.journal.subrange(0, store.journal.len() as int)
                =~= store.journal);
        },
        _ => {},
    }
}

/// What an operation other than the listing of stacks comes to depends
/// only on what the store keeps under the names that it touches: run on two
/// stores that keep the same there, it answers the same and leaves the same
/// there.
pub proof fn law_only_touched_stacks_matter(
    effect: StackEffect,
    first: StoreView,
    second: StoreView,
    output: OutputFormat,
    now: Timestamp,
    after_first: Effected,
    after_second: Effected,
)
    requires
        effect != StackEffect::ListStacks,
        effect.runs_to(first, output, now, after_first),
        effect.runs_to(second, output, now, after_second),
        forall|name: Seq<char>|
            effect.touched().contains(name) ==> same_under(first, second, name),
    ensures
        after_first.said == after_second.said,
        forall|name: Seq<char>|
            effect.touched().contains(name) ==> same_under(
                after_first.store,
                after_second.store,
                name,
            ),
{
    let touched = effect.touched();
    assert forall|name: Seq<char>| touched.contains(name) implies first.readable(name)
        == second.readable(name) && first.items(name) == second.items(name) by {
        assert(same_under(first, second, name));
    }
    match effect {
        StackEffect::Complete { stack, index } => {
            lemma_two_names(stack@, history_name(stack@), stack@);
            lemma_two_names(stack@, history_name(stack@), history_name(stack@));
            assert forall|name: Seq<char>| touched.contains(name) implies same_under(
                after_first.store,
                after_second.store,
                name,
            ) by {
                lemma_two_names(stack@, history_name(stack@), name);
            }
        },
        StackEffect::Delete { stack, index } => {
            lemma_two_names(stack@, history_name(stack@), stack@);
            lemma_two_names(stack@, history_name(stack@), history_name(stack@));
            assert forall|name: Seq<char>| touched.contains(name) implies same_under(
                after_first.store,
                after_second.store,
                name,
            ) by {
                lemma_two_names(stack@, history_name(stack@), name);
            }
        },
        StackEffect::DeleteAll { stack } => {
            lemma_two_names(stack@, history_name(stack@), stack@);
            lemma_two_names(stack@, history_name(stack@), history_name(stack@));
            assert forall|name: Seq<char>| touched.contains(name) implies same_under(
                after_first.store,
                after_second.store,
                name,
            ) by {
                lemma_two_names(stack@, history_name(stack@), name);
            }
        },
        StackEffect::Move { stack, dest } => {
            lemma_two_names(stack@, dest@, stack@);
            lemma_two_names(stack@, dest@, dest@);
            assert forall|name: Seq<char>| touched.contains(name) implies same_under(
                after_first.store,
                after_second.store,
                name,
            ) by {
                lemma_two_names(stack@, dest@, name);
            }
        },
        StackEffect::MoveAll { stack, dest } => {
            lemma_two_names(stack@, dest@, stack@);
            lemma_two_names(stack@, dest@, dest@);
            assert forall|name: Seq<char>| touched.contains(name) implies same_under(
                after_first.store,
                after_second.store,
                name,
            ) by {
                lemma_two_names(stack@, dest@, name);
            }
        },
        StackEffect::ListStacks => {},
        StackEffect::Push { stack, content } => {
            lemma_one_name(stack@, stack@);
            assert forall|name: Seq<char>| touched.contains(name) implies same_under(
                after_first.store,
                after_second.store,
                name,
            ) by {
                lemma_one_name(stack@, name);
            }
        },
        StackEffect::Edit { stack, editor, index } => {
            lemma_one_name(stack@, stack@);
            assert forall|name: Seq<char>| touched.contains(name) implies same_under(
                after_first.store,
                after_second.store,
                name,
            ) by {
                lemma_one_name(stack@, name);
            }
        },
        StackEffect::Pick { stack, indices } => {
            lemma_one_name(stack@, stack@);
            assert forall|name: Seq<char>| touched.contains(name) implies same_under(
                after_first.store,
                after_second.store,
                name,
            ) by {
                lemma_one_name(stack@, name);
            }
        },
        StackEffect::Swap { stack } => {
            lemma_one_name(stack@, stack@);
            assert forall|name: Seq<char>| touched.contains(name) implies same_under(
                after_first.store,
                after_second.store,
                name,
            ) by {
                lemma_one_name(stack@, name);
            }
        },
        StackEffect::Rot { stack } => {
            lemma_one_name(stack@, stack@);
            assert forall|name: Seq<char>| touched.contains(name) implies same_under(
                after_first.store,
                after_second.store,
                name,
            ) by {
                lemma_one_name(stack@, name);
            }
        },
        StackEffect::Next { stack } => {
            lemma_one_name(stack@, stack@);
            assert forall|name: Seq<char>| touched.contains(name) implies same_under(
                after_first.store,
                after_second.store,
                name,
            ) by {
                lemma_one_name(stack@, name);
            }
        },
        StackEffect::Peek { stack } => {
            lemma_one_name(stack@, stack@);
            assert forall|name: Seq<char>| touched.contains(name) implies same_under(
                after_first.store,
                after_second.store,
                name,
            ) by {
                lemma_one_name(stack@, name);
            }
        },
        StackEffect::ListAll { stack } => {
            lemma_one_name(stack@, stack@);
            assert forall|name: Seq<char>| touched.contains(name) implies same_under(
                after_first.store,
                after_second.store,
                name,
            ) by {
                lemma_one_name(stack@, name);
            }
        },
        StackEffect::Head { stack, n } => {
            lemma_one_name(stack@, stack@);
            assert forall|name: Seq<char>| touched.contains(name) implies same_under(
                after_first.store,
                after_second.store,
                name,
            ) by {
                lemma_one_name(stack@, name);
            }
        },
        StackEffect::Tail { stack, n } => {
            lemma_one_name(stack@, stack@);
            assert forall|name: Seq<char>| touched.contains(name) implies same_under(
                after_first.store,
                after_second.store,
                name,
            ) by {
                lemma_one_name(stack@, name);
            }
        },
        StackEffect::Count { stack } => {
            lemma_one_name(stack@, stack@);
            assert forall|name: Seq<char>| touched.contains(name) implies same_under(
                after_first.store,
                after_second.store,
                name,
            ) by {
                lemma_one_name(stack@, name);
            }
        },
        StackEffect::IsEmpty { stack } => {
            lemma_one_name(stack@, stack@);
            assert forall|name: Seq<char>| touched.contains(name) implies same_under(
                after_first.store,
                after_second.store,
                name,
            ) by {
                lemma_one_name(stack@, name);
            }
        },
    }
}

/// The listing of stacks depends only on the names under which the store
/// keeps something.
pub proof fn law_listing_stacks_asks_for_names_only(
    first: StoreView,
    second: StoreView,
    output: OutputFormat,
    now: Timestamp,
    after_first: Effected,
    after_second: Effected,
)
    requires
        StackEffect::ListStacks.runs_to(first, output, now, after_first),
        StackEffect::ListStacks.runs_to(second, output, now, after_second),
        first.stacks.dom() == second.stacks.dom(),
    ensures
        after_first.said == after_second.said,
{
    let names = choose|names: Seq<Seq<char>>|
        listed_names(first, names) && after_first.said == Ok::<OutcomeView, Seq<char>>(
            OutcomeView::of(seq![stacks_report(names)]),
        );
    let others = choose|names: Seq<Seq<char>>|
        listed_names(second, names) && after_second.said == Ok::<OutcomeView, Seq<char>>(
            OutcomeView::of(seq![stacks_report(names)]),
        );
    assert(listed_names(first, others)) by {
        assert forall|name: Seq<char>| others.contains(name) <==> first.stacks.contains_key(
            name,
        ) by {
            assert(first.stacks.dom().contains(name) == second.stacks.dom().contains(name));
        }
    }
    law_stacks_are_listed_one_way(first, names, others);
}

/// A stack under whose name nothing is kept is reported as empty, and all
/// is well; after a push it is reported as not empty, with a status that
/// says so unless the output is bare text.
pub proof fn law_is_empty(store: StoreView, stack: Seq<char>, item: ItemView, output: OutputFormat)
    requires
        !store.stacks.contains_key(stack),
    ensures
        spec_is_empty(store, stack, output) == Ok::<OutcomeView, Seq<char>>(
            OutcomeView::of(seq![ReportView::log_always(seq!["empty"@], seq![seq!["true"@]])]),
        ),
        spec_is_empty(spec_push(store, stack, item).store, stack, output) == Ok::<
            OutcomeView,
            Seq<char>,
        >(
            OutcomeView {
                reports: seq![ReportView::log_always(seq!["empty"@], seq![seq!["false"@]])],
                exit_code: if output.is_terse() {
                    0
                } else {
                    1
                },
                edit: None,
            },
        ),
{
}

} // verus!
