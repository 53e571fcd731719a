//! Items and their histories, the store that keeps the stacks, and the two
//! ways in which items have been written down.

use vstd::prelude::*;

verus! {

/// A moment in time: whole seconds since the start of 1970 (UTC) and the
/// nanoseconds that have passed within that second.
#[derive(Clone, Copy, Debug, PartialEq, Eq, Structural)]
pub struct Timestamp {
    pub secs: i64,
    pub nanos: u32,
}

impl Timestamp {
    /// Whether `self` comes no later than `other`.
    pub open spec fn spec_not_after(self, other: Timestamp) -> bool {
        self.secs < other.secs || (self.secs == other.secs && self.nanos <= other.nanos)
    }

    /// Whether `self` comes no later than `other`.
    #[verifier::when_used_as_spec(spec_not_after)]
    pub fn not_after(self, other: Timestamp) -> (r: bool)
        ensures
            r == self.spec_not_after(other),
    {
        self.secs < other.secs || (self.secs == other.secs && self.nanos <= other.nanos)
    }
}

/// Reads the clock through `chrono::Local::now` and keeps the instant it
/// reports: `DateTime::timestamp` for the seconds and
/// `DateTime::timestamp_subsec_nanos` for the rest. Nothing is claimed of the
/// value, which differs from call to call. (chrono gives up where the
/// system's clock stands before 1970.)
#[verifier::external_body]
pub(crate) fn clock_now() -> (now: Timestamp) {
    let now = chrono::Local::now();
    Timestamp { secs: now.timestamp(), nanos: now.timestamp_subsec_nanos() }
}

/// What an item is worth in contracts: its text and its events, oldest first,
/// each with the word that names it and the moment it happened.
pub struct ItemView {
    pub contents: Seq<char>,
    pub history: Seq<(Seq<char>, Timestamp)>,
}

/// The moment of the first `created` event at or after place `from` of a
/// history, if there is one.
pub open spec fn created_from(history: Seq<(Seq<char>, Timestamp)>, from: int) -> Option<
    Timestamp,
>
    decreases history.len() - from,
{
    if from < 0 || from >= history.len() {
        None
    } else if history[from].0 == "created"@ {
        Some(history[from].1)
    } else {
        created_from(history, from + 1)
    }
}

impl ItemView {
    /// The moment at which the item was created: that of the first
    /// `created` event of its history, if there is one.
    pub open spec fn created(self) -> Option<Timestamp> {
        created_from(self.history, 0)
    }

    /// The same item with one more event at the end of its history.
    pub open spec fn with_event(self, kind: Seq<char>, at: Timestamp) -> ItemView {
        ItemView { contents: self.contents, history: self.history.push((kind, at)) }
    }

    /// An item that was just created: one `created` event and nothing else.
    pub open spec fn fresh(contents: Seq<char>, at: Timestamp) -> ItemView {
        ItemView { contents, history: seq![("created"@, at)] }
    }
}

/// The events of a history as contracts see them.
pub open spec fn history_view(history: Seq<(String, Timestamp)>) -> Seq<(Seq<char>, Timestamp)> {
    Seq::new(history.len(), |i: int| (history[i].0@, history[i].1))
}

/// A single stack item: a short text and the events of its life, oldest first.
#[derive(Debug, PartialEq, Eq)]
pub struct Item {
    pub contents: String,
    pub history: Vec<(String, Timestamp)>,
}

impl View for Item {
    type V = ItemView;

    open spec fn view(&self) -> ItemView {
        ItemView { contents: self.contents@, history: history_view(self.history@) }
    }
}

impl DeepView for Item {
    type V = ItemView;

    open spec fn deep_view(&self) -> ItemView {
        self@
    }
}

/// A stack of items: the oldest first, the current one last.
pub type Stack = Vec<Item>;

impl Item {
    /// A new item, created now.
    pub fn new(contents: &str) -> (item: Item)
        ensures
            exists|at: Timestamp| item@ == ItemView::fresh(contents@, at),
    {
        Item::created_at(contents, clock_now())
    }

    /// A new item, created at the given moment.
    pub fn created_at(contents: &str, at: Timestamp) -> (item: Item)
        ensures
            item@ == ItemView::fresh(contents@, at),
    {
        let mut history: Vec<(String, Timestamp)> = Vec::new();
        history.push(("created".to_owned(), at));
        let item = Item { contents: contents.to_owned(), history };
        assert(item@.history =~= seq![("created"@, at)]);
        item
    }

    /// Appends one event to the history; the text stays as it is.
    pub fn record(&mut self, kind: &str, at: Timestamp)
        ensures
            final(self)@ == old(self)@.with_event(kind@, at),
    {
        self.history.push((kind.to_owned(), at));
        assert(self@.history =~= old(self)@.history.push((kind@, at)));
    }

    /// Records that the item was completed now.
    pub fn mark_completed(&mut self)
        ensures
            exists|at: Timestamp| final(self)@ == old(self)@.with_event("completed"@, at),
    {
        self.record("completed", clock_now());
    }

    /// Records that the item was deleted now.
    pub fn mark_deleted(&mut self)
        ensures
            exists|at: Timestamp| final(self)@ == old(self)@.with_event("deleted"@, at),
    {
        self.record("deleted", clock_now());
    }

    /// Records that the item was restored now.
    pub fn mark_restored(&mut self)
        ensures
            exists|at: Timestamp| final(self)@ == old(self)@.with_event("restored"@, at),
    {
        self.record("restored", clock_now());
    }
}

impl Clone for Item {
    /// A copy of the item.
    fn clone(&self) -> (copy: Item)
        ensures
            copy@ == self@,
    {
        let mut history: Vec<(String, Timestamp)> = Vec::new();
        let mut i: usize = 0;
        while i < self.history.len()
            invariant
                i <= self.history.len(),
                history@.len() == i,
                forall|j: int| 0 <= j < i ==> history@[j].0@ == self.history@[j].0@
                    && history@[j].1 == self.history@[j].1,
            decreases self.history.len() - i,
        {
            let kind = self.history[i].0.clone();
            let at = self.history[i].1;
            history.push((kind, at));
            i += 1;
        }
        let copy = Item { contents: self.contents.clone(), history };
        assert(copy@.history =~= self@.history);
        copy
    }
}

/// A copy of a stack.
pub fn duplicate_stack(items: &Vec<Item>) -> (copy: Vec<Item>)
    ensures
        copy.deep_view() == items.deep_view(),
{
    let mut copy: Vec<Item> = Vec::new();
    let mut i: usize = 0;
    while i < items.len()
        invariant
            i <= items.len(),
            copy@.len() == i,
            forall|j: int| 0 <= j < i ==> copy@[j]@ == items@[j]@,
        decreases items.len() - i,
    {
        copy.push(items[i].clone());
        i += 1;
    }
    assert(copy.deep_view() =~= items.deep_view());
    copy
}

/// Where the stacks are kept.
#[derive(Debug, PartialEq, Eq)]
pub enum WorkingDir {
    /// The place that the platform gives to this program's data.
    HomeDir,
    /// A directory of the caller's choice.
    Dir(String),
}

impl Clone for WorkingDir {
    fn clone(&self) -> (copy: WorkingDir)
        ensures
            copy@ == self@,
    {
        match self {
            WorkingDir::HomeDir => WorkingDir::HomeDir,
            WorkingDir::Dir(dir) => WorkingDir::Dir(dir.clone()),
        }
    }
}

/// A place as contracts see it.
pub enum WorkingDirView {
    HomeDir,
    Dir(Seq<char>),
}

impl View for WorkingDir {
    type V = WorkingDirView;

    open spec fn view(&self) -> WorkingDirView {
        match *self {
            WorkingDir::HomeDir => WorkingDirView::HomeDir,
            WorkingDir::Dir(dir) => WorkingDirView::Dir(dir@),
        }
    }
}

/// How a stack is written down.
#[derive(Clone, Copy, Debug, PartialEq, Eq, Structural)]
pub enum DataFormat {
    /// One JSON file per stack, named after the stack.
    SigiJson,
}

/// The failure to read what is kept under a stack's name.
#[derive(Debug, PartialEq, Eq)]
pub struct Unreadable {
    pub stack: String,
}

/// What is kept under one name: the items, or `None` where what is there
/// cannot be read as a stack.
struct Slot {
    name: String,
    items: Option<Vec<Item>>,
}

impl Slot {
    spec fn spec_name(self) -> Seq<char> {
        self.name@
    }

    spec fn spec_items(self) -> Option<Seq<ItemView>> {
        match self.items {
            Some(items) => Some(items.deep_view()),
            None => None,
        }
    }
}

/// What a store holds, as contracts see it.
pub struct StoreView {
    /// Where the stacks are kept.
    pub working_dir: WorkingDirView,
    /// How they are written down.
    pub data_format: DataFormat,
    /// For each name under which something is kept: the stack, or `None`
    /// where it cannot be read.
    pub stacks: Map<Seq<char>, Option<Seq<ItemView>>>,
    /// The names that were saved, in the order of the saves.
    pub journal: Seq<Seq<char>>,
}

impl StoreView {
    /// Whether loading `name` succeeds: nothing is kept under it, or a stack.
    pub open spec fn readable(self, name: Seq<char>) -> bool {
        self.stacks.contains_key(name) ==> self.stacks[name] is Some
    }

    /// What loading `name` gives: the stack kept under it, and the empty
    /// stack where nothing is.
    pub open spec fn items(self, name: Seq<char>) -> Seq<ItemView> {
        if self.stacks.contains_key(name) && self.stacks[name] is Some {
            self.stacks[name]->0
        } else {
            Seq::empty()
        }
    }

    /// The store once it holds `stored` under `name`: a stack, or `None` for
    /// what cannot be read. Nothing else changes.
    pub open spec fn held(self, name: Seq<char>, stored: Option<Seq<ItemView>>) -> StoreView {
        StoreView { stacks: self.stacks.insert(name, stored), ..self }
    }

    /// The store after `items` were saved under `name`: it holds them there,
    /// and the journal has one more entry.
    pub open spec fn saved(self, name: Seq<char>, items: Seq<ItemView>) -> StoreView {
        StoreView { journal: self.journal.push(name), ..self.held(name, Some(items)) }
    }

    /// The store with an empty journal.
    pub open spec fn settled(self) -> StoreView {
        StoreView { journal: Seq::empty(), ..self }
    }

    /// A store at a place, in a format, that holds nothing.
    pub open spec fn empty(working_dir: WorkingDirView, data_format: DataFormat) -> StoreView {
        StoreView { working_dir, data_format, stacks: Map::empty(), journal: Seq::empty() }
    }
}

/// A storage backend: the place and the format in which stacks are kept, and
/// the stacks themselves as they were read and as the operations left them.
pub struct DataStore {
    working_dir: WorkingDir,
    data_format: DataFormat,
    slots: Vec<Slot>,
    journal: Vec<String>,
}

spec fn holds(slots: Seq<Slot>, name: Seq<char>) -> bool {
    exists|i: int| 0 <= i < slots.len() && slots[i].spec_name() == name
}

spec fn place_of(slots: Seq<Slot>, name: Seq<char>) -> int {
    choose|i: int| 0 <= i < slots.len() && slots[i].spec_name() == name
}

spec fn names_differ(slots: Seq<Slot>) -> bool {
    forall|i: int, j: int|
        0 <= i < j < slots.len() ==> slots[i].spec_name() != slots[j].spec_name()
}

spec fn names_view(names: Seq<String>) -> Seq<Seq<char>> {
    Seq::new(names.len(), |i: int| names[i]@)
}

proof fn lemma_place(slots: Seq<Slot>, i: int)
    requires
        names_differ(slots),
        0 <= i < slots.len(),
    ensures
        holds(slots, slots[i].spec_name()),
        place_of(slots, slots[i].spec_name()) == i,
{
    let j = place_of(slots, slots[i].spec_name());
    if j < i {
        assert(slots[j].spec_name() != slots[i].spec_name());
    } else if i < j {
        assert(slots[i].spec_name() != slots[j].spec_name());
    }
}

impl View for DataStore {
    type V = StoreView;

    closed spec fn view(&self) -> StoreView {
        StoreView {
            working_dir: self.working_dir@,
            data_format: self.data_format,
            stacks: Map::new(
                |name: Seq<char>| holds(self.slots@, name),
                |name: Seq<char>| self.slots@[place_of(self.slots@, name)].spec_items(),
            ),
            journal: names_view(self.journal@),
        }
    }
}

impl DataStore {
    #[verifier::type_invariant]
    spec fn inv(self) -> bool {
        names_differ(self.slots@)
    }

    /// A store at the given place, in the given format, that holds nothing yet.
    pub fn new(working_dir: WorkingDir, data_format: DataFormat) -> (store: DataStore)
        ensures
            store@ == StoreView::empty(working_dir@, data_format),
    {
        let store = DataStore { working_dir, data_format, slots: Vec::new(), journal: Vec::new() };
        assert(store@.stacks =~= Map::<Seq<char>, Option<Seq<ItemView>>>::empty());
        assert(store@.journal =~= Seq::<Seq<char>>::empty());
        store
    }

    fn find(&self, name: &str) -> (found: Option<usize>)
        ensures
            match found {
                Some(i) => i < self.slots@.len() && self.slots@[i as int].spec_name() == name@
                    && holds(self.slots@, name@) && place_of(self.slots@, name@) == i,
                None => !holds(self.slots@, name@),
            },
    {
        proof {
            use_type_invariant(self);
        }
        let mut i: usize = 0;
        while i < self.slots.len()
            invariant
                i <= self.slots@.len(),
                names_differ(self.slots@),
                forall|j: int| 0 <= j < i ==> self.slots@[j].spec_name() != name@,
            decreases self.slots.len() - i,
        {
            if crate::text::same_text(self.slots[i].name.as_str(), name) {
                proof {
                    lemma_place(self.slots@, i as int);
                }
                return Some(i);
            }
            i += 1;
        }
        None
    }

    fn put(&mut self, name: &str, items: Option<Vec<Item>>)
        ensures
            final(self)@ == old(self)@.held(
                name@,
                match items {
                    Some(items) => Some(items.deep_view()),
                    None => None,
                },
            ),
    {
        proof {
            use_type_invariant(&*self);
        }
        let ghost before = self.slots@;
        let slot = Slot { name: name.to_owned(), items };
        let found = self.find(name);
        let mut slots: Vec<Slot> = Vec::new();
        std::mem::swap(&mut self.slots, &mut slots);
        match found {
            Some(i) => {
                slots.set(i, slot);
                assert(names_differ(slots@)) by {
                    assert forall|a: int, b: int| 0 <= a < b < slots@.len() implies slots@[a].spec_name()
                        != slots@[b].spec_name() by {
                        assert(slots@[a].spec_name() == before[a].spec_name());
                        assert(slots@[b].spec_name() == before[b].spec_name());
                    }
                }
                std::mem::swap(&mut self.slots, &mut slots);
                assert(names_differ(self.slots@)) by {
                    assert forall|a: int, b: int| 0 <= a < b < self.slots@.len() implies self.slots@[a].spec_name()
                        != self.slots@[b].spec_name() by {
                        assert(self.slots@[a].spec_name() == before[a].spec_name());
                        assert(self.slots@[b].spec_name() == before[b].spec_name());
                    }
                }
                assert forall|n: Seq<char>| holds(self.slots@, n) == holds(before, n) by {
                    if holds(before, n) {
                        let k = place_of(before, n);
                        assert(self.slots@[k].spec_name() == n);
                    }
                    if holds(self.slots@, n) {
                        let k = place_of(self.slots@, n);
                        assert(before[k].spec_name() == n);
                    }
                }
                assert forall|n: Seq<char>| holds(self.slots@, n) implies self.slots@[place_of(
                    self.slots@,
                    n,
                )].spec_items() == (if n == name@ {
                    slot.spec_items()
                } else {
                    before[place_of(before, n)].spec_items()
                }) by {
                    let k = place_of(self.slots@, n);
                    lemma_place(self.slots@, k);
                    assert(before[k].spec_name() == n);
                    lemma_place(before, k);
                }
            },
            None => {
                slots.push(slot);
                assert(names_differ(slots@)) by {
                    assert forall|a: int, b: int| 0 <= a < b < slots@.len() implies slots@[a].spec_name()
                        != slots@[b].spec_name() by {
                        assert(slots@[a] == before[a]);
                        if b < before.len() {
                            assert(slots@[b] == before[b]);
                        }
                    }
                }
                std::mem::swap(&mut self.slots, &mut slots);
                assert(names_differ(self.slots@)) by {
                    assert forall|a: int, b: int| 0 <= a < b < self.slots@.len() implies self.slots@[a].spec_name()
                        != self.slots@[b].spec_name() by {
                        assert(self.slots@[a] == before[a]);
                        if b < before.len() {
                            assert(self.slots@[b] == before[b]);
                        }
                    }
                }
                let ghost last = before.len() as int;
                assert forall|n: Seq<char>| holds(self.slots@, n) == (n == name@ || holds(before, n)) by {
                    if holds(before, n) {
                        let k = place_of(before, n);
                        assert(self.slots@[k].spec_name() == n);
                    }
                    if n == name@ {
                        assert(self.slots@[last].spec_name() == n);
                    }
                    if holds(self.slots@, n) {
                        let k = place_of(self.slots@, n);
                        if k < last {
                            assert(before[k].spec_name() == n);
                        }
                    }
                }
                assert forall|n: Seq<char>| holds(self.slots@, n) implies self.slots@[place_of(
                    self.slots@,
                    n,
                )].spec_items() == (if n == name@ {
                    slot.spec_items()
                } else {
                    before[place_of(before, n)].spec_items()
                }) by {
                    let k = place_of(self.slots@, n);
                    lemma_place(self.slots@, k);
                    if k < last {
                        assert(before[k].spec_name() == n);
                        lemma_place(before, k);
                    }
                }
            },
        }
        assert(self@.stacks =~= old(self)@.stacks.insert(name@, slot.spec_items()));
    }

    /// Records what the backing storage holds under `name`: a stack that was
    /// read from it. The journal of saves is left as it is.
    pub fn hold(&mut self, name: &str, items: Vec<Item>)
        ensures
            final(self)@ == old(self)@.held(name@, Some(items.deep_view())),
    {
        self.put(name, Some(items));
    }

    /// Records that what the backing storage holds under `name` cannot be
    /// read as a stack.
    pub fn hold_unreadable(&mut self, name: &str)
        ensures
            final(self)@ == old(self)@.held(name@, None),
    {
        self.put(name, None);
    }

    /// Loads a stack. A name under which nothing is kept gives the empty
    /// stack; the load fails only where what is kept cannot be read.
    pub fn load(&self, stack_name: &str) -> (loaded: Result<Stack, Unreadable>)
        ensures
            match loaded {
                Ok(items) => self@.readable(stack_name@) && items.deep_view() == self@.items(
                    stack_name@,
                ),
                Err(e) => !self@.readable(stack_name@) && e.stack@ == stack_name@,
            },
    {
        match self.find(stack_name) {
            Some(i) => {
                match &self.slots[i].items {
                    Some(items) => Ok(duplicate_stack(items)),
                    None => Err(Unreadable { stack: stack_name.to_owned() }),
                }
            },
            None => {
                let items: Vec<Item> = Vec::new();
                assert(items.deep_view() =~= Seq::<ItemView>::empty());
                Ok(items)
            },
        }
    }

    /// The names under which something is kept, each once, in no promised
    /// order.
    pub fn list_stacks(&self) -> (names: Vec<String>)
        ensures
            names.deep_view().no_duplicates(),
            forall|name: Seq<char>|
                names.deep_view().contains(name) <==> self@.stacks.contains_key(name),
    {
        proof {
            use_type_invariant(self);
        }
        let mut names: Vec<String> = Vec::new();
        let mut i: usize = 0;
        while i < self.slots.len()
            invariant
                i <= self.slots@.len(),
                names@.len() == i,
                forall|j: int| 0 <= j < i ==> names@[j]@ == self.slots@[j].spec_name(),
            decreases self.slots.len() - i,
        {
            names.push(self.slots[i].name.clone());
            i += 1;
        }
        let ghost listed = names.deep_view();
        assert forall|a: int, b: int| 0 <= a < listed.len() && 0 <= b < listed.len() && a
            != b implies listed[a] != listed[b] by {
            if a < b {
                assert(self.slots@[a].spec_name() != self.slots@[b].spec_name());
            } else {
                assert(self.slots@[b].spec_name() != self.slots@[a].spec_name());
            }
        }
        assert forall|name: Seq<char>| listed.contains(name) <==> self@.stacks.contains_key(
            name,
        ) by {
            if listed.contains(name) {
                let k = choose|k: int| 0 <= k < listed.len() && listed[k] == name;
                assert(self.slots@[k].spec_name() == name);
            }
            if holds(self.slots@, name) {
                let k = place_of(self.slots@, name);
                assert(listed[k] == name);
            }
        }
        names
    }

    /// The names that were saved since the journal was last cleared, in the
    /// order of the saves.
    pub fn journal(&self) -> (names: Vec<String>)
        ensures
            names.deep_view() == self@.journal,
    {
        let mut names: Vec<String> = Vec::new();
        let mut i: usize = 0;
        while i < self.journal.len()
            invariant
                i <= self.journal@.len(),
                names@.len() == i,
                forall|j: int| 0 <= j < i ==> names@[j]@ == self.journal@[j]@,
            decreases self.journal.len() - i,
        {
            names.push(self.journal[i].clone());
            i += 1;
        }
        assert(names.deep_view() =~= self@.journal);
        names
    }

    /// Forgets the journal, once what it names was written out. The stacks
    /// stay as they are.
    pub fn settle(&mut self)
        ensures
            final(self)@ == old(self)@.settled(),
    {
        proof {
            use_type_invariant(&*self);
        }
        let mut journal: Vec<String> = Vec::new();
        std::mem::swap(&mut self.journal, &mut journal);
        assert(self@.stacks =~= old(self)@.stacks);
        assert(self@.journal =~= Seq::<Seq<char>>::empty());
    }

    /// The format in which the stacks are written down.
    pub fn data_format(&self) -> (format: DataFormat)
        ensures
            format == self@.data_format,
    {
        self.data_format
    }

    /// The directory in which the stacks are kept; `home` is the place that
    /// the platform gives to this program's data.
    pub fn dir(&self, home: &str) -> (dir: String)
        ensures
            dir@ == match self@.working_dir {
                WorkingDirView::HomeDir => home@,
                WorkingDirView::Dir(d) => d,
            },
    {
        match &self.working_dir {
            WorkingDir::HomeDir => home.to_owned(),
            WorkingDir::Dir(d) => d.clone(),
        }
    }

    /// Saves a stack under a name, in place of whatever was kept there, and
    /// notes the name in the journal.
    pub fn save(&mut self, stack_name: &str, items: Stack)
        ensures
            final(self)@ == old(self)@.saved(stack_name@, items.deep_view()),
    {
        proof {
            use_type_invariant(&*self);
        }
        let ghost before = self@;
        self.put(stack_name, Some(items));
        let ghost stacks = self@.stacks;
        proof {
            use_type_invariant(&*self);
        }
        let mut journal: Vec<String> = Vec::new();
        std::mem::swap(&mut self.journal, &mut journal);
        journal.push(stack_name.to_owned());
        std::mem::swap(&mut self.journal, &mut journal);
        assert(self@.stacks =~= stacks);
        assert(self@.journal =~= before.journal.push(stack_name@));
    }
}

// ===== The stacks as files =====

/// The path of the file that keeps a stack: in the directory, under the
/// stack's name, with the ending `.json`.
pub open spec fn file_path(dir: Seq<char>, name: Seq<char>) -> Seq<char> {
    dir + "/"@ + name + ".json"@
}

/// The path of the file that keeps a stack.
pub fn sigi_file(sigi_dir: &str, filename: &str) -> (path: String)
    ensures
        path@ == file_path(sigi_dir@, filename@),
{
    let mut path = sigi_dir.to_owned();
    path.append("/");
    path.append(filename);
    path.append(".json");
    path
}

/// The stacks that a directory keeps, given the names of its files: for
/// each file whose name ends in `.json`, in the order given, the name
/// without that ending.
pub open spec fn stack_names(files: Seq<Seq<char>>) -> Seq<Seq<char>>
    decreases files.len(),
{
    if files.len() == 0 {
        Seq::empty()
    } else if crate::text::ends_with(files.last(), ".json"@) {
        stack_names(files.drop_last()).push(
            files.last().subrange(0, files.last().len() - ".json"@.len()),
        )
    } else {
        stack_names(files.drop_last())
    }
}

/// Tells from the names of a directory's files which stacks it keeps.
pub fn list_json_from(files: &Vec<String>) -> (names: Vec<String>)
    ensures
        names.deep_view() == stack_names(files.deep_view()),
{
    let mut names: Vec<String> = Vec::new();
    let mut i: usize = 0;
    let ghost all = files.deep_view();
    assert(names.deep_view() =~= Seq::<Seq<char>>::empty());
    assert(all.subrange(0, 0) =~= Seq::<Seq<char>>::empty());
    while i < files.len()
        invariant
            i <= files@.len(),
            all == files.deep_view(),
            names.deep_view() == stack_names(all.subrange(0, i as int)),
        decreases files.len() - i,
    {
        let ghost so_far = names.deep_view();
        assert(all.subrange(0, i + 1).drop_last() =~= all.subrange(0, i as int));
        assert(all.subrange(0, i + 1).last() == files@[i as int]@);
        match crate::text::strip_suffix(files[i].as_str(), ".json") {
            Some(name) => {
                names.push(name);
                assert(names.deep_view() =~= so_far.push(name@));
            },
            None => {},
        }
        i += 1;
    }
    assert(all.subrange(0, i as int) =~= all);
    names
}

// ===== The earlier way of writing items down =====

/// An item as it was written down before items had histories.
#[derive(Debug, PartialEq, Eq)]
pub struct V1Item {
    pub name: String,
    pub created: Timestamp,
    pub succeeded: Option<Timestamp>,
    pub failed: Option<Timestamp>,
}

/// A history with one more event, put behind the last event that is not
/// later than it.
pub open spec fn placed(history: Seq<(Seq<char>, Timestamp)>, event: (Seq<char>, Timestamp)) -> Seq<
    (Seq<char>, Timestamp),
>
    decreases history.len(),
{
    if history.len() == 0 {
        seq![event]
    } else if history.last().1.not_after(event.1) {
        history.push(event)
    } else {
        placed(history.drop_last(), event).push(history.last())
    }
}

/// The history that stands for an earlier item: its creation, its
/// completion where it succeeded and its deletion where it failed, sorted by
/// their moments; events of one moment stay in this order.
pub open spec fn legacy_history(
    created: Timestamp,
    succeeded: Option<Timestamp>,
    failed: Option<Timestamp>,
) -> Seq<(Seq<char>, Timestamp)> {
    let begun = seq![("created"@, created)];
    let ended = match succeeded {
        Some(at) => placed(begun, ("completed"@, at)),
        None => begun,
    };
    match failed {
        Some(at) => placed(ended, ("deleted"@, at)),
        None => ended,
    }
}

impl V1Item {
    /// The item of today that stands for this one.
    pub open spec fn modern(self) -> ItemView {
        ItemView {
            contents: self.name@,
            history: legacy_history(self.created, self.succeeded, self.failed),
        }
    }
}

fn place(history: &mut Vec<(String, Timestamp)>, kind: &str, at: Timestamp)
    ensures
        history_view(final(history)@) == placed(history_view(old(history)@), (kind@, at)),
{
    let ghost before = history_view(history@);
    let mut i: usize = history.len();
    assert(before.subrange(0, i as int) =~= before);
    assert(placed(before, (kind@, at)) =~= placed(before.subrange(0, i as int), (kind@, at))
        + before.subrange(i as int, before.len() as int));
    while i > 0 && !history[i - 1].1.not_after(at)
        invariant
            i <= history@.len(),
            before == history_view(history@),
            placed(before, (kind@, at)) == placed(before.subrange(0, i as int), (kind@, at))
                + before.subrange(i as int, before.len() as int),
        decreases i,
    {
        let ghost head = before.subrange(0, i as int);
        assert(head.last() == before[i - 1]);
        assert(head.drop_last() =~= before.subrange(0, i - 1));
        assert(placed(head.drop_last(), (kind@, at)).push(head.last()) + before.subrange(
            i as int,
            before.len() as int,
        ) =~= placed(head.drop_last(), (kind@, at)) + before.subrange(
            i - 1,
            before.len() as int,
        ));
        i -= 1;
    }
    let ghost head = before.subrange(0, i as int);
    assert(placed(head, (kind@, at)) == head.push((kind@, at))) by {
        if i > 0 {
            assert(head.last() == before[i - 1]);
        }
    }
    history.insert(i, (kind.to_owned(), at));
    assert(history_view(history@) =~= head.push((kind@, at)) + before.subrange(
        i as int,
        before.len() as int,
    ));
}

/// Turns items that were written down in the earlier way into items of
/// today, each with the history that stands for it.
pub fn v1_to_modern(v1stack: Vec<V1Item>) -> (stack: Vec<Item>)
    ensures
        stack@.len() == v1stack@.len(),
        forall|i: int| 0 <= i < stack@.len() ==> (#[trigger] stack@[i])@ == v1stack@[i].modern(),
{
    let mut stack: Vec<Item> = Vec::new();
    let mut i: usize = 0;
    while i < v1stack.len()
        invariant
            i <= v1stack@.len(),
            stack@.len() == i,
            forall|j: int| 0 <= j < i ==> (#[trigger] stack@[j])@ == v1stack@[j].modern(),
        decreases v1stack.len() - i,
    {
        let v1item = &v1stack[i];
        let mut history: Vec<(String, Timestamp)> = Vec::new();
        history.push(("created".to_owned(), v1item.created));
        assert(history_view(history@) =~= seq![("created"@, v1item.created)]);
        match v1item.succeeded {
            Some(at) => place(&mut history, "completed", at),
            None => {},
        }
        match v1item.failed {
            Some(at) => place(&mut history, "deleted", at),
            None => {},
        }
        stack.push(Item { contents: v1item.name.clone(), history });
        i += 1;
    }
    stack
}

/// What was found where a stack is kept.
#[derive(Debug, PartialEq, Eq)]
pub enum Found {
    /// Nothing: there is no such file.
    Absent,
    /// Items as they are written down today.
    Modern(Vec<Item>),
    /// Items as they were written down earlier.
    Legacy(Vec<V1Item>),
    /// Something that is neither, or that could not be read at all.
    Neither,
}

impl Found {
    /// What a text that was read comes to, given what it is when it is
    /// taken as items of today and what when it is taken as earlier items
    /// (`None` where it cannot be taken so): items of today before earlier
    /// ones, and neither where it is neither.
    pub fn decoded(modern: Option<Stack>, legacy: Option<Vec<V1Item>>) -> (found: Found)
        ensures
            found == match (modern, legacy) {
                (Some(items), _) => Found::Modern(items),
                (None, Some(v1stack)) => Found::Legacy(v1stack),
                (None, None) => Found::Neither,
            },
    {
        match modern {
            Some(items) => Found::Modern(items),
            None => match legacy {
                Some(v1stack) => Found::Legacy(v1stack),
                None => Found::Neither,
            },
        }
    }
}

impl DataStore {
    /// Takes in what was found where the stack `name` is kept: nothing
    /// changes where nothing was found; items of today are held as they are;
    /// earlier items are held as the items of today that stand for them; and
    /// anything else is held as unreadable. The journal stays as it is.
    pub fn receive(&mut self, name: &str, found: Found)
        ensures
            final(self)@ == match found {
                Found::Absent => old(self)@,
                Found::Modern(items) => old(self)@.held(name@, Some(items.deep_view())),
                Found::Legacy(v1stack) => old(self)@.held(
                    name@,
                    Some(Seq::new(v1stack@.len(), |i: int| v1stack@[i].modern())),
                ),
                Found::Neither => old(self)@.held(name@, None),
            },
    {
        match found {
            Found::Absent => {},
            Found::Modern(items) => self.hold(name, items),
            Found::Legacy(v1stack) => {
                let items = v1_to_modern(v1stack);
                assert(items.deep_view() =~= Seq::new(
                    v1stack@.len(),
                    |i: int| v1stack@[i].modern(),
                ));
                self.hold(name, items)
            },
            Found::Neither => self.hold_unreadable(name),
        }
    }
}

} // verus!
