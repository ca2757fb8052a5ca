//! Macros that run again and again while their trigger is held.
//!
//! A running macro is known by its identifier.  A flag says whether it should go on, and a task
//! number tells which task runs it.

use crate::lookup::{enabled_at, is_enabled, place_before};
use crate::macro_id::{
    generate_macro_id, law_identifier_reads_back, macro_id, parse_macro_id, parsed_id,
};
use crate::matching::{find_macro_indices, holds_code, is_first_place, same_macro_at};
use crate::model::{
    CollectionView, MacroData, MacroType, MacroView, TriggerEventType, TriggerView,
};
use crate::plugin::Delay;
use crate::seq_facts::{lemma_concat_contains, lemma_filter_contains, lemma_push_contains};
use vstd::prelude::*;

verus! {

/// Whether each macro that was ever held should run now.
#[derive(Debug)]
#[verifier::external_body]
pub struct HoldStates {
    map: halfbrown::HashMap<String, bool>,
}

/// The task that runs each held macro.
#[derive(Debug)]
#[verifier::external_body]
pub struct HoldTasks {
    map: halfbrown::HashMap<String, u64>,
}

/// The flags that a table of states holds, by identifier.
pub uninterp spec fn hold_flags(states: HoldStates) -> Map<Seq<char>, bool>;

/// The task numbers that a table of tasks holds, by identifier.
pub uninterp spec fn hold_tasks(tasks: HoldTasks) -> Map<Seq<char>, u64>;

impl View for HoldStates {
    type V = Map<Seq<char>, bool>;

    open spec fn view(&self) -> Map<Seq<char>, bool> {
        hold_flags(*self)
    }
}

impl View for HoldTasks {
    type V = Map<Seq<char>, u64>;

    open spec fn view(&self) -> Map<Seq<char>, u64> {
        hold_tasks(*self)
    }
}

/// What a table holds under `id`.
pub open spec fn held_value<V>(table: Map<Seq<char>, V>, id: Seq<char>) -> Option<V> {
    if table.contains_key(id) {
        Some(table[id])
    } else {
        None
    }
}

/// Whether the macro should run now.
pub open spec fn should_run(flags: Map<Seq<char>, bool>, id: Seq<char>) -> bool {
    flags.contains_key(id) && flags[id]
}

impl HoldStates {
    /// `halfbrown::HashMap::new`: a map without entries.
    #[verifier::external_body]
    pub(crate) fn new() -> (states: Self)
        ensures
            (hold_flags(states) == Map::<Seq<char>, bool>::empty()),
    {
        HoldStates { map: halfbrown::HashMap::new() }
    }

    /// `halfbrown::HashMap::insert`: sets the value under a key, adding the key if it is new, and
    /// returns the value that was there.
    #[verifier::external_body]
    fn insert(&mut self, macro_id: String, running: bool) -> (before: Option<bool>)
        ensures
            hold_flags(*final(self)) == hold_flags(*old(self)).insert(macro_id@, running),
            before == held_value(hold_flags(*old(self)), macro_id@),
    {
        self.map.insert(macro_id, running)
    }

    /// `halfbrown::HashMap::get`: the value under a key if there is one.
    #[verifier::external_body]
    fn get(&self, macro_id: &str) -> (running: Option<&bool>)
        ensures
            running is Some <==> hold_flags(*self).contains_key(macro_id@),
            running is Some ==> *running.unwrap() == hold_flags(*self)[macro_id@],
    {
        self.map.get(macro_id)
    }

    /// `halfbrown::HashMap::iter`: every entry once, in an order that is left open.
    #[verifier::external_body]
    fn entries(&self) -> (all: Vec<(&String, &bool)>)
        ensures
            forall|i: int|
                0 <= i < all.len() ==> held_value(hold_flags(*self), (#[trigger] all@[i]).0@)
                    == Some(*all@[i].1),
            forall|id: Seq<char>| #[trigger]
                hold_flags(*self).contains_key(id) ==> exists|i: int|
                    0 <= i < all.len() && (#[trigger] all@[i]).0@ == id,
            forall|i: int, j: int|
                0 <= i < j < all.len() ==> (#[trigger] all@[i]).0@ != (#[trigger] all@[j]).0@,
    {
        self.map.iter().collect()
    }
}

impl HoldTasks {
    /// `halfbrown::HashMap::new`: a map without entries.
    #[verifier::external_body]
    pub(crate) fn new() -> (tasks: Self)
        ensures
            (hold_tasks(tasks) == Map::<Seq<char>, u64>::empty()),
    {
        HoldTasks { map: halfbrown::HashMap::new() }
    }

    /// `halfbrown::HashMap::insert`: sets the value under a key, adding the key if it is new, and
    /// returns the value that was there.
    #[verifier::external_body]
    fn insert(&mut self, macro_id: String, task: u64) -> (before: Option<u64>)
        ensures
            hold_tasks(*final(self)) == hold_tasks(*old(self)).insert(macro_id@, task),
            before == held_value(hold_tasks(*old(self)), macro_id@),
    {
        self.map.insert(macro_id, task)
    }

    /// `halfbrown::HashMap::remove`: takes a key out of the map and returns the value that was
    /// there.
    #[verifier::external_body]
    fn remove(&mut self, macro_id: &str) -> (task: Option<u64>)
        ensures
            hold_tasks(*final(self)) == hold_tasks(*old(self)).remove(macro_id@),
            task == held_value(hold_tasks(*old(self)), macro_id@),
    {
        self.map.remove(macro_id)
    }
}

/// Starts a held macro under the given task number.
///
/// Returns the task that ran it so far, which has to be aborted.
pub fn execute_macro_onhold(
    macro_id: String,
    task: u64,
    onhold_states: &mut HoldStates,
    onhold_handles: &mut HoldTasks,
) -> (abort: Option<u64>)
    ensures
        final(onhold_states)@ == old(onhold_states)@.insert(macro_id@, true),
        final(onhold_handles)@ == old(onhold_handles)@.insert(macro_id@, task),
        abort == held_value(old(onhold_handles)@, macro_id@),
{
    let abort = onhold_handles.remove(macro_id.as_str());
    onhold_states.insert(macro_id.clone(), true);
    onhold_handles.insert(macro_id, task);
    assert(onhold_handles@ =~= old(onhold_handles)@.insert(macro_id@, task));
    abort
}

/// Stops a held macro.
///
/// Returns the task that ran it, which has to be aborted.
pub fn stop_onhold_macro(
    macro_id: String,
    onhold_states: &mut HoldStates,
    onhold_handles: &mut HoldTasks,
) -> (abort: Option<u64>)
    ensures
        final(onhold_states)@ == old(onhold_states)@.insert(macro_id@, false),
        final(onhold_handles)@ == old(onhold_handles)@.remove(macro_id@),
        abort == held_value(old(onhold_handles)@, macro_id@),
{
    onhold_states.insert(macro_id.clone(), false);
    onhold_handles.remove(macro_id.as_str())
}

/// What happened last in the task of a held macro.
#[derive(Debug, Clone, Copy, PartialEq, Eq, Structural)]
pub enum HoldEvent {
    /// The task started.
    Started,
    /// The macro ran once; `ok` says whether it ran to its end.
    Executed { ok: bool },
    /// The pause after a run is over.
    Paused,
}

/// What the task of a held macro does next.
#[derive(Debug, Clone, Copy, PartialEq, Eq, Structural)]
pub enum HoldAction {
    /// Run the macro once.
    Execute,
    /// Wait this many milliseconds.
    Sleep(Delay),
    /// End the task.
    Stop,
}

/// The next action of the task that runs the held macro `macro_id`: as long as the macro should
/// run it is executed, with a pause of a tenth of a second after each run; a failed run ends the
/// task.
pub fn onhold_next(onhold_states: &HoldStates, macro_id: &str, event: HoldEvent) -> (action:
    HoldAction)
    ensures
        action == match event {
            HoldEvent::Started | HoldEvent::Paused => if should_run(onhold_states@, macro_id@) {
                HoldAction::Execute
            } else {
                HoldAction::Stop
            },
            HoldEvent::Executed { ok } => if ok {
                HoldAction::Sleep(100)
            } else {
                HoldAction::Stop
            },
        },
{
    match event {
        HoldEvent::Started | HoldEvent::Paused => {
            let running = match onhold_states.get(macro_id) {
                Some(running) => *running,
                None => false,
            };
            if running {
                HoldAction::Execute
            } else {
                HoldAction::Stop
            }
        },
        HoldEvent::Executed { ok } => if ok {
            HoldAction::Sleep(100)
        } else {
            HoldAction::Stop
        },
    }
}

/// The text of each identifier.
pub open spec fn id_views(ids: Seq<String>) -> Seq<Seq<char>> {
    ids.map_values(|id: String| id@)
}

/// Whether one of the first `end` entries says that `id` should run.
spec fn runs_before(entries: Seq<(&String, &bool)>, end: int, id: Seq<char>) -> bool {
    exists|j: int| 0 <= j < end && (#[trigger] entries[j]).0@ == id && *entries[j].1
}

/// The identifiers of all macros that should run now, each once.  Their order is left open.
pub fn running_onhold_macros(onhold_states: &HoldStates) -> (ids: Vec<String>)
    ensures
        id_views(ids@).no_duplicates(),
        forall|id: Seq<char>|
            id_views(ids@).contains(id) <==> #[trigger] should_run(onhold_states@, id),
{
    let entries = onhold_states.entries();
    let mut ids: Vec<String> = Vec::new();
    let mut i: usize = 0;
    while i < entries.len()
        invariant
            i <= entries.len(),
            forall|j: int, k: int|
                0 <= j < k < entries.len() ==> (#[trigger] entries@[j]).0@ != (
                #[trigger] entries@[k]).0@,
            id_views(ids@).no_duplicates(),
            forall|id: Seq<char>|
                id_views(ids@).contains(id) <==> #[trigger] runs_before(entries@, i as int, id),
        decreases entries.len() - i,
    {
        let (id, running) = entries[i];
        let ghost before = id_views(ids@);
        if *running {
            ids.push(id.clone());
        }
        proof {
            assert(!before.contains(id@)) by {
                assert(!runs_before(entries@, i as int, id@));
            }
            if *running {
                assert(id_views(ids@) =~= before.push(id@));
            }
            assert forall|x: Seq<char>|
                id_views(ids@).contains(x) <==> #[trigger] runs_before(entries@, i + 1, x) by {
                lemma_push_contains(before, id@, x);
                assert(before.contains(x) <==> runs_before(entries@, i as int, x));
                assert(entries@[i as int].0 == id);
            }
        }
        i = i + 1;
    }
    assert forall|id: Seq<char>| id_views(ids@).contains(id) <==> #[trigger] should_run(
        onhold_states@,
        id,
    ) by {
        assert(id_views(ids@).contains(id) <==> runs_before(entries@, entries.len() as int, id));
        if should_run(onhold_states@, id) {
            let j = choose|j: int| 0 <= j < entries.len() && (#[trigger] entries@[j]).0@ == id;
            assert(*entries@[j].1);
        }
    }
    ids
}

/// Whether releasing the key or button with the given code ends the macro `m`: a held macro that is
/// active and has the code in its trigger.
pub open spec fn ended_by(m: MacroView, code: u32) -> bool {
    &&& m.active
    &&& m.macro_type is OnHold
    &&& holds_code(m.trigger, code)
}

/// The first place in `data` with the name and trigger of `m`, under which `m` is started.
pub open spec fn start_place(data: Seq<CollectionView>, m: MacroView) -> (int, int) {
    choose|place: (int, int)| is_first_place(data, place.0, place.1, m)
}

/// The identifiers under which the macro at `i` in the collection at `c` may run: that of its
/// place, and that of the place under which it is started, if that is another.
pub open spec fn run_ids(data: Seq<CollectionView>, c: int, i: int) -> Seq<Seq<char>> {
    let own = macro_id(c as nat, i as nat);
    let start = start_place(data, data[c].macros[i]);
    if start == (c, i) {
        seq![own]
    } else {
        seq![own, macro_id(start.0 as nat, start.1 as nat)]
    }
}

/// The identifiers of those of the first `n` macros of the collection at `c` that the release of
/// `code` ends.
pub open spec fn ended_in_collection(
    data: Seq<CollectionView>,
    c: int,
    n: nat,
    code: u32,
) -> Seq<Seq<char>>
    decreases n,
{
    if n == 0 {
        Seq::empty()
    } else {
        let before = ended_in_collection(data, c, (n - 1) as nat, code);
        if ended_by(data[c].macros[n - 1], code) {
            before + run_ids(data, c, n - 1)
        } else {
            before
        }
    }
}

/// The identifiers of the macros of the active ones among the first `n` collections that the
/// release of `code` ends.
pub open spec fn ended_in_first(data: Seq<CollectionView>, n: nat, code: u32) -> Seq<Seq<char>>
    decreases n,
{
    if n == 0 {
        Seq::empty()
    } else {
        let before = ended_in_first(data, (n - 1) as nat, code);
        if data[n - 1].active {
            before + ended_in_collection(data, n - 1, data[n - 1].macros.len(), code)
        } else {
            before
        }
    }
}

/// The identifiers of the macros of active collections that the release of `code` ends, in order.
pub open spec fn ended_macros(data: Seq<CollectionView>, code: u32) -> Seq<Seq<char>> {
    ended_in_first(data, data.len(), code)
}

/// There is one first place only.
proof fn lemma_start_place(data: Seq<CollectionView>, c: int, i: int, m: MacroView)
    requires
        is_first_place(data, c, i, m),
    ensures
        start_place(data, m) == (c, i),
{
    let place = (c, i);
    assert(is_first_place(data, place.0, place.1, m));
    let start = start_place(data, m);
    assert(is_first_place(data, start.0, start.1, m));
    assert(same_macro_at(data, start.0, start.1, m) && same_macro_at(data, c, i, m));
}

/// Whether `key` is in `keys`.
fn has_key(keys: &Vec<u32>, key: u32) -> (found: bool)
    ensures
        found == keys@.contains(key),
{
    for i in 0..keys.len()
        invariant
            forall|j: int| 0 <= j < i ==> keys@[j] != key,
    {
        if keys[i] == key {
            return true;
        }
    }
    false
}

/// Whether the code of a key or mouse button is in the trigger.
fn trigger_holds(trigger: &TriggerEventType, code: u32) -> (found: bool)
    ensures
        found == holds_code(trigger@, code),
{
    match trigger {
        TriggerEventType::KeyPressEvent { data, .. } => has_key(data, code),
        TriggerEventType::MouseEvent { data } => data.code == code,
    }
}

/// Finds the held macros that have to stop because a key or the button of their trigger was
/// released.
pub fn macros_to_stop(data: &MacroData, released_hid: u32) -> (ids: Vec<String>)
    ensures
        id_views(ids@) == ended_macros(data@, released_hid),
        (forall|c: int, i: int|
            #![trigger data.data@[c].macros@[i]]
            0 <= c < data.data@.len() && 0 <= i < data.data@[c].macros@.len()
                && data.data@[c].active && data.data@[c].macros@[i].active
                && data.data@[c].macros@[i].macro_type is OnHold
                ==> match data.data@[c].macros@[i].trigger {
                TriggerEventType::KeyPressEvent { data: keys, .. } => !keys@.contains(
                    released_hid,
                ),
                TriggerEventType::MouseEvent { data: button } => button.code != released_hid,
            }) ==> ids.len() == 0,
{
    let mut ids: Vec<String> = Vec::new();
    let ghost all = data@;
    assert(id_views(ids@) =~= Seq::empty());
    for c in 0..data.data.len()
        invariant
            all == data@,
            id_views(ids@) == ended_in_first(all, c as nat, released_hid),
    {
        let collection = &data.data[c];
        assert(collection@ == all[c as int]);
        if collection.active {
            let ghost before = id_views(ids@);
            assert(before + ended_in_collection(all, c as int, 0, released_hid) =~= before);
            for i in 0..collection.macros.len()
                invariant
                    all == data@,
                    c < all.len(),
                    collection@ == all[c as int],
                    id_views(ids@) == before + ended_in_collection(
                        all,
                        c as int,
                        i as nat,
                        released_hid,
                    ),
            {
                let item = &collection.macros[i];
                assert(item@ == all[c as int].macros[i as int]);
                let ghost so_far = id_views(ids@);
                if item.active && item.macro_type == MacroType::OnHold && trigger_holds(
                    &item.trigger,
                    released_hid,
                ) {
                    assert(same_macro_at(all, c as int, i as int, item@));
                    let own = generate_macro_id(c, i);
                    ids.push(own);
                    assert(id_views(ids@) =~= so_far.push(own@));
                    if let Some((start_c, start_i)) = find_macro_indices(data, item) {
                        proof {
                            lemma_start_place(all, start_c as int, start_i as int, item@);
                        }
                        if start_c != c || start_i != i {
                            let start = generate_macro_id(start_c, start_i);
                            ids.push(start);
                            assert(id_views(ids@) =~= so_far.push(own@).push(start@));
                        }
                    }
                    assert(id_views(ids@) =~= so_far + run_ids(all, c as int, i as int));
                }
                assert(id_views(ids@) =~= before + ended_in_collection(
                    all,
                    c as int,
                    (i + 1) as nat,
                    released_hid,
                ));
            }
        }
    }
    proof {
        if ids.len() > 0 {
            let id = id_views(ids@)[0];
            law_release_ends_held_macros(all, released_hid, id);
            assert(ended_macros(all, released_hid).contains(id));
            let (c, i) = choose|c: int, i: int| #[trigger]
                ended_at(all, released_hid, c, i) && run_ids(all, c, i).contains(id);
            assert(all[c].macros[i] == data.data@[c].macros@[i]@);
        }
    }
    ids
}

/// Whether `id` names a macro that `data` lacks or that is switched off there, alone or with its
/// collection.
pub open spec fn is_disabled(data: Seq<CollectionView>, id: Seq<char>) -> bool {
    parsed_id(id) matches Some((c, m)) && !enabled_at(data, c as int, m as int)
}

/// The identifiers among `ids` that name disabled macros, in order.
pub open spec fn disabled_ids(data: Seq<CollectionView>, ids: Seq<Seq<char>>) -> Seq<Seq<char>> {
    ids.filter(|id: Seq<char>| is_disabled(data, id))
}

/// The flags after stopping `ids`.
pub open spec fn flags_after(flags: Map<Seq<char>, bool>, ids: Seq<Seq<char>>) -> Map<
    Seq<char>,
    bool,
>
    decreases ids.len(),
{
    if ids.len() == 0 {
        flags
    } else {
        flags_after(flags, ids.drop_last()).insert(ids.last(), false)
    }
}

/// The tasks that are left after stopping `ids`.
pub open spec fn tasks_after(tasks: Map<Seq<char>, u64>, ids: Seq<Seq<char>>) -> Map<Seq<char>, u64>
    decreases ids.len(),
{
    if ids.len() == 0 {
        tasks
    } else {
        tasks_after(tasks, ids.drop_last()).remove(ids.last())
    }
}

/// The tasks to abort when stopping `ids`, in order.
pub open spec fn aborted_tasks(tasks: Map<Seq<char>, u64>, ids: Seq<Seq<char>>) -> Seq<u64>
    decreases ids.len(),
{
    if ids.len() == 0 {
        Seq::empty()
    } else {
        let before = aborted_tasks(tasks, ids.drop_last());
        match held_value(tasks_after(tasks, ids.drop_last()), ids.last()) {
            Some(task) => before.push(task),
            None => before,
        }
    }
}

/// Whether the identifier names a macro that is gone or switched off.
fn names_disabled_macro(macros: &MacroData, macro_id: &str) -> (disabled: bool)
    ensures
        disabled == is_disabled(macros@, macro_id@),
{
    match parse_macro_id(macro_id) {
        Some((collection_index, macro_index)) => {
            if collection_index < macros.data.len() {
                let collection = &macros.data[collection_index];
                assert(collection@ == macros@[collection_index as int]);
                if macro_index < collection.macros.len() {
                    let item = &collection.macros[macro_index];
                    assert(item@ == collection@.macros[macro_index as int]);
                    !collection.active || !item.active
                } else {
                    true
                }
            } else {
                true
            }
        },
        None => false,
    }
}

/// Stops those of the running macros that `macros` lacks or that are switched off there.
///
/// Returns the tasks that ran them, which have to be aborted.
pub fn stop_disabled_macros(
    macros: &MacroData,
    running: &Vec<String>,
    onhold_states: &mut HoldStates,
    onhold_handles: &mut HoldTasks,
) -> (aborted: Vec<u64>)
    ensures
        final(onhold_states)@ == flags_after(
            old(onhold_states)@,
            disabled_ids(macros@, id_views(running@)),
        ),
        final(onhold_handles)@ == tasks_after(
            old(onhold_handles)@,
            disabled_ids(macros@, id_views(running@)),
        ),
        aborted@ == aborted_tasks(
            old(onhold_handles)@,
            disabled_ids(macros@, id_views(running@)),
        ),
{
    let mut aborted: Vec<u64> = Vec::new();
    let ghost ids = id_views(running@);
    let ghost disabled = |id: Seq<char>| is_disabled(macros@, id);
    let ghost flags = onhold_states@;
    let ghost tasks = onhold_handles@;
    proof {
        reveal(Seq::filter);
        assert(ids.take(0).filter(disabled) =~= Seq::empty());
    }
    for i in 0..running.len()
        invariant
            ids == id_views(running@),
            disabled == (|id: Seq<char>| is_disabled(macros@, id)),
            onhold_states@ == flags_after(flags, ids.take(i as int).filter(disabled)),
            onhold_handles@ == tasks_after(tasks, ids.take(i as int).filter(disabled)),
            aborted@ == aborted_tasks(tasks, ids.take(i as int).filter(disabled)),
    {
        let macro_id = &running[i];
        let ghost before = ids.take(i as int).filter(disabled);
        let should_stop = names_disabled_macro(macros, macro_id.as_str());
        proof {
            reveal(Seq::filter);
            assert(ids.take(i + 1).drop_last() =~= ids.take(i as int));
            assert(before.push(macro_id@).drop_last() =~= before);
            assert(should_stop ==> ids.take(i + 1).filter(disabled) == before.push(macro_id@));
        }
        if should_stop {
            match stop_onhold_macro(macro_id.clone(), onhold_states, onhold_handles) {
                Some(task) => {
                    aborted.push(task);
                },
                None => {},
            }
        }
    }
    assert(ids.take(ids.len() as int) =~= ids);
    aborted
}

/// Stops the given macros, one after the other.
///
/// Returns the tasks that ran them, which have to be aborted.
pub fn stop_onhold_macros(
    ids: &Vec<String>,
    onhold_states: &mut HoldStates,
    onhold_handles: &mut HoldTasks,
) -> (aborted: Vec<u64>)
    ensures
        final(onhold_states)@ == flags_after(old(onhold_states)@, id_views(ids@)),
        final(onhold_handles)@ == tasks_after(old(onhold_handles)@, id_views(ids@)),
        aborted@ == aborted_tasks(old(onhold_handles)@, id_views(ids@)),
{
    let mut aborted: Vec<u64> = Vec::new();
    let ghost all = id_views(ids@);
    let ghost flags = onhold_states@;
    let ghost tasks = onhold_handles@;
    assert(all.take(0) =~= Seq::empty());
    for i in 0..ids.len()
        invariant
            all == id_views(ids@),
            onhold_states@ == flags_after(flags, all.take(i as int)),
            onhold_handles@ == tasks_after(tasks, all.take(i as int)),
            aborted@ == aborted_tasks(tasks, all.take(i as int)),
    {
        assert(all.take(i + 1).drop_last() =~= all.take(i as int));
        match stop_onhold_macro(ids[i].clone(), onhold_states, onhold_handles) {
            Some(task) => {
                aborted.push(task);
            },
            None => {},
        }
    }
    assert(all.take(all.len() as int) =~= all);
    aborted
}

/// Whether a task is kept for exactly the macros that should run.
pub open spec fn tables_agree(flags: Map<Seq<char>, bool>, tasks: Map<Seq<char>, u64>) -> bool {
    forall|id: Seq<char>| #[trigger] tasks.contains_key(id) <==> should_run(flags, id)
}

/// Whether no two macros have the same task.
pub open spec fn tasks_differ(tasks: Map<Seq<char>, u64>) -> bool {
    forall|x: Seq<char>, y: Seq<char>|
        #![trigger tasks.contains_key(x), tasks.contains_key(y)]
        tasks.contains_key(x) && tasks.contains_key(y) && tasks[x] == tasks[y] ==> x == y
}

/// Whether no macro has the task.
pub open spec fn is_fresh(tasks: Map<Seq<char>, u64>, task: u64) -> bool {
    forall|id: Seq<char>| #[trigger] tasks.contains_key(id) ==> tasks[id] != task
}

/// Whether every macro that should run has a task, and one that is not in `aborted`.
pub open spec fn runners_are_spared(
    flags: Map<Seq<char>, bool>,
    tasks: Map<Seq<char>, u64>,
    aborted: Seq<u64>,
) -> bool {
    forall|id: Seq<char>| #[trigger]
        should_run(flags, id) ==> tasks.contains_key(id) && !aborted.contains(tasks[id])
}

/// Stopping macros leaves those that should run which are not among them, and the same holds for
/// their tasks.  What is not stopped keeps its entries.
pub proof fn law_stopping_stops_just_these(
    flags: Map<Seq<char>, bool>,
    tasks: Map<Seq<char>, u64>,
    ids: Seq<Seq<char>>,
    id: Seq<char>,
)
    ensures
        held_value(flags_after(flags, ids), id) == if ids.contains(id) {
            Some(false)
        } else {
            held_value(flags, id)
        },
        held_value(tasks_after(tasks, ids), id) == if ids.contains(id) {
            None
        } else {
            held_value(tasks, id)
        },
    decreases ids.len(),
{
    if ids.len() > 0 {
        law_stopping_stops_just_these(flags, tasks, ids.drop_last(), id);
        assert(ids =~= ids.drop_last().push(ids.last()));
        lemma_push_contains(ids.drop_last(), ids.last(), id);
    }
}

/// The tasks that stopping aborts are exactly those of the macros that are stopped.
pub proof fn law_stopping_aborts_their_tasks(
    tasks: Map<Seq<char>, u64>,
    ids: Seq<Seq<char>>,
    task: u64,
)
    ensures
        aborted_tasks(tasks, ids).contains(task) <==> exists|i: int|
            0 <= i < ids.len() && held_value(tasks, #[trigger] ids[i]) == Some(task),
    decreases ids.len(),
{
    if ids.len() > 0 {
        let shorter = ids.drop_last();
        let last = ids.last();
        law_stopping_aborts_their_tasks(tasks, shorter, task);
        law_stopping_stops_just_these(Map::empty(), tasks, shorter, last);
        let before = aborted_tasks(tasks, shorter);
        let left = held_value(tasks_after(tasks, shorter), last);
        if left is Some {
            lemma_push_contains(before, left.unwrap(), task);
        }
        if before.contains(task) {
            let i = choose|i: int|
                0 <= i < shorter.len() && held_value(tasks, #[trigger] shorter[i]) == Some(task);
            assert(held_value(tasks, ids[i]) == Some(task));
        }
        if exists|i: int| 0 <= i < ids.len() && held_value(tasks, #[trigger] ids[i]) == Some(task) {
            let i = choose|i: int|
                0 <= i < ids.len() && held_value(tasks, #[trigger] ids[i]) == Some(task);
            if i < shorter.len() {
                assert(held_value(tasks, shorter[i]) == Some(task));
            } else if shorter.contains(last) {
                let j = choose|j: int| 0 <= j < shorter.len() && shorter[j] == last;
                assert(held_value(tasks, shorter[j]) == Some(task));
            }
        }
        if left == Some(task) {
            assert(held_value(tasks, ids[ids.len() - 1]) == Some(task));
        }
    }
}

/// After the disabled ones among the running macros were stopped, no macro that should run is
/// gone or switched off, and every macro that is switched on keeps its flag and its task.
pub proof fn law_no_disabled_macro_keeps_running(
    data: Seq<CollectionView>,
    flags: Map<Seq<char>, bool>,
    tasks: Map<Seq<char>, u64>,
    running: Seq<Seq<char>>,
    id: Seq<char>,
)
    requires
        forall|x: Seq<char>| #[trigger] should_run(flags, x) ==> running.contains(x),
    ensures
        should_run(flags_after(flags, disabled_ids(data, running)), id) ==> !is_disabled(data, id),
        !is_disabled(data, id) ==> held_value(flags_after(flags, disabled_ids(data, running)), id)
            == held_value(flags, id),
        !is_disabled(data, id) ==> held_value(tasks_after(tasks, disabled_ids(data, running)), id)
            == held_value(tasks, id),
{
    let stopped = disabled_ids(data, running);
    law_stopping_stops_just_these(flags, tasks, stopped, id);
    lemma_filter_contains(running, |x: Seq<char>| is_disabled(data, x), id);
    assert(should_run(flags, id) ==> running.contains(id));
    assert(should_run(flags_after(flags, stopped), id) <==> held_value(
        flags_after(flags, stopped),
        id,
    ) == Some(true));
}

/// Starting a macro keeps a task for exactly the macros that should run.
pub proof fn law_start_keeps_tables_agreeing(
    flags: Map<Seq<char>, bool>,
    tasks: Map<Seq<char>, u64>,
    id: Seq<char>,
    task: u64,
)
    requires
        tables_agree(flags, tasks),
    ensures
        tables_agree(flags.insert(id, true), tasks.insert(id, task)),
{
    assert forall|x: Seq<char>| #[trigger]
        tasks.insert(id, task).contains_key(x) <==> should_run(flags.insert(id, true), x) by {
        assert(tasks.contains_key(x) <==> should_run(flags, x));
    }
}

/// Stopping macros keeps a task for exactly the macros that should run.
pub proof fn law_stop_keeps_tables_agreeing(
    flags: Map<Seq<char>, bool>,
    tasks: Map<Seq<char>, u64>,
    ids: Seq<Seq<char>>,
)
    requires
        tables_agree(flags, tasks),
    ensures
        tables_agree(flags_after(flags, ids), tasks_after(tasks, ids)),
{
    assert forall|x: Seq<char>| #[trigger]
        tasks_after(tasks, ids).contains_key(x) <==> should_run(flags_after(flags, ids), x) by {
        law_stopping_stops_just_these(flags, tasks, ids, x);
        assert(tasks.contains_key(x) <==> should_run(flags, x));
        assert(tasks_after(tasks, ids).contains_key(x) <==> held_value(
            tasks_after(tasks, ids),
            x,
        ) is Some);
        assert(should_run(flags_after(flags, ids), x) <==> held_value(flags_after(flags, ids), x)
            == Some(true));
    }
}

/// Starting a macro under a task that no macro has keeps the tasks apart.
pub proof fn law_start_keeps_tasks_apart(tasks: Map<Seq<char>, u64>, id: Seq<char>, task: u64)
    requires
        tasks_differ(tasks),
        is_fresh(tasks, task),
    ensures
        tasks_differ(tasks.insert(id, task)),
{
}

/// Stopping macros keeps the tasks apart.
pub proof fn law_stop_keeps_tasks_apart(tasks: Map<Seq<char>, u64>, ids: Seq<Seq<char>>)
    requires
        tasks_differ(tasks),
    ensures
        tasks_differ(tasks_after(tasks, ids)),
    decreases ids.len(),
{
    if ids.len() > 0 {
        law_stop_keeps_tasks_apart(tasks, ids.drop_last());
    }
}

/// A task that is aborted when macros are stopped belongs to no macro that keeps running, and none
/// is aborted twice.
pub proof fn law_stopping_spares_other_macros(
    flags: Map<Seq<char>, bool>,
    tasks: Map<Seq<char>, u64>,
    ids: Seq<Seq<char>>,
)
    requires
        tables_agree(flags, tasks),
        tasks_differ(tasks),
    ensures
        runners_are_spared(
            flags_after(flags, ids),
            tasks_after(tasks, ids),
            aborted_tasks(tasks, ids),
        ),
        aborted_tasks(tasks, ids).no_duplicates(),
{
    law_stop_keeps_tables_agreeing(flags, tasks, ids);
    let left = tasks_after(tasks, ids);
    let aborted = aborted_tasks(tasks, ids);
    assert forall|id: Seq<char>| #[trigger]
        should_run(flags_after(flags, ids), id) implies left.contains_key(id) && !aborted.contains(
        left[id],
    ) by {
        assert(left.contains_key(id) <==> should_run(flags_after(flags, ids), id));
        lemma_kept_task_is_not_aborted(tasks, ids, id);
    }
    lemma_aborted_once(tasks, ids);
}

proof fn lemma_kept_task_is_not_aborted(
    tasks: Map<Seq<char>, u64>,
    ids: Seq<Seq<char>>,
    id: Seq<char>,
)
    requires
        tasks_differ(tasks),
        tasks_after(tasks, ids).contains_key(id),
    ensures
        !aborted_tasks(tasks, ids).contains(tasks_after(tasks, ids)[id]),
{
    let task = tasks_after(tasks, ids)[id];
    law_stopping_stops_just_these(Map::empty(), tasks, ids, id);
    assert(held_value(tasks_after(tasks, ids), id) == Some(task));
    law_stopping_aborts_their_tasks(tasks, ids, task);
    if aborted_tasks(tasks, ids).contains(task) {
        let i = choose|i: int|
            0 <= i < ids.len() && held_value(tasks, #[trigger] ids[i]) == Some(task);
        assert(tasks.contains_key(ids[i]) && tasks.contains_key(id));
        assert(ids.contains(ids[i]));
    }
}

proof fn lemma_aborted_once(tasks: Map<Seq<char>, u64>, ids: Seq<Seq<char>>)
    requires
        tasks_differ(tasks),
    ensures
        aborted_tasks(tasks, ids).no_duplicates(),
    decreases ids.len(),
{
    if ids.len() > 0 {
        let shorter = ids.drop_last();
        lemma_aborted_once(tasks, shorter);
        if tasks_after(tasks, shorter).contains_key(ids.last()) {
            lemma_kept_task_is_not_aborted(tasks, shorter, ids.last());
        }
    }
}

/// The task that is aborted when a macro is started anew belongs to no macro that runs then.
pub proof fn law_starting_spares_other_macros(
    flags: Map<Seq<char>, bool>,
    tasks: Map<Seq<char>, u64>,
    id: Seq<char>,
    task: u64,
    aborted: u64,
)
    requires
        tables_agree(flags, tasks),
        tasks_differ(tasks),
        is_fresh(tasks, task),
        held_value(tasks, id) == Some(aborted),
    ensures
        runners_are_spared(flags.insert(id, true), tasks.insert(id, task), seq![aborted]),
{
    assert forall|x: Seq<char>| #[trigger]
        should_run(flags.insert(id, true), x) implies tasks.insert(id, task).contains_key(x)
        && !seq![aborted].contains(tasks.insert(id, task)[x]) by {
        assert(tasks.contains_key(x) <==> should_run(flags, x));
        assert(tasks.contains_key(id));
    }
}

/// Whether the release of `code` ends the enabled macro at `i` in the collection at `c`.
pub open spec fn ended_at(data: Seq<CollectionView>, code: u32, c: int, i: int) -> bool {
    enabled_at(data, c, i) && ended_by(data[c].macros[i], code)
}

proof fn lemma_ended_in_collection(
    data: Seq<CollectionView>,
    c: int,
    n: nat,
    code: u32,
    id: Seq<char>,
)
    requires
        0 <= c < data.len(),
        data[c].active,
        n <= data[c].macros.len(),
    ensures
        ended_in_collection(data, c, n, code).contains(id) <==> exists|i: int|
            i < n && #[trigger] ended_at(data, code, c, i) && run_ids(data, c, i).contains(id),
    decreases n,
{
    if n > 0 {
        lemma_ended_in_collection(data, c, (n - 1) as nat, code, id);
        lemma_concat_contains(
            ended_in_collection(data, c, (n - 1) as nat, code),
            run_ids(data, c, n - 1),
            id,
        );
        assert(ended_at(data, code, c, n - 1) <==> ended_by(data[c].macros[n - 1], code));
    }
}

proof fn lemma_ended_in_first(data: Seq<CollectionView>, n: nat, code: u32, id: Seq<char>)
    requires
        n <= data.len(),
    ensures
        ended_in_first(data, n, code).contains(id) <==> exists|c: int, i: int|
            c < n && #[trigger] ended_at(data, code, c, i) && run_ids(data, c, i).contains(id),
    decreases n,
{
    if n > 0 {
        let last = n - 1;
        lemma_ended_in_first(data, last as nat, code, id);
        if data[last].active {
            let len = data[last].macros.len();
            lemma_ended_in_collection(data, last, len, code, id);
            lemma_concat_contains(
                ended_in_first(data, last as nat, code),
                ended_in_collection(data, last, len, code),
                id,
            );
        }
    }
}

/// The release of a key or button ends exactly the held macros that are enabled and have it in
/// their trigger, each under its own identifier and under the one that it is started with.
pub proof fn law_release_ends_held_macros(data: Seq<CollectionView>, code: u32, id: Seq<char>)
    ensures
        ended_macros(data, code).contains(id) <==> exists|c: int, i: int| #[trigger]
            ended_at(data, code, c, i) && run_ids(data, c, i).contains(id),
{
    lemma_ended_in_first(data, data.len(), code, id);
}

/// An enabled held macro is ended under the identifier that it is started with, whatever stands
/// at the place of that identifier.
pub proof fn law_release_ends_the_started_identifier(
    data: Seq<CollectionView>,
    m: MacroView,
    c: int,
    i: int,
    code: u32,
)
    requires
        is_enabled(data, m),
        m.macro_type is OnHold,
        holds_code(m.trigger, code),
        is_first_place(data, c, i, m),
    ensures
        ended_macros(data, code).contains(macro_id(c as nat, i as nat)),
{
    let (d, j) = choose|d: int, j: int| enabled_at(data, d, j) && #[trigger] data[d].macros[j] == m;
    lemma_start_place(data, c, i, m);
    assert(ended_at(data, code, d, j));
    let ids = run_ids(data, d, j);
    assert(ids[ids.len() - 1] == macro_id(c as nat, i as nat));
    law_release_ends_held_macros(data, code, macro_id(c as nat, i as nat));
}

/// What is held under an identifier is what the table has there; a macro should run exactly if its
/// flag is there and set.
pub proof fn law_tables_are_read(
    flags: Map<Seq<char>, bool>,
    tasks: Map<Seq<char>, u64>,
    id: Seq<char>,
)
    ensures
        should_run(flags, id) <==> flags.contains_key(id) && flags[id],
        held_value(tasks, id) is Some <==> tasks.contains_key(id),
        tasks.contains_key(id) ==> held_value(tasks, id) == Some(tasks[id]),
        held_value(flags, id) is Some <==> flags.contains_key(id),
        flags.contains_key(id) ==> held_value(flags, id) == Some(flags[id]),
{
}

/// The contents of the two tables are the flags and the tasks that they hold.
pub proof fn law_views_show_tables(states: HoldStates, tasks: HoldTasks)
    ensures
        states@ == hold_flags(states),
        tasks@ == hold_tasks(tasks),
{
}

/// The texts of identifiers are theirs one by one.
pub proof fn law_views_show_ids(ids: Seq<String>)
    ensures
        id_views(ids).len() == ids.len(),
        forall|i: int| 0 <= i < ids.len() ==> #[trigger] id_views(ids)[i] == ids[i]@,
{
}

/// Stopping macros sets the flag of each to false and takes its task away; every other macro keeps
/// its flag and its task.
pub proof fn law_stopping(
    flags: Map<Seq<char>, bool>,
    tasks: Map<Seq<char>, u64>,
    ids: Seq<Seq<char>>,
    id: Seq<char>,
)
    ensures
        ids.contains(id) ==> {
            &&& flags_after(flags, ids).contains_key(id)
            &&& !flags_after(flags, ids)[id]
            &&& !tasks_after(tasks, ids).contains_key(id)
        },
        !ids.contains(id) ==> {
            &&& flags_after(flags, ids).contains_key(id) <==> flags.contains_key(id)
            &&& flags.contains_key(id) ==> flags_after(flags, ids)[id] == flags[id]
            &&& tasks_after(tasks, ids).contains_key(id) <==> tasks.contains_key(id)
            &&& tasks.contains_key(id) ==> tasks_after(tasks, ids)[id] == tasks[id]
        },
{
    law_stopping_stops_just_these(flags, tasks, ids, id);
    law_tables_are_read(flags_after(flags, ids), tasks_after(tasks, ids), id);
    law_tables_are_read(flags, tasks, id);
}

/// Stopping one more macro aborts its task too, behind the others, unless it has none or was
/// stopped already.
pub proof fn law_stopping_one_more(
    tasks: Map<Seq<char>, u64>,
    ids: Seq<Seq<char>>,
    id: Seq<char>,
)
    ensures
        aborted_tasks(tasks, ids.push(id)) == if tasks.contains_key(id) && !ids.contains(id) {
            aborted_tasks(tasks, ids).push(tasks[id])
        } else {
            aborted_tasks(tasks, ids)
        },
        aborted_tasks(tasks, Seq::empty()).len() == 0,
{
    assert(ids.push(id).drop_last() =~= ids);
    law_stopping_stops_just_these(Map::empty(), tasks, ids, id);
}

/// What the marks on the tables mean: each running macro has a task and none of two the same one,
/// a fresh task is no macro's, and spared macros have a task that is not aborted.
pub proof fn law_marks_of_tables(
    flags: Map<Seq<char>, bool>,
    tasks: Map<Seq<char>, u64>,
    task: u64,
    aborted: Seq<u64>,
)
    ensures
        tables_agree(flags, tasks) <==> forall|id: Seq<char>| #[trigger]
            tasks.contains_key(id) <==> flags.contains_key(id) && flags[id],
        tasks_differ(tasks) <==> forall|x: Seq<char>, y: Seq<char>|
            #![trigger tasks.contains_key(x), tasks.contains_key(y)]
            tasks.contains_key(x) && tasks.contains_key(y) && x != y ==> tasks[x] != tasks[y],
        is_fresh(tasks, task) <==> forall|id: Seq<char>| #[trigger]
            tasks.contains_key(id) ==> tasks[id] != task,
        runners_are_spared(flags, tasks, aborted) <==> forall|id: Seq<char>| #[trigger]
            flags.contains_key(id) && flags[id] ==> tasks.contains_key(id) && !aborted.contains(
                tasks[id],
            ),
{
    if tables_agree(flags, tasks) {
        assert forall|id: Seq<char>| #[trigger]
            tasks.contains_key(id) <==> flags.contains_key(id) && flags[id] by {
            assert(tasks.contains_key(id) <==> should_run(flags, id));
        }
    }
    if runners_are_spared(flags, tasks, aborted) {
        assert forall|id: Seq<char>| #[trigger]
            flags.contains_key(id) && flags[id] implies tasks.contains_key(id)
            && !aborted.contains(tasks[id]) by {
            assert(should_run(flags, id));
        }
    }
}

/// Whatever stands at a place, there is a first place with its name and trigger.
proof fn lemma_first_place_exists(
    data: Seq<CollectionView>,
    c: int,
    i: int,
    m: MacroView,
) -> (place: (int, int))
    requires
        same_macro_at(data, c, i, m),
    ensures
        is_first_place(data, place.0, place.1, m),
        place == start_place(data, m),
        place.0 < c || (place.0 == c && place.1 <= i),
    decreases c, i,
{
    if is_first_place(data, c, i, m) {
        lemma_start_place(data, c, i, m);
        (c, i)
    } else {
        let (d, n) = choose|d: int, n: int| #[trigger]
            same_macro_at(data, d, n, m) && place_before(d, n, c, i);
        lemma_first_place_exists(data, d, n, m)
    }
}

/// The release of a code stops an identifier only if a held macro that runs under it, switched on
/// in a collection that is switched on, has the code among its keys or as its button.
pub proof fn law_release_stops_only_its_macros(data: Seq<CollectionView>, code: u32, id: Seq<char>)
    requires
        ended_macros(data, code).contains(id),
    ensures
        exists|c: int, i: int, d: int, n: int|
            #![trigger data[c].macros[i], data[d].macros[n]]
            {
                &&& 0 <= c < data.len()
                &&& 0 <= i < data[c].macros.len()
                &&& data[c].active
                &&& data[c].macros[i].active
                &&& data[c].macros[i].macro_type is OnHold
                &&& match data[c].macros[i].trigger {
                    TriggerView::Keys { keys, .. } => keys.contains(code),
                    TriggerView::Button { button } => button.code == code,
                }
                &&& id == macro_id(d as nat, n as nat)
                &&& (d == c && n == i) || is_first_place(data, d, n, data[c].macros[i])
            },
{
    law_release_ends_held_macros(data, code, id);
    let (c, i) = choose|c: int, i: int| #[trigger]
        ended_at(data, code, c, i) && run_ids(data, c, i).contains(id);
    let m = data[c].macros[i];
    assert(same_macro_at(data, c, i, m));
    let first = lemma_first_place_exists(data, c, i, m);
    let ids = run_ids(data, c, i);
    let k = choose|k: int| 0 <= k < ids.len() && ids[k] == id;
    let place = if k == 0 {
        (c, i)
    } else {
        first
    };
    assert(id == macro_id(place.0 as nat, place.1 as nat));
    let there = data[place.0].macros[place.1];
    assert(data[c].macros[i] == m && data[place.0].macros[place.1] == there);
}

/// The release of a code leaves a macro alone if no held macro that runs under its identifier has
/// the code: it keeps its flag and its task, and is told of no release.
pub proof fn law_release_leaves_other_macros(
    data: Seq<CollectionView>,
    code: u32,
    flags: Map<Seq<char>, bool>,
    tasks: Map<Seq<char>, u64>,
    id: Seq<char>,
)
    requires
        forall|c: int, i: int|
            #![trigger data[c].macros[i]]
            0 <= c < data.len() && 0 <= i < data[c].macros.len() && data[c].active
                && data[c].macros[i].active && data[c].macros[i].macro_type is OnHold && (
            match data[c].macros[i].trigger {
                TriggerView::Keys { keys, .. } => keys.contains(code),
                TriggerView::Button { button } => button.code == code,
            }) ==> id != macro_id(c as nat, i as nat) && forall|d: int, n: int| #[trigger]
                is_first_place(data, d, n, data[c].macros[i]) ==> id != macro_id(
                    d as nat,
                    n as nat,
                ),
    ensures
        ({
            let ended = ended_macros(data, code);
            &&& !ended.contains(id)
            &&& flags_after(flags, ended).contains_key(id) <==> flags.contains_key(id)
            &&& flags.contains_key(id) ==> flags_after(flags, ended)[id] == flags[id]
            &&& tasks_after(tasks, ended).contains_key(id) <==> tasks.contains_key(id)
            &&& tasks.contains_key(id) ==> tasks_after(tasks, ended)[id] == tasks[id]
        }),
{
    let ended = ended_macros(data, code);
    if ended.contains(id) {
        law_release_stops_only_its_macros(data, code, id);
        let (c, i, d, n) = choose|c: int, i: int, d: int, n: int|
            #![trigger data[c].macros[i], data[d].macros[n]]
            {
                &&& 0 <= c < data.len()
                &&& 0 <= i < data[c].macros.len()
                &&& data[c].active
                &&& data[c].macros[i].active
                &&& data[c].macros[i].macro_type is OnHold
                &&& match data[c].macros[i].trigger {
                    TriggerView::Keys { keys, .. } => keys.contains(code),
                    TriggerView::Button { button } => button.code == code,
                }
                &&& id == macro_id(d as nat, n as nat)
                &&& (d == c && n == i) || is_first_place(data, d, n, data[c].macros[i])
            };
        assert(data[c].macros[i].active);
    }
    law_stopping(flags, tasks, ended, id);
}

/// The release of a key or the button of a held macro that is switched on stops it: no flag lets
/// it run on, and no task is kept, neither at its own place nor where it is started.
pub proof fn law_release_stops_held_macro(
    data: Seq<CollectionView>,
    code: u32,
    flags: Map<Seq<char>, bool>,
    tasks: Map<Seq<char>, u64>,
    c: int,
    i: int,
    d: int,
    n: int,
)
    requires
        0 <= c < data.len(),
        0 <= i < data[c].macros.len(),
        data[c].active,
        data[c].macros[i].active,
        data[c].macros[i].macro_type is OnHold,
        match data[c].macros[i].trigger {
            TriggerView::Keys { keys, .. } => keys.contains(code),
            TriggerView::Button { button } => button.code == code,
        },
        (d == c && n == i) || is_first_place(data, d, n, data[c].macros[i]),
    ensures
        ({
            let id = macro_id(d as nat, n as nat);
            let ended = ended_macros(data, code);
            &&& ended.contains(id)
            &&& flags_after(flags, ended).contains_key(id)
            &&& !flags_after(flags, ended)[id]
            &&& !tasks_after(tasks, ended).contains_key(id)
            &&& tasks.contains_key(id) ==> aborted_tasks(tasks, ended).contains(tasks[id])
        }),
{
    let id = macro_id(d as nat, n as nat);
    let m = data[c].macros[i];
    let ended = ended_macros(data, code);
    assert(ended_at(data, code, c, i));
    let ids = run_ids(data, c, i);
    if d == c && n == i {
        assert(ids[0] == id);
    } else {
        lemma_start_place(data, d, n, m);
        assert(ids[1] == id);
    }
    law_release_ends_held_macros(data, code, id);
    law_stopping(flags, tasks, ended, id);
    if tasks.contains_key(id) {
        let k = choose|k: int| 0 <= k < ended.len() && ended[k] == id;
        assert(held_value(tasks, ended[k]) == Some(tasks[id]));
        law_stopping_aborts_their_tasks(tasks, ended, tasks[id]);
    }
}

/// Whether `long` goes on where `short` ends.
spec fn goes_on(short: Seq<CollectionView>, long: Seq<CollectionView>) -> bool {
    &&& short.len() <= long.len()
    &&& forall|c: int|
        #![trigger short[c]]
        #![trigger long[c]]
        0 <= c < short.len() ==> {
            &&& short[c].active == long[c].active
            &&& short[c].macros.len() <= long[c].macros.len()
            &&& c < short.len() - 1 ==> short[c].macros.len() == long[c].macros.len()
        }
    &&& forall|c: int, i: int|
        #![trigger short[c].macros[i]]
        #![trigger long[c].macros[i]]
        0 <= c < short.len() && 0 <= i < short[c].macros.len() ==> short[c].macros[i]
            == long[c].macros[i]
}

proof fn lemma_ended_goes_on(
    short: Seq<CollectionView>,
    long: Seq<CollectionView>,
    c: int,
    n: nat,
    code: u32,
)
    requires
        goes_on(short, long),
        0 <= c < short.len(),
        n <= short[c].macros.len(),
    ensures
        ended_in_collection(short, c, n, code) == ended_in_collection(long, c, n, code),
    decreases n,
{
    if n > 0 {
        let i = n - 1;
        let m = short[c].macros[i];
        lemma_ended_goes_on(short, long, c, i as nat, code);
        assert(m == long[c].macros[i]);
        assert(same_macro_at(short, c, i, m));
        let first = lemma_first_place_exists(short, c, i, m);
        assert(same_macro_at(short, first.0, first.1, m));
        assert(short[first.0].macros[first.1] == long[first.0].macros[first.1]);
        assert(same_macro_at(long, first.0, first.1, m));
        assert forall|d: int, k: int| #[trigger]
            same_macro_at(long, d, k, m) implies !place_before(d, k, first.0, first.1) by {
            if place_before(d, k, first.0, first.1) {
                assert(short[d].macros.len() <= long[d].macros.len());
                assert(short[d].macros[k] == long[d].macros[k]);
                assert(same_macro_at(short, d, k, m));
            }
        }
        lemma_start_place(long, first.0, first.1, m);
    }
}

proof fn lemma_ended_in_first_goes_on(
    short: Seq<CollectionView>,
    long: Seq<CollectionView>,
    n: nat,
    code: u32,
)
    requires
        goes_on(short, long),
        n <= short.len(),
        n < short.len() || short.len() == 0 || short.last().macros.len() == long[short.len()
            - 1].macros.len(),
    ensures
        ended_in_first(short, n, code) == ended_in_first(long, n, code),
    decreases n,
{
    if n > 0 {
        lemma_ended_in_first_goes_on(short, long, (n - 1) as nat, code);
        assert(short[n - 1].active == long[n - 1].active);
        assert(short[n - 1].macros.len() == long[n - 1].macros.len());
        lemma_ended_goes_on(short, long, n - 1, short[n - 1].macros.len(), code);
    }
}

/// A macro behind all others adds to what a release stops just its own identifiers, behind the
/// others, and those only if it is held, switched on with its collection, and has the code: that
/// of its own place, and that of its first place if it is another.  `first` is its first place.
pub proof fn law_release_of_one_more_macro(
    data: Seq<CollectionView>,
    collection: CollectionView,
    m: MacroView,
    code: u32,
    first: (int, int),
)
    requires
        is_first_place(
            data.push((CollectionView { macros: collection.macros.push(m), ..collection })),
            first.0,
            first.1,
            m,
        ),
    ensures
        ({
            let shorter = data.push(collection);
            let longer = data.push(
                (CollectionView { macros: collection.macros.push(m), ..collection }),
            );
            let place = (data.len() as int, collection.macros.len() as int);
            let own = macro_id(place.0 as nat, place.1 as nat);
            let has_code = match m.trigger {
                TriggerView::Keys { keys, .. } => keys.contains(code),
                TriggerView::Button { button } => button.code == code,
            };
            let stops = collection.active && m.active && m.macro_type is OnHold && has_code;
            ended_macros(longer, code) == ended_macros(shorter, code) + (if !stops {
                Seq::empty()
            } else if first == place {
                seq![own]
            } else {
                seq![own, macro_id(first.0 as nat, first.1 as nat)]
            })
        }),
{
    let shorter = data.push(collection);
    let last = CollectionView { macros: collection.macros.push(m), ..collection };
    let longer = data.push(last);
    let c = data.len() as int;
    let n = collection.macros.len();
    assert(goes_on(shorter, longer));
    assert(longer[c].macros[n as int] == m);
    lemma_start_place(longer, first.0, first.1, m);
    lemma_ended_in_first_goes_on(shorter, longer, data.len(), code);
    lemma_ended_goes_on(shorter, longer, c, n, code);
    let before = ended_in_first(longer, data.len(), code);
    let inside = ended_in_collection(longer, c, n, code);
    if collection.active {
        assert(ended_macros(shorter, code) == before + inside);
        assert(ended_macros(longer, code) == before + ended_in_collection(
            longer,
            c,
            (n + 1) as nat,
            code,
        ));
        if ended_by(m, code) {
            assert(before + (inside + run_ids(longer, c, n as int)) =~= (before + inside) + run_ids(
                longer,
                c,
                n as int,
            ));
        } else {
            assert((before + inside) + Seq::<Seq<char>>::empty() =~= before + inside);
        }
    } else {
        assert(before + Seq::<Seq<char>>::empty() =~= before);
    }
}

/// A collection without macros, or one that is switched off, adds nothing to what a release stops;
/// and of no data nothing is stopped.
pub proof fn law_release_of_one_more_collection(
    data: Seq<CollectionView>,
    collection: CollectionView,
    code: u32,
)
    requires
        collection.macros.len() == 0 || !collection.active,
    ensures
        ended_macros(data.push(collection), code) == ended_macros(data, code),
        ended_macros(Seq::empty(), code).len() == 0,
{
    let longer = data.push(collection);
    assert(goes_on(data, longer));
    lemma_ended_in_first_goes_on(data, longer, data.len(), code);
    assert(ended_in_first(longer, data.len(), code) + Seq::<Seq<char>>::empty() =~= ended_in_first(
        longer,
        data.len(),
        code,
    ));
}

/// Of the running macros one more is stopped, behind the others, exactly if its identifier names a
/// place that does not exist in the new data or is switched off there, alone or with its
/// collection.
pub proof fn law_disabling_one_more(
    data: Seq<CollectionView>,
    running: Seq<Seq<char>>,
    id: Seq<char>,
)
    ensures
        ({
            let stops = parsed_id(id) is Some && {
                let c = parsed_id(id)->Some_0.0 as int;
                let m = parsed_id(id)->Some_0.1 as int;
                c >= data.len() || m >= data[c].macros.len() || !data[c].active
                    || !data[c].macros[m].active
            };
            disabled_ids(data, running.push(id)) == if stops {
                disabled_ids(data, running).push(id)
            } else {
                disabled_ids(data, running)
            }
        }),
        disabled_ids(data, Seq::empty()).len() == 0,
{
    reveal(Seq::filter);
    assert(running.push(id).drop_last() =~= running);
}

/// Once new macros are taken over with all running macros told, whatever still should run is there
/// in the new data and switched on, it and its collection.
pub proof fn law_only_enabled_macros_run_on(
    data: Seq<CollectionView>,
    flags: Map<Seq<char>, bool>,
    running: Seq<Seq<char>>,
    c: usize,
    m: usize,
)
    requires
        forall|x: Seq<char>| #[trigger]
            flags.contains_key(x) && flags[x] ==> running.contains(x),
        ({
            let after = flags_after(flags, disabled_ids(data, running));
            let id = macro_id(c as nat, m as nat);
            after.contains_key(id) && after[id]
        }),
    ensures
        c < data.len(),
        m < data[c as int].macros.len(),
        data[c as int].active,
        data[c as int].macros[m as int].active,
{
    let id = macro_id(c as nat, m as nat);
    let stopped = disabled_ids(data, running);
    law_identifier_reads_back(c, m);
    law_stopping(flags, Map::empty(), stopped, id);
    lemma_filter_contains(running, |x: Seq<char>| is_disabled(data, x), id);
    assert(flags.contains_key(id) && flags[id]);
}

/// Taking over new macros stops a running macro that is gone or switched off, and aborts its task;
/// one that is there and switched on with its collection keeps its flag and its task.
pub proof fn law_taking_over_stops_disabled_macros(
    data: Seq<CollectionView>,
    flags: Map<Seq<char>, bool>,
    tasks: Map<Seq<char>, u64>,
    running: Seq<Seq<char>>,
    c: usize,
    m: usize,
)
    requires
        running.contains(macro_id(c as nat, m as nat)),
    ensures
        ({
            let id = macro_id(c as nat, m as nat);
            let stopped = disabled_ids(data, running);
            if c < data.len() && m < data[c as int].macros.len() && data[c as int].active
                && data[c as int].macros[m as int].active {
                &&& flags_after(flags, stopped).contains_key(id) <==> flags.contains_key(id)
                &&& flags.contains_key(id) ==> flags_after(flags, stopped)[id] == flags[id]
                &&& tasks_after(tasks, stopped).contains_key(id) <==> tasks.contains_key(id)
                &&& tasks.contains_key(id) ==> tasks_after(tasks, stopped)[id] == tasks[id]
            } else {
                &&& flags_after(flags, stopped).contains_key(id)
                &&& !flags_after(flags, stopped)[id]
                &&& !tasks_after(tasks, stopped).contains_key(id)
                &&& tasks.contains_key(id) ==> aborted_tasks(tasks, stopped).contains(tasks[id])
            }
        }),
{
    let id = macro_id(c as nat, m as nat);
    let stopped = disabled_ids(data, running);
    law_identifier_reads_back(c, m);
    law_stopping(flags, tasks, stopped, id);
    lemma_filter_contains(running, |x: Seq<char>| is_disabled(data, x), id);
    if stopped.contains(id) && tasks.contains_key(id) {
        let k = choose|k: int| 0 <= k < stopped.len() && stopped[k] == id;
        assert(held_value(tasks, stopped[k]) == Some(tasks[id]));
        law_stopping_aborts_their_tasks(tasks, stopped, tasks[id]);
    }
}

} // verus!
