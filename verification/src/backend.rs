//! The state of the application and how it changes.

use crate::keys::{
    first_occurrences, hid_codes, law_first_occurrences_are_distinct, law_press_adds_a_new_key,
    law_release_takes_just_this_key, law_release_undoes_press, law_released_key_is_up, HidTable,
    KeysPressed,
};
use crate::lookup::{
    has_broken_trigger, is_enabled, law_table_lists_what_the_key_starts, listed, lookup_keys,
    trigger_table, MacroTriggerLookup, TriggerError,
};
use crate::macro_id::{macro_id, parse_macro_id, parsed_id};
use crate::matching::{
    check_macro_execution_efficiently, execute_macro, execution_of, execution_views, executions,
    find_macro_indices, fires, holds_code, is_first_place, law_combination_needs_every_key,
    law_last_press_belongs_to_trigger, law_press_finds_enabled_macros, same_macro_at, Execution,
    ExecutionView, Launch,
};
use crate::model::{
    law_view_shows_data, CollectionView, Macro, MacroData, MacroView, TriggerView,
};
use crate::onhold::{
    aborted_tasks, disabled_ids, ended_macros, execute_macro_onhold, flags_after, held_value,
    id_views, is_fresh, law_marks_of_tables, law_only_enabled_macros_run_on,
    law_release_ends_the_started_identifier, law_start_keeps_tables_agreeing,
    law_start_keeps_tasks_apart, law_starting_spares_other_macros, law_stop_keeps_tables_agreeing,
    law_stop_keeps_tasks_apart, law_stopping_aborts_their_tasks, law_stopping_spares_other_macros,
    law_stopping_stops_just_these, macros_to_stop, running_onhold_macros, runners_are_spared,
    should_run, stop_disabled_macros, stop_onhold_macros, tables_agree, tasks_after, tasks_differ,
    HoldStates, HoldTasks,
};
use vstd::prelude::*;

verus! {

/// The state of the application.  The configuration is only kept, so its type is left open.
#[derive(Debug)]
pub struct MacroBackend<C> {
    pub data: MacroData,
    pub config: C,
    pub triggers: MacroTriggerLookup,
    pub is_listening: bool,
    pub onhold_states: HoldStates,
    pub onhold_handles: HoldTasks,
}

/// Why new macros were not taken over.
#[derive(Debug)]
pub enum SetMacrosError<E> {
    /// They could not be written to the file.
    NotWritten(E),
    /// No lookup table can be built of them.
    Trigger(TriggerError),
}

/// An input event that the system offers.  Keys and buttons come as numbers that tell them apart.
#[derive(Debug, Clone, Copy, PartialEq, Eq, Structural)]
pub enum InputEvent {
    KeyPress { key: u64 },
    KeyRelease { key: u64 },
    ButtonPress { button: u64, is_left: bool },
    ButtonRelease { button: u64 },
    MouseMove,
    Wheel,
}

/// What an input event leads to.
#[derive(Debug)]
pub struct Reaction {
    /// Whether the event goes on to the system; otherwise it is consumed.
    pub pass: bool,
    /// The macros to execute.
    pub executions: Vec<Execution>,
    /// The code of a released key or button, of which the held macros have to be told.
    pub released: Option<u32>,
}

/// How a triggered macro was started.
#[derive(Debug)]
pub enum Started {
    /// It was not started.
    Nothing,
    /// It runs once.
    Once,
    /// It is held under this identifier; the task that ran it so far has to be aborted.
    Held { macro_id: String, abort: Option<u64> },
}

impl<C> MacroBackend<C> {
    /// The lookup table is that of the data, and a task is kept for exactly the held macros that
    /// should run, for each another one.
    pub open spec fn wf(&self) -> bool {
        &&& !has_broken_trigger(self.data@)
        &&& self.triggers@ == trigger_table(self.data@)
        &&& tables_agree(self.onhold_states@, self.onhold_handles@)
        &&& tasks_differ(self.onhold_handles@)
    }

    /// The state at the start, from the macros and the configuration that were read.
    pub fn new(data: MacroData, config: C) -> (backend: Result<Self, TriggerError>)
        ensures
            backend is Err <==> has_broken_trigger(data@),
            backend is Err ==> backend->Err_0 == TriggerError::NoTriggerKeys,
            backend is Ok ==> {
                &&& backend->Ok_0.data == data
                &&& backend->Ok_0.config == config
                &&& backend->Ok_0.triggers@ == trigger_table(data@)
                &&& backend->Ok_0.is_listening
                &&& backend->Ok_0.onhold_states@ == Map::<Seq<char>, bool>::empty()
                &&& backend->Ok_0.onhold_handles@ == Map::<Seq<char>, u64>::empty()
                &&& backend->Ok_0.wf()
            },
    {
        match data.extract_triggers() {
            Ok(triggers) => Ok(
                MacroBackend {
                    data,
                    config,
                    triggers,
                    is_listening: true,
                    onhold_states: HoldStates::new(),
                    onhold_handles: HoldTasks::new(),
                },
            ),
            Err(error) => Err(error),
        }
    }

    /// Reads an identifier back to the indices of the collection and of the macro.
    pub fn parse_macro_id(&self, macro_id: &str) -> (indices: Option<(usize, usize)>)
        ensures
            indices == parsed_id(macro_id@),
    {
        parse_macro_id(macro_id)
    }

    /// Sets whether input events are processed.  While they are not, they all go on to the system.
    pub fn set_is_listening(&mut self, is_listening: bool)
        ensures
            *final(self) == (MacroBackend { is_listening, ..*old(self) }),
            old(self).wf() ==> final(self).wf(),
    {
        self.is_listening = is_listening;
    }

    /// Takes over a new configuration once it was written to its file.
    pub fn set_config<E>(&mut self, written: Result<(), E>, config: C) -> (result: Result<(), E>)
        ensures
            result == written,
            written is Err ==> *final(self) == *old(self),
            written is Ok ==> *final(self) == (MacroBackend { config, ..*old(self) }),
            old(self).wf() ==> final(self).wf(),
    {
        if written.is_ok() {
            self.config = config;
        }
        written
    }

    /// The identifiers of the held macros that should run now, each once, in an open order.
    pub fn running_macros(&self) -> (ids: Vec<String>)
        ensures
            id_views(ids@).no_duplicates(),
            forall|id: Seq<char>|
                id_views(ids@).contains(id) <==> #[trigger] should_run(self.onhold_states@, id),
    {
        running_onhold_macros(&self.onhold_states)
    }

    /// Takes over new macros once they were written to their file, and stops those of the macros
    /// in `running` that are gone or switched off.
    ///
    /// Returns the tasks to abort.  If the macros cannot be taken over, nothing changes.
    pub fn set_macros<E>(
        &mut self,
        written: Result<(), E>,
        macros: MacroData,
        running: &Vec<String>,
    ) -> (result: Result<Vec<u64>, SetMacrosError<E>>)
        ensures
            result is Ok <==> written is Ok && !has_broken_trigger(macros@),
            written is Err ==> result == Err::<Vec<u64>, _>(
                SetMacrosError::NotWritten(written->Err_0),
            ),
            written is Ok && has_broken_trigger(macros@) ==> result == Err::<Vec<u64>, _>(
                SetMacrosError::<E>::Trigger(TriggerError::NoTriggerKeys),
            ),
            result is Err ==> *final(self) == *old(self),
            result is Ok ==> {
                let stopped = disabled_ids(macros@, id_views(running@));
                &&& final(self).data@ == macros@
                &&& final(self).triggers@ == trigger_table(macros@)
                &&& final(self).config == old(self).config
                &&& final(self).is_listening == old(self).is_listening
                &&& final(self).onhold_states@ == flags_after(old(self).onhold_states@, stopped)
                &&& final(self).onhold_handles@ == tasks_after(old(self).onhold_handles@, stopped)
                &&& result->Ok_0@ == aborted_tasks(old(self).onhold_handles@, stopped)
            },
            old(self).wf() ==> final(self).wf(),
            old(self).wf() && result is Ok ==> runners_are_spared(
                final(self).onhold_states@,
                final(self).onhold_handles@,
                result->Ok_0@,
            ),
            result is Ok && (forall|id: Seq<char>| #[trigger]
                should_run(old(self).onhold_states@, id) ==> id_views(running@).contains(id))
                ==> forall|c: usize, m: usize|
                #![trigger macro_id(c as nat, m as nat)]
                should_run(final(self).onhold_states@, macro_id(c as nat, m as nat)) ==> c
                    < macros.data@.len() && m < macros.data@[c as int].macros@.len()
                    && macros.data@[c as int].active
                    && macros.data@[c as int].macros@[m as int].active,
    {
        match written {
            Ok(()) => {},
            Err(error) => {
                return Err(SetMacrosError::NotWritten(error));
            },
        }
        let triggers = match macros.extract_triggers() {
            Ok(triggers) => triggers,
            Err(error) => {
                return Err(SetMacrosError::Trigger(error));
            },
        };
        self.triggers = triggers;
        let aborted = stop_disabled_macros(
            &macros,
            running,
            &mut self.onhold_states,
            &mut self.onhold_handles,
        );
        self.data = macros;
        proof {
            if forall|id: Seq<char>| #[trigger]
                should_run(old(self).onhold_states@, id) ==> id_views(running@).contains(id) {
                assert forall|c: usize, m: usize|
                    #![trigger macro_id(c as nat, m as nat)]
                    should_run(self.onhold_states@, macro_id(c as nat, m as nat)) implies c
                    < macros.data@.len() && m < macros.data@[c as int].macros@.len()
                    && macros.data@[c as int].active
                    && macros.data@[c as int].macros@[m as int].active by {
                    let flags = old(self).onhold_states@;
                    let told = id_views(running@);
                    assert forall|x: Seq<char>| #[trigger]
                        flags.contains_key(x) && flags[x] implies told.contains(x) by {
                        assert(should_run(flags, x));
                    }
                    law_only_enabled_macros_run_on(macros@, flags, told, c, m);
                    law_view_shows_data(macros);
                    assert(macros@[c as int].macros[m as int].active);
                }
            }
            if old(self).wf() {
                let stopped = disabled_ids(macros@, id_views(running@));
                let flags = old(self).onhold_states@;
                let tasks = old(self).onhold_handles@;
                law_stop_keeps_tables_agreeing(flags, tasks, stopped);
                law_stop_keeps_tasks_apart(tasks, stopped);
                law_stopping_spares_other_macros(flags, tasks, stopped);
            }
        }
        Ok(aborted)
    }

    /// Starts a triggered macro, which is known in the data by its name and trigger.  A held macro
    /// runs under the given task number, which should be one that no macro has.
    pub fn start_macro(&mut self, macros: &Macro, task: u64) -> (started: Started)
        ensures
            final(self).data == old(self).data,
            final(self).config == old(self).config,
            final(self).triggers == old(self).triggers,
            final(self).is_listening == old(self).is_listening,
            started is Nothing <==> macros.macro_type is Toggle || forall|c: int, m: int|
                !same_macro_at(old(self).data@, c, m, macros@),
            started is Once ==> macros.macro_type is Single,
            started is Held ==> macros.macro_type is OnHold,
            started !is Held ==> final(self).onhold_states == old(self).onhold_states
                && final(self).onhold_handles == old(self).onhold_handles,
            started matches Started::Held { macro_id: id, abort } ==> {
                &&& exists|c: int, m: int| #[trigger]
                    is_first_place(old(self).data@, c, m, macros@) && id@ == macro_id(
                        c as nat,
                        m as nat,
                    )
                &&& final(self).onhold_states@ == old(self).onhold_states@.insert(id@, true)
                &&& final(self).onhold_handles@ == old(self).onhold_handles@.insert(id@, task)
                &&& abort == held_value(old(self).onhold_handles@, id@)
                &&& old(self).wf() && is_fresh(old(self).onhold_handles@, task) && abort is Some
                    ==> runners_are_spared(
                    final(self).onhold_states@,
                    final(self).onhold_handles@,
                    seq![abort->Some_0],
                )
            },
            old(self).wf() && (started is Held ==> is_fresh(old(self).onhold_handles@, task))
                ==> final(self).wf(),
    {
        match find_macro_indices(&self.data, macros) {
            Some((collection_index, macro_index)) => {
                assert(is_first_place(
                    self.data@,
                    collection_index as int,
                    macro_index as int,
                    macros@,
                ));
                match execute_macro(macros, collection_index, macro_index) {
                    Launch::Once => Started::Once,
                    Launch::Ignore => Started::Nothing,
                    Launch::Hold { macro_id: id } => {
                        let abort = execute_macro_onhold(
                            id.clone(),
                            task,
                            &mut self.onhold_states,
                            &mut self.onhold_handles,
                        );
                        proof {
                            let flags = old(self).onhold_states@;
                            let tasks = old(self).onhold_handles@;
                            if old(self).wf() && is_fresh(tasks, task) {
                                law_start_keeps_tables_agreeing(flags, tasks, id@, task);
                                law_start_keeps_tasks_apart(tasks, id@, task);
                                if let Some(aborted) = abort {
                                    law_starting_spares_other_macros(
                                        flags,
                                        tasks,
                                        id@,
                                        task,
                                        aborted,
                                    );
                                }
                            }
                        }
                        Started::Held { macro_id: id, abort }
                    },
                }
            },
            None => Started::Nothing,
        }
    }

    /// Stops the held macros that have the released key or button in their trigger.
    ///
    /// Returns the tasks to abort.
    pub fn release_key(&mut self, released_hid: u32) -> (aborted: Vec<u64>)
        ensures
            ({
                let stopped = ended_macros(old(self).data@, released_hid);
                &&& final(self).onhold_states@ == flags_after(old(self).onhold_states@, stopped)
                &&& final(self).onhold_handles@ == tasks_after(old(self).onhold_handles@, stopped)
                &&& aborted@ == aborted_tasks(old(self).onhold_handles@, stopped)
            }),
            final(self).data == old(self).data,
            final(self).config == old(self).config,
            final(self).triggers == old(self).triggers,
            final(self).is_listening == old(self).is_listening,
            old(self).wf() ==> final(self).wf() && runners_are_spared(
                final(self).onhold_states@,
                final(self).onhold_handles@,
                aborted@,
            ),
    {
        let ids = macros_to_stop(&self.data, released_hid);
        let aborted = stop_onhold_macros(&ids, &mut self.onhold_states, &mut self.onhold_handles);
        proof {
            if old(self).wf() {
                let stopped = id_views(ids@);
                let flags = old(self).onhold_states@;
                let tasks = old(self).onhold_handles@;
                law_stop_keeps_tables_agreeing(flags, tasks, stopped);
                law_stop_keeps_tasks_apart(tasks, stopped);
                law_stopping_spares_other_macros(flags, tasks, stopped);
            }
        }
        aborted
    }

    /// Reacts to an input event.
    ///
    /// While the backend listens, a key press is matched, together with the keys that are held,
    /// against the macros that the first held key looks up; a button press is matched alone.  If
    /// any macro fires the event is consumed, except for the left button, which always goes on.
    /// Everything else goes on.
    pub fn handle_event(
        &self,
        keys_pressed: &mut KeysPressed,
        table: &HidTable,
        event: InputEvent,
    ) -> (reaction: Reaction)
        ensures
            final(keys_pressed)@ == held_after(self.is_listening, old(keys_pressed)@, event),
            execution_views(reaction.executions@) == triggered(
                self.is_listening,
                self.triggers@,
                *table,
                old(keys_pressed)@,
                event,
            ),
            reaction.pass <==> reaction.executions@.len() == 0 || is_left_press(event),
            reaction.released == released_code(self.is_listening, *table, event),
            old(keys_pressed).wf() ==> final(keys_pressed).wf(),
            !self.is_listening ==> final(keys_pressed)@ == old(keys_pressed)@ && reaction.pass
                && reaction.executions@.len() == 0 && reaction.released is None,
            self.is_listening && event is KeyRelease ==> final(keys_pressed)@ == old(
                keys_pressed,
            )@.filter(|k: u64| k != event->KeyRelease_key),
            self.is_listening && event is KeyRelease ==> !final(keys_pressed)@.contains(
                event->KeyRelease_key,
            ),
            self.is_listening && event is KeyPress ==> final(keys_pressed)@.contains(
                event->KeyPress_key,
            ),
    {
        let none: Vec<Execution> = Vec::new();
        assert(execution_views(none@) =~= Seq::empty());
        if !self.is_listening {
            return Reaction { pass: true, executions: none, released: None };
        }
        match event {
            InputEvent::KeyPress { key } => {
                keys_pressed.press(key);
                let codes = keys_pressed.converted(table);
                assert(keys_pressed@.contains(key)) by {
                    law_first_occurrences_are_distinct(old(keys_pressed)@.push(key));
                    assert(old(keys_pressed)@.push(key).last() == key);
                    assert(old(keys_pressed)@.push(key).contains(key));
                }
                let first_key = codes[0];
                let check_these_macros = self.triggers.macros_for(first_key);
                if check_these_macros.len() > 0 {
                    let (should_grab, found) = check_macro_execution_efficiently(
                        &codes,
                        &check_these_macros,
                    );
                    Reaction { pass: !should_grab, executions: found, released: None }
                } else {
                    proof {
                        reveal(Seq::filter);
                        assert(executions(listed(self.triggers@, first_key), codes@)
                            =~= Seq::empty());
                    }
                    Reaction { pass: true, executions: none, released: None }
                }
            },
            InputEvent::KeyRelease { key } => {
                keys_pressed.release(key);
                proof {
                    law_released_key_is_up(old(keys_pressed)@, key);
                }
                let released_key_hid = table.code_of_key(key);
                let released = if released_key_hid != 0 {
                    Some(released_key_hid)
                } else {
                    None
                };
                Reaction { pass: true, executions: none, released }
            },
            InputEvent::ButtonPress { button, is_left } => {
                let code = table.code_of_button(button);
                let check_these_macros = self.triggers.macros_for(code);
                let pressed: Vec<u32> = vec![code];
                assert(pressed@ =~= seq![code]);
                let (should_grab, found) = check_macro_execution_efficiently(
                    &pressed,
                    &check_these_macros,
                );
                Reaction { pass: is_left || !should_grab, executions: found, released: None }
            },
            InputEvent::ButtonRelease { button } => {
                let released = Some(table.code_of_button(button));
                Reaction { pass: true, executions: none, released }
            },
            InputEvent::MouseMove => Reaction { pass: true, executions: none, released: None },
            InputEvent::Wheel => Reaction { pass: true, executions: none, released: None },
        }
    }
}

/// Whether the event is a press of the left mouse button.
pub open spec fn is_left_press(event: InputEvent) -> bool {
    event matches InputEvent::ButtonPress { is_left, .. } && is_left
}

/// The keys that are held after an event.  They are followed only while the backend listens.
pub open spec fn held_after(listening: bool, held: Seq<u64>, event: InputEvent) -> Seq<u64> {
    if !listening {
        held
    } else {
        match event {
            InputEvent::KeyPress { key } => first_occurrences(held.push(key)),
            InputEvent::KeyRelease { key } => held.filter(|k: u64| k != key),
            _ => held,
        }
    }
}

/// The macros that an event sets off, given the keys that were held before it.
pub open spec fn triggered(
    listening: bool,
    triggers: Map<u32, Seq<MacroView>>,
    table: HidTable,
    held: Seq<u64>,
    event: InputEvent,
) -> Seq<ExecutionView> {
    if !listening {
        Seq::empty()
    } else {
        match event {
            InputEvent::KeyPress { .. } => {
                let codes = hid_codes(table, held_after(listening, held, event));
                executions(listed(triggers, codes[0]), codes)
            },
            InputEvent::ButtonPress { button, .. } => {
                let code = table.button_code(button);
                executions(listed(triggers, code), seq![code])
            },
            _ => Seq::empty(),
        }
    }
}

/// The code of the key or button that an event releases.  Keys without a code are not reported.
pub open spec fn released_code(listening: bool, table: HidTable, event: InputEvent) -> Option<u32> {
    match event {
        InputEvent::KeyRelease { key } => if listening && table.key_code(key) != 0 {
            Some(table.key_code(key))
        } else {
            None
        },
        InputEvent::ButtonRelease { button } => if listening {
            Some(table.button_code(button))
        } else {
            None
        },
        _ => None,
    }
}

/// A key that goes down executes exactly the enabled macros whose trigger fires and is looked up by
/// the first held key.  `held` are the keys that were down before, each once.
pub proof fn law_key_press_executes(
    data: Seq<CollectionView>,
    table: HidTable,
    held: Seq<u64>,
    key: u64,
    m: MacroView,
)
    requires
        held.no_duplicates(),
        !held.contains(key),
    ensures
        triggered(true, trigger_table(data), table, held, InputEvent::KeyPress { key }).contains(
            execution_of(m),
        ) <==> {
            let codes = hid_codes(table, held.push(key));
            is_enabled(data, m) && lookup_keys(m.trigger).contains(codes[0]) && fires(
                m.trigger,
                codes,
            )
        },
{
    law_press_adds_a_new_key(held, key);
    law_press_finds_enabled_macros(data, hid_codes(table, held.push(key)), m);
}

/// A button that goes down executes exactly the enabled macros that are triggered by its code
/// alone.
pub proof fn law_button_press_executes(
    data: Seq<CollectionView>,
    table: HidTable,
    held: Seq<u64>,
    button: u64,
    is_left: bool,
    m: MacroView,
)
    ensures
        triggered(
            true,
            trigger_table(data),
            table,
            held,
            InputEvent::ButtonPress { button, is_left },
        ).contains(execution_of(m)) <==> is_enabled(data, m) && fires(
            m.trigger,
            seq![table.button_code(button)],
        ),
{
    let code = table.button_code(button);
    let pressed = seq![code];
    law_press_finds_enabled_macros(data, pressed, m);
    assert(pressed.drop_last() =~= Seq::empty());
    if fires(m.trigger, pressed) {
        match m.trigger {
            TriggerView::Keys { keys, .. } => {
                if keys.len() != 1 {
                    assert(pressed.drop_last().contains(keys[0]));
                }
                assert(lookup_keys(m.trigger)[0] == code);
            },
            TriggerView::Button { button: b } => {
                assert(seq![b.code][0] == code);
                assert(lookup_keys(m.trigger)[0] == code);
            },
        }
    }
}

/// Whether the macro `id`, started with `task` over these tables, should run until the release of
/// `code`, which takes its task away and aborts it.
pub open spec fn runs_until(
    data: Seq<CollectionView>,
    flags: Map<Seq<char>, bool>,
    tasks: Map<Seq<char>, u64>,
    id: Seq<char>,
    task: u64,
    code: u32,
) -> bool {
    let ended = ended_macros(data, code);
    &&& should_run(flags.insert(id, true), id)
    &&& !should_run(flags_after(flags.insert(id, true), ended), id)
    &&& !tasks_after(tasks.insert(id, task), ended).contains_key(id)
    &&& aborted_tasks(tasks.insert(id, task), ended).contains(task)
}

/// A held macro starts when it is triggered and stops when a key or the button of its trigger is
/// released.
///
/// `m` is the triggered macro, and `(c, i)` the place at which it was found in the data, so that it
/// was started under the identifier of that place.
pub proof fn law_release_ends_what_press_started(
    data: Seq<CollectionView>,
    flags: Map<Seq<char>, bool>,
    tasks: Map<Seq<char>, u64>,
    m: MacroView,
    c: int,
    i: int,
    task: u64,
    code: u32,
)
    requires
        is_enabled(data, m),
        m.macro_type is OnHold,
        holds_code(m.trigger, code),
        is_first_place(data, c, i, m),
    ensures
        runs_until(data, flags, tasks, macro_id(c as nat, i as nat), task, code),
{
    let id = macro_id(c as nat, i as nat);
    let ended = ended_macros(data, code);
    let started = tasks.insert(id, task);
    law_release_ends_the_started_identifier(data, m, c, i, code);
    law_stopping_stops_just_these(flags.insert(id, true), started, ended, id);
    law_stopping_aborts_their_tasks(started, ended, task);
    let j = choose|j: int| 0 <= j < ended.len() && ended[j] == id;
    assert(held_value(started, ended[j]) == Some(task));
    assert(held_value(flags_after(flags.insert(id, true), ended), id) == Some(false));
    assert(held_value(tasks_after(started, ended), id) is None);
}

/// A held macro that a key sets off as it goes down stops when that key goes up.  The key has a
/// HID code; a key without one is reported to no macro.
pub proof fn law_key_up_ends_what_key_down_started(
    data: Seq<CollectionView>,
    table: HidTable,
    held: Seq<u64>,
    key: u64,
    flags: Map<Seq<char>, bool>,
    tasks: Map<Seq<char>, u64>,
    m: MacroView,
    c: int,
    i: int,
    task: u64,
)
    requires
        held.no_duplicates(),
        !held.contains(key),
        table.key_code(key) != 0,
        triggered(true, trigger_table(data), table, held, InputEvent::KeyPress { key }).contains(
            execution_of(m),
        ),
        m.macro_type is OnHold,
        is_first_place(data, c, i, m),
    ensures
        released_code(true, table, InputEvent::KeyRelease { key }) matches Some(code)
            && runs_until(data, flags, tasks, macro_id(c as nat, i as nat), task, code),
{
    let codes = hid_codes(table, held.push(key));
    law_key_press_executes(data, table, held, key, m);
    law_last_press_belongs_to_trigger(m.trigger, codes);
    assert(codes.last() == table.key_code(key));
    law_release_ends_what_press_started(data, flags, tasks, m, c, i, task, table.key_code(key));
}

/// A held macro that a mouse button sets off as it goes down stops when that button goes up.
pub proof fn law_button_up_ends_what_button_down_started(
    data: Seq<CollectionView>,
    table: HidTable,
    held: Seq<u64>,
    button: u64,
    is_left: bool,
    flags: Map<Seq<char>, bool>,
    tasks: Map<Seq<char>, u64>,
    m: MacroView,
    c: int,
    i: int,
    task: u64,
)
    requires
        triggered(
            true,
            trigger_table(data),
            table,
            held,
            InputEvent::ButtonPress { button, is_left },
        ).contains(execution_of(m)),
        m.macro_type is OnHold,
        is_first_place(data, c, i, m),
    ensures
        released_code(true, table, InputEvent::ButtonRelease { button }) matches Some(code)
            && runs_until(data, flags, tasks, macro_id(c as nat, i as nat), task, code),
{
    let code = table.button_code(button);
    law_button_press_executes(data, table, held, button, is_left, m);
    law_last_press_belongs_to_trigger(m.trigger, seq![code]);
    assert(seq![code].last() == code);
    law_release_ends_what_press_started(data, flags, tasks, m, c, i, task, code);
}

/// While the backend listens, a released key is no longer held, and every other key is held as
/// before, in the same order.
pub proof fn law_release_lets_go_of_the_key(held: Seq<u64>, key: u64, other: u64)
    requires
        held.no_duplicates(),
    ensures
        ({
            let left = held_after(true, held, InputEvent::KeyRelease { key });
            &&& !left.contains(key)
            &&& other != key ==> (left.contains(other) <==> held.contains(other))
            &&& held.contains(key) ==> left == held.remove(held.index_of(key))
            &&& !held.contains(key) ==> left == held
        }),
{
    law_release_takes_just_this_key(held, key, other);
}

/// Whatever was held, a release takes away exactly what equals the released key.
pub proof fn law_release_filters_held_keys(held: Seq<u64>, key: u64)
    ensures
        held_after(true, held, InputEvent::KeyRelease { key }) == held.filter(|k: u64| k != key),
{
}

/// While the backend listens, a key that goes down is held behind the others, and one that was
/// held already changes nothing.
pub proof fn law_press_holds_the_key(held: Seq<u64>, key: u64)
    requires
        held.no_duplicates(),
    ensures
        held.contains(key) ==> held_after(true, held, InputEvent::KeyPress { key }) == held,
        !held.contains(key) ==> held_after(true, held, InputEvent::KeyPress { key }) == held.push(
            key,
        ),
{
    law_press_adds_a_new_key(held, key);
}

/// A key that goes down and up again leaves the held keys as they were.
pub proof fn law_tap_leaves_held_keys(held: Seq<u64>, key: u64)
    requires
        held.no_duplicates(),
        !held.contains(key),
    ensures
        held_after(
            true,
            held_after(true, held, InputEvent::KeyPress { key }),
            InputEvent::KeyRelease { key },
        ) == held,
{
    law_release_undoes_press(held, key);
}

/// Mouse events change nothing about the held keys, and no event does while the backend does not
/// listen.
pub proof fn law_held_keys_change_by_keys_only(held: Seq<u64>, event: InputEvent)
    ensures
        held_after(false, held, event) == held,
        !(event is KeyPress) && !(event is KeyRelease) ==> held_after(true, held, event) == held,
{
}

/// Only presses set anything off, and nothing does while the backend does not listen.
pub proof fn law_only_presses_set_off_macros(
    triggers: Map<u32, Seq<MacroView>>,
    table: HidTable,
    held: Seq<u64>,
    event: InputEvent,
)
    ensures
        triggered(false, triggers, table, held, event).len() == 0,
        !(event is KeyPress) && !(event is ButtonPress) ==> triggered(
            true,
            triggers,
            table,
            held,
            event,
        ).len() == 0,
{
}

/// A key press is matched with the codes of all keys that are down then, in the order in which
/// they went down, against what is listed under the first of these codes.
pub proof fn law_key_press_is_matched(
    triggers: Map<u32, Seq<MacroView>>,
    table: HidTable,
    held: Seq<u64>,
    key: u64,
    codes: Seq<u32>,
)
    requires
        held.no_duplicates(),
        codes.len() == if held.contains(key) {
            held.len()
        } else {
            held.len() + 1
        },
        forall|i: int|
            0 <= i < held.len() ==> #[trigger] codes[i] == (if table.keys@.contains_key(held[i]) {
                table.keys@[held[i]]
            } else {
                0
            }),
        !held.contains(key) ==> codes[held.len() as int] == (if table.keys@.contains_key(key) {
            table.keys@[key]
        } else {
            0
        }),
    ensures
        triggered(true, triggers, table, held, InputEvent::KeyPress { key }) == executions(
            listed(triggers, codes[0]),
            codes,
        ),
{
    law_press_adds_a_new_key(held, key);
    assert(hid_codes(table, held_after(true, held, InputEvent::KeyPress { key })) =~= codes);
}

/// A button press is matched alone, whatever keys are held, against what is listed under the code
/// of the button.
pub proof fn law_button_press_is_matched(
    triggers: Map<u32, Seq<MacroView>>,
    table: HidTable,
    held: Seq<u64>,
    button: u64,
    is_left: bool,
    code: u32,
)
    requires
        code == if table.buttons@.contains_key(button) {
            table.buttons@[button]
        } else {
            0x101
        },
    ensures
        triggered(true, triggers, table, held, InputEvent::ButtonPress { button, is_left })
            == executions(listed(triggers, code), seq![code]),
{
}

/// A macro on a combination that a key press sets off is switched on with its collection, the key
/// that went down is its last key, and each of its other keys is held already.
pub proof fn law_key_press_completes_combination(
    data: Seq<CollectionView>,
    table: HidTable,
    held: Seq<u64>,
    key: u64,
    e: ExecutionView,
    keys: Seq<u32>,
    i: int,
)
    requires
        held.no_duplicates(),
        !held.contains(key),
        triggered(true, trigger_table(data), table, held, InputEvent::KeyPress { key }).contains(e),
        e.macros.trigger is Keys,
        e.macros.trigger->Keys_keys == keys,
        keys.len() >= 2,
        0 <= i < keys.len() - 1,
    ensures
        exists|c: int, n: int|
            0 <= c < data.len() && 0 <= n < data[c].macros.len() && data[c].active && (
            #[trigger] data[c].macros[n]).active && data[c].macros[n] == e.macros,
        keys[keys.len() - 1] == if table.keys@.contains_key(key) {
            table.keys@[key]
        } else {
            0
        },
        exists|j: int|
            0 <= j < held.len() && keys[i] == if table.keys@.contains_key(#[trigger] held[j]) {
                table.keys@[held[j]]
            } else {
                0
            },
{
    law_press_adds_a_new_key(held, key);
    let codes = hid_codes(table, held.push(key));
    law_combination_needs_every_key(listed(trigger_table(data), codes[0]), codes, e, keys);
    law_table_lists_what_the_key_starts(data, codes[0], e.macros);
    assert(codes.drop_last().contains(keys[i]));
    let j = choose|j: int| 0 <= j < codes.drop_last().len() && codes.drop_last()[j] == keys[i];
    assert(codes[j] == table.key_code(held[j]));
}

/// A released key reports its code, if it has one other than 0, and a released button always
/// does; nothing else is reported, and nothing while the backend does not listen.
pub proof fn law_releases_are_reported(table: HidTable, number: u64, event: InputEvent)
    ensures
        released_code(false, table, event) is None,
        !(event is KeyRelease) && !(event is ButtonRelease) ==> released_code(true, table, event)
            is None,
        table.keys@.contains_key(number) && table.keys@[number] != 0 ==> released_code(
            true,
            table,
            InputEvent::KeyRelease { key: number },
        ) == Some(table.keys@[number]),
        !table.keys@.contains_key(number) || table.keys@[number] == 0 ==> released_code(
            true,
            table,
            InputEvent::KeyRelease { key: number },
        ) is None,
        table.buttons@.contains_key(number) ==> released_code(
            true,
            table,
            InputEvent::ButtonRelease { button: number },
        ) == Some(table.buttons@[number]),
        !table.buttons@.contains_key(number) ==> released_code(
            true,
            table,
            InputEvent::ButtonRelease { button: number },
        ) == Some(0x101u32),
{
}

/// Only the press of the left button counts as such.
pub proof fn law_left_press(event: InputEvent)
    ensures
        is_left_press(event) <==> event is ButtonPress && event->ButtonPress_is_left,
{
}

/// A sound state has a lookup table, which is that of its macros, and a task of its own for each
/// macro that should run, and for no other.
pub proof fn law_sound_state<C>(backend: MacroBackend<C>)
    ensures
        backend.wf() <==> {
            let flags = backend.onhold_states@;
            let tasks = backend.onhold_handles@;
            &&& !has_broken_trigger(backend.data@)
            &&& backend.triggers@ == trigger_table(backend.data@)
            &&& forall|id: Seq<char>| #[trigger]
                tasks.contains_key(id) <==> flags.contains_key(id) && flags[id]
            &&& forall|x: Seq<char>, y: Seq<char>|
                #![trigger tasks.contains_key(x), tasks.contains_key(y)]
                tasks.contains_key(x) && tasks.contains_key(y) && x != y ==> tasks[x] != tasks[y]
        },
{
    law_marks_of_tables(backend.onhold_states@, backend.onhold_handles@, 0, Seq::empty());
}

/// What it means that a started macro runs until a release: after it the flag no longer lets the
/// macro run, its task is gone from the table, and it is among those that are aborted.
pub proof fn law_runs_until(
    data: Seq<CollectionView>,
    flags: Map<Seq<char>, bool>,
    tasks: Map<Seq<char>, u64>,
    id: Seq<char>,
    task: u64,
    code: u32,
)
    requires
        runs_until(data, flags, tasks, id, task, code),
    ensures
        ({
            let ended = ended_macros(data, code);
            let after = flags_after(flags.insert(id, true), ended);
            &&& !(after.contains_key(id) && after[id])
            &&& !tasks_after(tasks.insert(id, task), ended).contains_key(id)
            &&& aborted_tasks(tasks.insert(id, task), ended).contains(task)
        }),
{
}

/// Whatever was held, a press is added like any item of which only the first is kept, and what it
/// sets off is found under the first code and matched with all codes.
pub proof fn law_press_of_any_held_keys(
    triggers: Map<u32, Seq<MacroView>>,
    table: HidTable,
    held: Seq<u64>,
    key: u64,
)
    ensures
        held_after(true, held, InputEvent::KeyPress { key }) == first_occurrences(held.push(key)),
        triggered(true, triggers, table, held, InputEvent::KeyPress { key }) == executions(
            listed(triggers, hid_codes(table, first_occurrences(held.push(key)))[0]),
            hid_codes(table, first_occurrences(held.push(key))),
        ),
{
}

} // verus!
