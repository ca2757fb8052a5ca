//! Which macros a set of pressed keys starts, and how each of them is started.

use crate::lookup::{
    is_enabled, law_table_lists_enabled_macros, listed, lookup_keys, place_before, trigger_table,
};
use crate::macro_id::{generate_macro_id, macro_id};
use crate::model::{
    macro_views, same_keys, CollectionView, Macro, MacroData, MacroType, MacroView,
    TriggerEventType, TriggerView,
};
use crate::seq_facts::{lemma_filter_concat, lemma_filter_contains};
use vstd::prelude::*;

verus! {

/// Whether the trigger is a key combination of two to four keys.
pub open spec fn is_combination(trigger: TriggerView) -> bool {
    trigger matches TriggerView::Keys { keys, .. } && 2 <= keys.len() <= 4
}

/// Whether the pressed keys or button, in HID codes in the order of pressing, set off the trigger.
/// A single key or a mouse button must be all that is pressed.  Of a combination, the last key
/// pressed must be the last key of the trigger, and the modifiers must be among the keys before it.
pub open spec fn fires(trigger: TriggerView, pressed: Seq<u32>) -> bool {
    match trigger {
        TriggerView::Keys { keys, .. } => if keys.len() == 1 {
            pressed == keys
        } else if 2 <= keys.len() <= 4 {
            &&& pressed.len() > 0
            &&& pressed.last() == keys.last()
            &&& forall|i: int|
                0 <= i < keys.len() - 1 ==> pressed.drop_last().contains(#[trigger] keys[i])
        } else {
            false
        },
        TriggerView::Button { button } => pressed == seq![button.code],
    }
}

/// A macro to start, and the keys to lift before it starts.
#[derive(Debug)]
pub struct Execution {
    pub macros: Macro,
    pub lift_keys: Option<Vec<u32>>,
}

/// The contents of an [`Execution`].
pub struct ExecutionView {
    pub macros: MacroView,
    pub lift_keys: Option<Seq<u32>>,
}

impl View for Execution {
    type V = ExecutionView;

    open spec fn view(&self) -> ExecutionView {
        ExecutionView {
            macros: self.macros@,
            lift_keys: match self.lift_keys {
                Some(keys) => Some(keys@),
                None => None,
            },
        }
    }
}

/// The contents of a list of executions, one by one.
pub open spec fn execution_views(s: Seq<Execution>) -> Seq<ExecutionView> {
    s.map_values(|e: Execution| e@)
}

/// How `m` is executed: the keys of a combination are lifted first, so that held modifiers do not
/// meddle with the macro.
pub open spec fn execution_of(m: MacroView) -> ExecutionView {
    ExecutionView {
        macros: m,
        lift_keys: match m.trigger {
            TriggerView::Keys { keys, .. } => if 2 <= keys.len() <= 4 {
                Some(keys)
            } else {
                None
            },
            TriggerView::Button { .. } => None,
        },
    }
}

/// The executions that `pressed` sets off among `macros`, in order.
pub open spec fn executions(macros: Seq<MacroView>, pressed: Seq<u32>) -> Seq<ExecutionView> {
    macros.filter(|m: MacroView| fires(m.trigger, pressed)).map_values(
        |m: MacroView| execution_of(m),
    )
}

/// Whether `key` is in `keys` before position `end`.
fn contains_before(keys: &Vec<u32>, end: usize, key: u32) -> (found: bool)
    requires
        end <= keys.len(),
    ensures
        found == keys@.take(end as int).contains(key),
{
    for i in 0..end
        invariant
            end <= keys.len(),
            forall|j: int| 0 <= j < i ==> keys@[j] != key,
    {
        if keys[i] == key {
            assert(keys@.take(end as int)[i as int] == key);
            return true;
        }
    }
    false
}

/// Whether the pressed keys set off a combination of two to four keys.
fn combination_fires(keys: &Vec<u32>, pressed: &Vec<u32>) -> (yes: bool)
    requires
        2 <= keys.len() <= 4,
        pressed.len() > 0,
    ensures
        yes == (pressed@.last() == keys@.last() && forall|i: int|
            0 <= i < keys.len() - 1 ==> pressed@.drop_last().contains(#[trigger] keys@[i])),
{
    let last: usize = pressed.len() - 1;
    assert(pressed@.drop_last() =~= pressed@.take(last as int));
    for i in 0..keys.len() - 1
        invariant
            2 <= keys.len() <= 4,
            last == pressed.len() - 1,
            pressed@.drop_last() == pressed@.take(last as int),
            forall|j: int| 0 <= j < i ==> pressed@.drop_last().contains(#[trigger] keys@[j]),
    {
        if !contains_before(pressed, last, keys[i]) {
            assert(!pressed@.drop_last().contains(keys@[i as int]));
            return false;
        }
    }
    pressed[last] == keys[keys.len() - 1]
}

/// Checks the macros that a lookup gave against what is pressed.
///
/// Returns whether anything fired, and what to execute, in the order of `trigger_overview`.
pub fn check_macro_execution_efficiently(
    pressed_events: &Vec<u32>,
    trigger_overview: &Vec<Macro>,
) -> (outcome: (bool, Vec<Execution>))
    requires
        pressed_events.len() > 0 || forall|i: int|
            0 <= i < trigger_overview.len() ==> !is_combination(
                (#[trigger] trigger_overview@[i]).trigger@,
            ),
    ensures
        execution_views(outcome.1@) == executions(
            macro_views(trigger_overview@),
            pressed_events@,
        ),
        outcome.0 <==> exists|i: int|
            0 <= i < trigger_overview.len() && fires(
                (#[trigger] trigger_overview@[i]).trigger@,
                pressed_events@,
            ),
        outcome.0 <==> outcome.1@.len() > 0,
        forall|k: int|
            #![trigger outcome.1@[k]]
            0 <= k < outcome.1@.len() ==> match outcome.1@[k].macros.trigger {
                TriggerEventType::KeyPressEvent { data, .. } => if data@.len() == 1 {
                    pressed_events@ == data@ && outcome.1@[k].lift_keys is None
                } else {
                    &&& 2 <= data@.len() <= 4
                    &&& pressed_events@.len() > 0
                    &&& pressed_events@.last() == data@.last()
                    &&& forall|i: int|
                        0 <= i < data@.len() - 1 ==> pressed_events@.drop_last().contains(
                            #[trigger] data@[i],
                        )
                    &&& outcome.1@[k].lift_keys is Some
                    &&& outcome.1@[k].lift_keys->Some_0@ == data@
                },
                TriggerEventType::MouseEvent { data } => pressed_events@ == seq![data.code]
                    && outcome.1@[k].lift_keys is None,
            },
{
    let mut output = false;
    let mut found: Vec<Execution> = Vec::new();
    let ghost macros = macro_views(trigger_overview@);
    let ghost pressed = pressed_events@;
    let ghost fire = |m: MacroView| fires(m.trigger, pressed);
    let ghost exec = |m: MacroView| execution_of(m);
    proof {
        reveal(Seq::filter);
        assert(execution_views(found@) =~= macros.take(0).filter(fire).map_values(exec));
    }
    for i in 0..trigger_overview.len()
        invariant
            macros == macro_views(trigger_overview@),
            pressed == pressed_events@,
            fire == (|m: MacroView| fires(m.trigger, pressed)),
            exec == (|m: MacroView| execution_of(m)),
            pressed_events.len() > 0 || forall|j: int|
                0 <= j < trigger_overview.len() ==> !is_combination(
                    (#[trigger] trigger_overview@[j]).trigger@,
                ),
            execution_views(found@) == macros.take(i as int).filter(fire).map_values(exec),
            output <==> exists|j: int|
                0 <= j < i && fires((#[trigger] trigger_overview@[j]).trigger@, pressed),
            output <==> found@.len() > 0,
    {
        let m = &trigger_overview[i];
        let ghost before = found@;
        assert(m@ == macros[i as int]);
        let (fired, lift) = match &m.trigger {
            TriggerEventType::KeyPressEvent { data, .. } => {
                let n = data.len();
                if n == 1 {
                    (same_keys(pressed_events, data), None)
                } else if 2 <= n && n <= 4 {
                    assert(is_combination(trigger_overview@[i as int].trigger@));
                    let keys = data.clone();
                    assert(keys@ =~= data@);
                    (combination_fires(data, pressed_events), Some(keys))
                } else {
                    (false, None)
                }
            },
            TriggerEventType::MouseEvent { data } => {
                let event_to_check: Vec<u32> = vec![data.code];
                assert(event_to_check@ =~= seq![data.code]);
                (same_keys(&event_to_check, pressed_events), None)
            },
        };
        assert(fired == fire(m@));
        if fired {
            let execution = Execution { macros: m.clone(), lift_keys: lift };
            assert(execution@ == exec(m@));
            found.push(execution);
            assert(execution_views(found@) =~= execution_views(before).push(exec(m@)));
            output = true;
            assert(fires(trigger_overview@[i as int].trigger@, pressed));
        }
        proof {
            reveal(Seq::filter);
            let shorter = macros.take(i as int);
            let longer = macros.take(i + 1);
            assert(longer.drop_last() =~= shorter);
            if fired {
                assert(longer.filter(fire) == shorter.filter(fire).push(m@));
                assert(longer.filter(fire).map_values(exec) =~= shorter.filter(fire).map_values(
                    exec,
                ).push(exec(m@)));
            }
        }
    }
    assert(macros.take(macros.len() as int) =~= macros);
    proof {
        assert forall|k: int|
            #![trigger found@[k]]
            0 <= k < found@.len() implies fires(found@[k].macros@.trigger, pressed) && found@[k]@
            == execution_of(found@[k].macros@) by {
            assert(execution_views(found@)[k] == found@[k]@);
            assert(executions(macros, pressed).contains(found@[k]@));
            lemma_executions_contain(macros, pressed, found@[k]@);
        }
    }
    (output, found)
}

/// Whether the macro at `m` in the collection at `c` has the name and trigger of `target`.
pub open spec fn same_macro_at(
    data: Seq<CollectionView>,
    c: int,
    m: int,
    target: MacroView,
) -> bool {
    &&& 0 <= c < data.len()
    &&& 0 <= m < data[c].macros.len()
    &&& data[c].macros[m].name == target.name
    &&& data[c].macros[m].trigger == target.trigger
}

/// Whether `(c, m)` is the first place with the name and trigger of `target`.
pub open spec fn is_first_place(
    data: Seq<CollectionView>,
    c: int,
    m: int,
    target: MacroView,
) -> bool {
    &&& same_macro_at(data, c, m, target)
    &&& forall|d: int, n: int| #[trigger]
        same_macro_at(data, d, n, target) ==> !place_before(d, n, c, m)
}

/// Finds the first macro with the name and trigger of `target_macro`.
pub fn find_macro_indices(macro_data: &MacroData, target_macro: &Macro) -> (place: Option<
    (usize, usize),
>)
    ensures
        match place {
            Some((c, m)) => is_first_place(macro_data@, c as int, m as int, target_macro@),
            None => forall|d: int, n: int| !same_macro_at(macro_data@, d, n, target_macro@),
        },
{
    let ghost data = macro_data@;
    let ghost target = target_macro@;
    for c in 0..macro_data.data.len()
        invariant
            data == macro_data@,
            target == target_macro@,
            forall|d: int, n: int| #[trigger] same_macro_at(data, d, n, target) ==> c <= d,
    {
        let collection = &macro_data.data[c];
        assert(collection@ == data[c as int]);
        for m in 0..collection.macros.len()
            invariant
                data == macro_data@,
                target == target_macro@,
                c < data.len(),
                collection@ == data[c as int],
                forall|d: int, n: int| #[trigger]
                    same_macro_at(data, d, n, target) ==> !place_before(d, n, c as int, m as int),
        {
            let item = &collection.macros[m];
            assert(item@ == data[c as int].macros[m as int]);
            if item.name == target_macro.name && item.trigger == target_macro.trigger {
                assert(same_macro_at(data, c as int, m as int, target));
                return Some((c, m));
            }
        }
    }
    None
}

/// How a triggered macro is started.
#[derive(Debug)]
pub enum Launch {
    /// Run the macro once.
    Once,
    /// Start nothing.
    Ignore,
    /// Run the macro again and again, under this identifier, until it is stopped.
    Hold { macro_id: String },
}

/// How a macro of the given type at the given place is started.
pub fn execute_macro(
    macros: &Macro,
    collection_index: usize,
    macro_index: usize,
) -> (launch: Launch)
    ensures
        match macros.macro_type {
            MacroType::Single => launch is Once,
            MacroType::Toggle => launch is Ignore,
            MacroType::OnHold => launch matches Launch::Hold { macro_id: id } && id@ == macro_id(
                collection_index as nat,
                macro_index as nat,
            ),
        },
{
    match macros.macro_type {
        MacroType::Single => Launch::Once,
        MacroType::Toggle => Launch::Ignore,
        MacroType::OnHold => Launch::Hold {
            macro_id: generate_macro_id(collection_index, macro_index),
        },
    }
}

/// The modifiers of a combination can be pressed in any order, together with other keys: only the
/// last key and the set of keys pressed before it count.
pub proof fn law_modifiers_in_any_order(trigger: TriggerView, p: Seq<u32>, q: Seq<u32>)
    requires
        is_combination(trigger),
        p.len() > 0,
        q.len() > 0,
        p.last() == q.last(),
        p.drop_last().to_set() == q.drop_last().to_set(),
    ensures
        fires(trigger, p) == fires(trigger, q),
{
    assert forall|key: u32| p.drop_last().contains(key) == q.drop_last().contains(key) by {
        assert(p.drop_last().to_set().contains(key) == p.drop_last().contains(key));
        assert(q.drop_last().to_set().contains(key) == q.drop_last().contains(key));
    }
}

/// Whether the trigger holds the code of the given key or mouse button.
pub open spec fn holds_code(trigger: TriggerView, code: u32) -> bool {
    match trigger {
        TriggerView::Keys { keys, .. } => keys.contains(code),
        TriggerView::Button { button } => button.code == code,
    }
}

/// What was pressed last to set off a trigger belongs to the trigger.
pub proof fn law_last_press_belongs_to_trigger(trigger: TriggerView, pressed: Seq<u32>)
    requires
        fires(trigger, pressed),
    ensures
        holds_code(trigger, pressed.last()),
{
    if let TriggerView::Keys { keys, .. } = trigger {
        assert(keys[keys.len() - 1] == pressed.last());
    }
}

/// Membership in the executions of a list of macros.
proof fn lemma_executions_contain(macros: Seq<MacroView>, pressed: Seq<u32>, e: ExecutionView)
    ensures
        executions(macros, pressed).contains(e) <==> e == execution_of(e.macros) && macros.contains(
            e.macros,
        ) && fires(e.macros.trigger, pressed),
{
    let fire = |m: MacroView| fires(m.trigger, pressed);
    let exec = |m: MacroView| execution_of(m);
    let fired = macros.filter(fire);
    if executions(macros, pressed).contains(e) {
        let i = choose|i: int|
            0 <= i < executions(macros, pressed).len() && executions(macros, pressed)[i] == e;
        assert(fired[i] == e.macros);
        assert(fired.contains(e.macros));
        lemma_filter_contains(macros, fire, e.macros);
    }
    if macros.contains(e.macros) && fire(e.macros) && e == execution_of(e.macros) {
        lemma_filter_contains(macros, fire, e.macros);
        let i = choose|i: int| 0 <= i < fired.len() && fired[i] == e.macros;
        assert(executions(macros, pressed)[i] == e);
    }
}

/// What a press finds through the lookup table is exactly the enabled macros that fire and whose
/// trigger is looked up by the first key pressed.
pub proof fn law_press_finds_enabled_macros(
    data: Seq<CollectionView>,
    pressed: Seq<u32>,
    m: MacroView,
)
    requires
        pressed.len() > 0,
    ensures
        executions(listed(trigger_table(data), pressed[0]), pressed).contains(execution_of(m))
            <==> is_enabled(data, m) && lookup_keys(m.trigger).contains(pressed[0]) && fires(
            m.trigger,
            pressed,
        ),
{
    lemma_executions_contain(
        listed(trigger_table(data), pressed[0]),
        pressed,
        execution_of(m),
    );
    law_table_lists_enabled_macros(data, pressed[0], m);
}

/// An enabled macro on a single key or a mouse button is executed when just that is pressed.
pub proof fn law_single_press_executes(data: Seq<CollectionView>, code: u32, m: MacroView)
    requires
        is_enabled(data, m),
        lookup_keys(m.trigger) == seq![code],
        !is_combination(m.trigger),
    ensures
        executions(listed(trigger_table(data), code), seq![code]).contains(execution_of(m)),
{
    law_press_finds_enabled_macros(data, seq![code], m);
    assert(seq![code].contains(seq![code][0]));
    if let TriggerView::Button { button } = m.trigger {
        assert(seq![button.code][0] == seq![code][0]);
    }
}

/// An enabled macro on a combination is executed when its modifiers, in any order and nothing
/// else, and then its last key are pressed.
pub proof fn law_combination_executes(data: Seq<CollectionView>, pressed: Seq<u32>, m: MacroView)
    requires
        is_enabled(data, m),
        is_combination(m.trigger),
        m.trigger matches TriggerView::Keys { keys, .. } && pressed.last() == keys.last()
            && pressed.drop_last().to_set() == keys.drop_last().to_set(),
        pressed.len() > 0,
    ensures
        executions(listed(trigger_table(data), pressed[0]), pressed).contains(execution_of(m)),
{
    if let TriggerView::Keys { keys, .. } = m.trigger {
        let before = pressed.drop_last();
        let modifiers = keys.drop_last();
        assert forall|i: int| 0 <= i < keys.len() - 1 implies before.contains(
            #[trigger] keys[i],
        ) by {
            assert(modifiers[i] == keys[i]);
            assert(modifiers.to_set().contains(keys[i]));
            assert(before.to_set().contains(keys[i]));
        }
        assert(before.contains(keys[0]));
        assert(before[0] == pressed[0]);
        assert(before.to_set().contains(pressed[0]));
        assert(modifiers.to_set().contains(pressed[0]));
        assert(lookup_keys(m.trigger).contains(pressed[0]));
    }
    law_press_finds_enabled_macros(data, pressed, m);
}

/// A combination has two to four keys.
pub proof fn law_combinations_have_two_to_four_keys(trigger: TriggerView)
    ensures
        is_combination(trigger) <==> trigger is Keys && 2 <= trigger->Keys_keys.len() <= 4,
{
}

/// A macro on a key combination is executed only if every key of its trigger is pressed: the last
/// code pressed is the last key of the trigger, and each of the other keys was pressed before it.
/// The keys of the trigger are lifted first.
pub proof fn law_combination_needs_every_key(
    macros: Seq<MacroView>,
    pressed: Seq<u32>,
    e: ExecutionView,
    keys: Seq<u32>,
)
    requires
        executions(macros, pressed).contains(e),
        e.macros.trigger is Keys,
        e.macros.trigger->Keys_keys == keys,
        keys.len() != 1,
    ensures
        macros.contains(e.macros),
        2 <= keys.len() <= 4,
        pressed.len() > 0,
        pressed[pressed.len() - 1] == keys[keys.len() - 1],
        forall|i: int|
            0 <= i < keys.len() - 1 ==> pressed.drop_last().contains(#[trigger] keys[i]),
        e.lift_keys == Some(keys),
{
    lemma_executions_contain(macros, pressed, e);
}

/// A macro on a combination of two to four keys is executed, with its keys lifted first, whenever
/// its last key is pressed last and its other keys are pressed before, whatever else is.
pub proof fn law_whole_combination_executes(
    macros: Seq<MacroView>,
    pressed: Seq<u32>,
    m: MacroView,
    keys: Seq<u32>,
)
    requires
        macros.contains(m),
        m.trigger is Keys,
        m.trigger->Keys_keys == keys,
        2 <= keys.len() <= 4,
        pressed.len() > 0,
        pressed[pressed.len() - 1] == keys[keys.len() - 1],
        forall|i: int|
            0 <= i < keys.len() - 1 ==> pressed.drop_last().contains(#[trigger] keys[i]),
    ensures
        executions(macros, pressed).contains(
            (ExecutionView { macros: m, lift_keys: Some(keys) }),
        ),
{
    lemma_executions_contain(
        macros,
        pressed,
        ExecutionView { macros: m, lift_keys: Some(keys) },
    );
}

/// A macro on a single key is executed, with nothing lifted, exactly when this key is all that is
/// pressed, and one on a mouse button exactly when this button is all that is pressed.
pub proof fn law_single_trigger_needs_just_itself(
    macros: Seq<MacroView>,
    pressed: Seq<u32>,
    e: ExecutionView,
    code: u32,
)
    requires
        e.macros.trigger is Keys ==> e.macros.trigger->Keys_keys.len() == 1
            && e.macros.trigger->Keys_keys[0] == code,
        e.macros.trigger is Button ==> e.macros.trigger->Button_button.code == code,
    ensures
        executions(macros, pressed).contains(e) <==> macros.contains(e.macros) && e.lift_keys
            is None && pressed.len() == 1 && pressed[0] == code,
{
    lemma_executions_contain(macros, pressed, e);
    if pressed.len() == 1 && pressed[0] == code {
        assert(pressed =~= seq![code]);
        if e.macros.trigger is Keys {
            assert(e.macros.trigger->Keys_keys =~= pressed);
        }
    }
}

/// Each macro is judged by itself, and what is executed comes in the order of the macros: what is
/// executed of two lists together is what is executed of the first and then of the second.
pub proof fn law_executions_of_joined_lists(
    a: Seq<MacroView>,
    b: Seq<MacroView>,
    pressed: Seq<u32>,
)
    ensures
        executions(a + b, pressed) == executions(a, pressed) + executions(b, pressed),
        executions(Seq::empty(), pressed).len() == 0,
{
    let fire = |m: MacroView| fires(m.trigger, pressed);
    lemma_filter_concat(a, b, fire);
    reveal(Seq::filter);
    assert(executions(a + b, pressed) =~= executions(a, pressed) + executions(b, pressed));
}

/// One macro is executed once or not at all, once exactly if its trigger fires.
pub proof fn law_executions_of_one_macro(m: MacroView, pressed: Seq<u32>)
    ensures
        executions(seq![m], pressed).len() <= 1,
        executions(seq![m], pressed).len() == 1 <==> fires(m.trigger, pressed),
        executions(seq![m], pressed).len() == 1 ==> executions(seq![m], pressed)[0].macros == m
            && executions(seq![m], pressed)[0] == execution_of(m),
{
    reveal(Seq::filter);
    reveal_with_fuel(Seq::filter, 2);
    assert(seq![m].drop_last() =~= Seq::empty());
}

/// A trigger fires exactly on these: a single key or a button that is all that is pressed, and a
/// combination of two to four keys of which the last is pressed last and the others before.  Any
/// other number of keys never fires.
pub proof fn law_trigger_fires(trigger: TriggerView, pressed: Seq<u32>)
    ensures
        trigger is Button ==> (fires(trigger, pressed) <==> pressed.len() == 1 && pressed[0]
            == trigger->Button_button.code),
        trigger is Keys && trigger->Keys_keys.len() == 1 ==> (fires(trigger, pressed)
            <==> pressed.len() == 1 && pressed[0] == trigger->Keys_keys[0]),
        trigger is Keys && 2 <= trigger->Keys_keys.len() <= 4 ==> (fires(trigger, pressed)
            <==> pressed.len() > 0 && pressed[pressed.len() - 1]
            == trigger->Keys_keys[trigger->Keys_keys.len() - 1] && forall|i: int|
            0 <= i < trigger->Keys_keys.len() - 1 ==> pressed.take(pressed.len() - 1).contains(
                #[trigger] trigger->Keys_keys[i],
            )),
        trigger is Keys && (trigger->Keys_keys.len() == 0 || trigger->Keys_keys.len() > 4)
            ==> !fires(trigger, pressed),
{
    if pressed.len() > 0 {
        assert(pressed.take(pressed.len() - 1) =~= pressed.drop_last());
    }
    if let TriggerView::Button { button } = trigger {
        if pressed.len() == 1 && pressed[0] == button.code {
            assert(pressed =~= seq![button.code]);
        }
    }
    if let TriggerView::Keys { keys, .. } = trigger {
        if keys.len() == 1 && pressed.len() == 1 && pressed[0] == keys[0] {
            assert(pressed =~= keys);
        }
    }
}

/// Of a combination of keys all are lifted before the macro starts; before another macro nothing
/// is lifted.
pub proof fn law_combination_is_lifted(m: MacroView)
    ensures
        execution_of(m).macros == m,
        m.trigger is Keys && 2 <= m.trigger->Keys_keys.len() <= 4 ==> execution_of(m).lift_keys
            == Some(m.trigger->Keys_keys),
        !(m.trigger is Keys && 2 <= m.trigger->Keys_keys.len() <= 4) ==> execution_of(
            m,
        ).lift_keys is None,
{
}

/// The contents of executions are theirs one by one: the macro, and the keys to lift.
pub proof fn law_views_show_executions(s: Seq<Execution>)
    ensures
        execution_views(s).len() == s.len(),
        forall|i: int|
            #![trigger execution_views(s)[i]]
            0 <= i < s.len() ==> {
                &&& execution_views(s)[i].macros == s[i].macros@
                &&& execution_views(s)[i].lift_keys is Some <==> s[i].lift_keys is Some
                &&& s[i].lift_keys is Some ==> execution_views(s)[i].lift_keys->Some_0
                    == s[i].lift_keys->Some_0@
            },
{
}

/// The first place of a macro is one with its name and trigger, and every place before it, in an
/// earlier collection or earlier in the same one, has another name or another trigger.
pub proof fn law_first_place(data: Seq<CollectionView>, c: int, m: int, target: MacroView)
    ensures
        is_first_place(data, c, m, target) <==> {
            &&& 0 <= c < data.len()
            &&& 0 <= m < data[c].macros.len()
            &&& data[c].macros[m].name == target.name
            &&& data[c].macros[m].trigger == target.trigger
            &&& forall|d: int, n: int|
                #![trigger data[d].macros[n]]
                0 <= d <= c && 0 <= n < data[d].macros.len() && (d < c || n < m)
                    ==> data[d].macros[n].name != target.name || data[d].macros[n].trigger
                    != target.trigger
        },
{
    if 0 <= c < data.len() && 0 <= m < data[c].macros.len() && is_first_place(data, c, m, target) {
        assert forall|d: int, n: int|
            #![trigger data[d].macros[n]]
            0 <= d <= c && 0 <= n < data[d].macros.len() && (d < c || n < m) implies (
        data[d].macros[n].name != target.name || data[d].macros[n].trigger != target.trigger) by {
            assert(same_macro_at(data, d, n, target) ==> !place_before(d, n, c, m));
        }
    }
}

/// A place holds a macro exactly if it exists and has the same name and trigger.
pub proof fn law_same_macro(data: Seq<CollectionView>, c: int, m: int, target: MacroView)
    ensures
        same_macro_at(data, c, m, target) <==> 0 <= c < data.len() && 0 <= m
            < data[c].macros.len() && data[c].macros[m].name == target.name
            && data[c].macros[m].trigger == target.trigger,
{
}

/// A trigger holds a code exactly if it is one of its keys or its button.
pub proof fn law_trigger_holds_its_codes(trigger: TriggerView, code: u32)
    ensures
        trigger is Keys ==> (holds_code(trigger, code) <==> trigger->Keys_keys.contains(code)),
        trigger is Button ==> (holds_code(trigger, code) <==> trigger->Button_button.code == code),
{
}

} // verus!
