//! Macros, the collections that group them, and the data of the whole application.

use crate::plugin::{Delay, KeyPress, MouseAction, MouseButton, PhillipsHueStatus, SystemAction};
use vstd::prelude::*;
use vstd::std_specs::cmp::{PartialEqSpec, PartialEqSpecImpl};

verus! {

/// How a macro runs once it is triggered.
#[derive(Debug, Clone, Copy, PartialEq, Eq, Structural)]
pub enum MacroType {
    /// Runs once.
    Single,
    /// Press to start, press to finish the cycle.  Carried in the data; nothing runs it yet.
    Toggle,
    /// Runs again and again while the trigger is held.
    OnHold,
}

/// The registry of all actions that a macro can perform.
#[allow(inconsistent_fields)]
#[derive(Debug, Clone, Copy, PartialEq, Eq, Structural)]
pub enum ActionEventType {
    KeyPressEventAction { data: KeyPress },
    SystemEventAction { data: SystemAction },
    PhillipsHueEventAction { data: PhillipsHueStatus },
    OBSEventAction {  },
    DiscordEventAction {  },
    MouseEventAction { data: MouseAction },
    DelayEventAction { data: Delay },
}

/// The registry of all incoming events that can start a macro.
#[allow(inconsistent_fields)]
#[derive(Debug)]
pub enum TriggerEventType {
    /// A key combination in HID codes; the last key completes it, the ones before are modifiers.
    KeyPressEvent { data: Vec<u32>, allow_while_other_keys: bool },
    /// A mouse button.
    MouseEvent { data: MouseButton },
}

/// A macro with all it needs to run.
#[derive(Debug)]
pub struct Macro {
    pub name: String,
    pub icon: String,
    pub sequence: Vec<ActionEventType>,
    pub macro_type: MacroType,
    pub trigger: TriggerEventType,
    pub active: bool,
}

/// A group of macros that is switched on and off as a whole.
#[derive(Debug)]
pub struct Collection {
    pub name: String,
    pub icon: String,
    pub macros: Vec<Macro>,
    pub active: bool,
}

/// All macro data of the application.
#[derive(Debug)]
pub struct MacroData {
    pub data: Vec<Collection>,
}

/// The contents of a [`TriggerEventType`].
pub enum TriggerView {
    Keys { keys: Seq<u32>, allow_while_other_keys: bool },
    Button { button: MouseButton },
}

/// The contents of a [`Macro`].
pub struct MacroView {
    pub name: Seq<char>,
    pub icon: Seq<char>,
    pub sequence: Seq<ActionEventType>,
    pub macro_type: MacroType,
    pub trigger: TriggerView,
    pub active: bool,
}

/// The contents of a [`Collection`].
pub struct CollectionView {
    pub name: Seq<char>,
    pub icon: Seq<char>,
    pub macros: Seq<MacroView>,
    pub active: bool,
}

/// The contents of the macros of `s`, one by one.
pub open spec fn macro_views(s: Seq<Macro>) -> Seq<MacroView> {
    s.map_values(|m: Macro| m@)
}

impl View for TriggerEventType {
    type V = TriggerView;

    open spec fn view(&self) -> TriggerView {
        match self {
            TriggerEventType::KeyPressEvent { data, allow_while_other_keys } => TriggerView::Keys {
                keys: data@,
                allow_while_other_keys: *allow_while_other_keys,
            },
            TriggerEventType::MouseEvent { data } => TriggerView::Button { button: *data },
        }
    }
}

impl View for Macro {
    type V = MacroView;

    open spec fn view(&self) -> MacroView {
        MacroView {
            name: self.name@,
            icon: self.icon@,
            sequence: self.sequence@,
            macro_type: self.macro_type,
            trigger: self.trigger@,
            active: self.active,
        }
    }
}

impl View for Collection {
    type V = CollectionView;

    open spec fn view(&self) -> CollectionView {
        CollectionView {
            name: self.name@,
            icon: self.icon@,
            macros: macro_views(self.macros@),
            active: self.active,
        }
    }
}

impl View for MacroData {
    type V = Seq<CollectionView>;

    open spec fn view(&self) -> Seq<CollectionView> {
        self.data@.map_values(|c: Collection| c@)
    }
}

/// Whether two key lists hold the same keys in the same order.
pub fn same_keys(a: &Vec<u32>, b: &Vec<u32>) -> (same: bool)
    ensures
        same == (a@ == b@),
{
    if a.len() != b.len() {
        return false;
    }
    for i in 0..a.len()
        invariant
            a.len() == b.len(),
            forall|j: int| 0 <= j < i ==> a@[j] == b@[j],
    {
        if a[i] != b[i] {
            return false;
        }
    }
    assert(a@ =~= b@);
    true
}

impl PartialEq for TriggerEventType {
    fn eq(&self, other: &Self) -> (same: bool) {
        match (self, other) {
            (
                TriggerEventType::KeyPressEvent { data: a, allow_while_other_keys: p },
                TriggerEventType::KeyPressEvent { data: b, allow_while_other_keys: q },
            ) => same_keys(a, b) && *p == *q,
            (
                TriggerEventType::MouseEvent { data: a },
                TriggerEventType::MouseEvent { data: b },
            ) => a.code == b.code,
            _ => false,
        }
    }
}

impl PartialEqSpecImpl for TriggerEventType {
    open spec fn obeys_eq_spec() -> bool {
        true
    }

    open spec fn eq_spec(&self, other: &Self) -> bool {
        self@ == other@
    }
}

impl Clone for TriggerEventType {
    fn clone(&self) -> (copy: Self)
        ensures
            copy@ == self@,
    {
        match self {
            TriggerEventType::KeyPressEvent { data, allow_while_other_keys } => {
                let keys = data.clone();
                assert(keys@ =~= data@);
                TriggerEventType::KeyPressEvent {
                    data: keys,
                    allow_while_other_keys: *allow_while_other_keys,
                }
            },
            TriggerEventType::MouseEvent { data } => TriggerEventType::MouseEvent { data: *data },
        }
    }
}

impl Clone for Macro {
    fn clone(&self) -> (copy: Self)
        ensures
            copy@ == self@,
    {
        let sequence = self.sequence.clone();
        assert(sequence@ =~= self.sequence@);
        Macro {
            name: self.name.clone(),
            icon: self.icon.clone(),
            sequence,
            macro_type: self.macro_type,
            trigger: self.trigger.clone(),
            active: self.active,
        }
    }
}

impl Clone for Collection {
    fn clone(&self) -> (copy: Self)
        ensures
            copy@ == self@,
    {
        let macros = self.macros.clone();
        assert(macro_views(macros@) =~= macro_views(self.macros@));
        Collection {
            name: self.name.clone(),
            icon: self.icon.clone(),
            macros,
            active: self.active,
        }
    }
}

impl Clone for MacroData {
    fn clone(&self) -> (copy: Self)
        ensures
            copy@ == self@,
    {
        let data = self.data.clone();
        let copy = MacroData { data };
        assert(copy@ =~= self@);
        copy
    }
}

impl Default for MacroData {
    /// One active collection without macros.
    fn default() -> (data: Self)
        ensures
            data@ == seq![
                (CollectionView {
                    name: "Collection 1"@,
                    icon: ":smile:"@,
                    macros: Seq::empty(),
                    active: true,
                }),
            ],
    {
        let data = MacroData {
            data: vec![
                Collection {
                    name: "Collection 1".to_string(),
                    icon: ":smile:".to_string(),
                    macros: vec![],
                    active: true,
                },
            ],
        };
        assert(macro_views(Seq::empty()) =~= Seq::empty());
        assert(data@ =~= seq![data.data@[0]@]);
        data
    }
}

/// The contents of a trigger are its keys in order with their option, or its mouse button.
pub proof fn law_view_shows_trigger(trigger: TriggerEventType)
    ensures
        match trigger {
            TriggerEventType::KeyPressEvent { data, allow_while_other_keys } => {
                &&& trigger@ is Keys
                &&& trigger@->Keys_keys == data@
                &&& trigger@->Keys_allow_while_other_keys == allow_while_other_keys
            },
            TriggerEventType::MouseEvent { data } => {
                &&& trigger@ is Button
                &&& trigger@->Button_button == data
            },
        },
{
}

/// The contents of a macro are those of its fields.
pub proof fn law_view_shows_macro(m: Macro)
    ensures
        m@.name == m.name@,
        m@.icon == m.icon@,
        m@.sequence == m.sequence@,
        m@.macro_type == m.macro_type,
        m@.trigger == m.trigger@,
        m@.active == m.active,
{
}

/// The contents of the macro data are those of all collections, and of all macros in each, in
/// order.
pub proof fn law_view_shows_data(data: MacroData)
    ensures
        data@.len() == data.data@.len(),
        forall|c: int|
            #![trigger data@[c]]
            0 <= c < data@.len() ==> {
                let collection = data.data@[c];
                &&& data@[c].name == collection.name@
                &&& data@[c].icon == collection.icon@
                &&& data@[c].active == collection.active
                &&& data@[c].macros.len() == collection.macros@.len()
                &&& forall|i: int|
                    0 <= i < collection.macros@.len() ==> #[trigger] data@[c].macros[i]
                        == collection.macros@[i]@
            },
{
}

/// The contents of a list of macros are those of each of them, in order.
pub proof fn law_views_show_macros(s: Seq<Macro>)
    ensures
        macro_views(s).len() == s.len(),
        forall|i: int| 0 <= i < s.len() ==> #[trigger] macro_views(s)[i] == s[i]@,
{
}

/// Two triggers are equal exactly if they have the same keys in the same order with the same
/// option, or the same mouse button.
pub proof fn law_equal_triggers(a: TriggerEventType, b: TriggerEventType)
    ensures
        PartialEqSpec::eq_spec(&a, &b) <==> match (a, b) {
            (
                TriggerEventType::KeyPressEvent { data: x, allow_while_other_keys: p },
                TriggerEventType::KeyPressEvent { data: y, allow_while_other_keys: q },
            ) => x@ == y@ && p == q,
            (
                TriggerEventType::MouseEvent { data: x },
                TriggerEventType::MouseEvent { data: y },
            ) => x.code == y.code,
            _ => false,
        },
{
}

} // verus!
