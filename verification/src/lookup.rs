//! The table that finds the macros to check for a pressed key.

use crate::model::{
    macro_views, CollectionView, Macro, MacroData, MacroView, TriggerEventType, TriggerView,
};
use crate::seq_facts::{lemma_concat_contains, lemma_push_contains};
use vstd::prelude::*;

verus! {

/// The macros to check for each first key.
#[derive(Debug)]
#[verifier::external_body]
pub struct MacroTriggerLookup {
    map: halfbrown::HashMap<u32, Vec<Macro>>,
}

/// The lists that a lookup table holds, by key.
pub uninterp spec fn trigger_lists(table: MacroTriggerLookup) -> Map<u32, Seq<Macro>>;

impl View for MacroTriggerLookup {
    type V = Map<u32, Seq<MacroView>>;

    open spec fn view(&self) -> Map<u32, Seq<MacroView>> {
        trigger_lists(*self).map_values(|list: Seq<Macro>| macro_views(list))
    }
}

/// Why no lookup table can be built.
#[derive(Debug, Clone, Copy, PartialEq, Eq, Structural)]
pub enum TriggerError {
    /// An active macro is triggered by a key combination without keys.
    NoTriggerKeys,
}

impl TriggerError {
    /// The error in words.
    pub fn message(&self) -> (text: String)
        ensures
            text@ == "a trigger key can't be zero, aborting trigger generation: []"@,
    {
        match self {
            TriggerError::NoTriggerKeys => {
                "a trigger key can't be zero, aborting trigger generation: []".to_string()
            },
        }
    }
}

/// The list under `key`, empty if there is none.
pub open spec fn listed(table: Map<u32, Seq<MacroView>>, key: u32) -> Seq<MacroView> {
    if table.contains_key(key) {
        table[key]
    } else {
        Seq::empty()
    }
}

/// The keys under which a macro with this trigger is filed: the only key, every modifier of a
/// combination, or the code of the mouse button.
pub open spec fn lookup_keys(trigger: TriggerView) -> Seq<u32> {
    match trigger {
        TriggerView::Keys { keys, .. } => if keys.len() <= 1 {
            keys
        } else {
            keys.drop_last()
        },
        TriggerView::Button { button } => seq![button.code],
    }
}

/// Whether the trigger is a key combination without keys.
pub open spec fn lacks_keys(trigger: TriggerView) -> bool {
    trigger matches TriggerView::Keys { keys, .. } && keys.len() == 0
}

/// Whether `m` is an active macro of an active collection of `data`.
pub open spec fn is_enabled(data: Seq<CollectionView>, m: MacroView) -> bool {
    exists|c: int, i: int| enabled_at(data, c, i) && #[trigger] data[c].macros[i] == m
}

/// Whether the macro at `i` in the collection at `c` exists and both are active.
pub open spec fn enabled_at(data: Seq<CollectionView>, c: int, i: int) -> bool {
    &&& 0 <= c < data.len()
    &&& 0 <= i < data[c].macros.len()
    &&& data[c].active
    &&& data[c].macros[i].active
}

/// Whether the place `(c, i)` comes before the place `(d, j)`.
pub open spec fn place_before(c: int, i: int, d: int, j: int) -> bool {
    c < d || (c == d && i < j)
}

/// Whether some active macro of an active collection has a key combination without keys.
pub open spec fn has_broken_trigger(data: Seq<CollectionView>) -> bool {
    exists|c: int, i: int|
        enabled_at(data, c, i) && lacks_keys(#[trigger] data[c].macros[i].trigger)
}

/// The entries of one macro, in the order in which they are filed.
pub open spec fn macro_entries(m: MacroView) -> Seq<(u32, MacroView)> {
    if m.active {
        lookup_keys(m.trigger).map_values(|key: u32| (key, m))
    } else {
        Seq::empty()
    }
}

/// The entries of a list of macros.
pub open spec fn list_entries(macros: Seq<MacroView>) -> Seq<(u32, MacroView)>
    decreases macros.len(),
{
    if macros.len() == 0 {
        Seq::empty()
    } else {
        list_entries(macros.drop_last()) + macro_entries(macros.last())
    }
}

/// The entries of all active collections.
pub open spec fn data_entries(data: Seq<CollectionView>) -> Seq<(u32, MacroView)>
    decreases data.len(),
{
    if data.len() == 0 {
        Seq::empty()
    } else if data.last().active {
        data_entries(data.drop_last()) + list_entries(data.last().macros)
    } else {
        data_entries(data.drop_last())
    }
}

/// `table` with `m` added at the end of the list under `key`.
pub open spec fn file_entry(
    table: Map<u32, Seq<MacroView>>,
    key: u32,
    m: MacroView,
) -> Map<u32, Seq<MacroView>> {
    table.insert(key, listed(table, key).push(m))
}

/// `table` with `entries` filed one after the other.
pub open spec fn file_all(
    table: Map<u32, Seq<MacroView>>,
    entries: Seq<(u32, MacroView)>,
) -> Map<u32, Seq<MacroView>>
    decreases entries.len(),
{
    if entries.len() == 0 {
        table
    } else {
        file_entry(file_all(table, entries.drop_last()), entries.last().0, entries.last().1)
    }
}

/// The table that results from filing just `entries`.
pub open spec fn filed(entries: Seq<(u32, MacroView)>) -> Map<u32, Seq<MacroView>> {
    file_all(Map::empty(), entries)
}

/// The lookup table of `data`.
pub open spec fn trigger_table(data: Seq<CollectionView>) -> Map<u32, Seq<MacroView>> {
    filed(data_entries(data))
}

impl MacroTriggerLookup {
    /// `halfbrown::HashMap::new`: a map without entries.
    #[verifier::external_body]
    pub(crate) fn new() -> (table: Self)
        ensures
            (trigger_lists(table) == Map::<u32, Seq<Macro>>::empty()),
    {
        MacroTriggerLookup { map: halfbrown::HashMap::new() }
    }

    /// `halfbrown::HashMap::entry` with `Entry::or_default`: the list under `key`, which is first
    /// inserted empty if there is none.  What the caller makes of the list is what the map holds
    /// under `key` afterwards; all other entries stay.
    #[verifier::external_body]
    fn entry_or_default(&mut self, key: u32) -> (list: &mut Vec<Macro>)
        ensures
            trigger_lists(*old(self)).contains_key(key) ==> list@ == trigger_lists(*old(self))[key],
            !trigger_lists(*old(self)).contains_key(key) ==> list@.len() == 0,
            trigger_lists(*final(self)) == trigger_lists(*old(self)).insert(key, final(list)@),
    {
        self.map.entry(key).or_default()
    }

    /// `halfbrown::HashMap::get_mut`: the list under `key` if there is one.  What the caller makes
    /// of it is what the map holds under `key` afterwards; all other entries stay.
    #[verifier::external_body]
    fn get_mut(&mut self, key: u32) -> (list: Option<&mut Vec<Macro>>)
        ensures
            list is Some <==> trigger_lists(*old(self)).contains_key(key),
            list is Some ==> list.unwrap()@ == trigger_lists(*old(self))[key],
            list is Some ==> trigger_lists(*final(self)) == trigger_lists(*old(self)).insert(
                key,
                final(list.unwrap())@,
            ),
            list is None ==> trigger_lists(*final(self)) == trigger_lists(*old(self)),
    {
        self.map.get_mut(&key)
    }

    /// `halfbrown::HashMap::insert_nocheck`: adds an entry under a key that the map does not hold.
    #[verifier::external_body]
    fn insert_nocheck(&mut self, key: u32, list: Vec<Macro>)
        requires
            !trigger_lists(*old(self)).contains_key(key),
        ensures
            trigger_lists(*final(self)) == trigger_lists(*old(self)).insert(key, list@),
    {
        self.map.insert_nocheck(key, list)
    }

    /// `halfbrown::HashMap::get`: the list under `key` if there is one.
    #[verifier::external_body]
    fn get(&self, key: u32) -> (list: Option<&Vec<Macro>>)
        ensures
            list is Some <==> trigger_lists(*self).contains_key(key),
            list is Some ==> list.unwrap()@ == trigger_lists(*self)[key],
    {
        self.map.get(&key)
    }

    /// Files `m` under `key`, behind what is there.
    fn file_key(&mut self, key: u32, m: &Macro)
        ensures
            final(self)@ == file_entry(old(self)@, key, m@),
    {
        let copy = m.clone();
        let list = self.entry_or_default(key);
        let ghost before = list@;
        list.push(copy);
        assert(macro_views(before.push(copy)) =~= macro_views(before).push(m@));
        assert(listed(old(self)@, key) =~= macro_views(before));
        assert(self@ =~= file_entry(old(self)@, key, m@));
    }

    /// Files `m` under the code of a mouse button, behind what is there.
    fn file_button(&mut self, code: u32, m: &Macro)
        ensures
            final(self)@ == file_entry(old(self)@, code, m@),
    {
        let copy = m.clone();
        match self.get_mut(code) {
            Some(list) => {
                let ghost before = list@;
                list.push(copy);
                assert(macro_views(before.push(copy)) =~= macro_views(before).push(m@));
                assert(listed(old(self)@, code) =~= macro_views(before));
            },
            None => {
                let list = vec![copy];
                assert(macro_views(list@) =~= Seq::empty().push(m@));
                self.insert_nocheck(code, list);
            },
        }
        assert(self@ =~= file_entry(old(self)@, code, m@));
    }

    /// Files an active macro under every lookup key of its trigger.
    fn file_macro(&mut self, m: &Macro) -> (result: Result<(), TriggerError>)
        requires
            m.active,
        ensures
            result is Err <==> lacks_keys(m@.trigger),
            result is Err ==> result->Err_0 == TriggerError::NoTriggerKeys,
            result is Err ==> final(self)@ == old(self)@,
            result is Ok ==> final(self)@ == file_all(old(self)@, macro_entries(m@)),
    {
        let ghost before = self@;
        let ghost entries = macro_entries(m@);
        match &m.trigger {
            TriggerEventType::KeyPressEvent { data, .. } => {
                let n = data.len();
                if n == 0 {
                    return Err(TriggerError::NoTriggerKeys);
                }
                let last: usize = if n == 1 {
                    1
                } else {
                    n - 1
                };
                for k in 0..last
                    invariant
                        last <= data.len(),
                        entries.len() == last,
                        forall|j: int| 0 <= j < last ==> entries[j] == (#[trigger] data@[j], m@),
                        self@ == file_all(before, entries.take(k as int)),
                {
                    self.file_key(data[k], m);
                    assert(entries.take(k + 1).drop_last() =~= entries.take(k as int));
                }
                assert(entries.take(last as int) =~= entries);
            },
            TriggerEventType::MouseEvent { data } => {
                self.file_button(data.code, m);
                assert(entries.drop_last() =~= Seq::empty());
                assert(file_all(before, entries.drop_last()) == before);
            },
        }
        Ok(())
    }

    /// The macros to check for `key`, in the order in which they were filed.
    pub fn macros_for(&self, key: u32) -> (macros: Vec<Macro>)
        ensures
            macro_views(macros@) == listed(self@, key),
    {
        match self.get(key) {
            Some(list) => {
                let macros = list.clone();
                assert(macro_views(macros@) =~= macro_views(list@));
                macros
            },
            None => {
                let macros: Vec<Macro> = Vec::new();
                assert(macro_views(macros@) =~= Seq::empty());
                macros
            },
        }
    }
}

/// Filing two lists of entries one after the other is filing the joined list.
proof fn lemma_file_all_concat(
    table: Map<u32, Seq<MacroView>>,
    a: Seq<(u32, MacroView)>,
    b: Seq<(u32, MacroView)>,
)
    ensures
        file_all(table, a + b) == file_all(file_all(table, a), b),
    decreases b.len(),
{
    if b.len() == 0 {
        assert(a + b =~= a);
    } else {
        lemma_file_all_concat(table, a, b.drop_last());
        assert((a + b).drop_last() =~= a + b.drop_last());
    }
}

impl MacroData {
    /// Builds the lookup table: each active macro of each active collection, in order, under every
    /// key that [`lookup_keys`] gives for its trigger.
    pub fn extract_triggers(&self) -> (table: Result<MacroTriggerLookup, TriggerError>)
        ensures
            has_broken_trigger(self@) <==> table is Err,
            table is Err ==> table->Err_0 == TriggerError::NoTriggerKeys,
            table is Ok ==> table->Ok_0@ == trigger_table(self@),
    {
        let mut table = MacroTriggerLookup::new();
        let ghost data = self@;
        assert(data.take(0) =~= Seq::empty());
        assert(table@ =~= filed(data_entries(data.take(0))));
        for c in 0..self.data.len()
            invariant
                data == self@,
                table@ == filed(data_entries(data.take(c as int))),
                forall|d: int, i: int|
                    d < c && enabled_at(data, d, i) ==> !lacks_keys(
                        #[trigger] data[d].macros[i].trigger,
                    ),
        {
            let collection = &self.data[c];
            let ghost before = data_entries(data.take(c as int));
            assert(collection@ == data[c as int]);
            assert(data.take(c + 1).drop_last() =~= data.take(c as int));
            if collection.active {
                let ghost macros = collection@.macros;
                assert(macros.take(0) =~= Seq::empty());
                assert(before + list_entries(macros.take(0)) =~= before);
                for i in 0..collection.macros.len()
                    invariant
                        data == self@,
                        c < data.len(),
                        collection@ == data[c as int],
                        collection.active,
                        macros == collection@.macros,
                        table@ == filed(before + list_entries(macros.take(i as int))),
                        forall|d: int, j: int|
                            place_before(d, j, c as int, i as int) && enabled_at(data, d, j)
                                ==> !lacks_keys(#[trigger] data[d].macros[j].trigger),
                {
                    let m = &collection.macros[i];
                    let ghost done = before + list_entries(macros.take(i as int));
                    assert(m@ == macros[i as int]);
                    assert(macros.take(i + 1).drop_last() =~= macros.take(i as int));
                    if m.active {
                        if let Err(error) = table.file_macro(m) {
                            assert(enabled_at(data, c as int, i as int));
                            assert(lacks_keys(data[c as int].macros[i as int].trigger));
                            return Err(error);
                        }
                        proof {
                            lemma_file_all_concat(Map::empty(), done, macro_entries(m@));
                        }
                    }
                    assert(table@ == filed(done + macro_entries(m@))) by {
                        assert(!m.active ==> done + macro_entries(m@) =~= done);
                    }
                    assert(done + macro_entries(m@) =~= before + list_entries(macros.take(i + 1)));
                }
                assert(macros.take(macros.len() as int) =~= macros);
            }
        }
        assert(data.take(data.len() as int) =~= data);
        Ok(table)
    }
}

/// Each list of the table holds the macros of its entries, in the order in which these were filed.
pub proof fn law_lists_keep_order(entries: Seq<(u32, MacroView)>, key: u32)
    ensures
        listed(filed(entries), key) == entries.filter(
            |e: (u32, MacroView)| e.0 == key,
        ).map_values(|e: (u32, MacroView)| e.1),
    decreases entries.len(),
{
    let pick = |e: (u32, MacroView)| e.0 == key;
    let second = |e: (u32, MacroView)| e.1;
    reveal(Seq::filter);
    if entries.len() == 0 {
        assert(entries.filter(pick).map_values(second) =~= Seq::empty());
    } else {
        let shorter = entries.drop_last();
        law_lists_keep_order(shorter, key);
        if pick(entries.last()) {
            assert(entries.filter(pick) =~= shorter.filter(pick).push(entries.last()));
            assert(entries.filter(pick).map_values(second) =~= shorter.filter(pick).map_values(
                second,
            ).push(entries.last().1));
        }
    }
}

/// A key is in the table exactly if something is listed under it.
pub proof fn law_no_empty_lists(entries: Seq<(u32, MacroView)>, key: u32)
    ensures
        filed(entries).contains_key(key) <==> listed(filed(entries), key).len() > 0,
    decreases entries.len(),
{
    if entries.len() > 0 {
        law_no_empty_lists(entries.drop_last(), key);
    }
}

/// A macro is listed under a key exactly if it was filed there.
proof fn lemma_listed_iff_filed(entries: Seq<(u32, MacroView)>, key: u32, m: MacroView)
    ensures
        listed(filed(entries), key).contains(m) <==> entries.contains((key, m)),
    decreases entries.len(),
{
    if entries.len() > 0 {
        let shorter = entries.drop_last();
        lemma_listed_iff_filed(shorter, key, m);
        let before = listed(filed(shorter), key);
        let after = listed(filed(entries), key);
        assert(entries =~= shorter.push(entries.last()));
        lemma_push_contains(shorter, entries.last(), (key, m));
        if entries.last().0 == key {
            assert(after == before.push(entries.last().1));
            lemma_push_contains(before, entries.last().1, m);
        } else {
            assert(after == before);
        }
    }
}

proof fn lemma_macro_entries(m: MacroView, key: u32, x: MacroView)
    ensures
        macro_entries(m).contains((key, x)) <==> m == x && m.active && lookup_keys(
            m.trigger,
        ).contains(key),
{
    let keys = lookup_keys(m.trigger);
    if m.active && keys.contains(key) {
        let i = choose|i: int| 0 <= i < keys.len() && keys[i] == key;
        assert(macro_entries(m)[i] == (key, m));
    }
    if macro_entries(m).contains((key, x)) {
        let i = choose|i: int| 0 <= i < macro_entries(m).len() && macro_entries(m)[i] == (key, x);
        assert(keys[i] == key);
    }
}

proof fn lemma_list_entries(macros: Seq<MacroView>, key: u32, m: MacroView)
    ensures
        list_entries(macros).contains((key, m)) <==> macros.contains(m) && m.active && lookup_keys(
            m.trigger,
        ).contains(key),
    decreases macros.len(),
{
    if macros.len() > 0 {
        let shorter = macros.drop_last();
        lemma_list_entries(shorter, key, m);
        lemma_macro_entries(macros.last(), key, m);
        lemma_concat_contains(list_entries(shorter), macro_entries(macros.last()), (key, m));
        assert(macros =~= shorter.push(macros.last()));
        lemma_push_contains(shorter, macros.last(), m);
    }
}

proof fn lemma_data_entries(data: Seq<CollectionView>, key: u32, m: MacroView)
    ensures
        data_entries(data).contains((key, m)) <==> is_enabled(data, m) && lookup_keys(
            m.trigger,
        ).contains(key),
    decreases data.len(),
{
    if data.len() > 0 {
        let shorter = data.drop_last();
        let last = data.last();
        lemma_data_entries(shorter, key, m);
        lemma_list_entries(last.macros, key, m);
        lemma_concat_contains(data_entries(shorter), list_entries(last.macros), (key, m));
        assert(is_enabled(data, m) <==> is_enabled(shorter, m) || (last.active && m.active
            && last.macros.contains(m))) by {
            if is_enabled(data, m) {
                let (c, i) = choose|c: int, i: int|
                    enabled_at(data, c, i) && #[trigger] data[c].macros[i] == m;
                if c < shorter.len() {
                    assert(enabled_at(shorter, c, i) && shorter[c].macros[i] == m);
                }
            }
            if is_enabled(shorter, m) {
                let (c, i) = choose|c: int, i: int|
                    enabled_at(shorter, c, i) && #[trigger] shorter[c].macros[i] == m;
                assert(enabled_at(data, c, i) && data[c].macros[i] == m);
            }
            if last.active && m.active && last.macros.contains(m) {
                let i = choose|i: int| 0 <= i < last.macros.len() && last.macros[i] == m;
                assert(enabled_at(data, data.len() - 1, i) && data[data.len() - 1].macros[i] == m);
            }
        }
    }
}

/// Under each key the table lists exactly the active macros of active collections whose trigger is
/// looked up by that key.
pub proof fn law_table_lists_enabled_macros(data: Seq<CollectionView>, key: u32, m: MacroView)
    ensures
        listed(trigger_table(data), key).contains(m) <==> is_enabled(data, m) && lookup_keys(
            m.trigger,
        ).contains(key),
{
    lemma_listed_iff_filed(data_entries(data), key, m);
    lemma_data_entries(data, key, m);
}

/// What is listed under a key is what the table holds there, and nothing where it holds nothing.
pub proof fn law_listed(table: Map<u32, Seq<MacroView>>, key: u32)
    ensures
        table.contains_key(key) ==> listed(table, key) == table[key],
        !table.contains_key(key) ==> listed(table, key).len() == 0,
{
}

/// A macro is enabled exactly if it exists and both it and its collection are switched on.
pub proof fn law_enabled_means_switched_on(data: Seq<CollectionView>, c: int, i: int, m: MacroView)
    ensures
        enabled_at(data, c, i) <==> 0 <= c < data.len() && 0 <= i < data[c].macros.len()
            && data[c].active && data[c].macros[i].active,
        is_enabled(data, m) <==> exists|d: int, j: int|
            0 <= d < data.len() && 0 <= j < data[d].macros.len() && data[d].active && (
            #[trigger] data[d].macros[j]).active && data[d].macros[j] == m,
{
    if is_enabled(data, m) {
        let (d, j) = choose|d: int, j: int|
            enabled_at(data, d, j) && #[trigger] data[d].macros[j] == m;
        assert(data[d].macros[j].active);
    }
    if exists|d: int, j: int|
        0 <= d < data.len() && 0 <= j < data[d].macros.len() && data[d].active && (
        #[trigger] data[d].macros[j]).active && data[d].macros[j] == m {
        let (d, j) = choose|d: int, j: int|
            0 <= d < data.len() && 0 <= j < data[d].macros.len() && data[d].active && (
            #[trigger] data[d].macros[j]).active && data[d].macros[j] == m;
        assert(enabled_at(data, d, j) && data[d].macros[j] == m);
    }
}

/// The data is broken exactly if a macro that is switched on, in a collection that is switched on,
/// is triggered by a key combination without keys.
pub proof fn law_broken_data(data: Seq<CollectionView>)
    ensures
        has_broken_trigger(data) <==> exists|c: int, i: int|
            0 <= c < data.len() && 0 <= i < data[c].macros.len() && data[c].active && (
            #[trigger] data[c].macros[i]).active && data[c].macros[i].trigger is Keys
                && data[c].macros[i].trigger->Keys_keys.len() == 0,
{
    if has_broken_trigger(data) {
        let (c, i) = choose|c: int, i: int|
            enabled_at(data, c, i) && lacks_keys(#[trigger] data[c].macros[i].trigger);
        assert(data[c].macros[i].active);
    }
    if exists|c: int, i: int|
        0 <= c < data.len() && 0 <= i < data[c].macros.len() && data[c].active && (
        #[trigger] data[c].macros[i]).active && data[c].macros[i].trigger is Keys
            && data[c].macros[i].trigger->Keys_keys.len() == 0 {
        let (c, i) = choose|c: int, i: int|
            0 <= c < data.len() && 0 <= i < data[c].macros.len() && data[c].active && (
            #[trigger] data[c].macros[i]).active && data[c].macros[i].trigger is Keys
                && data[c].macros[i].trigger->Keys_keys.len() == 0;
        assert(enabled_at(data, c, i) && lacks_keys(data[c].macros[i].trigger));
    }
}

/// A macro is looked up by its only key, by each modifier of its combination but not by the last
/// key alone, or by its button.
pub proof fn law_lookup_keys(trigger: TriggerView, key: u32)
    ensures
        trigger is Button ==> (lookup_keys(trigger).contains(key) <==> key
            == trigger->Button_button.code),
        trigger is Keys && trigger->Keys_keys.len() == 0 ==> !lookup_keys(trigger).contains(key),
        trigger is Keys && trigger->Keys_keys.len() == 1 ==> (lookup_keys(trigger).contains(key)
            <==> key == trigger->Keys_keys[0]),
        trigger is Keys && trigger->Keys_keys.len() >= 2 ==> (lookup_keys(trigger).contains(key)
            <==> trigger->Keys_keys.take(trigger->Keys_keys.len() - 1).contains(key)),
{
    let keys = lookup_keys(trigger);
    if trigger is Button || trigger->Keys_keys.len() == 1 {
        assert(keys.contains(keys[0]));
    } else if trigger->Keys_keys.len() >= 2 {
        assert(keys =~= trigger->Keys_keys.take(trigger->Keys_keys.len() - 1));
    }
}

/// Under a key the table lists a macro exactly if it is switched on in a collection that is
/// switched on, and the key is its only key, one of its modifiers, or its button.
pub proof fn law_table_lists_what_the_key_starts(data: Seq<CollectionView>, key: u32, m: MacroView)
    ensures
        listed(trigger_table(data), key).contains(m) <==> (exists|c: int, i: int|
            0 <= c < data.len() && 0 <= i < data[c].macros.len() && data[c].active && (
            #[trigger] data[c].macros[i]).active && data[c].macros[i] == m) && match m.trigger {
            TriggerView::Keys { keys, .. } => if keys.len() == 1 {
                keys[0] == key
            } else {
                keys.len() >= 2 && keys.take(keys.len() - 1).contains(key)
            },
            TriggerView::Button { button } => button.code == key,
        },
{
    law_table_lists_enabled_macros(data, key, m);
    law_enabled_means_switched_on(data, 0, 0, m);
    law_lookup_keys(m.trigger, key);
}

proof fn lemma_listed_concat(a: Seq<(u32, MacroView)>, b: Seq<(u32, MacroView)>, key: u32)
    ensures
        listed(filed(a + b), key) == listed(filed(a), key) + listed(filed(b), key),
    decreases b.len(),
{
    if b.len() == 0 {
        assert(a + b =~= a);
        assert(listed(filed(b), key) =~= Seq::empty());
        assert(listed(filed(a), key) + listed(filed(b), key) =~= listed(filed(a), key));
    } else {
        lemma_listed_concat(a, b.drop_last(), key);
        assert((a + b).drop_last() =~= a + b.drop_last());
        assert(listed(filed(a + b), key) =~= listed(filed(a), key) + listed(filed(b), key));
    }
}

proof fn lemma_list_entries_concat(a: Seq<MacroView>, b: Seq<MacroView>)
    ensures
        list_entries(a + b) == list_entries(a) + list_entries(b),
    decreases b.len(),
{
    if b.len() == 0 {
        assert(a + b =~= a);
        assert(list_entries(a) + list_entries(b) =~= list_entries(a));
    } else {
        lemma_list_entries_concat(a, b.drop_last());
        assert((a + b).drop_last() =~= a + b.drop_last());
        assert(list_entries(a + b) =~= list_entries(a) + list_entries(b));
    }
}

proof fn lemma_data_entries_concat(a: Seq<CollectionView>, b: Seq<CollectionView>)
    ensures
        data_entries(a + b) == data_entries(a) + data_entries(b),
    decreases b.len(),
{
    if b.len() == 0 {
        assert(a + b =~= a);
        assert(data_entries(a) + data_entries(b) =~= data_entries(a));
    } else {
        lemma_data_entries_concat(a, b.drop_last());
        assert((a + b).drop_last() =~= a + b.drop_last());
        assert(data_entries(a + b) =~= data_entries(a) + data_entries(b));
    }
}

proof fn lemma_entries_of_one_collection(c: CollectionView)
    ensures
        data_entries(seq![c]) == if c.active {
            list_entries(c.macros)
        } else {
            Seq::empty()
        },
{
    assert(seq![c].drop_last() =~= Seq::empty());
    assert(data_entries(Seq::<CollectionView>::empty()) + list_entries(c.macros) =~= list_entries(
        c.macros,
    ));
}

/// Under every key the macros of earlier collections come before those of later ones, and the same
/// macros are listed whatever other collections there are.
pub proof fn law_table_of_joined_data(a: Seq<CollectionView>, b: Seq<CollectionView>, key: u32)
    ensures
        listed(trigger_table(a + b), key) == listed(trigger_table(a), key) + listed(
            trigger_table(b),
            key,
        ),
        listed(trigger_table(Seq::empty()), key).len() == 0,
{
    lemma_data_entries_concat(a, b);
    lemma_listed_concat(data_entries(a), data_entries(b), key);
}

/// Within a collection earlier macros come before later ones, and the same are listed whatever
/// other macros there are.
pub proof fn law_table_of_joined_collections(
    whole: CollectionView,
    first: CollectionView,
    second: CollectionView,
    key: u32,
)
    requires
        whole.macros == first.macros + second.macros,
        whole.active == first.active,
        whole.active == second.active,
    ensures
        listed(trigger_table(seq![whole]), key) == listed(trigger_table(seq![first]), key)
            + listed(trigger_table(seq![second]), key),
{
    lemma_entries_of_one_collection(whole);
    lemma_entries_of_one_collection(first);
    lemma_entries_of_one_collection(second);
    lemma_list_entries_concat(first.macros, second.macros);
    assert(Seq::<(u32, MacroView)>::empty() + Seq::<(u32, MacroView)>::empty() =~= Seq::empty());
    lemma_listed_concat(data_entries(seq![first]), data_entries(seq![second]), key);
}

/// A macro alone is listed under a key as often as the key is its only key or one of its
/// modifiers, or once under its button; and nowhere if it or its collection is switched off.
pub proof fn law_table_of_one_macro(collection: CollectionView, m: MacroView, key: u32)
    requires
        collection.macros == seq![m],
    ensures
        ({
            let list = listed(trigger_table(seq![collection]), key);
            &&& forall|j: int| 0 <= j < list.len() ==> #[trigger] list[j] == m
            &&& !collection.active || !m.active ==> list.len() == 0
            &&& collection.active && m.active ==> list.len() == match m.trigger {
                TriggerView::Keys { keys, .. } => if keys.len() <= 1 {
                    keys.filter(|k: u32| k == key).len()
                } else {
                    keys.take(keys.len() - 1).filter(|k: u32| k == key).len()
                },
                TriggerView::Button { button } => if button.code == key {
                    1
                } else {
                    0
                },
            }
        }),
{
    lemma_entries_of_one_collection(collection);
    assert(seq![m].drop_last() =~= Seq::empty());
    assert(list_entries(Seq::<MacroView>::empty()) + macro_entries(m) =~= macro_entries(m));
    if collection.active && m.active {
        let keys = lookup_keys(m.trigger);
        lemma_list_of_one_macro(keys, m, key);
        match m.trigger {
            TriggerView::Keys { keys: all, .. } => {
                if all.len() > 1 {
                    assert(keys =~= all.take(all.len() - 1));
                }
            },
            TriggerView::Button { button } => {
                reveal(Seq::filter);
                reveal_with_fuel(Seq::filter, 2);
                assert(keys.drop_last() =~= Seq::empty());
            },
        }
    }
}

proof fn lemma_list_of_one_macro(keys: Seq<u32>, m: MacroView, key: u32)
    ensures
        ({
            let list = listed(filed(keys.map_values(|k: u32| (k, m))), key);
            &&& forall|j: int| 0 <= j < list.len() ==> #[trigger] list[j] == m
            &&& list.len() == keys.filter(|k: u32| k == key).len()
        }),
    decreases keys.len(),
{
    reveal(Seq::filter);
    let entry = |k: u32| (k, m);
    if keys.len() > 0 {
        let shorter = keys.drop_last();
        lemma_list_of_one_macro(shorter, m, key);
        assert(keys.map_values(entry).drop_last() =~= shorter.map_values(entry));
    }
}

/// The table holds a key exactly if it lists a macro under it.
pub proof fn law_table_has_no_empty_list(data: Seq<CollectionView>, key: u32)
    ensures
        trigger_table(data).contains_key(key) <==> listed(trigger_table(data), key).len() > 0,
{
    law_no_empty_lists(data_entries(data), key);
}

/// The contents of a lookup table are those of its lists.
pub proof fn law_view_shows_table(table: MacroTriggerLookup, key: u32)
    ensures
        table@.contains_key(key) <==> trigger_lists(table).contains_key(key),
        table@.contains_key(key) ==> table@[key].len() == trigger_lists(table)[key].len(),
        table@.contains_key(key) ==> forall|i: int|
            0 <= i < table@[key].len() ==> #[trigger] table@[key][i] == trigger_lists(
                table,
            )[key][i]@,
{
}

} // verus!
