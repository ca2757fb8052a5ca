//! The keys that are held down, and their HID codes.
//!
//! The keys and buttons of the input devices come as numbers that tell them apart.

use crate::seq_facts::{lemma_filter_contains, lemma_push_contains};
use itertools::Itertools;
use std::collections::HashMap;
use vstd::prelude::*;

verus! {

broadcast use vstd::std_specs::hash::group_hash_axioms;

/// The HID codes of the keys and of the mouse buttons.
#[derive(Debug)]
pub struct HidTable {
    pub keys: HashMap<u64, u32>,
    pub buttons: HashMap<u64, u32>,
}

impl HidTable {
    /// The HID code of a key, 0 for a key that the table does not know.
    pub open spec fn key_code(&self, key: u64) -> u32 {
        if self.keys@.contains_key(key) {
            self.keys@[key]
        } else {
            0
        }
    }

    /// The code of a mouse button, that of the left button for one that the table does not know.
    pub open spec fn button_code(&self, button: u64) -> u32 {
        if self.buttons@.contains_key(button) {
            self.buttons@[button]
        } else {
            0x101
        }
    }

    /// Looks up the HID code of a key.
    pub fn code_of_key(&self, key: u64) -> (code: u32)
        ensures
            code == self.key_code(key),
    {
        match self.keys.get(&key) {
            Some(code) => *code,
            None => 0,
        }
    }

    /// Looks up the code of a mouse button.
    pub fn code_of_button(&self, button: u64) -> (code: u32)
        ensures
            code == self.button_code(button),
    {
        match self.buttons.get(&button) {
            Some(code) => *code,
            None => 0x101,
        }
    }
}

/// The keys that are held down, in the order in which they went down.
#[derive(Debug)]
pub struct KeysPressed {
    keys: Vec<u64>,
}

impl View for KeysPressed {
    type V = Seq<u64>;

    closed spec fn view(&self) -> Seq<u64> {
        self.keys@
    }
}

/// `s` with only the first of equal items kept.
pub open spec fn first_occurrences(s: Seq<u64>) -> Seq<u64>
    decreases s.len(),
{
    if s.len() == 0 {
        Seq::empty()
    } else {
        let kept = first_occurrences(s.drop_last());
        if kept.contains(s.last()) {
            kept
        } else {
            kept.push(s.last())
        }
    }
}

/// The HID codes of `keys`, one by one.
pub open spec fn hid_codes(table: HidTable, keys: Seq<u64>) -> Seq<u32> {
    keys.map_values(|key: u64| table.key_code(key))
}

/// `Itertools::unique`: the items in their order, of equal ones only the first.
#[verifier::external_body]
fn unique(keys: Vec<u64>) -> (kept: Vec<u64>)
    ensures
        kept@ == first_occurrences(keys@),
{
    keys.into_iter().unique().collect()
}

impl Default for KeysPressed {
    /// No key is down.
    fn default() -> (pressed: Self)
        ensures
            pressed@ == Seq::<u64>::empty(),
            pressed.wf(),
    {
        KeysPressed { keys: Vec::new() }
    }
}

impl KeysPressed {
    /// No key is held twice.
    pub open spec fn wf(&self) -> bool {
        self@.no_duplicates()
    }

    /// A key went down.
    pub fn press(&mut self, key: u64)
        ensures
            final(self)@ == first_occurrences(old(self)@.push(key)),
            final(self).wf(),
    {
        self.keys.push(key);
        self.keys = unique(self.keys.clone());
        proof {
            law_first_occurrences_are_distinct(self.keys@);
            law_first_occurrences_are_distinct(old(self)@.push(key));
        }
    }

    /// A key went up.
    pub fn release(&mut self, key: u64)
        ensures
            final(self)@ == old(self)@.filter(|k: u64| k != key),
            old(self).wf() ==> final(self).wf(),
    {
        let mut kept: Vec<u64> = Vec::new();
        let ghost keys = self.keys@;
        let ghost other = |k: u64| k != key;
        proof {
            reveal(Seq::filter);
            assert(kept@ =~= keys.take(0).filter(other));
        }
        for i in 0..self.keys.len()
            invariant
                keys == self.keys@,
                other == (|k: u64| k != key),
                kept@ == keys.take(i as int).filter(other),
        {
            proof {
                reveal(Seq::filter);
                assert(keys.take(i + 1).drop_last() =~= keys.take(i as int));
            }
            if self.keys[i] != key {
                kept.push(self.keys[i]);
            }
        }
        assert(keys.take(keys.len() as int) =~= keys);
        proof {
            if keys.no_duplicates() {
                lemma_filter_keeps_distinct(keys, other);
            }
        }
        self.keys = kept;
    }

    /// The HID codes of the keys that are down.
    pub fn converted(&self, table: &HidTable) -> (codes: Vec<u32>)
        ensures
            codes@ == hid_codes(*table, self@),
    {
        let mut codes: Vec<u32> = Vec::new();
        for i in 0..self.keys.len()
            invariant
                codes.len() == i,
                forall|j: int| 0 <= j < i ==> codes@[j] == table.key_code(self.keys@[j]),
        {
            codes.push(table.code_of_key(self.keys[i]));
        }
        assert(codes@ =~= hid_codes(*table, self@));
        codes
    }
}

/// What is kept holds no item twice, and every item that there was.
pub proof fn law_first_occurrences_are_distinct(s: Seq<u64>)
    ensures
        first_occurrences(s).no_duplicates(),
        forall|x: u64| first_occurrences(s).contains(x) <==> s.contains(x),
    decreases s.len(),
{
    if s.len() > 0 {
        let shorter = s.drop_last();
        let kept = first_occurrences(shorter);
        law_first_occurrences_are_distinct(shorter);
        assert forall|x: u64| first_occurrences(s).contains(x) <==> s.contains(x) by {
            assert(s =~= shorter.push(s.last()));
            lemma_push_contains(shorter, s.last(), x);
            lemma_push_contains(kept, s.last(), x);
        }
    }
}

/// Of distinct items all are kept.
proof fn lemma_distinct_are_kept(s: Seq<u64>)
    requires
        s.no_duplicates(),
    ensures
        first_occurrences(s) == s,
    decreases s.len(),
{
    if s.len() > 0 {
        lemma_distinct_are_kept(s.drop_last());
        assert(s =~= s.drop_last().push(s.last()));
    }
}

/// While keys are held once each, pressing a new key adds it behind them, and pressing a held key
/// again changes nothing.
pub proof fn law_press_adds_a_new_key(s: Seq<u64>, key: u64)
    requires
        s.no_duplicates(),
    ensures
        first_occurrences(s.push(key)) == if s.contains(key) {
            s
        } else {
            s.push(key)
        },
{
    assert(s.push(key).drop_last() =~= s);
    lemma_distinct_are_kept(s);
}

/// Filtering keeps distinct items distinct.
proof fn lemma_filter_keeps_distinct(s: Seq<u64>, pred: spec_fn(u64) -> bool)
    requires
        s.no_duplicates(),
    ensures
        s.filter(pred).no_duplicates(),
    decreases s.len(),
{
    reveal(Seq::filter);
    if s.len() > 0 {
        let shorter = s.drop_last();
        lemma_filter_keeps_distinct(shorter, pred);
        lemma_filter_contains(shorter, pred, s.last());
        if shorter.contains(s.last()) {
            let j = choose|j: int| 0 <= j < shorter.len() && shorter[j] == s.last();
            assert(s[j] == s[s.len() - 1]);
        }
    }
}

/// A filter that every item passes keeps them all.
proof fn lemma_filter_keeps_all(s: Seq<u64>, pred: spec_fn(u64) -> bool)
    requires
        forall|i: int| 0 <= i < s.len() ==> pred(#[trigger] s[i]),
    ensures
        s.filter(pred) == s,
    decreases s.len(),
{
    reveal(Seq::filter);
    if s.len() > 0 {
        assert forall|i: int| 0 <= i < s.drop_last().len() implies pred(
            #[trigger] s.drop_last()[i],
        ) by {
            assert(s.drop_last()[i] == s[i]);
        }
        lemma_filter_keeps_all(s.drop_last(), pred);
        assert(pred(s[s.len() - 1]));
        assert(s =~= s.drop_last().push(s.last()));
    }
}

/// Releasing a key that was not held before it was pressed leaves the keys that were held before.
pub proof fn law_release_undoes_press(s: Seq<u64>, key: u64)
    requires
        s.no_duplicates(),
        !s.contains(key),
    ensures
        first_occurrences(s.push(key)).filter(|k: u64| k != key) == s,
{
    let other = |k: u64| k != key;
    law_press_adds_a_new_key(s, key);
    reveal(Seq::filter);
    assert(s.push(key).drop_last() =~= s);
    assert(s.push(key).filter(other) == s.filter(other));
    assert forall|i: int| 0 <= i < s.len() implies other(#[trigger] s[i]) by {
        assert(s.contains(s[i]));
    }
    lemma_filter_keeps_all(s, other);
}

/// A released key is no longer held.
pub proof fn law_released_key_is_up(s: Seq<u64>, key: u64)
    ensures
        !s.filter(|k: u64| k != key).contains(key),
{
    lemma_filter_contains(s, |k: u64| k != key, key);
}

/// A key or button that the table knows has the code that stands there; any other key has the code
/// 0, and any other button that of the left button.
pub proof fn law_codes_come_from_the_table(table: HidTable, number: u64, code: u32)
    ensures
        table.keys@.contains_key(number) && table.keys@[number] == code ==> table.key_code(number)
            == code,
        !table.keys@.contains_key(number) ==> table.key_code(number) == 0,
        table.buttons@.contains_key(number) && table.buttons@[number] == code
            ==> table.button_code(number) == code,
        !table.buttons@.contains_key(number) ==> table.button_code(number) == 0x101,
{
}

/// The codes of keys are theirs one by one, in the order of the keys.
pub proof fn law_codes_follow_the_keys(table: HidTable, keys: Seq<u64>)
    ensures
        hid_codes(table, keys).len() == keys.len(),
        forall|i: int|
            0 <= i < keys.len() ==> #[trigger] hid_codes(table, keys)[i] == (
            if table.keys@.contains_key(keys[i]) {
                table.keys@[keys[i]]
            } else {
                0
            }),
{
}

/// An item that was there before changes nothing; a new one comes behind the others.
pub proof fn law_only_new_items_are_added(s: Seq<u64>, x: u64)
    ensures
        first_occurrences(s.push(x)) == if s.contains(x) {
            first_occurrences(s)
        } else {
            first_occurrences(s).push(x)
        },
        first_occurrences(Seq::empty()).len() == 0,
{
    assert(s.push(x).drop_last() =~= s);
    law_first_occurrences_are_distinct(s);
}

/// Releasing a key takes just this key away: every other held key stays, and two that stay keep
/// their order.
pub proof fn law_release_takes_just_this_key(s: Seq<u64>, key: u64, other: u64)
    requires
        s.no_duplicates(),
    ensures
        ({
            let left = s.filter(|k: u64| k != key);
            &&& !left.contains(key)
            &&& other != key ==> (left.contains(other) <==> s.contains(other))
            &&& s.contains(key) ==> left == s.remove(s.index_of(key))
            &&& !s.contains(key) ==> left == s
        }),
{
    let keep = |k: u64| k != key;
    lemma_filter_contains(s, keep, key);
    lemma_filter_contains(s, keep, other);
    lemma_filter_removes(s, key);
}

proof fn lemma_filter_removes(s: Seq<u64>, key: u64)
    requires
        s.no_duplicates(),
    ensures
        s.contains(key) ==> s.filter(|k: u64| k != key) == s.remove(s.index_of(key)),
        !s.contains(key) ==> s.filter(|k: u64| k != key) == s,
    decreases s.len(),
{
    let keep = |k: u64| k != key;
    if !s.contains(key) {
        assert forall|i: int| 0 <= i < s.len() implies keep(#[trigger] s[i]) by {
            assert(s.contains(s[i]));
        }
        lemma_filter_keeps_all(s, keep);
    } else {
        reveal(Seq::filter);
        let shorter = s.drop_last();
        lemma_filter_removes(shorter, key);
        let at = s.index_of(key);
        assert(0 <= at < s.len() && s[at] == key);
        if s.last() == key {
            assert(at == s.len() - 1);
            if shorter.contains(key) {
                let j = choose|j: int| 0 <= j < shorter.len() && shorter[j] == key;
                assert(s[j] == key);
            }
            assert(s.remove(at) =~= shorter);
        } else {
            assert(shorter[at] == key);
            let before = shorter.index_of(key);
            assert(0 <= before < shorter.len() && shorter[before] == key);
            assert(s[before] == key);
            assert(s.remove(at) =~= shorter.remove(at).push(s.last()));
        }
    }
}

/// The held keys are sound exactly if none is held twice.
pub proof fn law_sound_held_keys(pressed: KeysPressed)
    ensures
        pressed.wf() <==> forall|i: int, j: int|
            0 <= i < j < pressed@.len() ==> #[trigger] pressed@[i] != #[trigger] pressed@[j],
{
}

} // verus!
