//! The settings an addon receives from the host, and the ABI revision it
//! reports.
//!
//! The host pushes the user settings as one JSON object of strings; the
//! store keeps the entries of the last object it received, and a setting
//! whose value is empty reads as absent.

use vstd::prelude::*;
use vstd::string::StringSliceAdditionalSpecFns;

use crate::outside::{distinct_names, json_string_map, spec_json_string_map};
use crate::text::str_eq;

verus! {

/// Bumped whenever the shape of the entry points changes; the host refuses a
/// mismatch.
pub const ABI_VERSION: u32 = 1;

/// The value of the first entry named `key`.
pub open spec fn entry_value(entries: Seq<(Seq<char>, Seq<char>)>, key: Seq<char>) -> Option<
    Seq<char>,
>
    decreases entries.len(),
{
    if entries.len() == 0 {
        None
    } else if entries[0].0 == key {
        Some(entries[0].1)
    } else {
        entry_value(entries.drop_first(), key)
    }
}

/// A setting as the addons read it: its value, with an empty value read as
/// absent.
pub open spec fn setting(entries: Seq<(Seq<char>, Seq<char>)>, key: Seq<char>) -> Option<
    Seq<char>,
> {
    match entry_value(entries, key) {
        Some(v) => if v.len() > 0 {
            Some(v)
        } else {
            None
        },
        None => None,
    }
}

/// The entries the store holds after receiving the settings text `json`:
/// those of the JSON object of strings, or none when the text is not one.
pub open spec fn received_entries(json: Seq<u8>) -> Seq<(Seq<char>, Seq<char>)> {
    match spec_json_string_map(json) {
        Some(m) => m,
        None => Seq::empty(),
    }
}

/// The names of a list of entries, in order.
pub open spec fn names(s: Seq<(Seq<char>, Seq<char>)>) -> Seq<Seq<char>> {
    s.map_values(|e: (Seq<char>, Seq<char>)| e.0)
}

/// The entries whose name no earlier entry has, in order.
pub open spec fn first_occurrences(s: Seq<(Seq<char>, Seq<char>)>) -> Seq<(Seq<char>, Seq<char>)>
    decreases s.len(),
{
    if s.len() == 0 {
        Seq::empty()
    } else {
        let init = first_occurrences(s.drop_last());
        if names(s.drop_last()).contains(s.last().0) {
            init
        } else {
            init.push(s.last())
        }
    }
}

/// `first_occurrences` holds each name of `s` once, and no other.
proof fn lemma_first_occurrences(s: Seq<(Seq<char>, Seq<char>)>)
    ensures
        forall|x: Seq<char>| names(first_occurrences(s)).contains(x) <==> names(s).contains(x),
        distinct_names(first_occurrences(s)),
    decreases s.len(),
{
    broadcast use vstd::seq_lib::lemma_seq_contains_after_push;

    if s.len() > 0 {
        let t = s.drop_last();
        lemma_first_occurrences(t);
        let init = first_occurrences(t);
        let e = s.last();
        assert(names(s) =~= names(t).push(e.0));
        if !names(t).contains(e.0) {
            let out = first_occurrences(s);
            assert(out == init.push(e));
            assert(names(out) =~= names(init).push(e.0));
            assert forall|a: int, b: int| 0 <= a < b < out.len() implies #[trigger] out[a].0
                != #[trigger] out[b].0 by {
                if b == out.len() - 1 {
                    assert(names(init)[a] == init[a].0);
                    assert(out[a] == init[a]);
                } else {
                    assert(out[a] == init[a]);
                    assert(out[b] == init[b]);
                }
            }
        }
    }
}

/// The user settings the host pushed last.
pub struct ConfigStore {
    entries: Vec<(String, String)>,
}

impl ConfigStore {
    /// The setting names and values held, first match wins.
    pub closed spec fn entries(&self) -> Seq<(Seq<char>, Seq<char>)> {
        self.entries.deep_view()
    }

    /// No setting is held twice: every store keeps this.
    #[verifier::type_invariant]
    pub closed spec fn wf(&self) -> bool {
        distinct_names(self.entries.deep_view())
    }

    /// A store with no settings.
    pub fn new() -> (res: ConfigStore)
        ensures
            res.entries() == Seq::<(Seq<char>, Seq<char>)>::empty(),
    {
        let entries: Vec<(String, String)> = Vec::new();
        assert(entries.deep_view() =~= Seq::<(Seq<char>, Seq<char>)>::empty());
        ConfigStore { entries }
    }

    /// A store holding the given settings, the first of each name.
    pub fn from_entries(entries: Vec<(String, String)>) -> (res: ConfigStore)
        ensures
            res.entries() == first_occurrences(entries.deep_view()),
    {
        let ghost s = entries.deep_view();
        let mut out: Vec<(String, String)> = Vec::new();
        let mut i: usize = 0;
        while i < entries.len()
            invariant
                0 <= i <= entries@.len(),
                s == entries.deep_view(),
                out.deep_view() == first_occurrences(s.take(i as int)),
            decreases entries@.len() - i,
        {
            let ghost t = s.take(i + 1);
            assert(t.drop_last() =~= s.take(i as int));
            assert(t.last() == s[i as int]);
            proof {
                lemma_first_occurrences(s.take(i as int));
            }
            let mut found = false;
            let mut j: usize = 0;
            while j < out.len()
                invariant
                    0 <= j <= out@.len(),
                    found == names(out.deep_view()).take(j as int).contains(s[i as int].0),
                    s == entries.deep_view(),
                    i < entries@.len(),
                decreases out@.len() - j,
            {
                assert(names(out.deep_view()).take(j + 1) =~= names(out.deep_view()).take(
                    j as int,
                ).push(out@[j as int].0@));
                assert(s[i as int].0 == entries@[i as int].0@);
                proof {
                    vstd::seq_lib::lemma_seq_contains_after_push(
                        names(out.deep_view()).take(j as int),
                        out@[j as int].0@,
                        s[i as int].0,
                    );
                }
                if str_eq(out[j].0.as_str(), entries[i].0.as_str()) {
                    found = true;
                }
                j = j + 1;
            }
            assert(names(out.deep_view()).take(out@.len() as int) =~= names(out.deep_view()));
            if !found {
                let ghost before = out.deep_view();
                let k = entries[i].0.clone();
                let v = entries[i].1.clone();
                out.push((k, v));
                assert(out.deep_view() =~= before.push(s[i as int]));
            }
            i = i + 1;
        }
        assert(s.take(entries@.len() as int) =~= s);
        proof {
            lemma_first_occurrences(s);
        }
        ConfigStore { entries: out }
    }
}

/// Reads a setting, treating an empty value as absent.
pub fn config(store: &ConfigStore, key: &str) -> (res: Option<String>)
    ensures
        res.deep_view() == setting(store.entries(), key@),
{
    let mut i: usize = 0;
    assert(store.entries().subrange(0, store.entries@.len() as int) =~= store.entries());
    while i < store.entries.len()
        invariant
            0 <= i <= store.entries@.len(),
            entry_value(store.entries().subrange(i as int, store.entries@.len() as int), key@)
                == entry_value(store.entries(), key@),
        decreases store.entries@.len() - i,
    {
        let ghost rest = store.entries().subrange(i as int, store.entries@.len() as int);
        assert(rest.drop_first() =~= store.entries().subrange(i + 1, store.entries@.len() as int));
        if str_eq(store.entries[i].0.as_str(), key) {
            let v = &store.entries[i].1;
            if v.as_str().is_empty() {
                return None;
            }
            return Some(v.clone());
        }
        i = i + 1;
    }
    None
}

/// Receives the user settings as a JSON object of strings: the store then
/// holds exactly that object's entries, or nothing when the text is not such
/// an object.
pub fn set_config(store: &mut ConfigStore, json: &str)
    ensures
        final(store).entries() == received_entries(json.spec_bytes()),
{
    match json_string_map(json.as_bytes()) {
        Some(entries) => {
            *store = ConfigStore { entries };
        },
        None => {
            *store = ConfigStore::new();
        },
    }
}

/// An entry's value is what the first entry with its name holds.
proof fn lemma_entry_value_distinct(entries: Seq<(Seq<char>, Seq<char>)>, i: int)
    requires
        0 <= i < entries.len(),
        forall|a: int, b: int|
            0 <= a < b < entries.len() ==> #[trigger] entries[a].0 != #[trigger] entries[b].0,
    ensures
        entry_value(entries, entries[i].0) == Some(entries[i].1),
    decreases entries.len(),
{
    if i > 0 {
        let rest = entries.drop_first();
        assert(rest[i - 1] == entries[i]);
        assert forall|a: int, b: int| 0 <= a < b < rest.len() implies #[trigger] rest[a].0
            != #[trigger] rest[b].0 by {
            assert(rest[a] == entries[a + 1]);
            assert(rest[b] == entries[b + 1]);
        }
        assert(entries[0].0 != entries[i].0);
        lemma_entry_value_distinct(rest, i - 1);
    }
}

/// A name held by no entry has no value.
proof fn lemma_entry_value_absent(entries: Seq<(Seq<char>, Seq<char>)>, key: Seq<char>)
    requires
        forall|i: int| 0 <= i < entries.len() ==> #[trigger] entries[i].0 != key,
    ensures
        entry_value(entries, key) is None,
    decreases entries.len(),
{
    if entries.len() > 0 {
        assert(entries[0].0 != key);
        let rest = entries.drop_first();
        assert forall|i: int| 0 <= i < rest.len() implies #[trigger] rest[i].0 != key by {
            assert(rest[i] == entries[i + 1]);
        }
        lemma_entry_value_absent(rest, key);
    }
}

/// Read after write: in a store no name is held twice (the type invariant
/// every store keeps; `use_type_invariant` gives it for a store in hand), a
/// setting reads as the value its entry
/// holds when that value is not empty, and as absent when the value is empty
/// or no entry holds the name. With `set_config`'s contract, the settings read
/// are those of the JSON object the host pushed last.
pub proof fn law_config_reads_pushed_settings(store: ConfigStore, key: Seq<char>)
    requires
        store.wf(),
    ensures
        forall|i: int|
            0 <= i < store.entries().len() && (#[trigger] store.entries()[i]).0 == key ==> setting(
                store.entries(),
                key,
            ) == (if store.entries()[i].1.len() > 0 {
                Some(store.entries()[i].1)
            } else {
                None
            }),
        (forall|i: int| 0 <= i < store.entries().len() ==> (#[trigger] store.entries()[i]).0 != key)
            ==> setting(store.entries(), key) is None,
{
    let m = store.entries();
    assert forall|i: int| 0 <= i < m.len() && (#[trigger] m[i]).0 == key implies setting(
        m,
        key,
    ) == (if m[i].1.len() > 0 {
        Some(m[i].1)
    } else {
        None
    }) by {
        lemma_entry_value_distinct(m, i);
    }
    if forall|i: int| 0 <= i < m.len() ==> (#[trigger] m[i]).0 != key {
        lemma_entry_value_absent(m, key);
    }
}

} // verus!
