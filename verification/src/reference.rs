//! Reference documents: the JSON objects that give a name to each
//! cartridge type and to each old licensee code.
use crate::error::DecodeError;
use crate::hex::{code_of_key, hex_key, lemma_hex_key_injective};
use crate::report::names;
use crate::table::{keyed, CodeTable};
use std::collections::HashMap;
use vstd::prelude::*;

verus! {

/// The error of `serde_json`, carried from the parser to the place that
/// turns it into `MalformedReferenceData`; nothing is known of what it
/// holds.
#[verifier::external_type_specification]
#[verifier::external_body]
pub struct ExJsonError(serde_json::Error);

/// What `serde_json` reads from a text as an object of strings: each key
/// with its value, or `None` where the text is no such object.
pub uninterp spec fn json_object(text: Seq<char>) -> Option<Map<Seq<char>, Seq<char>>>;

/// The object that a list of entries describes, a later entry replacing
/// an earlier one with the same key.
pub open spec fn entry_map(entries: Seq<(String, String)>) -> Map<Seq<char>, Seq<char>>
    decreases entries.len(),
{
    if entries.len() == 0 {
        Map::empty()
    } else {
        entry_map(entries.drop_last()).insert(entries.last().0@, entries.last().1@)
    }
}

/// The names that an object gives to code bytes: under each code byte
/// what the object holds under the key of that byte.
pub open spec fn names_of(object: Map<Seq<char>, Seq<char>>) -> Map<u8, Seq<char>> {
    Map::new(|code: u8| object.contains_key(hex_key(code)), |code: u8| object[hex_key(code)])
}

/// Reads a JSON object whose values are strings, with `serde_json`, and
/// hands out its entries in the order in which the map that held them
/// gave them. `serde_json::from_str` gives an error where the text is no
/// such object; which entries it gives else depends on the text alone.
#[verifier::external_body]
fn json_entries(text: &str) -> (r: Result<Vec<(String, String)>, serde_json::Error>)
    ensures
        match r {
            Ok(entries) => json_object(text@) == Some(entry_map(entries@)),
            Err(_) => json_object(text@) is None,
        },
{
    match serde_json::from_str::<HashMap<String, String>>(text) {
        Ok(object) => Ok(object.into_iter().collect()),
        Err(e) => Err(e),
    }
}

/// A table built from keyed entries gives each code byte the name that
/// the entries, taken as an object, hold under the key of that byte.
pub proof fn lemma_keyed_names(entries: Seq<(String, String)>)
    ensures
        names(keyed(entries)) == names_of(entry_map(entries)),
    decreases entries.len(),
{
    let table = names(keyed(entries));
    let object = names_of(entry_map(entries));
    if entries.len() > 0 {
        let rest = entries.drop_last();
        let key = entries.last().0@;
        let value = entries.last().1;
        lemma_keyed_names(rest);
        assert forall|code: u8|
            #![trigger table.dom().contains(code)]
            #![trigger object.dom().contains(code)]
            table.dom().contains(code) == object.dom().contains(code) && (table.dom().contains(
                code,
            ) ==> table[code] == object[code]) by {
            let before = names(keyed(rest));
            assert(before.contains_key(code) == keyed(rest).contains_key(code));
            assert(before.contains_key(code) == entry_map(rest).contains_key(hex_key(code)));
            if before.contains_key(code) {
                assert(before[code] == keyed(rest)[code]@);
                assert(before[code] == entry_map(rest)[hex_key(code)]);
            }
            if hex_key(code) == key {
                let chosen = choose|c: u8| hex_key(c) == key;
                lemma_hex_key_injective(chosen, code);
                assert(code_of_key(key) == Some(code));
                assert(keyed(entries) == keyed(rest).insert(code, value));
            } else {
                match code_of_key(key) {
                    Some(other) => {
                        assert(hex_key(other) == key);
                        assert(keyed(entries) == keyed(rest).insert(other, value));
                    },
                    None => {
                        assert(keyed(entries) == keyed(rest));
                    },
                }
            }
        }
        assert(table =~= object);
    } else {
        assert(table =~= object);
    }
}

/// The table of names that a JSON document gives: the document is an
/// object, each code byte is filed under `0x` and its two upper-case
/// digits, and the other keys of the object are left out. A text that is
/// no object of strings is `MalformedReferenceData`.
pub fn load_names(text: &str) -> (r: Result<CodeTable<String>, DecodeError>)
    ensures
        match r {
            Ok(table) => json_object(text@) is Some && names(table@) == names_of(
                json_object(text@)->Some_0,
            ),
            Err(e) => json_object(text@) is None && e == DecodeError::MalformedReferenceData,
        },
{
    match json_entries(text) {
        Ok(entries) => {
            proof {
                lemma_keyed_names(entries@);
            }
            Ok(CodeTable::from_entries(entries))
        },
        Err(_) => Err(DecodeError::MalformedReferenceData),
    }
}

} // verus!
