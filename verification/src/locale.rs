//! The strings of a locale, by key, and the choice of the base locale.

use vstd::prelude::*;

verus! {

/// The settings of a project: where its locales lie, which of them is the
/// base, and their names.
#[derive(Debug)]
pub struct ConfigFile {
    pub locales_dir: Option<String>,
    pub base_locale: Option<String>,
    pub locales: Vec<String>,
}

/// A string of a locale, or a group of strings under one key.
#[derive(Debug, PartialEq)]
pub enum StringItem {
    String(String),
    Subkey(Vec<(String, StringItem)>),
}

/// The strings of one locale, each under its key.
#[derive(Debug, PartialEq)]
pub struct StringSet {
    pub name: String,
    pub keys: Vec<(String, StringItem)>,
}

/// Whether `i` is the first position in `keys` at which `key` stands.
pub open spec fn first_key_at(keys: Seq<(String, StringItem)>, key: Seq<char>, i: int) -> bool {
    &&& 0 <= i < keys.len()
    &&& keys[i].0@ == key
    &&& forall|j: int| 0 <= j < i ==> (#[trigger] keys[j]).0@ != key
}

/// Whether `i` is the first position in `locales` of a locale named `name`.
pub open spec fn first_locale_at(locales: Seq<StringSet>, name: Seq<char>, i: int) -> bool {
    &&& 0 <= i < locales.len()
    &&& locales[i].name@ == name
    &&& forall|j: int| 0 <= j < i ==> (#[trigger] locales[j]).name@ != name
}

impl Default for ConfigFile {
    fn default() -> (r: ConfigFile)
        ensures
            r.locales_dir is None,
            r.base_locale is None,
            r.locales@.len() == 0,
    {
        ConfigFile { locales_dir: None, base_locale: None, locales: Vec::new() }
    }
}

impl ConfigFile {
    /// The name of the base locale, as a model: the one that is set, else the
    /// first of the locales.
    pub open spec fn base_locale_model(&self) -> Option<Seq<char>> {
        match self.base_locale {
            Some(name) => Some(name@),
            None => if self.locales@.len() > 0 {
                Some(self.locales@[0]@)
            } else {
                None
            },
        }
    }

    /// The name of the base locale: the one that is set, else the first of the
    /// locales. `None` if there is neither.
    pub fn default_locale(&self) -> (r: Option<&String>)
        ensures
            match self.base_locale_model() {
                Some(name) => r is Some && r->Some_0@ == name,
                None => r is None,
            },
    {
        match &self.base_locale {
            Some(name) => Some(name),
            None => if self.locales.len() > 0 {
                Some(&self.locales[0])
            } else {
                None
            },
        }
    }
}

impl StringSet {
    /// The item under `key`: the first, where a key stands twice.
    pub fn get(&self, key: &String) -> (r: Option<&StringItem>)
        ensures
            match r {
                Some(item) => exists|i: int|
                    first_key_at(self.keys@, key@, i) && *item == self.keys@[i].1,
                None => forall|i: int|
                    0 <= i < self.keys@.len() ==> (#[trigger] self.keys@[i]).0@ != key@,
            },
    {
        let mut i: usize = 0;
        while i < self.keys.len()
            invariant
                i <= self.keys.len(),
                forall|j: int| 0 <= j < i ==> (#[trigger] self.keys@[j]).0@ != key@,
            decreases self.keys.len() - i,
        {
            if self.keys[i].0 == *key {
                assert(first_key_at(self.keys@, key@, i as int));
                return Some(&self.keys[i].1);
            }
            i += 1;
        }
        None
    }
}

/// The position of the first locale named `name`.
pub fn find_locale(locales: &Vec<StringSet>, name: &String) -> (r: Option<usize>)
    ensures
        match r {
            Some(i) => first_locale_at(locales@, name@, i as int),
            None => forall|i: int|
                0 <= i < locales@.len() ==> (#[trigger] locales@[i]).name@ != name@,
        },
{
    let mut i: usize = 0;
    while i < locales.len()
        invariant
            i <= locales.len(),
            forall|j: int| 0 <= j < i ==> (#[trigger] locales@[j]).name@ != name@,
        decreases locales.len() - i,
    {
        if locales[i].name == *name {
            return Some(i);
        }
        i += 1;
    }
    None
}

} // verus!
