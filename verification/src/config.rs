//! Profiles and the configuration that stores them by name.

use vstd::prelude::*;
use crate::error::SplitError;

verus! {

/// One output of a profile: `name` goes into the output file's name, and
/// `channel` picks the sample of each source pixel that is copied
/// (0 red, 1 green, 2 blue).
#[derive(Debug, Clone, PartialEq, Eq)]
pub struct ChannelConfig {
    pub name: String,
    pub channel: usize,
}

/// A named recipe: which files to take and how to split them.
#[derive(Debug, Clone, PartialEq, Eq)]
pub struct Profile {
    pub name: String,
    pub file_regex: String,
    pub output_format: String,
    pub channels: Vec<ChannelConfig>,
}

/// A profile together with the key it is stored under.
#[derive(Debug, Clone, PartialEq, Eq)]
pub struct ProfileEntry {
    pub key: String,
    pub profile: Profile,
}

/// The default profile's name and the stored profiles, each under its own key.
#[derive(Debug)]
pub struct Config {
    default_profile: String,
    entries: Vec<ProfileEntry>,
}

/// No two entries share a key.
pub open spec fn distinct_keys(entries: Seq<ProfileEntry>) -> bool {
    forall|i: int, j: int|
        0 <= i < j < entries.len() ==> (#[trigger] entries[i]).key@ != (#[trigger] entries[j]).key@
}

/// Some entry is stored under `key`.
pub open spec fn has_key(entries: Seq<ProfileEntry>, key: Seq<char>) -> bool {
    exists|i: int| 0 <= i < entries.len() && (#[trigger] entries[i]).key@ == key
}

/// The position of an entry stored under `key`, where there is one.
pub open spec fn key_index(entries: Seq<ProfileEntry>, key: Seq<char>) -> int {
    choose|i: int| 0 <= i < entries.len() && (#[trigger] entries[i]).key@ == key
}

/// The profile stored under `key`.
pub open spec fn lookup(entries: Seq<ProfileEntry>, key: Seq<char>) -> Option<Profile> {
    if has_key(entries, key) {
        Some(entries[key_index(entries, key)].profile)
    } else {
        None
    }
}

/// The name that a request stands for: the requested one, else the default.
pub open spec fn wanted_name(default_profile: Seq<char>, requested: Option<&str>) -> Seq<char> {
    match requested {
        Some(name) => name@,
        None => default_profile,
    }
}

/// The profile that is built in: occlusion, roughness and metallic from red,
/// green and blue of every file whose path holds "orm" in any case.
pub open spec fn is_builtin_profile(p: Profile) -> bool {
    &&& p.name@ == "orm"@
    &&& p.file_regex@ == "/orm/i"@
    &&& p.output_format@ == "png"@
    &&& p.channels@.len() == 3
    &&& p.channels@[0].name@ == "Occlusion"@
    &&& p.channels@[0].channel == 0
    &&& p.channels@[1].name@ == "Roughness"@
    &&& p.channels@[1].channel == 1
    &&& p.channels@[2].name@ == "Metallic"@
    &&& p.channels@[2].channel == 2
}

impl Config {
    /// The name of the profile that is used when none is requested.
    pub closed spec fn default_name(&self) -> Seq<char> {
        self.default_profile@
    }

    /// The stored entries, in the order in which they are kept.
    pub closed spec fn entries(&self) -> Seq<ProfileEntry> {
        self.entries@
    }

    /// Keys are unique.
    #[verifier::type_invariant]
    pub open spec fn wf(&self) -> bool {
        distinct_keys(self.entries())
    }

    /// A configuration without profiles.
    pub fn new(default_profile: String) -> (c: Self)
        ensures
            c.wf(),
            c.default_name() == default_profile@,
            c.entries().len() == 0,
    {
        Config { default_profile, entries: Vec::new() }
    }

    /// The position of the entry stored under `key`.
    pub fn position(&self, key: &str) -> (found: Option<usize>)
        ensures
            match found {
                Some(i) => i < self.entries().len() && self.entries()[i as int].key@ == key@,
                None => !has_key(self.entries(), key@),
            },
    {
        let wanted: String = key.to_owned();
        let mut i: usize = 0;
        while i < self.entries.len()
            invariant
                i <= self.entries@.len(),
                wanted@ == key@,
                forall|k: int| 0 <= k < i ==> (#[trigger] self.entries@[k]).key@ != key@,
            decreases self.entries@.len() - i,
        {
            if self.entries[i].key == wanted {
                return Some(i);
            }
            i += 1;
        }
        None
    }

    /// Stores `profile` under `key`. An entry already stored under that key
    /// keeps its place and gets the new profile; the result says whether
    /// there was one.
    pub fn insert(&mut self, key: String, profile: Profile) -> (replaced: bool)
        ensures
            final(self).wf(),
            final(self).default_name() == old(self).default_name(),
            replaced == has_key(old(self).entries(), key@),
            replaced ==> final(self).entries() == old(self).entries().update(
                key_index(old(self).entries(), key@),
                (ProfileEntry { key, profile }),
            ),
            !replaced ==> final(self).entries() == old(self).entries().push(
                (ProfileEntry { key, profile }),
            ),
    {
        proof {
            use_type_invariant(&*self);
        }
        let found = self.position(key.as_str());
        let mut entries: Vec<ProfileEntry> = Vec::new();
        std::mem::swap(&mut entries, &mut self.entries);
        match found {
            Some(i) => {
                proof {
                    lemma_key_index(entries@, key@, i as int);
                }
                entries.set(i, ProfileEntry { key, profile });
                self.entries = entries;
                true
            },
            None => {
                entries.push(ProfileEntry { key, profile });
                self.entries = entries;
                false
            },
        }
    }

    /// How many profiles are stored.
    pub fn len(&self) -> (n: usize)
        ensures
            n == self.entries().len(),
    {
        self.entries.len()
    }

    /// The entry at position `i`.
    pub fn entry(&self, i: usize) -> (e: &ProfileEntry)
        requires
            i < self.entries().len(),
        ensures
            *e == self.entries()[i as int],
    {
        &self.entries[i]
    }

    /// The name of the default profile.
    pub fn default_profile(&self) -> (name: &str)
        ensures
            name@ == self.default_name(),
    {
        self.default_profile.as_str()
    }

    /// The profile stored under the requested name, or under the default
    /// name where none is requested.
    pub fn get_profile(&self, requested: Option<&str>) -> (found: Result<&Profile, SplitError>)
        ensures
            match lookup(self.entries(), wanted_name(self.default_name(), requested)) {
                Some(p) => found == Ok::<&Profile, SplitError>(&p),
                None => found matches Err(SplitError::UnknownProfile { name }) && name@
                    == wanted_name(self.default_name(), requested),
            },
    {
        proof {
            use_type_invariant(self);
        }
        let wanted: &str = match requested {
            Some(name) => name,
            None => self.default_profile.as_str(),
        };
        match self.position(wanted) {
            Some(i) => {
                proof {
                    lemma_key_index(self.entries@, wanted@, i as int);
                }
                Ok(&self.entries[i].profile)
            },
            None => Err(SplitError::UnknownProfile { name: wanted.to_owned() }),
        }
    }

    /// Whether the user has to be asked which profile to use: no profile was
    /// requested and there is more than one to choose from.
    pub fn needs_selection(&self, requested: Option<&str>) -> (ask: bool)
        ensures
            ask == (requested is None && self.entries().len() > 1),
    {
        requested.is_none() && self.entries.len() > 1
    }
}

impl Default for Config {
    /// The configuration that is used where none is stored yet: the built-in
    /// profile alone, under the key "orm", which is also the default.
    fn default() -> (c: Self)
        ensures
            c.wf(),
            c.default_name() == "orm"@,
            c.entries().len() == 1,
            c.entries()[0].key@ == "orm"@,
            is_builtin_profile(c.entries()[0].profile),
    {
        let builtin = Profile {
            name: "orm".to_owned(),
            file_regex: "/orm/i".to_owned(),
            output_format: "png".to_owned(),
            channels: vec![
                ChannelConfig { name: "Occlusion".to_owned(), channel: 0 },
                ChannelConfig { name: "Roughness".to_owned(), channel: 1 },
                ChannelConfig { name: "Metallic".to_owned(), channel: 2 },
            ],
        };
        let mut config = Config::new("orm".to_owned());
        config.insert("orm".to_owned(), builtin);
        config
    }
}

/// Where keys are distinct, the position of a key is the one place that holds it.
pub proof fn lemma_key_index(entries: Seq<ProfileEntry>, key: Seq<char>, i: int)
    requires
        distinct_keys(entries),
        0 <= i < entries.len(),
        entries[i].key@ == key,
    ensures
        has_key(entries, key),
        key_index(entries, key) == i,
{
    let k = key_index(entries, key);
    if k < i {
        assert(entries[k].key@ != entries[i].key@);
    } else if i < k {
        assert(entries[i].key@ != entries[k].key@);
    }
}

} // verus!
