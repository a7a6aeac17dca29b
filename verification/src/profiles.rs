use vstd::prelude::*;

use crate::text::{lowercase, push_str, string_from_chars, to_lowercase};
use crate::types::{Config, MonitorConfig};

verus! {

// ---------------------------------------------------------------------------
// The profile store
// ---------------------------------------------------------------------------

/// The aliases of a list of entries, in order.
pub open spec fn aliases_of(e: Seq<(String, Config)>) -> Seq<Seq<char>> {
    e.map_values(|x: (String, Config)| x.0@)
}

/// Whether the aliases of `e` are all different.
pub open spec fn aliases_distinct(e: Seq<(String, Config)>) -> bool {
    forall|i: int, j: int| #![trigger e[i], e[j]] 0 <= i < j < e.len() ==> e[i].0@ != e[j].0@
}

/// Whether some entry of `e` has alias `k`.
pub open spec fn has_alias(e: Seq<(String, Config)>, k: Seq<char>) -> bool {
    exists|i: int| 0 <= i < e.len() && #[trigger] e[i].0@ == k
}

/// The position of an entry of `e` with alias `k`.
pub open spec fn alias_position(e: Seq<(String, Config)>, k: Seq<char>) -> int {
    choose|i: int| 0 <= i < e.len() && #[trigger] e[i].0@ == k
}

/// The map from aliases to configurations that a list of entries stands for.
pub open spec fn entries_map(e: Seq<(String, Config)>) -> Map<Seq<char>, Seq<MonitorConfig>> {
    Map::new(|k: Seq<char>| has_alias(e, k), |k: Seq<char>| e[alias_position(e, k)].1@)
}

/// When aliases are all different, the entry with a given alias is the one
/// the map gives.
pub proof fn lemma_entries_map_at(e: Seq<(String, Config)>, i: int)
    requires
        aliases_distinct(e),
        0 <= i < e.len(),
    ensures
        entries_map(e).contains_key(e[i].0@),
        entries_map(e)[e[i].0@] == e[i].1@,
        alias_position(e, e[i].0@) == i,
{
    let k = e[i].0@;
    assert(has_alias(e, k));
    let j = alias_position(e, k);
    assert(0 <= j < e.len() && e[j].0@ == k);
    if j < i {
        assert(e[j].0@ != e[i].0@);
    } else if i < j {
        assert(e[i].0@ != e[j].0@);
    }
}

/// The saved profiles: each alias names one monitor arrangement. Entries
/// are kept in the order in which their aliases were first saved, which is
/// the order in which they are listed and written out; saving again under an
/// alias replaces its configuration in place.
pub struct Profiles {
    entries: Vec<(String, Config)>,
}

impl Profiles {
    #[verifier::type_invariant]
    spec fn distinct(self) -> bool {
        aliases_distinct(self.entries@)
    }

    /// The entries in the order in which their aliases were first saved.
    pub closed spec fn ordered(&self) -> Seq<(String, Config)> {
        self.entries@
    }
}

impl View for Profiles {
    type V = Map<Seq<char>, Seq<MonitorConfig>>;

    /// The store as a map from alias to configuration.
    open spec fn view(&self) -> Map<Seq<char>, Seq<MonitorConfig>> {
        entries_map(self.ordered())
    }
}

/// The position of the entry with alias `key`, if any.
fn locate(e: &Vec<(String, Config)>, key: &String) -> (r: Option<usize>)
    ensures
        r matches Some(i) ==> i < e@.len() && e@[i as int].0@ == key@,
        r is None ==> forall|i: int| 0 <= i < e@.len() ==> #[trigger] e@[i].0@ != key@,
{
    let n = e.len();
    let mut i: usize = 0;
    while i < n
        invariant
            i <= n,
            n == e@.len(),
            forall|k: int| 0 <= k < i ==> #[trigger] e@[k].0@ != key@,
        decreases n - i,
    {
        if e[i].0 == *key {
            return Some(i);
        }
        i = i + 1;
    }
    None
}

proof fn lemma_absent(e: Seq<(String, Config)>, key: Seq<char>)
    requires
        forall|i: int| 0 <= i < e.len() ==> #[trigger] e[i].0@ != key,
    ensures
        !has_alias(e, key),
        !entries_map(e).contains_key(key),
{
}

impl Profiles {
    /// An empty store.
    pub fn new() -> (r: Profiles)
        ensures
            r@ == Map::<Seq<char>, Seq<MonitorConfig>>::empty(),
            r.ordered() == Seq::<(String, Config)>::empty(),
    {
        let r = Profiles { entries: Vec::new() };
        assert(r@ =~= Map::<Seq<char>, Seq<MonitorConfig>>::empty());
        r
    }

    /// The number of saved profiles.
    pub fn len(&self) -> (r: usize)
        ensures
            r == self@.len(),
            r == self.ordered().len(),
    {
        proof {
            use_type_invariant(self);
            self.lemma_dom_len();
        }
        self.entries.len()
    }

    /// Whether no profile is saved.
    pub fn is_empty(&self) -> (r: bool)
        ensures
            r == (self@.len() == 0),
            r == (self@ == Map::<Seq<char>, Seq<MonitorConfig>>::empty()),
            r == (self.ordered().len() == 0),
    {
        proof {
            use_type_invariant(self);
            self.lemma_dom_len();
            if self.entries@.len() == 0 {
                assert(self@ =~= Map::<Seq<char>, Seq<MonitorConfig>>::empty());
            } else {
                lemma_entries_map_at(self.entries@, 0);
                assert(self@.contains_key(self.entries@[0].0@));
            }
        }
        self.entries.len() == 0
    }

    proof fn lemma_dom_len(&self)
        requires
            aliases_distinct(self.entries@),
        ensures
            self@.dom().finite(),
            self@.len() == self.entries@.len(),
    {
        let e = self.entries@;
        let keys = aliases_of(e);
        assert forall|i: int, j: int| 0 <= i < j < keys.len() implies keys[i] != keys[j] by {
            assert(e[i].0@ != e[j].0@);
        }
        assert(keys.no_duplicates());
        assert forall|k: Seq<char>| self@.dom().contains(k) <==> keys.to_set().contains(k) by {
            if self@.dom().contains(k) {
                let i = alias_position(e, k);
                assert(keys[i] == k);
            }
            if keys.to_set().contains(k) {
                let i = choose|i: int| 0 <= i < keys.len() && keys[i] == k;
                assert(e[i].0@ == k);
            }
        }
        assert(self@.dom() =~= keys.to_set());
        keys.unique_seq_to_set();
    }

    /// The entries in the order in which their aliases were first saved,
    /// each alias once, each with the configuration that the store maps it
    /// to.
    pub fn entries(&self) -> (r: &Vec<(String, Config)>)
        ensures
            r@ == self.ordered(),
            aliases_distinct(r@),
            entries_map(r@) == self@,
    {
        proof {
            use_type_invariant(self);
        }
        &self.entries
    }

    /// The configuration saved under `alias`, if any.
    pub fn get(&self, alias: &str) -> (r: Option<&Config>)
        ensures
            r matches Some(c) ==> self@.contains_key(alias@) && c@ == self@[alias@],
            r is None ==> !self@.contains_key(alias@),
    {
        proof {
            use_type_invariant(self);
        }
        let key = String::from_str(alias);
        match locate(&self.entries, &key) {
            Some(i) => {
                proof {
                    lemma_entries_map_at(self.entries@, i as int);
                }
                Some(&self.entries[i].1)
            },
            None => {
                proof {
                    lemma_absent(self.entries@, key@);
                }
                None
            },
        }
    }

    /// Saves `config` under `alias`. An alias already saved keeps its place
    /// with the new configuration; a new alias goes after all others.
    pub fn insert(&mut self, alias: String, config: Config)
        ensures
            final(self)@ == old(self)@.insert(alias@, config@),
            aliases_of(final(self).ordered()) == (if old(self)@.contains_key(alias@) {
                aliases_of(old(self).ordered())
            } else {
                aliases_of(old(self).ordered()).push(alias@)
            }),
    {
        proof {
            use_type_invariant(&*self);
        }
        let pos = locate(&self.entries, &alias);
        let mut entries: Vec<(String, Config)> = Vec::new();
        std::mem::swap(&mut entries, &mut self.entries);
        let ghost before = entries@;
        let ghost key = alias@;
        let ghost value = config@;
        match pos {
            Some(i) => {
                entries.set(i, (alias, config));
            },
            None => {
                entries.push((alias, config));
            },
        }
        proof {
            let after = entries@;
            let idx: int = match pos {
                Some(i) => i as int,
                None => before.len() as int,
            };
            assert(after[idx].0@ == key);
            if pos is None {
                lemma_absent(before, key);
            }
            assert forall|i: int, j: int| #![trigger after[i], after[j]]
                0 <= i < j < after.len() implies after[i].0@ != after[j].0@ by {
                if i != idx && j != idx {
                    assert(after[i] == before[i] && after[j] == before[j]);
                    assert(before[i].0@ != before[j].0@);
                } else if i == idx {
                    assert(after[j] == before[j]);
                    if pos is Some {
                        assert(before[i].0@ != before[j].0@);
                    }
                } else {
                    assert(after[i] == before[i]);
                    if pos is Some {
                        assert(before[i].0@ != before[j].0@);
                    }
                }
            }
            assert(aliases_distinct(after));
            if pos is Some {
                lemma_entries_map_at(before, idx);
                assert(aliases_of(after) =~= aliases_of(before));
            } else {
                assert(aliases_of(after) =~= aliases_of(before).push(key));
            }
            let expected = entries_map(before).insert(key, value);
            assert forall|k: Seq<char>| #[trigger] entries_map(after).contains_key(k)
                <==> expected.contains_key(k) by {
                if k == key {
                    lemma_entries_map_at(after, idx);
                } else {
                    if has_alias(after, k) {
                        let j = alias_position(after, k);
                        assert(j != idx);
                        assert(before[j].0@ == k);
                    }
                    if has_alias(before, k) {
                        let j = alias_position(before, k);
                        assert(after[j] == before[j] || j == idx);
                        assert(after[j].0@ == k);
                    }
                }
            }
            assert forall|k: Seq<char>| #[trigger] entries_map(after).contains_key(k)
                implies entries_map(after)[k] == expected[k] by {
                let j = alias_position(after, k);
                lemma_entries_map_at(after, j);
                if k != key {
                    assert(j != idx);
                    assert(after[j] == before[j]);
                    lemma_entries_map_at(before, j);
                }
            }
            assert(entries_map(after) =~= expected);
        }
        self.entries = entries;
    }

    /// Removes what was saved under `alias`, giving it back; the other
    /// entries keep their order.
    pub fn remove(&mut self, alias: &str) -> (r: Option<Config>)
        ensures
            final(self)@ == old(self)@.remove(alias@),
            r matches Some(c) ==> old(self)@.contains_key(alias@) && c@ == old(self)@[alias@],
            r is None ==> !old(self)@.contains_key(alias@),
            old(self)@.contains_key(alias@) ==> exists|i: int|
                0 <= i < aliases_of(old(self).ordered()).len() && aliases_of(old(self).ordered())[i]
                    == alias@ && aliases_of(final(self).ordered()) == aliases_of(
                    old(self).ordered(),
                ).remove(i),
            !old(self)@.contains_key(alias@) ==> final(self).ordered() == old(self).ordered(),
    {
        proof {
            use_type_invariant(&*self);
        }
        let key = String::from_str(alias);
        let idx = match locate(&self.entries, &key) {
            Some(i) => i,
            None => {
                proof {
                    lemma_absent(self.entries@, key@);
                    assert(self@.remove(alias@) =~= self@);
                }
                return None;
            },
        };
        let mut entries: Vec<(String, Config)> = Vec::new();
        std::mem::swap(&mut entries, &mut self.entries);
        let ghost before = entries@;
        let removed = entries.remove(idx);
        proof {
            let after = entries@;
            let ix = idx as int;
            lemma_entries_map_at(before, ix);
            assert forall|i: int, j: int| #![trigger after[i], after[j]]
                0 <= i < j < after.len() implies after[i].0@ != after[j].0@ by {
                let bi = if i < ix { i } else { i + 1 };
                let bj = if j < ix { j } else { j + 1 };
                assert(after[i] == before[bi]);
                assert(after[j] == before[bj]);
                assert(before[bi].0@ != before[bj].0@);
            }
            assert(aliases_of(after) =~= aliases_of(before).remove(ix));
            assert(aliases_of(before)[ix] == key@);
            let expected = entries_map(before).remove(key@);
            assert forall|k: Seq<char>| #[trigger] entries_map(after).contains_key(k)
                <==> expected.contains_key(k) by {
                if has_alias(after, k) {
                    let j = alias_position(after, k);
                    let bj = if j < ix { j } else { j + 1 };
                    assert(after[j] == before[bj]);
                    assert(before[bj].0@ != before[ix].0@);
                }
                if expected.contains_key(k) {
                    let j = alias_position(before, k);
                    assert(j != ix);
                    if j < ix {
                        assert(after[j] == before[j]);
                    } else {
                        assert(after[j - 1] == before[j]);
                    }
                }
            }
            assert forall|k: Seq<char>| #[trigger] entries_map(after).contains_key(k)
                implies entries_map(after)[k] == expected[k] by {
                let j = alias_position(after, k);
                lemma_entries_map_at(after, j);
                let bj = if j < ix { j } else { j + 1 };
                assert(after[j] == before[bj]);
                lemma_entries_map_at(before, bj);
            }
            assert(entries_map(after) =~= expected);
        }
        self.entries = entries;
        Some(removed.1)
    }
}

// ---------------------------------------------------------------------------
// Errors and file formats
// ---------------------------------------------------------------------------

/// Why a profile could not be had.
#[derive(Debug)]
pub enum ProfileError {
    /// No profile of that alias is saved in the store.
    NotFound { alias: String },
    /// No profile of that alias is in the named file.
    NotFoundIn { alias: String, source: String },
}

/// Whether `e` reports that no profile `alias` is in the store.
pub open spec fn is_not_found(e: ProfileError, alias: Seq<char>) -> bool {
    match e {
        ProfileError::NotFound { alias: a } => a@ == alias,
        _ => false,
    }
}

/// Whether `e` reports that no profile `alias` is in the file `source`.
pub open spec fn is_not_found_in(e: ProfileError, alias: Seq<char>, source: Seq<char>) -> bool {
    match e {
        ProfileError::NotFoundIn { alias: a, source: s } => a@ == alias && s@ == source,
        _ => false,
    }
}

/// The message of a profile error.
pub open spec fn profile_error_text(e: ProfileError) -> Seq<char> {
    match e {
        ProfileError::NotFound { alias } => "Profile '"@ + alias@ + "' not found"@,
        ProfileError::NotFoundIn { alias, source } => "Profile '"@ + alias@ + "' not found in "@
            + source@,
    }
}

impl ProfileError {
    /// The message shown for this error.
    pub fn message(&self) -> (r: String)
        ensures
            r@ == profile_error_text(*self),
    {
        let mut out: Vec<char> = Vec::new();
        match self {
            ProfileError::NotFound { alias } => {
                push_str(&mut out, "Profile '");
                push_str(&mut out, alias.as_str());
                push_str(&mut out, "' not found");
            },
            ProfileError::NotFoundIn { alias, source } => {
                push_str(&mut out, "Profile '");
                push_str(&mut out, alias.as_str());
                push_str(&mut out, "' not found in ");
                push_str(&mut out, source.as_str());
            },
        }
        string_from_chars(&out)
    }
}

/// The two formats in which profiles are written.
#[derive(Debug, Clone, Copy, PartialEq, Eq, Structural)]
pub enum ProfileFormat {
    Yaml,
    Json,
}

impl ProfileFormat {
    /// The format of a profile file, by its extension: JSON when the
    /// extension is `json` in any case, YAML otherwise.
    pub fn for_extension(extension: &str) -> (r: ProfileFormat)
        ensures
            r == (if lowercase(extension@) == "json"@ {
                ProfileFormat::Json
            } else {
                ProfileFormat::Yaml
            }),
    {
        let lower = to_lowercase(extension);
        Self::for_lowercase_extension(lower.as_str())
    }

    /// The format of a profile file whose extension is already lower case:
    /// JSON for exactly `json`, YAML otherwise.
    pub fn for_lowercase_extension(lower: &str) -> (r: ProfileFormat)
        ensures
            r == (if lower@ == "json"@ {
                ProfileFormat::Json
            } else {
                ProfileFormat::Yaml
            }),
    {
        let given = String::from_str(lower);
        let json = String::from_str("json");
        if given == json {
            ProfileFormat::Json
        } else {
            ProfileFormat::Yaml
        }
    }

    /// The format chosen by the `--json` flag.
    pub fn for_json_flag(as_json: bool) -> (r: ProfileFormat)
        ensures
            r == (if as_json {
                ProfileFormat::Json
            } else {
                ProfileFormat::Yaml
            }),
    {
        if as_json {
            ProfileFormat::Json
        } else {
            ProfileFormat::Yaml
        }
    }

    /// The name of the format as it is reported.
    pub fn label(&self) -> (r: &'static str)
        ensures
            r@ == format_label(*self),
    {
        match self {
            ProfileFormat::Json => "JSON",
            ProfileFormat::Yaml => "YAML",
        }
    }
}

/// The name of a format as it is reported.
pub open spec fn format_label(f: ProfileFormat) -> Seq<char> {
    match f {
        ProfileFormat::Json => "JSON"@,
        ProfileFormat::Yaml => "YAML"@,
    }
}

// ---------------------------------------------------------------------------
// Operations on the store
// ---------------------------------------------------------------------------

/// The map of an empty store.
pub open spec fn no_profiles() -> Map<Seq<char>, Seq<MonitorConfig>> {
    Map::empty()
}

/// The store as it is read: what the profiles file holds, or an empty store
/// when there is no such file.
pub fn load_profiles(stored: Option<Profiles>) -> (r: Profiles)
    ensures
        r@ == (match stored {
            Some(p) => p@,
            None => no_profiles(),
        }),
        r.ordered() == (match stored {
            Some(p) => p.ordered(),
            None => Seq::empty(),
        }),
{
    match stored {
        Some(p) => p,
        None => Profiles::new(),
    }
}

/// The store whose profiles are listed: the same as [`load_profiles`].
pub fn list_profiles(stored: Option<Profiles>) -> (r: Profiles)
    ensures
        r@ == (match stored {
            Some(p) => p@,
            None => no_profiles(),
        }),
        r.ordered() == (match stored {
            Some(p) => p.ordered(),
            None => Seq::empty(),
        }),
{
    load_profiles(stored)
}

/// The configuration saved under `alias`, or `NotFound` when there is none.
pub fn get_profile(profiles: &Profiles, alias: &str) -> (r: Result<Config, ProfileError>)
    ensures
        r matches Ok(c) ==> profiles@.contains_key(alias@) && c@ == profiles@[alias@],
        r matches Err(e) ==> is_not_found(e, alias@),
        r is Ok <==> profiles@.contains_key(alias@),
{
    match profiles.get(alias) {
        Some(c) => Ok(c.clone()),
        None => Err(ProfileError::NotFound { alias: String::from_str(alias) }),
    }
}

/// Saves `config` under `alias` in the store, replacing what was there.
pub fn save_profile(profiles: &mut Profiles, alias: &str, config: Config)
    ensures
        final(profiles)@ == old(profiles)@.insert(alias@, config@),
        aliases_of(final(profiles).ordered()) == (if old(profiles)@.contains_key(alias@) {
            aliases_of(old(profiles).ordered())
        } else {
            aliases_of(old(profiles).ordered()).push(alias@)
        }),
{
    profiles.insert(String::from_str(alias), config);
}

/// The contents to write to a profile file: what the file held (an empty
/// store when it did not exist) with `config` saved under `alias`.
pub fn save_profile_to_file(existing: Option<Profiles>, alias: &str, config: Config) -> (r:
    Profiles)
    ensures
        r@ == (match existing {
            Some(p) => p@,
            None => no_profiles(),
        }).insert(alias@, config@),
        ({
            let before = match existing {
                Some(p) => p.ordered(),
                None => Seq::empty(),
            };
            aliases_of(r.ordered()) == (if entries_map(before).contains_key(alias@) {
                aliases_of(before)
            } else {
                aliases_of(before).push(alias@)
            })
        }),
{
    let mut profiles = load_profiles(existing);
    save_profile(&mut profiles, alias, config);
    profiles
}

/// Deletes the profile saved under `alias`; `NotFound`, with the store
/// unchanged, when there is none.
pub fn delete_profile(profiles: &mut Profiles, alias: &str) -> (r: Result<(), ProfileError>)
    ensures
        final(profiles)@ == old(profiles)@.remove(alias@),
        r is Ok <==> old(profiles)@.contains_key(alias@),
        r is Err ==> final(profiles)@ == old(profiles)@,
        r matches Err(e) ==> is_not_found(e, alias@),
        r is Ok ==> exists|i: int|
            0 <= i < aliases_of(old(profiles).ordered()).len() && aliases_of(
                old(profiles).ordered(),
            )[i] == alias@ && aliases_of(final(profiles).ordered()) == aliases_of(
                old(profiles).ordered(),
            ).remove(i),
        r is Err ==> final(profiles).ordered() == old(profiles).ordered(),
{
    match profiles.remove(alias) {
        Some(_) => Ok(()),
        None => {
            proof {
                assert(old(profiles)@.remove(alias@) =~= old(profiles)@);
            }
            Err(ProfileError::NotFound { alias: String::from_str(alias) })
        },
    }
}

// ---------------------------------------------------------------------------
// Laws of the store
// ---------------------------------------------------------------------------

/// A profile read back after it was saved is the one saved.
pub proof fn law_get_after_save(
    m: Map<Seq<char>, Seq<MonitorConfig>>,
    alias: Seq<char>,
    config: Seq<MonitorConfig>,
)
    ensures
        m.insert(alias, config).contains_key(alias),
        m.insert(alias, config)[alias] == config,
{
}

/// Saving under one alias leaves every other alias as it was.
pub proof fn law_save_keeps_others(
    m: Map<Seq<char>, Seq<MonitorConfig>>,
    alias: Seq<char>,
    config: Seq<MonitorConfig>,
    other: Seq<char>,
)
    requires
        other != alias,
    ensures
        m.insert(alias, config).contains_key(other) == m.contains_key(other),
        m.contains_key(other) ==> m.insert(alias, config)[other] == m[other],
{
}

/// Saving twice under one alias keeps only the second configuration.
pub proof fn law_save_overwrites(
    m: Map<Seq<char>, Seq<MonitorConfig>>,
    alias: Seq<char>,
    first: Seq<MonitorConfig>,
    second: Seq<MonitorConfig>,
)
    ensures
        m.insert(alias, first).insert(alias, second) == m.insert(alias, second),
{
    assert(m.insert(alias, first).insert(alias, second) =~= m.insert(alias, second));
}

/// A deleted profile can no longer be read.
pub proof fn law_get_after_delete(m: Map<Seq<char>, Seq<MonitorConfig>>, alias: Seq<char>)
    ensures
        !m.remove(alias).contains_key(alias),
{
}

/// Deleting a profile that was just saved under a new alias gives the store
/// back as it was.
pub proof fn law_delete_undoes_save(
    m: Map<Seq<char>, Seq<MonitorConfig>>,
    alias: Seq<char>,
    config: Seq<MonitorConfig>,
)
    requires
        !m.contains_key(alias),
    ensures
        m.insert(alias, config).remove(alias) == m,
{
    assert(m.insert(alias, config).remove(alias) =~= m);
}

/// Deleting an alias that is not saved changes nothing.
pub proof fn law_delete_missing_changes_nothing(
    m: Map<Seq<char>, Seq<MonitorConfig>>,
    alias: Seq<char>,
)
    requires
        !m.contains_key(alias),
    ensures
        m.remove(alias) == m,
{
    assert(m.remove(alias) =~= m);
}

} // verus!
