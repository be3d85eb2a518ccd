//! A user profile: named settings read from the profile file, and the checks
//! that each required setting is present and of the right kind.
use vstd::prelude::*;

verus! {

/// The value of one profile setting.
#[derive(Debug)]
pub enum ProfileValue {
    Str(String),
    Bool(bool),
    /// A number, list, object or null: no setting takes one.
    Other,
}

/// Why a required profile setting was refused.
#[derive(Clone, Copy, Debug, PartialEq, Eq, Structural)]
pub enum ProfileError {
    /// No setting has this name.
    Missing,
    /// The setting is not a string.
    NotString,
    /// The setting is an empty string.
    Empty,
    /// The setting is not a boolean.
    NotBool,
}

/// The value of the first entry named `name`.
pub open spec fn find_entry(entries: Seq<(String, ProfileValue)>, name: Seq<char>) -> Option<ProfileValue>
    decreases entries.len(),
{
    if entries.len() == 0 {
        None
    } else if entries[0].0@ == name {
        Some(entries[0].1)
    } else {
        find_entry(entries.drop_first(), name)
    }
}

proof fn lemma_find_entry_push(entries: Seq<(String, ProfileValue)>, e: (String, ProfileValue), name: Seq<char>)
    ensures
        find_entry(entries.push(e), name) == (if find_entry(entries, name) is Some {
            find_entry(entries, name)
        } else if e.0@ == name {
            Some(e.1)
        } else {
            None
        }),
    decreases entries.len(),
{
    if entries.len() > 0 {
        assert(entries.push(e)[0] == entries[0]);
        assert(entries.push(e).drop_first() =~= entries.drop_first().push(e));
        lemma_find_entry_push(entries.drop_first(), e, name);
        if entries[0].0@ != name {
            assert(find_entry(entries.push(e), name) == find_entry(entries.drop_first().push(e), name));
            assert(find_entry(entries, name) == find_entry(entries.drop_first(), name));
        }
    } else {
        assert(entries.push(e)[0] == e);
        assert(entries.push(e).drop_first() =~= Seq::<(String, ProfileValue)>::empty());
        assert(find_entry(Seq::<(String, ProfileValue)>::empty(), name) is None);
        assert(entries =~= Seq::<(String, ProfileValue)>::empty());
    }
}

proof fn lemma_find_entry_update(entries: Seq<(String, ProfileValue)>, i: int, e: (String, ProfileValue), name: Seq<char>)
    requires
        0 <= i < entries.len(),
        entries[i].0@ == e.0@,
        forall|j: int| 0 <= j < i ==> (#[trigger] entries[j]).0@ != e.0@,
    ensures
        name == e.0@ ==> find_entry(entries.update(i, e), name) == Some(e.1),
        name != e.0@ ==> find_entry(entries.update(i, e), name) == find_entry(entries, name),
    decreases i,
{
    let u = entries.update(i, e);
    if i > 0 {
        assert(entries[0].0@ != e.0@);
        assert(u.drop_first() =~= entries.drop_first().update(i - 1, e));
        assert forall|j: int| 0 <= j < i - 1 implies (#[trigger] entries.drop_first()[j]).0@ != e.0@ by {
            assert(entries.drop_first()[j] == entries[j + 1]);
        }
        lemma_find_entry_update(entries.drop_first(), i - 1, e, name);
    } else {
        assert(u.drop_first() =~= entries.drop_first());
    }
}

/// The settings of a profile. Names are unique: setting a name again
/// replaces its value.
pub struct Profile {
    entries: Vec<(String, ProfileValue)>,
}

impl Profile {
    pub closed spec fn entries(&self) -> Seq<(String, ProfileValue)> {
        self.entries@
    }

    /// The value of setting `name`, if the profile has it.
    pub open spec fn lookup(&self, name: Seq<char>) -> Option<ProfileValue> {
        find_entry(self.entries(), name)
    }

    /// A profile with no settings.
    pub fn new() -> (r: Profile)
        ensures
            forall|name: Seq<char>| (#[trigger] r.lookup(name)) is None,
    {
        Profile { entries: Vec::new() }
    }

    /// Sets `key` to `value`, replacing an earlier value of `key`.
    pub fn insert(&mut self, key: String, value: ProfileValue)
        ensures
            final(self).lookup(key@) == Some(value),
            forall|name: Seq<char>| name != key@ ==> #[trigger] final(self).lookup(name) == old(self).lookup(name),
    {
        let n = self.entries.len();
        let mut i: usize = 0;
        while i < n
            invariant
                n == self.entries@.len(),
                i <= n,
                self.entries@ == old(self).entries@,
                forall|j: int| 0 <= j < i ==> (#[trigger] self.entries@[j]).0@ != key@,
            decreases n - i,
        {
            if self.entries[i].0 == key {
                let ghost before = self.entries@;
                let ghost e = (key, value);
                proof {
                    lemma_find_entry_update(before, i as int, e, key@);
                    assert forall|name: Seq<char>| name != key@ implies
                        #[trigger] find_entry(before.update(i as int, e), name) == find_entry(before, name) by {
                        lemma_find_entry_update(before, i as int, e, name);
                    }
                }
                self.entries.set(i, (key, value));
                assert(self.entries@ == before.update(i as int, e));
                return;
            }
            i = i + 1;
        }
        let ghost before = self.entries@;
        let ghost e = (key, value);
        proof {
            assert(find_entry(before, key@) is None) by {
                lemma_find_entry_absent(before, key@);
            }
            lemma_find_entry_push(before, e, key@);
            assert forall|name: Seq<char>| name != key@ implies
                #[trigger] find_entry(before.push(e), name) == find_entry(before, name) by {
                lemma_find_entry_push(before, e, name);
            }
        }
        self.entries.push((key, value));
    }

    /// The value of setting `name`, if the profile has it.
    pub fn get(&self, name: &str) -> (r: Option<&ProfileValue>)
        ensures
            r matches Some(v) ==> self.lookup(name@) == Some(*v),
            r is None ==> self.lookup(name@) is None,
    {
        let key: String = name.to_owned();
        let n = self.entries.len();
        assert(self.entries@.subrange(0, n as int) =~= self.entries@);
        let mut i: usize = 0;
        while i < n
            invariant
                n == self.entries@.len(),
                i <= n,
                key@ == name@,
                find_entry(self.entries@, name@) == find_entry(self.entries@.subrange(i as int, n as int), name@),
            decreases n - i,
        {
            let ghost rest = self.entries@.subrange(i as int, n as int);
            assert(rest.drop_first() =~= self.entries@.subrange(i + 1, n as int));
            if self.entries[i].0 == key {
                return Some(&self.entries[i].1);
            }
            i = i + 1;
        }
        None
    }
}

proof fn lemma_find_entry_absent(entries: Seq<(String, ProfileValue)>, name: Seq<char>)
    requires
        forall|j: int| 0 <= j < entries.len() ==> (#[trigger] entries[j]).0@ != name,
    ensures
        find_entry(entries, name) is None,
    decreases entries.len(),
{
    if entries.len() > 0 {
        assert forall|j: int| 0 <= j < entries.drop_first().len() implies (#[trigger] entries.drop_first()[j]).0@ != name by {
            assert(entries.drop_first()[j] == entries[j + 1]);
        }
        lemma_find_entry_absent(entries.drop_first(), name);
    }
}

/// The verdict on a setting that must be a non-empty string.
pub open spec fn expect_str_result(v: Option<ProfileValue>) -> Result<Seq<char>, ProfileError> {
    match v {
        None => Err(ProfileError::Missing),
        Some(ProfileValue::Str(s)) => if s@.len() == 0 {
            Err(ProfileError::Empty)
        } else {
            Ok(s@)
        },
        Some(_) => Err(ProfileError::NotString),
    }
}

/// The verdict on a setting that must be a boolean.
pub open spec fn expect_bool_result(v: Option<ProfileValue>) -> Result<bool, ProfileError> {
    match v {
        None => Err(ProfileError::Missing),
        Some(ProfileValue::Bool(b)) => Ok(b),
        Some(_) => Err(ProfileError::NotBool),
    }
}

/// The setting `name`, which must be present and a non-empty string.
pub fn profile_expect_str(p: &Profile, name: &str) -> (r: Result<String, ProfileError>)
    ensures
        r matches Ok(s) ==> expect_str_result(p.lookup(name@)) == Ok::<Seq<char>, ProfileError>(s@),
        r matches Err(e) ==> expect_str_result(p.lookup(name@)) == Err::<Seq<char>, ProfileError>(e),
{
    match p.get(name) {
        Some(ProfileValue::Str(s)) => {
            if s.as_str().is_empty() {
                Err(ProfileError::Empty)
            } else {
                Ok(s.clone())
            }
        },
        Some(_) => Err(ProfileError::NotString),
        None => Err(ProfileError::Missing),
    }
}

/// The setting `name`, which must be present and a boolean.
pub fn profile_expect_bool(p: &Profile, name: &str) -> (r: Result<bool, ProfileError>)
    ensures
        r == expect_bool_result(p.lookup(name@)),
{
    match p.get(name) {
        Some(ProfileValue::Bool(b)) => Ok(*b),
        Some(_) => Err(ProfileError::NotBool),
        None => Err(ProfileError::Missing),
    }
}

} // verus!
