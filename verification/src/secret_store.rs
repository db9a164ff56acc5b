//! Secrets kept outside the database: an in-memory store for tests and
//! short-lived runs, and the rules of the macOS Keychain store, whose
//! `security` commands the host runs.

use vstd::prelude::*;
use crate::domain::{blank, is_blank};
use crate::text::{append_str, chars_of, spec_is_whitespace, string_of, str_eq, is_whitespace};

verus! {

/// Why a secret operation fails.
#[derive(Debug, PartialEq, Eq)]
pub enum SecretError {
    InvalidName,
    Platform(String),
}

/// The text of a secret error.
pub open spec fn secret_error_message(e: SecretError) -> Seq<char> {
    match e {
        SecretError::InvalidName => "secret name is invalid"@,
        SecretError::Platform(m) => "the operating-system secret store failed: "@ + m@,
    }
}

impl SecretError {
    /// The text of this error; it never holds a secret value.
    pub fn message(&self) -> (m: String)
        ensures
            m@ == secret_error_message(*self),
    {
        match self {
            SecretError::InvalidName => "secret name is invalid".to_owned(),
            SecretError::Platform(detail) => {
                let mut m = "the operating-system secret store failed: ".to_owned();
                append_str(&mut m, detail.as_str());
                m
            },
        }
    }
}

/// Whether a secret name is acceptable: not blank, and free of NUL.
pub open spec fn valid_secret_name(name: Seq<char>) -> bool {
    !is_blank(name) && !name.contains('\0')
}

/// Checks a secret name.
pub fn valid_name(name: &str) -> (r: Result<(), SecretError>)
    ensures
        r is Ok <==> valid_secret_name(name@),
        r is Err ==> r == Err::<(), SecretError>(SecretError::InvalidName),
{
    if blank(name) {
        return Err(SecretError::InvalidName);
    }
    let cs = chars_of(name);
    let mut i: usize = 0;
    while i < cs.len()
        invariant
            i <= cs@.len(),
            cs@ == name@,
            forall|k: int| 0 <= k < i ==> cs@[k] != '\0',
        decreases cs@.len() - i,
    {
        if cs[i] == '\0' {
            assert(name@.contains('\0')) by {
                assert(name@[i as int] == '\0');
            }
            return Err(SecretError::InvalidName);
        }
        i = i + 1;
    }
    Ok(())
}

/// Keeps secrets by name.
pub trait SecretStore {
    /// Stores `value` under `name`, replacing what was there.
    fn put(&mut self, name: &str, value: &str) -> Result<(), SecretError>;

    /// The secret stored under `name`, if any.
    fn get(&self, name: &str) -> Result<Option<String>, SecretError>;

    /// Forgets the secret stored under `name`, if any.
    fn delete(&mut self, name: &str) -> Result<(), SecretError>;
}

/// Secrets held in memory only: a new store is empty and nothing outlives it.
pub struct MemorySecretStore {
    entries: Vec<(String, String)>,
}

/// The secrets of a list of entries, by name.
pub open spec fn entries_map(entries: Seq<(String, String)>) -> Map<Seq<char>, Seq<char>>
    decreases entries.len(),
{
    if entries.len() == 0 {
        Map::empty()
    } else {
        entries_map(entries.drop_last()).insert(entries.last().0@, entries.last().1@)
    }
}

/// No name occurs twice among the entries.
pub open spec fn names_unique(entries: Seq<(String, String)>) -> bool {
    forall|i: int, j: int| 0 <= i < j < entries.len() ==> entries[i].0@ != entries[j].0@
}

proof fn lemma_entries_lookup(entries: Seq<(String, String)>, k: int)
    requires
        names_unique(entries),
        0 <= k < entries.len(),
    ensures
        entries_map(entries).contains_key(entries[k].0@),
        entries_map(entries)[entries[k].0@] == entries[k].1@,
    decreases entries.len(),
{
    if k < entries.len() - 1 {
        lemma_entries_lookup(entries.drop_last(), k);
    }
}

proof fn lemma_entries_absent(entries: Seq<(String, String)>, name: Seq<char>)
    requires
        forall|k: int| 0 <= k < entries.len() ==> entries[k].0@ != name,
    ensures
        !entries_map(entries).contains_key(name),
    decreases entries.len(),
{
    if entries.len() > 0 {
        lemma_entries_absent(entries.drop_last(), name);
    }
}

proof fn lemma_entries_update(entries: Seq<(String, String)>, k: int, value: String)
    requires
        names_unique(entries),
        0 <= k < entries.len(),
    ensures
        names_unique(entries.update(k, (entries[k].0, value))),
        entries_map(entries.update(k, (entries[k].0, value))) == entries_map(entries).insert(entries[k].0@, value@),
    decreases entries.len(),
{
    let updated = entries.update(k, (entries[k].0, value));
    if k < entries.len() - 1 {
        assert(updated.drop_last() =~= entries.drop_last().update(k, (entries[k].0, value)));
        lemma_entries_update(entries.drop_last(), k, value);
        assert(entries_map(updated) =~= entries_map(entries).insert(entries[k].0@, value@)) by {
            assert(updated.last() == entries.last());
        }
    } else {
        assert(updated.drop_last() =~= entries.drop_last());
        lemma_entries_absent(entries.drop_last(), entries[k].0@);
        assert(entries_map(updated) =~= entries_map(entries).insert(entries[k].0@, value@));
    }
}

proof fn lemma_entries_remove(entries: Seq<(String, String)>, k: int)
    requires
        names_unique(entries),
        0 <= k < entries.len(),
    ensures
        names_unique(entries.remove(k)),
        entries_map(entries.remove(k)) == entries_map(entries).remove(entries[k].0@),
    decreases entries.len(),
{
    let removed = entries.remove(k);
    if k < entries.len() - 1 {
        assert(removed.drop_last() =~= entries.drop_last().remove(k));
        assert(removed.last() == entries.last());
        lemma_entries_remove(entries.drop_last(), k);
        assert(entries_map(removed) =~= entries_map(entries).remove(entries[k].0@));
    } else {
        assert(removed =~= entries.drop_last());
        lemma_entries_absent(entries.drop_last(), entries[k].0@);
        assert(entries_map(removed) =~= entries_map(entries).remove(entries[k].0@));
    }
}

impl View for MemorySecretStore {
    type V = Map<Seq<char>, Seq<char>>;

    closed spec fn view(&self) -> Map<Seq<char>, Seq<char>> {
        entries_map(self.entries@)
    }
}

impl MemorySecretStore {
    /// The store's invariant: each name has one entry.
    #[verifier::type_invariant]
    closed spec fn wf(self) -> bool {
        names_unique(self.entries@)
    }

    /// An empty store.
    pub fn new() -> (s: MemorySecretStore)
        ensures
            s@ == Map::<Seq<char>, Seq<char>>::empty(),
    {
        let s = MemorySecretStore { entries: Vec::new() };
        assert(s@ =~= Map::<Seq<char>, Seq<char>>::empty());
        s
    }

    fn position(&self, name: &str) -> (r: Option<usize>)
        ensures
            match r {
                Some(k) => k < self.entries@.len() && self.entries@[k as int].0@ == name@,
                None => forall|k: int| 0 <= k < self.entries@.len() ==> self.entries@[k].0@ != name@,
            },
    {
        let mut i: usize = 0;
        while i < self.entries.len()
            invariant
                i <= self.entries@.len(),
                forall|k: int| 0 <= k < i ==> self.entries@[k].0@ != name@,
            decreases self.entries@.len() - i,
        {
            if str_eq(self.entries[i].0.as_str(), name) {
                return Some(i);
            }
            i = i + 1;
        }
        None
    }
}

impl Default for MemorySecretStore {
    fn default() -> (s: MemorySecretStore)
        ensures
            s@ == Map::<Seq<char>, Seq<char>>::empty(),
    {
        MemorySecretStore::new()
    }
}

impl SecretStore for MemorySecretStore {
    fn put(&mut self, name: &str, value: &str) -> (r: Result<(), SecretError>)
        ensures
            r is Ok <==> valid_secret_name(name@),
            r is Err ==> r == Err::<(), SecretError>(SecretError::InvalidName) && *final(self) == *old(self),
            r is Ok ==> final(self)@ == old(self)@.insert(name@, value@),
    {
        if let Err(e) = valid_name(name) {
            return Err(e);
        }
        proof {
            use_type_invariant(&*self);
        }
        let position = self.position(name);
        let mut entries: Vec<(String, String)> = Vec::new();
        std::mem::swap(&mut entries, &mut self.entries);
        let ghost before = entries@;
        match position {
            Some(k) => {
                let owned = value.to_owned();
                proof {
                    lemma_entries_update(before, k as int, owned);
                }
                let kept = entries[k].0.clone();
                entries.set(k, (kept, owned));
                assert(entries@ =~= before.update(k as int, (before[k as int].0, owned)));
            },
            None => {
                entries.push((name.to_owned(), value.to_owned()));
                proof {
                    assert(entries@.drop_last() =~= before);
                }
            },
        }
        self.entries = entries;
        Ok(())
    }

    fn get(&self, name: &str) -> (r: Result<Option<String>, SecretError>)
        ensures
            r is Ok <==> valid_secret_name(name@),
            r is Err ==> r == Err::<Option<String>, SecretError>(SecretError::InvalidName),
            r is Ok ==> match r->Ok_0 {
                Some(v) => self@.contains_key(name@) && self@[name@] == v@,
                None => !self@.contains_key(name@),
            },
    {
        if let Err(e) = valid_name(name) {
            return Err(e);
        }
        proof {
            use_type_invariant(self);
        }
        match self.position(name) {
            Some(k) => {
                proof {
                    lemma_entries_lookup(self.entries@, k as int);
                }
                Ok(Some(self.entries[k].1.clone()))
            },
            None => {
                proof {
                    lemma_entries_absent(self.entries@, name@);
                }
                Ok(None)
            },
        }
    }

    fn delete(&mut self, name: &str) -> (r: Result<(), SecretError>)
        ensures
            r is Ok <==> valid_secret_name(name@),
            r is Err ==> r == Err::<(), SecretError>(SecretError::InvalidName) && *final(self) == *old(self),
            r is Ok ==> final(self)@ == old(self)@.remove(name@),
    {
        if let Err(e) = valid_name(name) {
            return Err(e);
        }
        proof {
            use_type_invariant(&*self);
        }
        match self.position(name) {
            Some(k) => {
                let mut entries: Vec<(String, String)> = Vec::new();
                std::mem::swap(&mut entries, &mut self.entries);
                let ghost before = entries@;
                proof {
                    lemma_entries_remove(before, k as int);
                }
                entries.remove(k);
                self.entries = entries;
            },
            None => {
                proof {
                    lemma_entries_absent(self.entries@, name@);
                    assert(self@ =~= self@.remove(name@));
                }
            },
        }
        Ok(())
    }
}

/// A secret that was stored can be read back until it is deleted, and a
/// deleted secret reads as absent.
pub proof fn lemma_put_get_delete(store: Map<Seq<char>, Seq<char>>, name: Seq<char>, value: Seq<char>)
    ensures
        store.insert(name, value).contains_key(name),
        store.insert(name, value)[name] == value,
        !store.insert(name, value).remove(name).contains_key(name),
{
}

/// The macOS Keychain store of one service.
pub struct MacOsKeychainSecretStore {
    service: String,
}

impl MacOsKeychainSecretStore {
    /// The Keychain service of this store.
    pub closed spec fn service_name(&self) -> Seq<char> {
        self.service@
    }

    /// The store of Keychain service `service`, if its name is valid.
    pub fn new(service: &str) -> (r: Result<MacOsKeychainSecretStore, SecretError>)
        ensures
            r is Ok <==> valid_secret_name(service@),
            r matches Ok(s) ==> s.service_name() == service@,
            r is Err ==> r == Err::<MacOsKeychainSecretStore, SecretError>(SecretError::InvalidName),
    {
        if let Err(e) = valid_name(service) {
            return Err(e);
        }
        Ok(MacOsKeychainSecretStore { service: service.to_owned() })
    }

    /// The Keychain service of this store.
    pub fn service(&self) -> (s: &str)
        ensures
            s@ == self.service_name(),
    {
        self.service.as_str()
    }

    /// The `security` arguments that store `value` under `name`, replacing
    /// an older one.
    pub fn put_arguments(&self, name: &str, value: &str) -> (r: Result<Vec<String>, SecretError>)
        ensures
            r is Ok <==> valid_secret_name(name@),
            r matches Ok(args) ==> texts_of(args@) == seq![
                "add-generic-password"@,
                "-U"@,
                "-a"@,
                name@,
                "-s"@,
                self.service_name(),
                "-w"@,
                value@,
            ],
    {
        if let Err(e) = valid_name(name) {
            return Err(e);
        }
        let mut args: Vec<String> = Vec::new();
        args.push("add-generic-password".to_owned());
        args.push("-U".to_owned());
        args.push("-a".to_owned());
        args.push(name.to_owned());
        args.push("-s".to_owned());
        args.push(self.service.clone());
        args.push("-w".to_owned());
        args.push(value.to_owned());
        assert(texts_of(args@) =~= seq![
            "add-generic-password"@,
            "-U"@,
            "-a"@,
            name@,
            "-s"@,
            self.service_name(),
            "-w"@,
            value@,
        ]);
        Ok(args)
    }

    /// The `security` arguments that read the secret stored under `name`.
    pub fn get_arguments(&self, name: &str) -> (r: Result<Vec<String>, SecretError>)
        ensures
            r is Ok <==> valid_secret_name(name@),
            r matches Ok(args) ==> texts_of(args@) == seq![
                "find-generic-password"@,
                "-a"@,
                name@,
                "-s"@,
                self.service_name(),
                "-w"@,
            ],
    {
        if let Err(e) = valid_name(name) {
            return Err(e);
        }
        let mut args: Vec<String> = Vec::new();
        args.push("find-generic-password".to_owned());
        args.push("-a".to_owned());
        args.push(name.to_owned());
        args.push("-s".to_owned());
        args.push(self.service.clone());
        args.push("-w".to_owned());
        assert(texts_of(args@) =~= seq![
            "find-generic-password"@,
            "-a"@,
            name@,
            "-s"@,
            self.service_name(),
            "-w"@,
        ]);
        Ok(args)
    }

    /// The `security` arguments that delete the secret stored under `name`.
    pub fn delete_arguments(&self, name: &str) -> (r: Result<Vec<String>, SecretError>)
        ensures
            r is Ok <==> valid_secret_name(name@),
            r matches Ok(args) ==> texts_of(args@) == seq![
                "delete-generic-password"@,
                "-a"@,
                name@,
                "-s"@,
                self.service_name(),
            ],
    {
        if let Err(e) = valid_name(name) {
            return Err(e);
        }
        let mut args: Vec<String> = Vec::new();
        args.push("delete-generic-password".to_owned());
        args.push("-a".to_owned());
        args.push(name.to_owned());
        args.push("-s".to_owned());
        args.push(self.service.clone());
        assert(texts_of(args@) =~= seq!["delete-generic-password"@, "-a"@, name@, "-s"@, self.service_name()]);
        Ok(args)
    }
}

/// The texts of a list of strings.
pub open spec fn texts_of(v: Seq<String>) -> Seq<Seq<char>> {
    Seq::new(v.len(), |i: int| v[i]@)
}

/// The exit code with which `security` reports a missing item.
pub const ITEM_NOT_FOUND: i32 = 44;

/// What a `security` run that stored a secret means.
pub fn put_outcome(success: bool) -> (r: Result<(), SecretError>)
    ensures
        success <==> r is Ok,
        r matches Err(SecretError::Platform(m)) ==> m@ == "could not save secret in macOS Keychain"@,
        r is Err ==> r->Err_0 is Platform,
{
    if success {
        Ok(())
    } else {
        Err(SecretError::Platform("could not save secret in macOS Keychain".to_owned()))
    }
}

/// `s` without its trailing whitespace.
pub open spec fn trim_end(s: Seq<char>) -> Seq<char>
    decreases s.len(),
{
    if s.len() > 0 && spec_is_whitespace(s.last()) {
        trim_end(s.drop_last())
    } else {
        s
    }
}

/// What a `security` run that read a secret means: the printed secret
/// without its trailing whitespace, nothing for a missing item, or a failure.
pub fn get_outcome(success: bool, code: Option<i32>, printed: &str) -> (r: Result<Option<String>, SecretError>)
    ensures
        success ==> (r matches Ok(Some(v)) && v@ == trim_end(printed@)),
        !success && code == Some(ITEM_NOT_FOUND) ==> r == Ok::<Option<String>, SecretError>(None),
        !success && code != Some(ITEM_NOT_FOUND) ==> (r matches Err(SecretError::Platform(m)) && m@
            == "could not read secret from macOS Keychain"@),
{
    if success {
        let cs = chars_of(printed);
        let mut end = cs.len();
        assert(cs@.subrange(0, end as int) =~= cs@);
        while end > 0 && is_whitespace(cs[end - 1])
            invariant
                end <= cs@.len(),
                cs@ == printed@,
                trim_end(cs@.subrange(0, end as int)) == trim_end(printed@),
            decreases end,
        {
            assert(cs@.subrange(0, end as int).drop_last() =~= cs@.subrange(0, end - 1));
            end = end - 1;
        }
        return Ok(Some(string_of(&cs, 0, end)));
    }
    if code == Some(ITEM_NOT_FOUND) {
        Ok(None)
    } else {
        Err(SecretError::Platform("could not read secret from macOS Keychain".to_owned()))
    }
}

/// What a `security` run that deleted a secret means: a missing item is no
/// failure.
pub fn delete_outcome(success: bool, code: Option<i32>) -> (r: Result<(), SecretError>)
    ensures
        (success || code == Some(ITEM_NOT_FOUND)) <==> r is Ok,
        r matches Err(SecretError::Platform(m)) ==> m@ == "could not delete secret from macOS Keychain"@,
        r is Err ==> r->Err_0 is Platform,
{
    if success || code == Some(ITEM_NOT_FOUND) {
        Ok(())
    } else {
        Err(SecretError::Platform("could not delete secret from macOS Keychain".to_owned()))
    }
}

} // verus!
