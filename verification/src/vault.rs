//! Secret stores: where the keys behind credential references come from.
//!
//! A reference stands for a pair of keys. The dummy key is given to the virtual
//! machine; the real key replaces it on the way to the upstream host. Pairs are
//! held in memory only.

use vstd::prelude::*;

use crate::text::prefixed;
use crate::strmap::StrMap;

verus! {

/// Why a credential reference could not be resolved.
#[derive(Debug)]
pub enum SecretStoreError {
    /// The store has nothing under the reference.
    NotFound(String),
    /// The reference, or what the store was made from, is malformed.
    Invalid(String),
    /// The store failed.
    Internal(String),
}

/// The text of an error.
pub open spec fn secret_error_text(e: SecretStoreError) -> Seq<char> {
    match e {
        SecretStoreError::NotFound(m) => "credential ref not found: "@ + m@,
        SecretStoreError::Invalid(m) => "credential ref invalid: "@ + m@,
        SecretStoreError::Internal(m) => "secret store error: "@ + m@,
    }
}

impl SecretStoreError {
    /// The text of the error.
    pub fn message(&self) -> (s: String)
        ensures
            s@ == secret_error_text(*self),
    {
        match self {
            SecretStoreError::NotFound(m) => prefixed("credential ref not found: ", m.as_str()),
            SecretStoreError::Invalid(m) => prefixed("credential ref invalid: ", m.as_str()),
            SecretStoreError::Internal(m) => prefixed("secret store error: ", m.as_str()),
        }
    }
}

/// A dummy key and the real key behind it.
#[derive(Debug)]
pub struct KeyPair {
    /// The key that the virtual machine has.
    pub dummy: String,
    /// The key that goes upstream.
    pub real: String,
}

/// The texts of a key pair.
pub struct KeyPairView {
    /// The key that the virtual machine has.
    pub dummy: Seq<char>,
    /// The key that goes upstream.
    pub real: Seq<char>,
}

impl View for KeyPair {
    type V = KeyPairView;

    open spec fn view(&self) -> KeyPairView {
        KeyPairView { dummy: self.dummy@, real: self.real@ }
    }
}

impl Clone for KeyPair {
    fn clone(&self) -> (r: KeyPair)
        ensures
            r@ == self@,
    {
        KeyPair { dummy: self.dummy.clone(), real: self.real.clone() }
    }
}

/// The texts of a map of key pairs.
pub open spec fn pair_map(m: Map<Seq<char>, KeyPair>) -> Map<Seq<char>, KeyPairView> {
    Map::new(|k: Seq<char>| m.dom().contains(k), |k: Seq<char>| m[k]@)
}

/// What a lookup of `credential_ref` in the pairs `m` gives.
pub open spec fn looked_up(
    m: Map<Seq<char>, KeyPairView>,
    credential_ref: Seq<char>,
    r: Result<KeyPair, SecretStoreError>,
) -> bool {
    match r {
        Ok(pair) => m.dom().contains(credential_ref) && pair@ == m[credential_ref],
        Err(SecretStoreError::NotFound(what)) => !m.dom().contains(credential_ref) && what@
            == credential_ref,
        Err(_) => false,
    }
}

/// A source of key pairs.
pub trait SecretStore: Send + Sync {
    /// The pair that a credential reference stands for.
    fn fetch(&self, credential_ref: &str) -> Result<KeyPair, SecretStoreError>;
}

fn look_up(keys: &StrMap<KeyPair>, credential_ref: &str) -> (r: Result<KeyPair, SecretStoreError>)
    ensures
        looked_up(pair_map(keys@), credential_ref@, r),
{
    match keys.get(credential_ref) {
        Some(pair) => Ok(pair.clone()),
        None => Err(SecretStoreError::NotFound(credential_ref.to_owned())),
    }
}

/// A secret store that is filled by hand.
pub struct MockSecretStore {
    keys: StrMap<KeyPair>,
}

impl View for MockSecretStore {
    type V = Map<Seq<char>, KeyPairView>;

    closed spec fn view(&self) -> Map<Seq<char>, KeyPairView> {
        pair_map(self.keys@)
    }
}

impl MockSecretStore {
    /// A store without pairs.
    pub fn new() -> (r: MockSecretStore)
        ensures
            r@ == Map::<Seq<char>, KeyPairView>::empty(),
    {
        let keys: StrMap<KeyPair> = StrMap::new();
        proof {
            assert(pair_map(keys@) =~= Map::empty());
        }
        MockSecretStore { keys }
    }

    /// Puts a pair under a reference.
    pub fn insert(&mut self, credential_ref: &str, dummy: &str, real_key: &str)
        ensures
            final(self)@ == old(self)@.insert(
                credential_ref@,
                KeyPairView { dummy: dummy@, real: real_key@ },
            ),
    {
        let pair = KeyPair { dummy: dummy.to_owned(), real: real_key.to_owned() };
        proof {
            assert(pair_map(self.keys@.insert(credential_ref@, pair)) =~= pair_map(
                self.keys@,
            ).insert(credential_ref@, pair@));
        }
        self.keys.insert(credential_ref.to_owned(), pair);
    }
}

impl SecretStore for MockSecretStore {
    fn fetch(&self, credential_ref: &str) -> (r: Result<KeyPair, SecretStoreError>)
        ensures
            looked_up(self@, credential_ref@, r),
    {
        look_up(&self.keys, credential_ref)
    }
}

/// A secret store that is filled from a key file.
pub struct FileSecretStore {
    keys: StrMap<KeyPair>,
}

impl View for FileSecretStore {
    type V = Map<Seq<char>, KeyPairView>;

    closed spec fn view(&self) -> Map<Seq<char>, KeyPairView> {
        pair_map(self.keys@)
    }
}

/// The pairs that the entries of a key file give; of two under one reference, the
/// last counts.
pub open spec fn file_pairs(entries: Seq<(String, KeyPair)>) -> Map<Seq<char>, KeyPairView>
    decreases entries.len(),
{
    if entries.len() == 0 {
        Map::empty()
    } else {
        file_pairs(entries.drop_last()).insert(entries.last().0@, entries.last().1@)
    }
}

impl FileSecretStore {
    /// A store with the entries of a key file, or with what is wrong with the file.
    /// A file without entries is refused.
    pub fn new(parsed: Result<Vec<(String, KeyPair)>, String>) -> (r: Result<
        FileSecretStore,
        SecretStoreError,
    >)
        ensures
            match (r, parsed) {
                (Ok(store), Ok(entries)) => entries@.len() > 0 && store@ == file_pairs(entries@),
                (Err(SecretStoreError::Invalid(m)), Ok(entries)) => entries@.len() == 0 && m@
                    == "key file is empty"@,
                (Err(SecretStoreError::Invalid(m)), Err(e)) => m@ == "malformed key file JSON: "@
                    + e@,
                _ => false,
            },
    {
        let entries = match parsed {
            Ok(entries) => entries,
            Err(e) => {
                return Err(
                    SecretStoreError::Invalid(prefixed("malformed key file JSON: ", e.as_str())),
                );
            },
        };
        if entries.len() == 0 {
            return Err(SecretStoreError::Invalid("key file is empty".to_owned()));
        }
        let mut keys: StrMap<KeyPair> = StrMap::new();
        let mut i: usize = 0;
        proof {
            assert(pair_map(keys@) =~= Map::empty());
        }
        while i < entries.len()
            invariant
                i <= entries@.len(),
                pair_map(keys@) == file_pairs(entries@.take(i as int)),
            decreases entries@.len() - i,
        {
            let pair = entries[i].1.clone();
            proof {
                assert(entries@.take(i + 1).drop_last() =~= entries@.take(i as int));
                assert(pair_map(keys@.insert(entries@[i as int].0@, pair)) =~= pair_map(
                    keys@,
                ).insert(entries@[i as int].0@, pair@));
            }
            keys.insert(entries[i].0.clone(), pair);
            i = i + 1;
        }
        proof {
            assert(entries@.take(i as int) =~= entries@);
        }
        Ok(FileSecretStore { keys })
    }

    /// A store from what was read from standard input: the entries or what is wrong
    /// with them, or why nothing could be read.
    pub fn from_stdin(
        read: Result<Result<Vec<(String, KeyPair)>, String>, String>,
    ) -> (r: Result<FileSecretStore, SecretStoreError>)
        ensures
            match (r, read) {
                (Ok(store), Ok(Ok(entries))) => entries@.len() > 0 && store@ == file_pairs(
                    entries@,
                ),
                (Err(SecretStoreError::Invalid(m)), Ok(Ok(entries))) => entries@.len() == 0 && m@
                    == "key file is empty"@,
                (Err(SecretStoreError::Invalid(m)), Ok(Err(e))) => m@
                    == "malformed key file JSON: "@ + e@,
                (Err(SecretStoreError::Internal(m)), Err(e)) => m@ == "failed to read stdin: "@
                    + e@,
                _ => false,
            },
    {
        match read {
            Ok(parsed) => FileSecretStore::new(parsed),
            Err(e) => Err(
                SecretStoreError::Internal(prefixed("failed to read stdin: ", e.as_str())),
            ),
        }
    }
}

impl SecretStore for FileSecretStore {
    fn fetch(&self, credential_ref: &str) -> (r: Result<KeyPair, SecretStoreError>)
        ensures
            looked_up(self@, credential_ref@, r),
    {
        look_up(&self.keys, credential_ref)
    }
}

// ---------------------------------------------------------------------------
// Laws
// ---------------------------------------------------------------------------

/// A credential is found, with its own pair of keys, exactly where it is kept; else the
/// error names it.
pub proof fn law_kept_credentials_are_found(
    m: Map<Seq<char>, KeyPairView>,
    credential_ref: Seq<char>,
    r: Result<KeyPair, SecretStoreError>,
)
    requires
        looked_up(m, credential_ref, r),
    ensures
        m.dom().contains(credential_ref) <==> r is Ok,
        r matches Ok(pair) ==> pair.dummy@ == m[credential_ref].dummy && pair.real@
            == m[credential_ref].real,
        r matches Err(e) ==> (e matches SecretStoreError::NotFound(what) && what@
            == credential_ref),
{
}

/// Of the entries of a key file under one name, the last is kept, with its dummy key and
/// its real key.
pub proof fn law_last_entry_is_kept(entries: Seq<(String, KeyPair)>, name: Seq<char>)
    ensures
        file_pairs(entries).dom().contains(name) <==> exists|i: int|
            0 <= i < entries.len() && (#[trigger] entries[i]).0@ == name,
        file_pairs(entries).dom().contains(name) ==> exists|i: int|
            0 <= i < entries.len() && (#[trigger] entries[i]).0@ == name && file_pairs(
                entries,
            )[name].dummy == entries[i].1.dummy@ && file_pairs(entries)[name].real
                == entries[i].1.real@ && forall|j: int|
                i < j < entries.len() ==> (#[trigger] entries[j]).0@ != name,
    decreases entries.len(),
{
    if entries.len() > 0 {
        let init = entries.drop_last();
        let n = entries.len() - 1;
        assert(entries[n] == entries.last());
        law_last_entry_is_kept(init, name);
        if entries.last().0@ != name {
            if file_pairs(init).dom().contains(name) {
                let i = choose|i: int|
                    0 <= i < init.len() && (#[trigger] init[i]).0@ == name && file_pairs(
                        init,
                    )[name].dummy == init[i].1.dummy@ && file_pairs(init)[name].real
                        == init[i].1.real@ && forall|j: int|
                        i < j < init.len() ==> (#[trigger] init[j]).0@ != name;
                assert(entries[i] == init[i]);
                assert forall|j: int| i < j < entries.len() implies (#[trigger] entries[j]).0@
                    != name by {
                    if j < n {
                        assert(init[j] == entries[j]);
                    }
                }
            } else {
                assert forall|i: int| 0 <= i < entries.len() implies (#[trigger] entries[i]).0@
                    != name by {
                    if i < n {
                        assert(init[i] == entries[i]);
                    }
                }
            }
        }
    }
}

/// A pair of keys is seen with both of them, and so are the pairs of a map.
pub proof fn law_pair_is_seen_whole(p: KeyPair, m: Map<Seq<char>, KeyPair>, k: Seq<char>)
    ensures
        p@.dummy == p.dummy@,
        p@.real == p.real@,
        pair_map(m).dom() == m.dom(),
        m.dom().contains(k) ==> pair_map(m)[k].dummy == m[k].dummy@ && pair_map(m)[k].real
            == m[k].real@,
{
    assert(pair_map(m).dom() =~= m.dom());
}

/// The text of an error says what kind it is of, and then what it is about.
pub proof fn law_error_says_what_and_why(e: SecretStoreError)
    ensures
        e matches SecretStoreError::NotFound(m) ==> secret_error_text(e) == "credential ref not found: "@ + m@,
        e matches SecretStoreError::Invalid(m) ==> secret_error_text(e) == "credential ref invalid: "@ + m@,
        e matches SecretStoreError::Internal(m) ==> secret_error_text(e) == "secret store error: "@ + m@,
{
}

} // verus!
