//! Secret stores with one key under each credential reference.

use vstd::prelude::*;

use crate::text::prefixed;
use crate::strmap::StrMap;
use crate::vault::SecretStoreError;

verus! {

/// A source of keys.
pub trait SecretStore: Send + Sync {
    /// The key that a credential reference stands for.
    fn fetch(&self, credential_ref: &str) -> Result<String, SecretStoreError>;
}

/// What a lookup of `credential_ref` in the keys `m` gives.
pub open spec fn looked_up(
    m: Map<Seq<char>, Seq<char>>,
    credential_ref: Seq<char>,
    r: Result<String, SecretStoreError>,
) -> bool {
    match r {
        Ok(key) => m.dom().contains(credential_ref) && key@ == m[credential_ref],
        Err(SecretStoreError::NotFound(what)) => !m.dom().contains(credential_ref) && what@
            == credential_ref,
        Err(_) => false,
    }
}

fn look_up(keys: &StrMap<String>, credential_ref: &str) -> (r: Result<String, SecretStoreError>)
    ensures
        looked_up(crate::strmap::text_map(keys@), credential_ref@, r),
{
    match keys.get(credential_ref) {
        Some(key) => Ok(key.clone()),
        None => Err(SecretStoreError::NotFound(credential_ref.to_owned())),
    }
}

/// A secret store that is filled by hand.
pub struct MockSecretStore {
    keys: StrMap<String>,
}

impl View for MockSecretStore {
    type V = Map<Seq<char>, Seq<char>>;

    closed spec fn view(&self) -> Map<Seq<char>, Seq<char>> {
        crate::strmap::text_map(self.keys@)
    }
}

impl MockSecretStore {
    /// A store without keys.
    pub fn new() -> (r: MockSecretStore)
        ensures
            r@ == Map::<Seq<char>, Seq<char>>::empty(),
    {
        let keys: StrMap<String> = StrMap::new();
        proof {
            assert(crate::strmap::text_map(keys@) =~= Map::empty());
        }
        MockSecretStore { keys }
    }

    /// Puts a key under a reference.
    pub fn insert(&mut self, credential_ref: &str, key: &str)
        ensures
            final(self)@ == old(self)@.insert(credential_ref@, key@),
    {
        let key = key.to_owned();
        proof {
            assert(crate::strmap::text_map(self.keys@.insert(credential_ref@, key))
                =~= crate::strmap::text_map(self.keys@).insert(credential_ref@, key@));
        }
        self.keys.insert(credential_ref.to_owned(), key);
    }
}

impl SecretStore for MockSecretStore {
    fn fetch(&self, credential_ref: &str) -> (r: Result<String, SecretStoreError>)
        ensures
            looked_up(self@, credential_ref@, r),
    {
        look_up(&self.keys, credential_ref)
    }
}

/// What `serde_json` reads off a text as a map from text to text, or the text of
/// its error.
pub uninterp spec fn json_text_map(json: Seq<char>) -> Result<
    Map<Seq<char>, Seq<char>>,
    Seq<char>,
>;

/// `serde_json::from_str` into a map from text to text, as its entries, or the text
/// of its error. The map depends on the text alone; in which order its entries come
/// is open.
#[verifier::external_body]
fn parse_text_map(json: &str) -> (r: Result<Vec<(String, String)>, String>)
    ensures
        match r {
            Ok(entries) => crate::strmap::keys_differ(entries@) && json_text_map(json@) == Ok::<
                Map<Seq<char>, Seq<char>>,
                Seq<char>,
            >(crate::strmap::text_map(crate::strmap::entry_map(entries@))),
            Err(e) => json_text_map(json@) == Err::<Map<Seq<char>, Seq<char>>, Seq<char>>(e@),
        },
{
    serde_json::from_str::<std::collections::HashMap<String, String>>(json).map(
        |m| m.into_iter().collect(),
    ).map_err(|e| e.to_string())
}

/// A secret store that is filled from a key file: a JSON object that gives the key
/// of each credential reference.
pub struct FileSecretStore {
    keys: StrMap<String>,
}

impl View for FileSecretStore {
    type V = Map<Seq<char>, Seq<char>>;

    closed spec fn view(&self) -> Map<Seq<char>, Seq<char>> {
        crate::strmap::text_map(self.keys@)
    }
}

/// Whether `r` is what comes of a key file that reads as `parsed`. A file without
/// keys is refused.
pub open spec fn store_of(
    parsed: Result<Map<Seq<char>, Seq<char>>, Seq<char>>,
    r: Result<FileSecretStore, SecretStoreError>,
) -> bool {
    match (r, parsed) {
        (Ok(store), Ok(m)) => m != Map::<Seq<char>, Seq<char>>::empty() && store@ == m,
        (Err(SecretStoreError::Invalid(e)), Ok(m)) => m == Map::<Seq<char>, Seq<char>>::empty()
            && e@ == "key file is empty"@,
        (Err(SecretStoreError::Invalid(e)), Err(why)) => e@ == "malformed key file JSON: "@ + why,
        _ => false,
    }
}

impl FileSecretStore {
    /// The store of a key file that reads as those entries, or not.
    pub fn from_entries(parsed: Result<Vec<(String, String)>, String>) -> (r: Result<
        FileSecretStore,
        SecretStoreError,
    >)
        requires
            parsed matches Ok(entries) ==> crate::strmap::keys_differ(entries@),
        ensures
            store_of(
                match parsed {
                    Ok(entries) => Ok(
                        crate::strmap::text_map(crate::strmap::entry_map(entries@)),
                    ),
                    Err(e) => Err(e@),
                },
                r,
            ),
    {
        let entries = match parsed {
            Ok(entries) => entries,
            Err(e) => {
                return Err(
                    SecretStoreError::Invalid(prefixed("malformed key file JSON: ", e.as_str())),
                );
            },
        };
        let keys = StrMap::from_entries(entries);
        let empty = keys.is_empty();
        proof {
            let m = crate::strmap::text_map(keys@);
            assert(m =~= Map::empty() <==> keys@ =~= Map::empty());
        }
        if empty {
            return Err(SecretStoreError::Invalid("key file is empty".to_owned()));
        }
        Ok(FileSecretStore { keys })
    }

    /// The store of the key file with that content.
    pub fn new(plaintext_json: &str) -> (r: Result<FileSecretStore, SecretStoreError>)
        ensures
            store_of(json_text_map(plaintext_json@), r),
    {
        let parsed = parse_text_map(plaintext_json);
        FileSecretStore::from_entries(parsed)
    }

    /// The store of the key file at `path`, from what was read there or why it could
    /// not be read.
    pub fn from_file(path: &str, read: Result<String, String>) -> (r: Result<
        FileSecretStore,
        SecretStoreError,
    >)
        ensures
            match read {
                Ok(json) => store_of(json_text_map(json@), r),
                Err(e) => r matches Err(SecretStoreError::Internal(m)) && m@
                    == "failed to read key file "@ + path@ + ": "@ + e@,
            },
    {
        match read {
            Ok(json) => FileSecretStore::new(json.as_str()),
            Err(e) => {
                let mut m = prefixed("failed to read key file ", path);
                m.append(": ");
                m.append(e.as_str());
                Err(SecretStoreError::Internal(m))
            },
        }
    }

    /// The store of the key file on standard input, from what was read there or why
    /// it could not be read.
    pub fn from_stdin(read: Result<String, String>) -> (r: Result<
        FileSecretStore,
        SecretStoreError,
    >)
        ensures
            match read {
                Ok(json) => store_of(json_text_map(json@), r),
                Err(e) => r matches Err(SecretStoreError::Internal(m)) && m@
                    == "failed to read stdin: "@ + e@,
            },
    {
        match read {
            Ok(json) => FileSecretStore::new(json.as_str()),
            Err(e) => Err(
                SecretStoreError::Internal(prefixed("failed to read stdin: ", e.as_str())),
            ),
        }
    }
}

impl SecretStore for FileSecretStore {
    fn fetch(&self, credential_ref: &str) -> (r: Result<String, SecretStoreError>)
        ensures
            looked_up(self@, credential_ref@, r),
    {
        look_up(&self.keys, credential_ref)
    }
}

// ---------------------------------------------------------------------------
// Laws
// ---------------------------------------------------------------------------

/// A key is found under its credential exactly where it is kept; else the error names the
/// credential.
pub proof fn law_kept_keys_are_found(
    m: Map<Seq<char>, Seq<char>>,
    credential_ref: Seq<char>,
    r: Result<String, SecretStoreError>,
)
    requires
        looked_up(m, credential_ref, r),
    ensures
        m.dom().contains(credential_ref) <==> r is Ok,
        r matches Ok(key) ==> key@ == m[credential_ref],
        r matches Err(e) ==> (e matches SecretStoreError::NotFound(what) && what@
            == credential_ref),
{
}

/// A key file that can be read and has a key in it is kept as it is; any other is refused.
pub proof fn law_key_file_is_kept(
    parsed: Result<Map<Seq<char>, Seq<char>>, Seq<char>>,
    r: Result<FileSecretStore, SecretStoreError>,
    k: Seq<char>,
)
    requires
        store_of(parsed, r),
    ensures
        r is Ok ==> parsed is Ok,
        parsed matches Ok(m) ==> (m.dom().contains(k) ==> (r matches Ok(store) && store@ == m)),
        r matches Ok(store) ==> store@ != Map::<Seq<char>, Seq<char>>::empty(),
{
}

} // verus!
