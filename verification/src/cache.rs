//! Names of the files that hold cached records.
use vstd::prelude::*;

use crate::text;

verus! {

/// The file name for cached `datatype` records whose key hashes to `hash`:
/// `datatype-<hash in lower-case hex>.cache`.
pub open spec fn cache_file_name_text(datatype: Seq<char>, hash: u64) -> Seq<char> {
    datatype + "-"@ + text::hex_numeral(hash as nat) + ".cache"@
}

/// The file name for cached `datatype` records whose key hashes to `hash`.
pub fn cache_file_name(datatype: &str, hash: u64) -> (res: String)
    ensures
        res@ == cache_file_name_text(datatype@, hash),
{
    let mut s = String::new();
    s.append(datatype);
    s.append("-");
    s.append(text::string_of(&text::hex_u64(hash)).as_str());
    s.append(".cache");
    s
}

/// Name for the hash that a fresh `DefaultHasher` gives a string key.
pub uninterp spec fn default_hash_of(key: Seq<char>) -> u64;

/// The key hashed as `HashMap`'s default hasher does: `<str as Hash>::hash`
/// into a fresh `std::collections::hash_map::DefaultHasher`, then `finish`.
/// The result is named (`default_hash_of`): a fresh `DefaultHasher` starts
/// from fixed keys, so it depends on the key alone; the hash function itself
/// is left unstated.
#[verifier::external_body]
fn default_hash(key: &str) -> (res: u64)
    ensures
        res == default_hash_of(key@),
{
    let mut hasher = std::collections::hash_map::DefaultHasher::new();
    std::hash::Hash::hash(key, &mut hasher);
    std::hash::Hasher::finish(&hasher)
}

/// The file name for cached `datatype` records stored under `key`: the
/// name for the key's hash.
pub fn cache_file_name_for(datatype: &str, key: &str) -> (res: String)
    ensures
        res@ == cache_file_name_text(datatype@, default_hash_of(key@)),
{
    cache_file_name(datatype, default_hash(key))
}

} // verus!
