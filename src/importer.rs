use vstd::prelude::*;
use crate::text::{chars_of, decimal, decimal_string};

verus! {

/// The key that the import cache hash is derived with.
pub const IMPORT_HASH_SEED: usize = 2304;

/// Relies on ahash's `RandomState::with_seed` and `hash_one`: a hash of the
/// text under the key. ahash mixes seeds drawn once per process into it, so
/// nothing is promised of the value.
#[verifier::external_body]
fn hash_text(seed: usize, s: &str) -> (r: u64) {
    ahash::RandomState::with_seed(seed).hash_one(s)
}

/// A file name as imports write it: a relative one gets the cache hash as a
/// query, so that a runtime reloads it when the hash changes.
pub open spec fn filename_spec(filename: Seq<char>, hash: Seq<char>) -> Seq<char> {
    if filename.len() > 0 && filename[0] == '.' {
        filename + "?cache_hash="@ + hash
    } else {
        filename
    }
}

/// The file name with the cache hash where it is relative (see
/// `filename_spec`).
pub fn import_filename(filename: &str, hash: &str) -> (r: String)
    ensures
        r@ == filename_spec(filename@, hash@),
{
    let f = chars_of(filename);
    let mut r = String::from_str(filename);
    if f.len() > 0 && f[0] == '.' {
        r.append("?cache_hash=");
        r.append(hash);
    }
    r
}

/// An import statement of `t` from the file, with the cache hash where the
/// file is relative.
pub fn import(t: &str, filename: &str, hash: &str) -> (r: String)
    ensures
        r@ == "import "@ + t@ + " from \""@ + filename_spec(filename@, hash@) + "\";"@,
{
    let mut r = String::from_str("import ");
    r.append(t);
    r.append(" from \"");
    r.append(import_filename(filename, hash).as_str());
    r.append("\";");
    r
}

/// Replaces the cache hash with a hash of the current one, written in
/// decimal.
pub fn new_import_hash(hash: &mut String)
    ensures
        exists|h: u64| final(hash)@ == decimal(h as nat),
{
    let h = hash_text(IMPORT_HASH_SEED, hash.as_str());
    let next = decimal_string(h);
    *hash = next;
}

} // verus!
