use crate::fingerprint::{is_hex_digit, is_hex_token};
use vstd::prelude::*;
use vstd::string::StringExecFns;

verus! {

/// Where the committed entry of fingerprint `fp` lives under `root`.
pub open spec fn entry_path_of(root: Seq<char>, fp: Seq<char>) -> Seq<char> {
    root + seq!['/'] + fp
}

/// Where an unfinished fetch for fingerprint `fp` writes its records.
pub open spec fn partial_path_of(root: Seq<char>, fp: Seq<char>) -> Seq<char> {
    entry_path_of(root, fp) + ".partial"@
}

/// The cache directory: each entry is a file named by the fingerprint of the
/// query it answers.
pub struct CacheStore {
    root: String,
}

impl View for CacheStore {
    type V = Seq<char>;

    closed spec fn view(&self) -> Seq<char> {
        self.root@
    }
}

/// What an invocation does once it knows whether an entry is present.
pub enum Lookup {
    ServeCached,
    Fetch,
}

impl CacheStore {
    pub fn new(root: String) -> (r: CacheStore)
        ensures
            r@ == root@,
    {
        CacheStore { root }
    }

    pub fn root(&self) -> (r: &String)
        ensures
            r@ == self@,
    {
        &self.root
    }

    pub fn entry_path(&self, fp: &str) -> (r: String)
        ensures
            r@ == entry_path_of(self@, fp@),
    {
        let mut p = self.root.clone();
        p.append("/");
        p.append(fp);
        proof {
            reveal_strlit("/");
        }
        assert(p@ =~= entry_path_of(self@, fp@));
        p
    }

    pub fn partial_path(&self, fp: &str) -> (r: String)
        ensures
            r@ == partial_path_of(self@, fp@),
    {
        let mut p = self.entry_path(fp);
        p.append(".partial");
        p
    }
}

/// A committed entry is served unless the caller forces a fetch.
pub fn plan_lookup(force: bool, entry_exists: bool) -> (r: Lookup)
    ensures
        r is ServeCached <==> (!force && entry_exists),
{
    if !force && entry_exists {
        Lookup::ServeCached
    } else {
        Lookup::Fetch
    }
}

/// A partial entry never sits where the committed entry of any fingerprint
/// is looked up, so an interrupted or failed fetch is never served.
pub proof fn lemma_partial_never_found(root: Seq<char>, fp1: Seq<char>, fp2: Seq<char>)
    requires
        is_hex_token(fp1),
        is_hex_token(fp2),
    ensures
        partial_path_of(root, fp1) != entry_path_of(root, fp2),
{
    if partial_path_of(root, fp1) == entry_path_of(root, fp2) {
        reveal_strlit(".partial");
        let k: int = root.len() as int + 1 + fp1.len() as int;
        assert(".partial"@.len() == 8);
        assert(".partial"@[0] == '.');
        assert(partial_path_of(root, fp1).len() == root.len() + 1 + fp1.len() + 8);
        assert(partial_path_of(root, fp1)[k] == '.');
        assert(fp2.len() == fp1.len() + 8);
        assert(entry_path_of(root, fp2)[k] == fp2[fp1.len() as int]);
        assert(is_hex_digit(fp2[fp1.len() as int]));
    }
}

/// Distinct fingerprints are kept in distinct entries.
pub proof fn lemma_entries_distinct(root: Seq<char>, fp1: Seq<char>, fp2: Seq<char>)
    requires
        fp1 != fp2,
    ensures
        entry_path_of(root, fp1) != entry_path_of(root, fp2),
{
    if entry_path_of(root, fp1) == entry_path_of(root, fp2) {
        let p = entry_path_of(root, fp1);
        assert(fp1 =~= p.subrange(root.len() as int + 1, p.len() as int));
        assert(fp2 =~= p.subrange(root.len() as int + 1, p.len() as int));
    }
}

} // verus!
