//! The decoy (honeypot) tripwire layer.
//!
//! A fixed set of file names is chosen to look attractive to an attacker.
//! Any create/modify/remove event on a path whose file-name component
//! contains one of these tokens as a substring is treated as proof of
//! compromise and escalates immediately, bypassing entropy analysis.

use vstd::prelude::*;
use vstd::string::StringSliceAdditionalSpecFns;
use crate::snapshot::{
    DirState, DirView, StoreView, has_rec, has_snap, lemma_upsert_rec, rec_data, snap_dir,
    upsert_rec, wf_dir, wf_store,
};

verus! {

/// `needle` occurs in `hay` starting at position `i`.
pub open spec fn contains_at(hay: Seq<char>, i: int, needle: Seq<char>) -> bool {
    &&& 0 <= i
    &&& i + needle.len() <= hay.len()
    &&& hay.subrange(i, i + needle.len() as int) == needle
}

/// `needle` occurs somewhere in `hay` as a contiguous substring.
pub open spec fn contains_sub(hay: Seq<char>, needle: Seq<char>) -> bool {
    exists|i: int| contains_at(hay, i, needle)
}

/// The file-name component of a path: everything after the last `/`
/// (the whole path when it holds no `/`, empty when it ends in `/`).
pub open spec fn file_name_of(path: Seq<char>) -> Seq<char>
    decreases path.len(),
{
    if path.len() == 0 {
        path
    } else if path.last() == '/' {
        Seq::<char>::empty()
    } else {
        file_name_of(path.drop_last()).push(path.last())
    }
}

/// The configured decoy file names: names that sort at both ends of a
/// directory listing and look worth stealing, so that a sweeping
/// encryption loop meets one early.
pub open spec fn honeypot_tokens() -> Seq<Seq<char>> {
    seq!["00_ADMIN_PASSWORD.txt"@, "AA_CONFIDENTIAL.doc"@, "ZZ_BACKUP.db"@]
}

/// A path is a honeypot when its file-name component contains one of the
/// configured decoy tokens as a substring (no case or extension
/// normalization).
pub open spec fn path_is_honeypot(path: Seq<char>) -> bool {
    exists|k: int|
        0 <= k < honeypot_tokens().len() && contains_sub(
            file_name_of(path),
            honeypot_tokens()[k],
        )
}

/// When `path` has no `/` at or after position `k`, and `k` sits right
/// after a `/` (or at the start), the file name is exactly the suffix
/// from `k`.
proof fn lemma_file_name_suffix(path: Seq<char>, k: int)
    requires
        0 <= k <= path.len(),
        forall|j: int| k <= j < path.len() ==> path[j] != '/',
        k == 0 || path[k - 1] == '/',
    ensures
        file_name_of(path) == path.subrange(k, path.len() as int),
    decreases path.len(),
{
    if k == path.len() {
        if path.len() == 0 {
            assert(file_name_of(path) =~= path.subrange(k, path.len() as int));
        } else {
            assert(path.last() == '/');
            assert(file_name_of(path) =~= path.subrange(k, path.len() as int));
        }
    } else {
        assert(path.last() != '/');
        lemma_file_name_suffix(path.drop_last(), k);
        assert(path.drop_last().subrange(k, path.drop_last().len() as int) =~= path.subrange(
            k,
            path.len() - 1,
        ));
        assert(file_name_of(path) =~= path.subrange(k, path.len() as int));
    }
}

/// The fixed placeholder content written into every decoy file.
pub open spec fn honeypot_seed() -> Seq<u8> {
    "HONEYPOT DATA DO NOT TOUCH".spec_bytes()
}

/// Deploying the decoys writes every configured token as a file with the
/// placeholder content, leaving all other files untouched.
pub open spec fn deploy_spec(d: DirView) -> DirView {
    upsert_rec(
        upsert_rec(
            upsert_rec(d, honeypot_tokens()[0], honeypot_seed()),
            honeypot_tokens()[1],
            honeypot_seed(),
        ),
        honeypot_tokens()[2],
        honeypot_seed(),
    )
}

/// The three decoy tokens are pairwise distinct names.
proof fn lemma_tokens_distinct()
    ensures
        honeypot_tokens()[0] != honeypot_tokens()[1],
        honeypot_tokens()[0] != honeypot_tokens()[2],
        honeypot_tokens()[1] != honeypot_tokens()[2],
{
    reveal_strlit("00_ADMIN_PASSWORD.txt");
    reveal_strlit("AA_CONFIDENTIAL.doc");
    reveal_strlit("ZZ_BACKUP.db");
    assert(honeypot_tokens()[0].len() == 21);
    assert(honeypot_tokens()[1].len() == 19);
    assert(honeypot_tokens()[2].len() == 12);
}

/// After a deployment, every configured decoy file exists with the
/// placeholder content, and no other file was created, removed or changed.
pub proof fn lemma_deploy_plants_all(d: DirView)
    requires
        wf_dir(d),
    ensures
        wf_dir(deploy_spec(d)),
        forall|k: int|
            0 <= k < honeypot_tokens().len() ==> has_rec(
                deploy_spec(d),
                #[trigger] honeypot_tokens()[k],
            ) && rec_data(deploy_spec(d), honeypot_tokens()[k]) == honeypot_seed(),
        forall|m: Seq<char>|
            !honeypot_tokens().contains(m) ==> has_rec(deploy_spec(d), m) == has_rec(d, m),
        forall|m: Seq<char>|
            !honeypot_tokens().contains(m) && has_rec(d, m) ==> rec_data(deploy_spec(d), m)
                == rec_data(d, m),
{
    lemma_tokens_distinct();
    let t0 = honeypot_tokens()[0];
    let t1 = honeypot_tokens()[1];
    let t2 = honeypot_tokens()[2];
    let d1 = upsert_rec(d, t0, honeypot_seed());
    let d2 = upsert_rec(d1, t1, honeypot_seed());
    lemma_upsert_rec(d, t0, honeypot_seed());
    lemma_upsert_rec(d1, t1, honeypot_seed());
    lemma_upsert_rec(d2, t2, honeypot_seed());
    assert(forall|m: Seq<char>|
        !honeypot_tokens().contains(m) ==> m != t0 && m != t1 && m != t2) by {
        assert(forall|m: Seq<char>|
            (m == t0 || m == t1 || m == t2) ==> #[trigger] honeypot_tokens().contains(m));
    }
}

/// The restore postcondition: rolling the directory back to any stored
/// baseline and then re-deploying the decoys leaves every configured
/// honeypot file present under the protected root, with its placeholder
/// content.
pub proof fn lemma_restore_then_redeploy(s: StoreView, name: Seq<char>)
    requires
        wf_store(s),
        has_snap(s, name),
    ensures
        forall|k: int|
            0 <= k < honeypot_tokens().len() ==> has_rec(
                deploy_spec(snap_dir(s, name)),
                #[trigger] honeypot_tokens()[k],
            ) && rec_data(deploy_spec(snap_dir(s, name)), honeypot_tokens()[k])
                == honeypot_seed(),
{
    let v = choose|i: int| 0 <= i < s.len() && s[i].0 == name;
    assert(wf_dir(s[v].1));
    lemma_deploy_plants_all(snap_dir(s, name));
}

/// Writes every configured decoy file into the directory model; safe to
/// call repeatedly (existing decoys are overwritten). The shell mirrors
/// this onto the protected root at startup and after every restore.
pub fn deploy_honeypots(dir: &mut DirState)
    requires
        wf_dir(old(dir)@),
    ensures
        wf_dir(final(dir)@),
        final(dir)@ == deploy_spec(old(dir)@),
{
    dir.upsert("00_ADMIN_PASSWORD.txt", "HONEYPOT DATA DO NOT TOUCH".as_bytes());
    dir.upsert("AA_CONFIDENTIAL.doc", "HONEYPOT DATA DO NOT TOUCH".as_bytes());
    dir.upsert("ZZ_BACKUP.db", "HONEYPOT DATA DO NOT TOUCH".as_bytes());
}

/// The configured decoy file names, for the shell to write under the
/// protected root.
pub fn honeypot_file_names() -> (r: Vec<String>)
    ensures
        r@.len() == honeypot_tokens().len(),
        forall|k: int| 0 <= k < r@.len() ==> r@[k]@ == #[trigger] honeypot_tokens()[k],
{
    let mut names: Vec<String> = Vec::new();
    names.push(String::from_str("00_ADMIN_PASSWORD.txt"));
    names.push(String::from_str("AA_CONFIDENTIAL.doc"));
    names.push(String::from_str("ZZ_BACKUP.db"));
    names
}

/// The placeholder content of every decoy file.
pub fn honeypot_seed_content() -> (r: &'static str)
    ensures
        r.spec_bytes() == honeypot_seed(),
{
    "HONEYPOT DATA DO NOT TOUCH"
}

/// Whether `needle` occurs in `hay` as a contiguous substring.
pub fn contains_substring(hay: &str, needle: &str) -> (r: bool)
    ensures
        r == contains_sub(hay@, needle@),
{
    let h = hay.unicode_len();
    let n = needle.unicode_len();
    if n > h {
        assert(forall|i: int| !contains_at(hay@, i, needle@));
        return false;
    }
    if n == 0 {
        assert(contains_at(hay@, 0, needle@)) by {
            assert(hay@.subrange(0, 0) =~= needle@);
        }
        return true;
    }
    let mut i: usize = 0;
    while i <= h - n
        invariant
            h == hay@.len(),
            n == needle@.len(),
            1 <= n <= h,
            i <= h - n + 1,
            forall|j: int| 0 <= j < i ==> !contains_at(hay@, j, needle@),
        decreases h - n - i + 1,
    {
        let mut k: usize = 0;
        let mut matched = true;
        while matched && k < n
            invariant
                h == hay@.len(),
                n == needle@.len(),
                i + n <= h,
                k <= n,
                matched ==> forall|t: int| 0 <= t < k ==> hay@[i + t] == needle@[t],
                !matched ==> !contains_at(hay@, i as int, needle@),
            decreases n - k + (if matched { 1int } else { 0int }),
        {
            if hay.get_char(i + k) != needle.get_char(k) {
                assert(hay@.subrange(i as int, i + n as int) != needle@) by {
                    assert(hay@.subrange(i as int, i + n as int)[k as int] == hay@[i + k]);
                }
                matched = false;
            } else {
                k = k + 1;
            }
        }
        if matched {
            assert(hay@.subrange(i as int, i + n as int) =~= needle@);
            assert(contains_at(hay@, i as int, needle@));
            return true;
        }
        i = i + 1;
    }
    assert(forall|j: int| i <= j ==> !contains_at(hay@, j, needle@));
    false
}

/// Extracts the file-name component of `path` (everything after the
/// last `/`).
pub fn file_name(path: &str) -> (r: &str)
    ensures
        r@ == file_name_of(path@),
{
    let len = path.unicode_len();
    let mut k = len;
    while k > 0 && path.get_char(k - 1) != '/'
        invariant
            len == path@.len(),
            k <= len,
            forall|j: int| k <= j < len ==> path@[j] != '/',
        decreases k,
    {
        k = k - 1;
    }
    proof {
        lemma_file_name_suffix(path@, k as int);
    }
    path.substring_char(k, len)
}

/// True iff the file-name component of `path` contains a configured decoy
/// token as a substring; false for every other name, including names that
/// are mere prefixes or suffixes of a token.
pub fn is_honeypot(path: &str) -> (r: bool)
    ensures
        r == path_is_honeypot(path@),
{
    let name = file_name(path);
    let hit = contains_substring(name, "00_ADMIN_PASSWORD.txt") || contains_substring(
        name,
        "AA_CONFIDENTIAL.doc",
    ) || contains_substring(name, "ZZ_BACKUP.db");
    proof {
        if hit {
            assert(path_is_honeypot(path@)) by {
                if contains_sub(name@, "00_ADMIN_PASSWORD.txt"@) {
                    assert(honeypot_tokens()[0] == "00_ADMIN_PASSWORD.txt"@);
                } else if contains_sub(name@, "AA_CONFIDENTIAL.doc"@) {
                    assert(honeypot_tokens()[1] == "AA_CONFIDENTIAL.doc"@);
                } else {
                    assert(honeypot_tokens()[2] == "ZZ_BACKUP.db"@);
                }
            }
        } else {
            assert(forall|k: int| 0 <= k < honeypot_tokens().len()
                ==> !contains_sub(file_name_of(path@), honeypot_tokens()[k])) by {
                assert(honeypot_tokens()[0] == "00_ADMIN_PASSWORD.txt"@);
                assert(honeypot_tokens()[1] == "AA_CONFIDENTIAL.doc"@);
                assert(honeypot_tokens()[2] == "ZZ_BACKUP.db"@);
            }
        }
    }
    hit
}

} // verus!
