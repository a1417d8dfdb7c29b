//! Snapshot-based rollback, stated over a model of the protected directory.
//!
//! The model tracks the top-level regular files of the protected root: their
//! names and contents. A snapshot is an immutable, named copy of that state,
//! kept under a reserved subdirectory that is itself never part of a
//! snapshot. Restoring replaces the top-level files with the snapshot's
//! content; by design it does not touch subdirectories (a documented
//! limitation of the shallow purge). The unverified shell mirrors every
//! transition proved here onto the real file system.

use vstd::prelude::*;
use crate::text::str_eq;

verus! {

/// Model of a directory's top-level regular files: name and content pairs.
pub type DirView = Seq<(Seq<char>, Seq<u8>)>;

/// Model of the snapshot store: named baselines in creation order.
pub type StoreView = Seq<(Seq<char>, DirView)>;

/// One top-level regular file of the protected root.
pub struct FileRec {
    pub name: String,
    pub data: Vec<u8>,
}

impl View for FileRec {
    type V = (Seq<char>, Seq<u8>);

    open spec fn view(&self) -> (Seq<char>, Seq<u8>) {
        (self.name@, self.data@)
    }
}

/// The top-level regular files of the protected root.
pub struct DirState {
    pub files: Vec<FileRec>,
}

pub open spec fn dir_view(files: Seq<FileRec>) -> DirView {
    files.map(|i: int, f: FileRec| f@)
}

impl View for DirState {
    type V = DirView;

    open spec fn view(&self) -> DirView {
        dir_view(self.files@)
    }
}

/// A directory model is well formed when its file names are unique.
pub open spec fn wf_dir(d: DirView) -> bool {
    forall|i: int, j: int| 0 <= i < j < d.len() ==> d[i].0 != d[j].0
}

/// The directory holds a file called `name`.
pub open spec fn has_rec(d: DirView, name: Seq<char>) -> bool {
    exists|i: int| 0 <= i < d.len() && d[i].0 == name
}

/// The content of the file called `name` (meaningful under `wf_dir` and
/// `has_rec`).
pub open spec fn rec_data(d: DirView, name: Seq<char>) -> Seq<u8> {
    d[choose|i: int| 0 <= i < d.len() && d[i].0 == name].1
}

/// Writing `data` to `name`: overwrites the existing entry or appends a
/// new one.
pub open spec fn upsert_rec(d: DirView, name: Seq<char>, data: Seq<u8>) -> DirView {
    if has_rec(d, name) {
        d.map(
            |i: int, e: (Seq<char>, Seq<u8>)| if e.0 == name {
                (name, data)
            } else {
                e
            },
        )
    } else {
        d.push((name, data))
    }
}

/// What an upsert does: the named file afterwards holds `data`, every other
/// file is untouched, and well-formedness is preserved.
pub proof fn lemma_upsert_rec(d: DirView, name: Seq<char>, data: Seq<u8>)
    requires
        wf_dir(d),
    ensures
        wf_dir(upsert_rec(d, name, data)),
        has_rec(upsert_rec(d, name, data), name),
        rec_data(upsert_rec(d, name, data), name) == data,
        forall|m: Seq<char>|
            m != name ==> has_rec(upsert_rec(d, name, data), m) == has_rec(d, m),
        forall|m: Seq<char>|
            m != name && has_rec(d, m) ==> rec_data(upsert_rec(d, name, data), m) == rec_data(
                d,
                m,
            ),
{
    let d2 = upsert_rec(d, name, data);
    if has_rec(d, name) {
        let w = choose|i: int| 0 <= i < d.len() && d[i].0 == name;
        assert(d2[w] == (name, data));
        assert(forall|i: int| 0 <= i < d.len() && d[i].0 != name ==> d2[i] == d[i]);
        assert(forall|i: int| 0 <= i < d.len() && d[i].0 == name ==> d2[i] == (name, data));
        assert forall|m: Seq<char>| m != name implies has_rec(d2, m) == has_rec(d, m) by {
            if has_rec(d, m) {
                let u = choose|i: int| 0 <= i < d.len() && d[i].0 == m;
                assert(d2[u] == d[u]);
                assert(has_rec(d2, m));
            }
            if has_rec(d2, m) {
                let v = choose|i: int| 0 <= i < d2.len() && d2[i].0 == m;
                assert(d[v].0 == m);
                assert(has_rec(d, m));
            }
        }
        assert(rec_data(d2, name) == data) by {
            let v = choose|i: int| 0 <= i < d2.len() && d2[i].0 == name;
            assert(d2[v].0 == name);
        }
        assert forall|m: Seq<char>| m != name && has_rec(d, m) implies rec_data(d2, m) == rec_data(
            d,
            m,
        ) by {
            let v = choose|i: int| 0 <= i < d2.len() && d2[i].0 == m;
            let u = choose|i: int| 0 <= i < d.len() && d[i].0 == m;
            assert(d2[u] == d[u]);
            assert(d[v].0 == m);
        }
    } else {
        assert(d2[d.len() as int] == (name, data));
        assert forall|m: Seq<char>| m != name implies has_rec(d2, m) == has_rec(d, m) by {
            if has_rec(d, m) {
                let u = choose|i: int| 0 <= i < d.len() && d[i].0 == m;
                assert(d2[u] == d[u]);
                assert(has_rec(d2, m));
            }
            if has_rec(d2, m) {
                let v = choose|i: int| 0 <= i < d2.len() && d2[i].0 == m;
                assert(v != d.len() as int);
                assert(d[v].0 == m);
                assert(has_rec(d, m));
            }
        }
        assert(rec_data(d2, name) == data) by {
            let v = choose|i: int| 0 <= i < d2.len() && d2[i].0 == name;
            assert(v == d.len());
        }
        assert forall|m: Seq<char>| m != name && has_rec(d, m) implies rec_data(d2, m) == rec_data(
            d,
            m,
        ) by {
            let u = choose|i: int| 0 <= i < d.len() && d[i].0 == m;
            assert(d2[u] == d[u]);
            assert(has_rec(d2, m));
            let v = choose|i: int| 0 <= i < d2.len() && d2[i].0 == m;
            assert(v != d.len() as int);
            assert(d2[v] == d[v]);
            assert(v == u) by {
                if v < u {
                    assert(d[v].0 != d[u].0);
                } else if u < v {
                    assert(d[u].0 != d[v].0);
                }
            }
        }
    }
}

impl DirState {
    /// An empty directory model.
    pub fn new() -> (d: DirState)
        ensures
            d@ =~= Seq::<(Seq<char>, Seq<u8>)>::empty(),
            wf_dir(d@),
    {
        DirState { files: Vec::new() }
    }

    /// Index of the file called `name`, when present.
    fn find(&self, name: &str) -> (r: Option<usize>)
        ensures
            match r {
                Some(i) => i < self.files@.len() && self@[i as int].0 == name@,
                None => !has_rec(self@, name@),
            },
    {
        let mut i: usize = 0;
        while i < self.files.len()
            invariant
                i <= self.files@.len(),
                forall|j: int| 0 <= j < i ==> self@[j].0 != name@,
            decreases self.files@.len() - i,
        {
            if str_eq(self.files[i].name.as_str(), name) {
                return Some(i);
            }
            i = i + 1;
        }
        None
    }

    /// Whether the directory holds a file called `name`.
    pub fn has_file(&self, name: &str) -> (r: bool)
        ensures
            r == has_rec(self@, name@),
    {
        self.find(name).is_some()
    }

    /// The content of the file called `name`, when present.
    pub fn file_data(&self, name: &str) -> (r: Option<&Vec<u8>>)
        requires
            wf_dir(self@),
        ensures
            r is Some <==> has_rec(self@, name@),
            match r {
                Some(v) => v@ == rec_data(self@, name@),
                None => true,
            },
    {
        match self.find(name) {
            Some(i) => {
                proof {
                    let v = choose|k: int| 0 <= k < self@.len() && self@[k].0 == name@;
                    assert(v == i as int);
                }
                Some(&self.files[i].data)
            },
            None => None,
        }
    }

    /// Writes `data` to the file called `name`, overwriting or creating it.
    pub fn upsert(&mut self, name: &str, data: &[u8])
        requires
            wf_dir(old(self)@),
        ensures
            wf_dir(final(self)@),
            final(self)@ == upsert_rec(old(self)@, name@, data@),
    {
        proof {
            lemma_upsert_rec(self@, name@, data@);
        }
        let rec = FileRec { name: name.to_owned(), data: vstd::slice::slice_to_vec(data) };
        match self.find(name) {
            Some(i) => {
                proof {
                    assert(forall|j: int|
                        0 <= j < self@.len() && j != i ==> self@[j].0 != name@);
                }
                self.files.remove(i);
                self.files.insert(i, rec);
                assert(final(self)@ =~= upsert_rec(old(self)@, name@, data@));
            },
            None => {
                self.files.push(rec);
                assert(final(self)@ =~= upsert_rec(old(self)@, name@, data@));
            },
        }
    }
}

/// Deep copy of a file list, proved to keep the model view.
fn clone_recs(files: &Vec<FileRec>) -> (r: Vec<FileRec>)
    ensures
        dir_view(r@) == dir_view(files@),
{
    let mut out: Vec<FileRec> = Vec::new();
    let mut i: usize = 0;
    while i < files.len()
        invariant
            i <= files@.len(),
            out@.len() == i,
            forall|j: int| 0 <= j < i ==> out@[j]@ == files@[j]@,
        decreases files@.len() - i,
    {
        out.push(
            FileRec {
                name: files[i].name.clone(),
                data: vstd::slice::slice_to_vec(files[i].data.as_slice()),
            },
        );
        i = i + 1;
    }
    proof {
        assert(dir_view(out@) =~= dir_view(files@));
    }
    out
}

/// One named, immutable baseline copy of the protected root.
pub struct Snapshot {
    pub name: String,
    pub files: Vec<FileRec>,
}

impl View for Snapshot {
    type V = (Seq<char>, DirView);

    open spec fn view(&self) -> (Seq<char>, DirView) {
        (self.name@, dir_view(self.files@))
    }
}

/// The reserved subdirectory of the protected root that holds baselines.
pub struct SnapshotStore {
    pub snapshots: Vec<Snapshot>,
}

pub open spec fn store_view(snaps: Seq<Snapshot>) -> StoreView {
    snaps.map(|i: int, s: Snapshot| s@)
}

impl View for SnapshotStore {
    type V = StoreView;

    open spec fn view(&self) -> StoreView {
        store_view(self.snapshots@)
    }
}

/// Snapshot names are unique and every stored baseline is well formed.
pub open spec fn wf_store(s: StoreView) -> bool {
    &&& forall|i: int, j: int| 0 <= i < j < s.len() ==> s[i].0 != s[j].0
    &&& forall|i: int| 0 <= i < s.len() ==> wf_dir(#[trigger] s[i].1)
}

/// The store holds a baseline called `name`.
pub open spec fn has_snap(s: StoreView, name: Seq<char>) -> bool {
    exists|i: int| 0 <= i < s.len() && s[i].0 == name
}

/// The content of the baseline called `name` (meaningful under `wf_store`
/// and `has_snap`).
pub open spec fn snap_dir(s: StoreView, name: Seq<char>) -> DirView {
    s[choose|i: int| 0 <= i < s.len() && s[i].0 == name].1
}

/// Creating a baseline: a no-op when the name is already taken, otherwise a
/// copy of the directory's current state is appended.
pub open spec fn create_snap(s: StoreView, d: DirView, name: Seq<char>) -> StoreView {
    if has_snap(s, name) {
        s
    } else {
        s.push((name, d))
    }
}

/// Creation is idempotent: once a baseline of that name exists, creating it
/// again - from whatever the directory holds by then - changes nothing, so
/// the copy is never duplicated and the stored baseline is never overwritten.
pub proof fn lemma_create_idempotent(s: StoreView, d1: DirView, d2: DirView, name: Seq<char>)
    ensures
        create_snap(create_snap(s, d1, name), d2, name) == create_snap(s, d1, name),
{
    if !has_snap(s, name) {
        assert(create_snap(s, d1, name)[s.len() as int].0 == name);
        assert(has_snap(create_snap(s, d1, name), name));
    }
}

impl SnapshotStore {
    /// An empty snapshot store.
    pub fn new() -> (s: SnapshotStore)
        ensures
            s@ =~= Seq::<(Seq<char>, DirView)>::empty(),
            wf_store(s@),
    {
        SnapshotStore { snapshots: Vec::new() }
    }

    /// Index of the baseline called `name`, when present.
    fn find(&self, name: &str) -> (r: Option<usize>)
        ensures
            match r {
                Some(i) => i < self.snapshots@.len() && self@[i as int].0 == name@,
                None => !has_snap(self@, name@),
            },
    {
        let mut i: usize = 0;
        while i < self.snapshots.len()
            invariant
                i <= self.snapshots@.len(),
                forall|j: int| 0 <= j < i ==> self@[j].0 != name@,
            decreases self.snapshots@.len() - i,
        {
            if str_eq(self.snapshots[i].name.as_str(), name) {
                return Some(i);
            }
            i = i + 1;
        }
        None
    }

    /// Whether a baseline called `name` exists.
    pub fn has_snapshot(&self, name: &str) -> (r: bool)
        ensures
            r == has_snap(self@, name@),
    {
        self.find(name).is_some()
    }

    /// Takes the baseline `name` from the directory's current state; a
    /// no-op when a baseline of that name already exists.
    pub fn create(&mut self, dir: &DirState, name: &str)
        requires
            wf_store(old(self)@),
            wf_dir(dir@),
        ensures
            wf_store(final(self)@),
            final(self)@ == create_snap(old(self)@, dir@, name@),
            has_snap(final(self)@, name@),
            has_snap(old(self)@, name@) ==> *final(self) == *old(self),
    {
        match self.find(name) {
            Some(_) => (),
            None => {
                self.snapshots.push(
                    Snapshot { name: name.to_owned(), files: clone_recs(&dir.files) },
                );
                assert(final(self)@ =~= create_snap(old(self)@, dir@, name@));
                assert(final(self)@[old(self)@.len() as int].0 == name@);
            },
        }
    }

    /// Rolls the directory back to the baseline `name`. Returns false - and
    /// leaves the directory untouched - when no such baseline exists; that
    /// is the one error restore surfaces to its caller.
    pub fn restore(&self, dir: &mut DirState, name: &str) -> (r: bool)
        requires
            wf_store(self@),
        ensures
            r == has_snap(self@, name@),
            r ==> final(dir)@ == snap_dir(self@, name@) && wf_dir(final(dir)@),
            !r ==> *final(dir) == *old(dir),
    {
        match self.find(name) {
            Some(i) => {
                proof {
                    let v = choose|k: int| 0 <= k < self@.len() && self@[k].0 == name@;
                    assert(v == i as int);
                }
                dir.files = clone_recs(&self.snapshots[i].files);
                true
            },
            None => false,
        }
    }
}

} // verus!
