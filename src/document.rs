//! Decisions of the document layer that need no file system: which document
//! to open, and which version number to save under next.
use vstd::prelude::*;

verus! {

/// Command-line request: the folder that holds the mesh files, and
/// optionally a saved version to open.
pub struct Cli {
    pub mesh_folder: String,
    pub version: Option<i32>,
}

/// What opening the requested document takes.
#[derive(Clone, Copy, Debug, PartialEq, Eq, Structural)]
pub enum LoadPlan {
    /// A version was asked for but the folder does not exist.
    DirectoryNotFound,
    /// Open the saved version with this number.
    FromVersion(i32),
    /// Open the folder's working copy, creating the folder first when asked.
    FromFolder { create_folder: bool },
}

impl Cli {
    pub fn new(mesh_folder: String, version: Option<i32>) -> (r: Cli)
        ensures
            r.mesh_folder@ == mesh_folder@,
            r.version == version,
    {
        Cli { mesh_folder, version }
    }

    /// What loading the document takes, given whether the folder exists: a
    /// missing folder is an error when a version was asked for, and is
    /// otherwise created and opened empty.
    pub fn load_plan(&self, folder_exists: bool) -> (r: LoadPlan)
        ensures
            r == (match self.version {
                Some(v) => if folder_exists {
                    LoadPlan::FromVersion(v)
                } else {
                    LoadPlan::DirectoryNotFound
                },
                None => LoadPlan::FromFolder { create_folder: !folder_exists },
            }),
    {
        match self.version {
            Some(v) => {
                if folder_exists {
                    LoadPlan::FromVersion(v)
                } else {
                    LoadPlan::DirectoryNotFound
                }
            },
            None => LoadPlan::FromFolder { create_folder: !folder_exists },
        }
    }
}

/// How many slots of `seen` are set.
spec fn count_set(seen: Seq<bool>) -> nat
    decreases seen.len(),
{
    if seen.len() == 0 {
        0
    } else {
        count_set(seen.drop_last()) + if seen.last() {
            1nat
        } else {
            0nat
        }
    }
}

proof fn lemma_count_set_update(seen: Seq<bool>, i: int)
    requires
        0 <= i < seen.len(),
    ensures
        count_set(seen.update(i, true)) <= count_set(seen) + 1,
    decreases seen.len(),
{
    let u = seen.update(i, true);
    if i < seen.len() - 1 {
        assert(u.drop_last() =~= seen.drop_last().update(i, true));
        lemma_count_set_update(seen.drop_last(), i);
    } else {
        assert(u.drop_last() =~= seen.drop_last());
    }
}

proof fn lemma_count_set_full(seen: Seq<bool>, from: int)
    requires
        0 <= from <= seen.len(),
        forall|k: int| from <= k < seen.len() ==> #[trigger] seen[k],
    ensures
        count_set(seen) >= seen.len() - from,
    decreases seen.len(),
{
    if seen.len() > from {
        lemma_count_set_full(seen.drop_last(), from);
    }
}

/// The lowest version number, from 1 up, that is not among `existing`.
pub fn next_version_number(existing: &[i32]) -> (r: i32)
    requires
        existing@.len() < i32::MAX,
    ensures
        r >= 1,
        !existing@.contains(r),
        forall|k: i32| 1 <= k < r ==> existing@.contains(k),
{
    let len = existing.len();
    // slot k stands for version number k, for k from 1 to len + 1
    let mut seen: Vec<bool> = Vec::new();
    let mut k: usize = 0;
    while k < len + 2
        invariant
            len == existing@.len(),
            len < i32::MAX,
            k <= len + 2,
            seen@.len() == k,
            forall|j: int| 0 <= j < k ==> !#[trigger] seen@[j],
            count_set(seen@) == 0,
        decreases len + 2 - k,
    {
        proof {
            assert(seen@.push(false).drop_last() =~= seen@);
        }
        seen.push(false);
        k += 1;
    }
    let mut i: usize = 0;
    while i < len
        invariant
            len == existing@.len(),
            len < i32::MAX,
            seen@.len() == len + 2,
            i <= len,
            count_set(seen@) <= i,
            !seen@[0],
            forall|j: int| 1 <= j < len + 2 ==> (#[trigger] seen@[j] <==> existing@.take(i as int).contains(j as i32)),
        decreases len - i,
    {
        let e = existing[i];
        proof {
            assert(existing@.take(i + 1) =~= existing@.take(i as int).push(e));
        }
        let ghost old_seen = seen@;
        if 1 <= e && (e as usize) < len + 2 {
            proof {
                lemma_count_set_update(seen@, e as int);
            }
            seen.set(e as usize, true);
        }
        proof {
            let before = existing@.take(i as int);
            let after = existing@.take(i + 1);
            assert forall|j: int| 1 <= j < len + 2 implies (#[trigger] seen@[j] <==> after.contains(
                j as i32,
            )) by {
                if after.contains(j as i32) {
                    let w = choose|w: int| 0 <= w < after.len() && after[w] == j as i32;
                    if w < i {
                        assert(before[w] == j as i32);
                    }
                }
                if j == e as int {
                    assert(after[i as int] == e);
                } else if seen@[j] {
                    assert(old_seen[j]);
                    assert(before.contains(j as i32));
                    let w = choose|w: int| 0 <= w < before.len() && before[w] == j as i32;
                    assert(after[w] == j as i32);
                }
            }
        }
        i += 1;
    }
    proof {
        assert(existing@.take(len as int) =~= existing@);
    }
    let mut c: usize = 1;
    while c < len + 1 && seen[c]
        invariant
            len == existing@.len(),
            len < i32::MAX,
            seen@.len() == len + 2,
            1 <= c <= len + 1,
            count_set(seen@) <= len,
            forall|j: int| 1 <= j < len + 2 ==> (#[trigger] seen@[j] <==> existing@.contains(j as i32)),
            forall|j: int| 1 <= j < c ==> #[trigger] seen@[j],
        decreases len + 1 - c,
    {
        c += 1;
    }
    if c == len + 1 && seen[c] {
        proof {
            lemma_count_set_full(seen@, 1);
        }
    }
    proof {
        assert forall|k: i32| 1 <= k < c implies existing@.contains(k) by {
            assert(seen@[k as int]);
        }
        assert(!seen@[c as int]);
        if existing@.contains(c as i32) {
            assert(seen@[c as int]);
        }
    }
    c as i32
}

} // verus!
