//! The output gatherer's dedup core: resolved output files, already content
//! hashed, are grouped by identical hash — several paths whose bytes are equal
//! become one association backed by one stored blob.

use vstd::prelude::*;

use crate::bytes::{bytes_eq, clone_bytes, views};
use crate::hex::hex_of;
use crate::hex::hex_encode;
use crate::record::{paths_view, OutputFile};

verus! {

/// One resolved output file: its path, the hash of its content, and its size
/// in bytes.
pub struct HashedOutput {
    pub path: Vec<u8>,
    pub hash: Vec<u8>,
    pub size: u64,
}

/// One association candidate: every path whose content hashed to `hash`, and
/// the size recorded with the first of them.
pub struct OutputGroup {
    pub paths: Vec<Vec<u8>>,
    pub hash: Vec<u8>,
    pub size: u64,
}

/// The mathematical value of one hashed output: (path, hash, size).
pub open spec fn ho_view(f: HashedOutput) -> (Seq<u8>, Seq<u8>, u64) {
    (f.path@, f.hash@, f.size)
}

/// The mathematical value of a hashed-output list.
pub open spec fn ho_views(files: Seq<HashedOutput>) -> Seq<(Seq<u8>, Seq<u8>, u64)> {
    files.map_values(|f: HashedOutput| ho_view(f))
}

/// The hashes of a hashed-output list, in order.
pub open spec fn spec_hashes(files: Seq<(Seq<u8>, Seq<u8>, u64)>) -> Seq<Seq<u8>> {
    files.map_values(|f: (Seq<u8>, Seq<u8>, u64)| f.1)
}

/// First-occurrence deduplication of a list.
pub open spec fn spec_dedup(s: Seq<Seq<u8>>) -> Seq<Seq<u8>>
    decreases s.len(),
{
    if s.len() == 0 {
        Seq::empty()
    } else {
        let rest = spec_dedup(s.drop_last());
        if rest.contains(s.last()) {
            rest
        } else {
            rest.push(s.last())
        }
    }
}

/// Deduplication keeps exactly the elements of the list.
pub proof fn lemma_dedup_contains(s: Seq<Seq<u8>>, x: Seq<u8>)
    ensures
        spec_dedup(s).contains(x) <==> s.contains(x),
    decreases s.len(),
{
    if s.len() > 0 {
        lemma_dedup_contains(s.drop_last(), x);
        let rest = spec_dedup(s.drop_last());
        if s.contains(x) {
            if x == s.last() {
                if !rest.contains(x) {
                    assert(rest.push(x)[rest.len() as int] == x);
                }
            } else {
                let i = choose|i: int| 0 <= i < s.len() && s[i] == x;
                assert(i < s.len() - 1);
                assert(s.drop_last()[i] == x);
                assert(s.drop_last().contains(x));
                if !rest.contains(s.last()) {
                    let j = choose|j: int| 0 <= j < rest.len() && rest[j] == x;
                    assert(rest.push(s.last())[j] == x);
                }
            }
        }
        if spec_dedup(s).contains(x) {
            if !rest.contains(s.last())  {
                let j = choose|j: int| 0 <= j < spec_dedup(s).len() && spec_dedup(s)[j] == x;
                if j < rest.len() {
                    assert(rest[j] == x);
                    assert(s.drop_last().contains(x));
                    assert(s.drop_last()[choose|i: int|
                        0 <= i < s.drop_last().len() && s.drop_last()[i] == x] == x);
                    let i = choose|i: int| 0 <= i < s.drop_last().len() && s.drop_last()[i] == x;
                    assert(s[i] == x);
                } else {
                    assert(x == s.last());
                    assert(s[s.len() - 1] == x);
                }
            } else {
                assert(rest.contains(x));
                let i = choose|i: int| 0 <= i < s.drop_last().len() && s.drop_last()[i] == x;
                assert(s[i] == x);
            }
        }
    }
}

/// Deduplication leaves no element twice.
pub proof fn lemma_dedup_distinct(s: Seq<Seq<u8>>)
    ensures
        forall|i: int, j: int|
            0 <= i < j < spec_dedup(s).len() ==> #[trigger] spec_dedup(s)[i] != #[trigger] spec_dedup(s)[j],
    decreases s.len(),
{
    if s.len() > 0 {
        lemma_dedup_distinct(s.drop_last());
        let rest = spec_dedup(s.drop_last());
        if !rest.contains(s.last()) {
            assert forall|i: int, j: int|
                0 <= i < j < spec_dedup(s).len() implies #[trigger] spec_dedup(s)[i]
                != #[trigger] spec_dedup(s)[j] by {
                if j < rest.len() {
                } else {
                    assert(spec_dedup(s)[j] == s.last());
                    assert(spec_dedup(s)[i] == rest[i]);
                    assert(!rest.contains(s.last()));
                    if rest[i] == s.last() {
                        assert(rest.contains(s.last()));
                    }
                }
            }
        }
    }
}

/// The paths of every file whose hash is `h`, in list order.
pub open spec fn spec_paths_with_hash(
    files: Seq<(Seq<u8>, Seq<u8>, u64)>,
    h: Seq<u8>,
) -> Seq<Seq<u8>>
    decreases files.len(),
{
    if files.len() == 0 {
        Seq::empty()
    } else {
        let rest = spec_paths_with_hash(files.drop_last(), h);
        if files.last().1 == h {
            rest.push(files.last().0)
        } else {
            rest
        }
    }
}

/// A path stands among the paths for `h` exactly when some file has that path
/// and that hash.
pub proof fn lemma_paths_with_hash_contains(
    files: Seq<(Seq<u8>, Seq<u8>, u64)>,
    h: Seq<u8>,
    p: Seq<u8>,
)
    ensures
        spec_paths_with_hash(files, h).contains(p) <==> exists|i: int|
            0 <= i < files.len() && files[i].0 == p && files[i].1 == h,
    decreases files.len(),
{
    if files.len() > 0 {
        lemma_paths_with_hash_contains(files.drop_last(), h, p);
        let rest = spec_paths_with_hash(files.drop_last(), h);
        if exists|i: int| 0 <= i < files.len() && files[i].0 == p && files[i].1 == h {
            let i = choose|i: int| 0 <= i < files.len() && files[i].0 == p && files[i].1 == h;
            if i < files.len() - 1 {
                assert(files.drop_last()[i].0 == p && files.drop_last()[i].1 == h);
                assert(rest.contains(p));
                if files.last().1 == h {
                    let j = choose|j: int| 0 <= j < rest.len() && rest[j] == p;
                    assert(rest.push(files.last().0)[j] == p);
                }
            } else {
                assert(files.last().0 == p && files.last().1 == h);
                assert(rest.push(p)[rest.len() as int] == p);
            }
        }
        if spec_paths_with_hash(files, h).contains(p) {
            let full = spec_paths_with_hash(files, h);
            let j = choose|j: int| 0 <= j < full.len() && full[j] == p;
            if files.last().1 == h {
                if j < rest.len() {
                    assert(rest[j] == p);
                    let i = choose|i: int|
                        0 <= i < files.drop_last().len() && files.drop_last()[i].0 == p
                            && files.drop_last()[i].1 == h;
                    assert(files[i].0 == p && files[i].1 == h);
                } else {
                    assert(p == files.last().0);
                    assert(files[files.len() - 1].0 == p && files[files.len() - 1].1 == h);
                }
            } else {
                assert(rest[j] == p);
                let i = choose|i: int|
                    0 <= i < files.drop_last().len() && files.drop_last()[i].0 == p
                        && files.drop_last()[i].1 == h;
                assert(files[i].0 == p && files[i].1 == h);
            }
        }
    }
}

/// The hashes of a group list, in order.
pub open spec fn group_hashes(groups: Seq<OutputGroup>) -> Seq<Seq<u8>> {
    groups.map_values(|g: OutputGroup| g.hash@)
}

/// What grouping must produce: one group per distinct hash, in first
/// occurrence order, each carrying exactly the paths of the files that hashed
/// to it, in file order.
pub open spec fn spec_grouped(files: Seq<(Seq<u8>, Seq<u8>, u64)>, groups: Seq<OutputGroup>) -> bool {
    &&& group_hashes(groups) == spec_dedup(spec_hashes(files))
    &&& forall|j: int|
        0 <= j < groups.len() ==> paths_view(#[trigger] groups[j].paths@) == spec_paths_with_hash(
            files,
            groups[j].hash@,
        )
    &&& forall|j: int|
        0 <= j < groups.len() ==> exists|i: int|
            0 <= i < files.len() && files[i].1 == (#[trigger] groups[j].hash@) && files[i].2
                == groups[j].size
}

fn group_exists(groups: &Vec<OutputGroup>, hash: &Vec<u8>) -> (r: bool)
    ensures
        r == group_hashes(groups@).contains(hash@),
{
    let mut j: usize = 0;
    while j < groups.len()
        invariant
            j <= groups@.len(),
            forall|k: int| 0 <= k < j ==> (#[trigger] groups@[k].hash@) != hash@,
        decreases groups@.len() - j,
    {
        if bytes_eq(&groups[j].hash, hash) {
            proof {
                assert(group_hashes(groups@)[j as int] == hash@);
            }
            return true;
        }
        j = j + 1;
    }
    proof {
        if group_hashes(groups@).contains(hash@) {
            let k = choose|k: int|
                0 <= k < group_hashes(groups@).len() && group_hashes(groups@)[k] == hash@;
            assert(groups@[k].hash@ == hash@);
        }
    }
    false
}

/// Group hashed output files by identical content hash: paths whose bytes are
/// equal end up in one group, one group per distinct hash, so each distinct
/// content is stored once.
pub fn group_output_files(files: &Vec<HashedOutput>) -> (r: Vec<OutputGroup>)
    ensures
        spec_grouped(ho_views(files@), r@),
{
    let ghost fv = ho_views(files@);
    let mut groups: Vec<OutputGroup> = Vec::new();
    let mut i: usize = 0;
    proof {
        assert(group_hashes(groups@) =~= spec_dedup(spec_hashes(fv.take(0))));
    }
    while i < files.len()
        invariant
            i <= files@.len(),
            fv == ho_views(files@),
            group_hashes(groups@) == spec_dedup(spec_hashes(fv.take(i as int))),
            forall|j: int|
                0 <= j < groups@.len() ==> paths_view(#[trigger] groups@[j].paths@)
                    == spec_paths_with_hash(fv, groups@[j].hash@),
            forall|j: int|
                0 <= j < groups@.len() ==> exists|i2: int|
                    0 <= i2 < fv.len() && fv[i2].1 == (#[trigger] groups@[j].hash@) && fv[i2].2
                        == groups@[j].size,
        decreases files@.len() - i,
    {
        let h = clone_bytes(&files[i].hash);
        proof {
            assert(fv[i as int] == ho_view(files@[i as int]));
            assert(spec_hashes(fv.take(i + 1 as int)) =~= spec_hashes(fv.take(i as int)).push(
                h@,
            ));
            assert(spec_hashes(fv.take(i + 1 as int)).drop_last() =~= spec_hashes(
                fv.take(i as int),
            ));
        }
        if !group_exists(&groups, &h) {
            let mut paths: Vec<Vec<u8>> = Vec::new();
            let mut m: usize = 0;
            proof {
                assert(paths_view(paths@) =~= spec_paths_with_hash(fv.take(0), h@));
            }
            while m < files.len()
                invariant
                    m <= files@.len(),
                    fv == ho_views(files@),
                    h@ == fv[i as int].1 || (i < fv.len() && h@ == fv[i as int].1),
                    paths_view(paths@) == spec_paths_with_hash(fv.take(m as int), h@),
                decreases files@.len() - m,
            {
                proof {
                    assert(fv[m as int] == ho_view(files@[m as int]));
                    assert(fv.take(m + 1 as int).drop_last() =~= fv.take(m as int));
                    assert(fv.take(m + 1 as int).last() == fv[m as int]);
                }
                if bytes_eq(&files[m].hash, &h) {
                    let p = clone_bytes(&files[m].path);
                    paths.push(p);
                    proof {
                        assert(paths_view(paths@) =~= spec_paths_with_hash(
                            fv.take(m + 1 as int),
                            h@,
                        ));
                    }
                } else {
                    proof {
                        assert(paths_view(paths@) =~= spec_paths_with_hash(
                            fv.take(m + 1 as int),
                            h@,
                        ));
                    }
                }
                m = m + 1;
            }
            proof {
                assert(fv.take(fv.len() as int) =~= fv);
            }
            let size = files[i].size;
            let group = OutputGroup { paths, hash: h, size };
            groups.push(group);
            proof {
                assert(group_hashes(groups@) =~= spec_dedup(spec_hashes(fv.take(i as int))).push(
                    fv[i as int].1,
                ));
                assert(group_hashes(groups@) =~= spec_dedup(spec_hashes(fv.take(i + 1 as int))));
                assert(groups@.last().hash@ == fv[i as int].1 && groups@.last().size
                    == fv[i as int].2);
            }
        } else {
            proof {
                assert(group_hashes(groups@) =~= spec_dedup(spec_hashes(fv.take(i + 1 as int))));
            }
        }
        i = i + 1;
    }
    proof {
        assert(fv.take(fv.len() as int) =~= fv);
    }
    groups
}

impl OutputGroup {
    /// The association this group persists: the same paths, the hash as hex.
    pub fn to_output_file(&self) -> (r: OutputFile)
        ensures
            paths_view(r.paths@) == paths_view(self.paths@),
            r.hash@ == hex_of(self.hash@),
    {
        let mut paths: Vec<Vec<u8>> = Vec::new();
        let mut i: usize = 0;
        while i < self.paths.len()
            invariant
                i <= self.paths@.len(),
                paths@.len() == i,
                forall|k: int| 0 <= k < i ==> (#[trigger] paths@[k])@ == self.paths@[k]@,
            decreases self.paths@.len() - i,
        {
            let p = clone_bytes(&self.paths[i]);
            paths.push(p);
            i = i + 1;
        }
        proof {
            assert(paths_view(paths@) =~= paths_view(self.paths@));
        }
        let hash = hex_encode(&self.hash);
        OutputFile { paths, hash }
    }
}

/// Dedup of identical content: when two output files carry the same hash, the
/// grouping holds exactly one group with that hash, and that group's paths
/// include both files' paths.
pub proof fn lemma_dedup_pair(
    files: Seq<(Seq<u8>, Seq<u8>, u64)>,
    groups: Seq<OutputGroup>,
    a: int,
    b: int,
)
    requires
        spec_grouped(files, groups),
        0 <= a < files.len(),
        0 <= b < files.len(),
        files[a].1 == files[b].1,
    ensures
        exists|j: int|
            0 <= j < groups.len() && (#[trigger] groups[j].hash@) == files[a].1,
        forall|j1: int, j2: int|
            0 <= j1 < groups.len() && 0 <= j2 < groups.len() && (#[trigger] groups[j1].hash@) == files[a].1
                && (#[trigger] groups[j2].hash@) == files[a].1 ==> j1 == j2,
        forall|j: int|
            0 <= j < groups.len() && (#[trigger] groups[j].hash@) == files[a].1 ==> paths_view(
                groups[j].paths@,
            ).contains(files[a].0) && paths_view(groups[j].paths@).contains(files[b].0),
{
    let h = files[a].1;
    lemma_dedup_contains(spec_hashes(files), h);
    assert(spec_hashes(files)[a] == h);
    assert(spec_hashes(files).contains(h));
    assert(spec_dedup(spec_hashes(files)).contains(h));
    let j = choose|j: int|
        0 <= j < spec_dedup(spec_hashes(files)).len() && spec_dedup(spec_hashes(files))[j] == h;
    assert(group_hashes(groups)[j] == h);
    assert(groups[j].hash@ == h);
    lemma_dedup_distinct(spec_hashes(files));
    assert forall|j1: int, j2: int|
        0 <= j1 < groups.len() && 0 <= j2 < groups.len() && (#[trigger] groups[j1].hash@) == h && (
        #[trigger] groups[j2].hash@) == h implies j1 == j2 by {
        assert(group_hashes(groups)[j1] == h);
        assert(group_hashes(groups)[j2] == h);
        if j1 < j2 {
            assert(spec_dedup(spec_hashes(files))[j1] != spec_dedup(spec_hashes(files))[j2]);
        }
        if j2 < j1 {
            assert(spec_dedup(spec_hashes(files))[j2] != spec_dedup(spec_hashes(files))[j1]);
        }
    }
    assert forall|j0: int|
        0 <= j0 < groups.len() && (#[trigger] groups[j0].hash@) == h implies paths_view(
        groups[j0].paths@,
    ).contains(files[a].0) && paths_view(groups[j0].paths@).contains(files[b].0) by {
        lemma_paths_with_hash_contains(files, h, files[a].0);
        lemma_paths_with_hash_contains(files, h, files[b].0);
    }
}


/// Drop every later duplicate of a path already seen, keeping first
/// occurrences in order: glob resolution may match one file through several
/// patterns, and each file is processed once.
pub fn dedup_paths(paths: &Vec<Vec<u8>>) -> (r: Vec<Vec<u8>>)
    ensures
        views(r@) == spec_dedup(views(paths@)),
{
    let mut out: Vec<Vec<u8>> = Vec::new();
    let mut i: usize = 0;
    proof {
        assert(views(out@) =~= spec_dedup(views(paths@).take(0)));
    }
    while i < paths.len()
        invariant
            i <= paths@.len(),
            views(out@) == spec_dedup(views(paths@).take(i as int)),
        decreases paths@.len() - i,
    {
        proof {
            assert(views(paths@).take(i + 1 as int).drop_last() =~= views(paths@).take(i as int));
            assert(views(paths@).take(i + 1 as int).last() == paths@[i as int]@);
        }
        if !crate::config::list_contains(&out, &paths[i]) {
            let p = clone_bytes(&paths[i]);
            out.push(p);
            proof {
                assert(views(out@) =~= spec_dedup(views(paths@).take(i + 1 as int)));
            }
        } else {
            proof {
                assert(views(out@) =~= spec_dedup(views(paths@).take(i + 1 as int)));
            }
        }
        i = i + 1;
    }
    proof {
        assert(views(paths@).take(views(paths@).len() as int) =~= views(paths@));
    }
    out
}

} // verus!
