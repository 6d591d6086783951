//! The fingerprint engine: the deterministic identity of one cacheable
//! invocation, computed over the command text, the filtered environment
//! snapshot, and the contents of the resolved input files.
//!
//! The bytes that are hashed are pinned down exactly by
//! `spec_fingerprint_stream`; the input files are first sorted by their
//! canonical absolute path, so that filesystem iteration order never affects
//! the result.

use vstd::prelude::*;
use vstd::relations::{sorted_by, total_ordering};
use vstd::seq_lib::lemma_sorted_unique;

use crate::bytes::{
    bytes_eq, bytes_le, bytes_le_exec, clone_bytes, lemma_bytes_le_antisym,
    lemma_bytes_le_connected, lemma_bytes_le_refl, lemma_bytes_le_trans, push_all,
};
use crate::hash::{blake3_digest, blake3_of, HASH_LEN};

verus! {

/// One resolved input file: its canonical absolute path and its content at
/// fingerprinting time.
pub struct InputFile {
    pub path: Vec<u8>,
    pub content: Vec<u8>,
}

/// One entry of an environment snapshot.
pub struct EnvEntry {
    pub name: Vec<u8>,
    pub value: Vec<u8>,
}

/// The mathematical value of one input file: (path, content).
pub open spec fn input_pair(f: InputFile) -> (Seq<u8>, Seq<u8>) {
    (f.path@, f.content@)
}

/// The mathematical value of a list of input files.
pub open spec fn input_pairs(files: Seq<InputFile>) -> Seq<(Seq<u8>, Seq<u8>)> {
    files.map_values(|f: InputFile| input_pair(f))
}

/// The mathematical value of an environment snapshot: (name, value) pairs.
pub open spec fn env_view(env: Seq<EnvEntry>) -> Seq<(Seq<u8>, Seq<u8>)> {
    env.map_values(|e: EnvEntry| (e.name@, e.value@))
}

/// The order in which input files are hashed: by canonical path, ties broken
/// by content so that the order is total.
pub open spec fn spec_pair_le(x: (Seq<u8>, Seq<u8>), y: (Seq<u8>, Seq<u8>)) -> bool {
    if x.0 == y.0 {
        bytes_le(x.1, y.1)
    } else {
        bytes_le(x.0, y.0)
    }
}

/// `spec_pair_le` as a relation value, for the sorting lemmas.
pub open spec fn file_order() -> spec_fn((Seq<u8>, Seq<u8>), (Seq<u8>, Seq<u8>)) -> bool {
    |x: (Seq<u8>, Seq<u8>), y: (Seq<u8>, Seq<u8>)| spec_pair_le(x, y)
}

/// The file order is a total ordering, so a sorted arrangement of a given set
/// of files is unique.
pub proof fn lemma_file_order_total()
    ensures
        total_ordering(file_order()),
{
    let leq = file_order();
    assert forall|x: (Seq<u8>, Seq<u8>)| #[trigger] leq(x, x) by {
        lemma_bytes_le_refl(x.1);
    }
    assert forall|x: (Seq<u8>, Seq<u8>), y: (Seq<u8>, Seq<u8>)|
        #[trigger] leq(x, y) && #[trigger] leq(y, x) implies x == y by {
        if x.0 == y.0 {
            lemma_bytes_le_antisym(x.1, y.1);
        } else {
            lemma_bytes_le_antisym(x.0, y.0);
        }
    }
    assert forall|x: (Seq<u8>, Seq<u8>), y: (Seq<u8>, Seq<u8>), z: (Seq<u8>, Seq<u8>)|
        #[trigger] leq(x, y) && #[trigger] leq(y, z) implies leq(x, z) by {
        if x.0 == y.0 && y.0 == z.0 {
            lemma_bytes_le_trans(x.1, y.1, z.1);
        } else if x.0 == y.0 {
        } else if y.0 == z.0 {
        } else {
            lemma_bytes_le_trans(x.0, y.0, z.0);
            if x.0 == z.0 {
                lemma_bytes_le_antisym(x.0, y.0);
            }
        }
    }
    assert forall|x: (Seq<u8>, Seq<u8>), y: (Seq<u8>, Seq<u8>)|
        #[trigger] leq(x, y) || #[trigger] leq(y, x) by {
        if x.0 == y.0 {
            lemma_bytes_le_connected(x.1, y.1);
        } else {
            lemma_bytes_le_connected(x.0, y.0);
        }
    }
}

/// Compare two input files in the file order.
fn input_le(x: &InputFile, y: &InputFile) -> (r: bool)
    ensures
        r == spec_pair_le(input_pair(*x), input_pair(*y)),
{
    if bytes_eq(&x.path, &y.path) {
        bytes_le_exec(&x.content, &y.content)
    } else {
        bytes_le_exec(&x.path, &y.path)
    }
}

/// Inserting an element anywhere in a sequence adds it to the multiset of
/// elements.
proof fn lemma_insert_to_multiset<A>(s: Seq<A>, p: int, x: A)
    requires
        0 <= p <= s.len(),
    ensures
        s.insert(p, x).to_multiset() =~= s.to_multiset().insert(x),
{
    broadcast use vstd::seq_lib::group_to_multiset_ensures;
    broadcast use vstd::multiset::group_multiset_axioms;

    let t = s.insert(p, x);
    assert(t.remove(p) =~= s);
    assert(t[p] == x);
    assert(t.remove(p).to_multiset() =~= t.to_multiset().remove(x));
    assert(t.contains(x)) by {
        assert(t[p] == x);
    }
    assert(t.to_multiset().count(x) > 0);
    assert forall|y: A| #[trigger] t.to_multiset().count(y) == s.to_multiset().insert(x).count(
        y,
    ) by {
        if y == x {
            assert(s.to_multiset().count(x) == t.to_multiset().remove(x).count(x));
        } else {
            assert(s.to_multiset().count(y) == t.to_multiset().remove(x).count(y));
        }
    }
}

/// Insert one file into a list kept sorted in the file order.
fn insert_sorted(out: &mut Vec<InputFile>, f: InputFile)
    requires
        sorted_by(input_pairs(old(out)@), file_order()),
    ensures
        sorted_by(input_pairs(final(out)@), file_order()),
        input_pairs(final(out)@).to_multiset() == input_pairs(old(out)@).to_multiset().insert(
            input_pair(f),
        ),
{
    let ghost base = input_pairs(out@);
    let ghost fp = input_pair(f);
    let n = out.len();
    let mut p: usize = 0;
    let mut scanning = true;
    while scanning && p < n
        invariant
            n == out@.len(),
            p <= n,
            base == input_pairs(out@),
            fp == input_pair(f),
            forall|k: int| 0 <= k < p ==> spec_pair_le(#[trigger] input_pairs(out@)[k], fp),
            !scanning ==> p < n && !spec_pair_le(input_pairs(out@)[p as int], fp),
        decreases n - p, (if scanning { 1int } else { 0int }),
    {
        let le = input_le(&out[p], &f);
        proof {
            assert(input_pairs(out@)[p as int] == input_pair(out@[p as int]));
            assert(le == spec_pair_le(input_pairs(out@)[p as int], fp));
        }
        if le {
            p = p + 1;
        } else {
            scanning = false;
        }
    }
    proof {
        if p < n && !scanning {
            let x = input_pairs(out@)[p as int];
            if x.0 == fp.0 {
                lemma_bytes_le_connected(x.1, fp.1);
            } else {
                lemma_bytes_le_connected(x.0, fp.0);
            }
            assert(spec_pair_le(fp, x));
        }
    }
    out.insert(p, f);
    proof {
        lemma_file_order_total();
        let after = input_pairs(out@);
        assert(after =~= base.insert(p as int, fp)) by {
            assert(after.len() == base.len() + 1);
            assert forall|i: int| 0 <= i < after.len() implies after[i] == base.insert(
                p as int,
                fp,
            )[i] by {
                if i < p {
                    assert(out@[i] == old(out)@[i]);
                } else if i == p {
                    assert(out@[i] == f);
                } else {
                    assert(out@[i] == old(out)@[i - 1]);
                }
            }
        }
        lemma_insert_to_multiset(base, p as int, fp);
        assert(sorted_by(after, file_order())) by {
            assert forall|i: int, j: int| 0 <= i < j < after.len() implies #[trigger] file_order()(
                after[i],
                after[j],
            ) by {
                let leq = file_order();
                assert(forall|x: (Seq<u8>, Seq<u8>), y: (Seq<u8>, Seq<u8>)| #[trigger] leq(x, y)
                    == spec_pair_le(x, y));
                if j < p {
                    assert(leq(base[i], base[j]));
                } else if i < p && j == p {
                    assert(leq(base[i], fp));
                } else if i < p && j > p {
                    assert(leq(base[i], base[j - 1]));
                } else if i == p {
                    // everything at or past p in the old list is at least f
                    if p < base.len() {
                        assert(leq(fp, base[p as int]));
                        if j - 1 > p {
                            assert(leq(base[p as int], base[j - 1]));
                        }
                    }
                } else {
                    assert(leq(base[i - 1], base[j - 1]));
                }
            }
        }
    }
}

/// Sort input files by canonical path (ties by content). The result is the
/// unique arrangement of the same files that the file order admits.
pub fn sort_input_files(files: &mut Vec<InputFile>)
    ensures
        input_pairs(final(files)@) == input_pairs(old(files)@).sort_by(file_order()),
{
    let ghost orig = input_pairs(files@);
    let mut out: Vec<InputFile> = Vec::new();
    let mut i: usize = 0;
    proof {
        assert(input_pairs(out@) =~= input_pairs(files@.take(0)));
    }
    while i < files.len()
        invariant
            i <= files@.len(),
            orig == input_pairs(files@),
            sorted_by(input_pairs(out@), file_order()),
            input_pairs(out@).to_multiset() == input_pairs(files@.take(i as int)).to_multiset(),
        decreases files@.len() - i,
    {
        broadcast use vstd::seq_lib::group_to_multiset_ensures;

        let f = InputFile {
            path: clone_bytes(&files[i].path),
            content: clone_bytes(&files[i].content),
        };
        proof {
            assert(input_pair(f) == input_pairs(files@)[i as int]);
        }
        insert_sorted(&mut out, f);
        proof {
            let prefix = input_pairs(files@.take(i as int));
            let next = input_pairs(files@.take(i + 1 as int));
            assert(next =~= prefix.push(input_pairs(files@)[i as int]));
            assert(next.to_multiset() == prefix.to_multiset().insert(
                input_pairs(files@)[i as int],
            ));
        }
        i = i + 1;
    }
    proof {
        assert(files@.take(files@.len() as int) =~= files@);
        lemma_file_order_total();
        orig.lemma_sort_by_ensures(file_order());
        lemma_sorted_unique(input_pairs(out@), orig.sort_by(file_order()), file_order());
        assert(input_pairs(out@) == orig.sort_by(file_order()));
    }
    *files = out;
}

/// The environment section of the hash input: for each entry in order, the
/// name bytes then the value bytes.
pub open spec fn spec_env_stream(env: Seq<(Seq<u8>, Seq<u8>)>) -> Seq<u8>
    decreases env.len(),
{
    if env.len() == 0 {
        Seq::empty()
    } else {
        env[0].0 + env[0].1 + spec_env_stream(env.drop_first())
    }
}

/// The input-file section of the hash input: each file's full content, in
/// list order.
pub open spec fn spec_contents_stream(files: Seq<(Seq<u8>, Seq<u8>)>) -> Seq<u8>
    decreases files.len(),
{
    if files.len() == 0 {
        Seq::empty()
    } else {
        files[0].1 + spec_contents_stream(files.drop_first())
    }
}

/// Exactly the bytes a fingerprint hashes, in order: the raw command text,
/// then name and value of each environment entry in snapshot order, then the
/// content of each input file sorted by canonical path.
pub open spec fn spec_fingerprint_stream(
    cmd: Seq<u8>,
    env: Seq<(Seq<u8>, Seq<u8>)>,
    files: Seq<(Seq<u8>, Seq<u8>)>,
) -> Seq<u8> {
    cmd + spec_env_stream(env) + spec_contents_stream(files.sort_by(file_order()))
}

/// The fingerprint of one invocation: the content hash of its byte stream.
/// Identical inputs always yield identical fingerprints.
pub open spec fn spec_fingerprint(
    cmd: Seq<u8>,
    env: Seq<(Seq<u8>, Seq<u8>)>,
    files: Seq<(Seq<u8>, Seq<u8>)>,
) -> Seq<u8> {
    blake3_of(spec_fingerprint_stream(cmd, env, files))
}

/// Appending an entry extends the environment stream at the end.
pub proof fn lemma_env_stream_push(env: Seq<(Seq<u8>, Seq<u8>)>, e: (Seq<u8>, Seq<u8>))
    ensures
        spec_env_stream(env.push(e)) == spec_env_stream(env) + e.0 + e.1,
    decreases env.len(),
{
    let t = env.push(e);
    if env.len() == 0 {
        assert(t[0] == e);
        let rest = t.drop_first();
        assert(rest =~= Seq::<(Seq<u8>, Seq<u8>)>::empty());
        assert(spec_env_stream(rest) == Seq::<u8>::empty());
        assert(spec_env_stream(t) == e.0 + e.1 + spec_env_stream(rest));
        assert(spec_env_stream(env) == Seq::<u8>::empty());
        assert(spec_env_stream(t) =~= spec_env_stream(env) + e.0 + e.1);
    } else {
        assert(t[0] == env[0]);
        assert(t.drop_first() =~= env.drop_first().push(e));
        lemma_env_stream_push(env.drop_first(), e);
        assert(spec_env_stream(t) == t[0].0 + t[0].1 + spec_env_stream(t.drop_first()));
        assert(spec_env_stream(t.drop_first()) == spec_env_stream(env.drop_first()) + e.0 + e.1);
        assert(spec_env_stream(env) == env[0].0 + env[0].1 + spec_env_stream(env.drop_first()));
        assert(spec_env_stream(t) =~= spec_env_stream(env) + e.0 + e.1);
    }
}

/// Appending a file extends the contents stream at the end.
pub proof fn lemma_contents_stream_push(files: Seq<(Seq<u8>, Seq<u8>)>, f: (Seq<u8>, Seq<u8>))
    ensures
        spec_contents_stream(files.push(f)) == spec_contents_stream(files) + f.1,
    decreases files.len(),
{
    let t = files.push(f);
    if files.len() == 0 {
        assert(t[0] == f);
        let rest = t.drop_first();
        assert(rest =~= Seq::<(Seq<u8>, Seq<u8>)>::empty());
        assert(spec_contents_stream(rest) == Seq::<u8>::empty());
        assert(spec_contents_stream(t) == f.1 + spec_contents_stream(rest));
        assert(spec_contents_stream(files) == Seq::<u8>::empty());
        assert(spec_contents_stream(t) =~= spec_contents_stream(files) + f.1);
    } else {
        assert(t[0] == files[0]);
        assert(t.drop_first() =~= files.drop_first().push(f));
        lemma_contents_stream_push(files.drop_first(), f);
        assert(spec_contents_stream(t) == t[0].1 + spec_contents_stream(t.drop_first()));
        assert(spec_contents_stream(t.drop_first()) == spec_contents_stream(files.drop_first())
            + f.1);
        assert(spec_contents_stream(files) == files[0].1 + spec_contents_stream(
            files.drop_first(),
        ));
        assert(spec_contents_stream(t) =~= spec_contents_stream(files) + f.1);
    }
}

/// Compute the fingerprint of one invocation. The input files are sorted by
/// canonical path internally; the caller may hand them over in any order.
pub fn fingerprint(
    commandline: &Vec<u8>,
    files: Vec<InputFile>,
    filtered_env: &Vec<EnvEntry>,
) -> (r: Vec<u8>)
    ensures
        r@ == spec_fingerprint(commandline@, env_view(filtered_env@), input_pairs(files@)),
        r@.len() == HASH_LEN,
{
    let ghost orig_pairs = input_pairs(files@);
    let mut files = files;
    sort_input_files(&mut files);

    let mut stream: Vec<u8> = Vec::new();
    push_all(&mut stream, commandline);
    proof {
        assert(Seq::<u8>::empty() + commandline@ =~= commandline@);
    }

    let mut i: usize = 0;
    while i < filtered_env.len()
        invariant
            i <= filtered_env@.len(),
            stream@ == commandline@ + spec_env_stream(env_view(filtered_env@.take(i as int))),
        decreases filtered_env@.len() - i,
    {
        push_all(&mut stream, &filtered_env[i].name);
        push_all(&mut stream, &filtered_env[i].value);
        proof {
            let prefix = env_view(filtered_env@.take(i as int));
            let e = (filtered_env@[i as int].name@, filtered_env@[i as int].value@);
            lemma_env_stream_push(prefix, e);
            assert(env_view(filtered_env@.take(i + 1 as int)) =~= prefix.push(e));
            assert(commandline@ + spec_env_stream(prefix) + e.0 + e.1 =~= commandline@ + (
            spec_env_stream(prefix) + e.0 + e.1));
        }
        i = i + 1;
    }
    proof {
        assert(filtered_env@.take(filtered_env@.len() as int) =~= filtered_env@);
    }

    let ghost env_done = stream@;
    let mut j: usize = 0;
    while j < files.len()
        invariant
            j <= files@.len(),
            input_pairs(files@) == orig_pairs.sort_by(file_order()),
            stream@ == env_done + spec_contents_stream(input_pairs(files@.take(j as int))),
        decreases files@.len() - j,
    {
        push_all(&mut stream, &files[j].content);
        proof {
            let prefix = input_pairs(files@.take(j as int));
            let fpair = input_pairs(files@)[j as int];
            lemma_contents_stream_push(prefix, fpair);
            assert(input_pairs(files@.take(j + 1 as int)) =~= prefix.push(fpair));
            assert(env_done + spec_contents_stream(prefix) + fpair.1 =~= env_done + (
            spec_contents_stream(prefix) + fpair.1));
        }
        j = j + 1;
    }
    proof {
        assert(files@.take(files@.len() as int) =~= files@);
        assert(stream@ =~= spec_fingerprint_stream(
            commandline@,
            env_view(filtered_env@),
            orig_pairs,
        ));
    }
    blake3_digest(&stream)
}


/// Appending the same suffix to different strings keeps them different.
pub proof fn lemma_append_cancels_left(a1: Seq<u8>, a2: Seq<u8>, s: Seq<u8>)
    requires
        a1 + s == a2 + s,
    ensures
        a1 == a2,
{
    assert((a1 + s).len() == a1.len() + s.len());
    assert((a2 + s).len() == a2.len() + s.len());
    assert(a1.len() == a2.len());
    assert(a1 =~= a2) by {
        assert forall|i: int| 0 <= i < a1.len() implies a1[i] == a2[i] by {
            assert((a1 + s)[i] == a1[i]);
            assert((a2 + s)[i] == a2[i]);
        }
    }
}

/// Prepending the same prefix to different strings keeps them different.
pub proof fn lemma_append_cancels_right(p: Seq<u8>, s1: Seq<u8>, s2: Seq<u8>)
    requires
        p + s1 == p + s2,
    ensures
        s1 == s2,
{
    assert((p + s1).len() == p.len() + s1.len());
    assert((p + s2).len() == p.len() + s2.len());
    assert(s1.len() == s2.len());
    assert(s1 =~= s2) by {
        assert forall|i: int| 0 <= i < s1.len() implies s1[i] == s2[i] by {
            assert((p + s1)[p.len() + i] == s1[i]);
            assert((p + s2)[p.len() + i] == s2[i]);
        }
    }
}

/// Different middles between the same prefix and suffix make different
/// strings.
pub proof fn lemma_append_cancels_middle(p: Seq<u8>, x1: Seq<u8>, x2: Seq<u8>, s: Seq<u8>)
    requires
        p + x1 + s == p + x2 + s,
    ensures
        x1 == x2,
{
    assert((p + x1 + s).len() == p.len() + x1.len() + s.len());
    assert((p + x2 + s).len() == p.len() + x2.len() + s.len());
    assert(x1.len() == x2.len());
    assert(x1 =~= x2) by {
        assert forall|i: int| 0 <= i < x1.len() implies x1[i] == x2[i] by {
            assert((p + x1 + s)[p.len() + i] == x1[i]);
            assert((p + x2 + s)[p.len() + i] == x2[i]);
        }
    }
}

/// Determinism: the fingerprint is a function of the command text, the
/// filtered environment and the set of input files alone — listing the same
/// files in another order never changes it, so filesystem iteration order
/// cannot affect the result.
pub proof fn lemma_fingerprint_order_independent(
    cmd: Seq<u8>,
    env: Seq<(Seq<u8>, Seq<u8>)>,
    files1: Seq<(Seq<u8>, Seq<u8>)>,
    files2: Seq<(Seq<u8>, Seq<u8>)>,
)
    requires
        files1.to_multiset() == files2.to_multiset(),
    ensures
        spec_fingerprint(cmd, env, files1) == spec_fingerprint(cmd, env, files2),
{
    lemma_file_order_total();
    files1.lemma_sort_by_ensures(file_order());
    files2.lemma_sort_by_ensures(file_order());
    lemma_sorted_unique(files1.sort_by(file_order()), files2.sort_by(file_order()), file_order());
    assert(files1.sort_by(file_order()) == files2.sort_by(file_order()));
}

/// Sensitivity to the command text: two invocations whose command texts
/// differ feed different byte streams to the hash, whatever the environment
/// and input files.
pub proof fn lemma_stream_sensitive_to_command(
    cmd1: Seq<u8>,
    cmd2: Seq<u8>,
    env: Seq<(Seq<u8>, Seq<u8>)>,
    files: Seq<(Seq<u8>, Seq<u8>)>,
)
    requires
        cmd1 != cmd2,
    ensures
        spec_fingerprint_stream(cmd1, env, files) != spec_fingerprint_stream(cmd2, env, files),
{
    let e = spec_env_stream(env);
    let f = spec_contents_stream(files.sort_by(file_order()));
    if spec_fingerprint_stream(cmd1, env, files) == spec_fingerprint_stream(cmd2, env, files) {
        lemma_append_cancels_left(cmd1 + e, cmd2 + e, f);
        lemma_append_cancels_left(cmd1, cmd2, e);
        assert(false);
    }
}

/// Sensitivity to an environment value: changing the value of any entry of
/// the filtered snapshot changes the environment section of the hash input.
pub proof fn lemma_env_stream_value_sensitive(env: Seq<(Seq<u8>, Seq<u8>)>, i: int, v2: Seq<u8>)
    requires
        0 <= i < env.len(),
        env[i].1 != v2,
    ensures
        spec_env_stream(env.update(i, (env[i].0, v2))) != spec_env_stream(env),
    decreases env.len(),
{
    let changed = env.update(i, (env[i].0, v2));
    if i == 0 {
        assert(changed[0] == (env[0].0, v2));
        assert(changed.drop_first() =~= env.drop_first());
        if spec_env_stream(changed) == spec_env_stream(env) {
            assert(spec_env_stream(changed) == env[0].0 + v2 + spec_env_stream(env.drop_first()));
            assert(spec_env_stream(env) == env[0].0 + env[0].1 + spec_env_stream(
                env.drop_first(),
            ));
            lemma_append_cancels_middle(env[0].0, v2, env[0].1, spec_env_stream(env.drop_first()));
            assert(false);
        }
    } else {
        assert(changed[0] == env[0]);
        assert(env.drop_first()[i - 1] == env[i]);
        assert(changed.drop_first() =~= env.drop_first().update(
            i - 1,
            (env.drop_first()[i - 1].0, v2),
        ));
        lemma_env_stream_value_sensitive(env.drop_first(), i - 1, v2);
        if spec_env_stream(changed) == spec_env_stream(env) {
            assert(spec_env_stream(changed) == env[0].0 + env[0].1 + spec_env_stream(
                changed.drop_first(),
            ));
            assert(spec_env_stream(env) == env[0].0 + env[0].1 + spec_env_stream(
                env.drop_first(),
            ));
            assert((env[0].0 + env[0].1) + spec_env_stream(changed.drop_first()) =~= env[0].0
                + env[0].1 + spec_env_stream(changed.drop_first()));
            lemma_append_cancels_right(
                env[0].0 + env[0].1,
                spec_env_stream(changed.drop_first()),
                spec_env_stream(env.drop_first()),
            );
            assert(false);
        }
    }
}

/// Sensitivity of the whole hash input to one environment value.
pub proof fn lemma_stream_sensitive_to_env_value(
    cmd: Seq<u8>,
    env: Seq<(Seq<u8>, Seq<u8>)>,
    i: int,
    v2: Seq<u8>,
    files: Seq<(Seq<u8>, Seq<u8>)>,
)
    requires
        0 <= i < env.len(),
        env[i].1 != v2,
    ensures
        spec_fingerprint_stream(cmd, env.update(i, (env[i].0, v2)), files)
            != spec_fingerprint_stream(cmd, env, files),
{
    let changed = env.update(i, (env[i].0, v2));
    let f = spec_contents_stream(files.sort_by(file_order()));
    lemma_env_stream_value_sensitive(env, i, v2);
    if spec_fingerprint_stream(cmd, changed, files) == spec_fingerprint_stream(cmd, env, files) {
        lemma_append_cancels_left(
            cmd + spec_env_stream(changed),
            cmd + spec_env_stream(env),
            f,
        );
        lemma_append_cancels_right(cmd, spec_env_stream(changed), spec_env_stream(env));
        assert(false);
    }
}

/// Sensitivity to an input file's content: changing the bytes of any file of
/// the (sorted) list changes the content section of the hash input.
pub proof fn lemma_contents_stream_value_sensitive(
    files: Seq<(Seq<u8>, Seq<u8>)>,
    i: int,
    c2: Seq<u8>,
)
    requires
        0 <= i < files.len(),
        files[i].1 != c2,
    ensures
        spec_contents_stream(files.update(i, (files[i].0, c2))) != spec_contents_stream(files),
    decreases files.len(),
{
    let changed = files.update(i, (files[i].0, c2));
    if i == 0 {
        assert(changed[0] == (files[0].0, c2));
        assert(changed.drop_first() =~= files.drop_first());
        if spec_contents_stream(changed) == spec_contents_stream(files) {
            lemma_append_cancels_left(c2, files[0].1, spec_contents_stream(files.drop_first()));
            assert(false);
        }
    } else {
        assert(changed[0] == files[0]);
        assert(files.drop_first()[i - 1] == files[i]);
        assert(changed.drop_first() =~= files.drop_first().update(
            i - 1,
            (files.drop_first()[i - 1].0, c2),
        ));
        lemma_contents_stream_value_sensitive(files.drop_first(), i - 1, c2);
        if spec_contents_stream(changed) == spec_contents_stream(files) {
            lemma_append_cancels_right(
                files[0].1,
                spec_contents_stream(changed.drop_first()),
                spec_contents_stream(files.drop_first()),
            );
            assert(false);
        }
    }
}


/// Pairwise-distinct canonical paths: no file is listed twice.
pub open spec fn spec_distinct_paths(files: Seq<(Seq<u8>, Seq<u8>)>) -> bool {
    forall|j: int, k: int|
        0 <= j < k < files.len() ==> (#[trigger] files[j]).0 != (#[trigger] files[k]).0
}

/// Sensitivity of the whole hash input to one input file's content: in a
/// resolved input set — each file under its own canonical path, listed in
/// hash order — changing any file's bytes changes the stream the fingerprint
/// hashes. Together with order independence this covers input lists in any
/// order.
pub proof fn lemma_stream_sensitive_to_file_content(
    cmd: Seq<u8>,
    env: Seq<(Seq<u8>, Seq<u8>)>,
    files: Seq<(Seq<u8>, Seq<u8>)>,
    i: int,
    c2: Seq<u8>,
)
    requires
        sorted_by(files, file_order()),
        spec_distinct_paths(files),
        0 <= i < files.len(),
        files[i].1 != c2,
    ensures
        spec_fingerprint_stream(cmd, env, files.update(i, (files[i].0, c2)))
            != spec_fingerprint_stream(cmd, env, files),
{
    let changed = files.update(i, (files[i].0, c2));
    lemma_file_order_total();

    // a sorted list is its own unique sorted arrangement
    files.lemma_sort_by_ensures(file_order());
    lemma_sorted_unique(files.sort_by(file_order()), files, file_order());
    assert(files.sort_by(file_order()) == files);

    // the changed list is still sorted: every comparison the order makes goes
    // through the paths, and those are untouched and pairwise distinct
    assert(sorted_by(changed, file_order())) by {
        assert forall|j: int, k: int| 0 <= j < k < changed.len() implies #[trigger] file_order()(
            changed[j],
            changed[k],
        ) by {
            assert(file_order()(files[j], files[k]));
            assert(files[j].0 != files[k].0);
            assert(changed[j].0 == files[j].0 && changed[k].0 == files[k].0);
        }
    }
    changed.lemma_sort_by_ensures(file_order());
    lemma_sorted_unique(changed.sort_by(file_order()), changed, file_order());
    assert(changed.sort_by(file_order()) == changed);

    lemma_contents_stream_value_sensitive(files, i, c2);
    if spec_fingerprint_stream(cmd, env, changed) == spec_fingerprint_stream(cmd, env, files) {
        lemma_append_cancels_right(
            cmd + spec_env_stream(env),
            spec_contents_stream(changed),
            spec_contents_stream(files),
        );
        assert(false);
    }
}

} // verus!
