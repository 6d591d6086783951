//! Command records: the persisted binding of a fingerprint to its command
//! text, environment snapshot, stdout blob and output associations, written
//! as one `command.json` document whose bytes are pinned down exactly.

use vstd::prelude::*;

use crate::bytes::push_all;
use crate::fingerprint::{env_view, fingerprint, spec_fingerprint, EnvEntry, InputFile};
use crate::fingerprint::input_pairs;
use crate::hash::HASH_LEN;
use crate::json::{
    lemma_join_push, push_json_string, spec_join, spec_json_string, COLON, COMMA,
};

verus! {

/// One output association: every destination path whose captured content
/// hashed to `hash`. N paths map to 1 stored blob.
pub struct OutputFile {
    pub paths: Vec<Vec<u8>>,
    pub hash: Vec<u8>,
}

/// One persisted command record.
pub struct CachedCommand {
    pub command_line: Vec<u8>,
    pub env: Vec<EnvEntry>,
    pub hash: Vec<u8>,
    pub created: Vec<u8>,
    pub last_accessed: Vec<u8>,
    pub log: Vec<u8>,
    pub output_files: Vec<OutputFile>,
}

/// The mathematical value of a path list.
pub open spec fn paths_view(paths: Seq<Vec<u8>>) -> Seq<Seq<u8>> {
    paths.map_values(|p: Vec<u8>| p@)
}

/// The mathematical value of one output association: (paths, hash).
pub open spec fn output_pair(o: OutputFile) -> (Seq<Seq<u8>>, Seq<u8>) {
    (paths_view(o.paths@), o.hash@)
}

/// The mathematical value of an association list.
pub open spec fn output_view(ofs: Seq<OutputFile>) -> Seq<(Seq<Seq<u8>>, Seq<u8>)> {
    ofs.map_values(|o: OutputFile| output_pair(o))
}

/// `{"command_line":`
pub open spec fn spec_rec_open() -> Seq<u8> {
    seq![123u8, 34u8, 99u8, 111u8, 109u8, 109u8, 97u8, 110u8, 100u8, 95u8, 108u8, 105u8, 110u8, 101u8, 34u8, 58u8]
}

/// `,"env":{`
pub open spec fn spec_rec_env() -> Seq<u8> {
    seq![44u8, 34u8, 101u8, 110u8, 118u8, 34u8, 58u8, 123u8]
}

/// `},"hash":`
pub open spec fn spec_rec_hash() -> Seq<u8> {
    seq![125u8, 44u8, 34u8, 104u8, 97u8, 115u8, 104u8, 34u8, 58u8]
}

/// `,"created":`
pub open spec fn spec_rec_created() -> Seq<u8> {
    seq![44u8, 34u8, 99u8, 114u8, 101u8, 97u8, 116u8, 101u8, 100u8, 34u8, 58u8]
}

/// `,"last_accessed":`
pub open spec fn spec_rec_last_accessed() -> Seq<u8> {
    seq![44u8, 34u8, 108u8, 97u8, 115u8, 116u8, 95u8, 97u8, 99u8, 99u8, 101u8, 115u8, 115u8, 101u8, 100u8, 34u8, 58u8]
}

/// `,"log":`
pub open spec fn spec_rec_log() -> Seq<u8> {
    seq![44u8, 34u8, 108u8, 111u8, 103u8, 34u8, 58u8]
}

/// `,"output_files":[`
pub open spec fn spec_rec_output_files() -> Seq<u8> {
    seq![44u8, 34u8, 111u8, 117u8, 116u8, 112u8, 117u8, 116u8, 95u8, 102u8, 105u8, 108u8, 101u8, 115u8, 34u8, 58u8, 91u8]
}

/// `]}`
pub open spec fn spec_rec_close() -> Seq<u8> {
    seq![93u8, 125u8]
}

/// `{"paths":[`
pub open spec fn spec_of_open() -> Seq<u8> {
    seq![123u8, 34u8, 112u8, 97u8, 116u8, 104u8, 115u8, 34u8, 58u8, 91u8]
}

/// `],"hash":`
pub open spec fn spec_of_hash() -> Seq<u8> {
    seq![93u8, 44u8, 34u8, 104u8, 97u8, 115u8, 104u8, 34u8, 58u8]
}

/// `}`
pub open spec fn spec_of_close() -> Seq<u8> {
    seq![125u8]
}

/// One `"name":"value"` member of the env object.
pub open spec fn spec_env_item_json(kv: (Seq<u8>, Seq<u8>)) -> Seq<u8> {
    spec_json_string(kv.0) + seq![COLON] + spec_json_string(kv.1)
}

/// One `{"paths":[...],"hash":"..."}` element of the output list.
pub open spec fn spec_output_file_json(o: (Seq<Seq<u8>>, Seq<u8>)) -> Seq<u8> {
    spec_of_open() + spec_join(
        o.0.map_values(|p: Seq<u8>| spec_json_string(p)),
        seq![COMMA],
    ) + spec_of_hash() + spec_json_string(o.1) + spec_of_close()
}

/// The full `command.json` document of one record, byte for byte.
pub open spec fn spec_record_json(r: CachedCommand) -> Seq<u8> {
    spec_rec_open() + spec_json_string(r.command_line@) + spec_rec_env() + spec_join(
        env_view(r.env@).map_values(|kv: (Seq<u8>, Seq<u8>)| spec_env_item_json(kv)),
        seq![COMMA],
    ) + spec_rec_hash() + spec_json_string(r.hash@) + spec_rec_created() + spec_json_string(
        r.created@,
    ) + spec_rec_last_accessed() + spec_json_string(r.last_accessed@) + spec_rec_log()
        + spec_json_string(r.log@) + spec_rec_output_files() + spec_join(
        output_view(r.output_files@).map_values(
            |o: (Seq<Seq<u8>>, Seq<u8>)| spec_output_file_json(o),
        ),
        seq![COMMA],
    ) + spec_rec_close()
}

fn push_rec_open(out: &mut Vec<u8>)
    ensures
        final(out)@ == old(out)@ + spec_rec_open(),
{
    let lit: Vec<u8> = vec![123u8, 34u8, 99u8, 111u8, 109u8, 109u8, 97u8, 110u8, 100u8, 95u8, 108u8, 105u8, 110u8, 101u8, 34u8, 58u8];
    proof {
        assert(lit@ =~= spec_rec_open());
    }
    push_all(out, &lit);
}

fn push_rec_env(out: &mut Vec<u8>)
    ensures
        final(out)@ == old(out)@ + spec_rec_env(),
{
    let lit: Vec<u8> = vec![44u8, 34u8, 101u8, 110u8, 118u8, 34u8, 58u8, 123u8];
    proof {
        assert(lit@ =~= spec_rec_env());
    }
    push_all(out, &lit);
}

fn push_rec_hash(out: &mut Vec<u8>)
    ensures
        final(out)@ == old(out)@ + spec_rec_hash(),
{
    let lit: Vec<u8> = vec![125u8, 44u8, 34u8, 104u8, 97u8, 115u8, 104u8, 34u8, 58u8];
    proof {
        assert(lit@ =~= spec_rec_hash());
    }
    push_all(out, &lit);
}

fn push_rec_created(out: &mut Vec<u8>)
    ensures
        final(out)@ == old(out)@ + spec_rec_created(),
{
    let lit: Vec<u8> = vec![44u8, 34u8, 99u8, 114u8, 101u8, 97u8, 116u8, 101u8, 100u8, 34u8, 58u8];
    proof {
        assert(lit@ =~= spec_rec_created());
    }
    push_all(out, &lit);
}

fn push_rec_last_accessed(out: &mut Vec<u8>)
    ensures
        final(out)@ == old(out)@ + spec_rec_last_accessed(),
{
    let lit: Vec<u8> = vec![44u8, 34u8, 108u8, 97u8, 115u8, 116u8, 95u8, 97u8, 99u8, 99u8, 101u8, 115u8, 115u8, 101u8, 100u8, 34u8, 58u8];
    proof {
        assert(lit@ =~= spec_rec_last_accessed());
    }
    push_all(out, &lit);
}

fn push_rec_log(out: &mut Vec<u8>)
    ensures
        final(out)@ == old(out)@ + spec_rec_log(),
{
    let lit: Vec<u8> = vec![44u8, 34u8, 108u8, 111u8, 103u8, 34u8, 58u8];
    proof {
        assert(lit@ =~= spec_rec_log());
    }
    push_all(out, &lit);
}

fn push_rec_output_files(out: &mut Vec<u8>)
    ensures
        final(out)@ == old(out)@ + spec_rec_output_files(),
{
    let lit: Vec<u8> = vec![44u8, 34u8, 111u8, 117u8, 116u8, 112u8, 117u8, 116u8, 95u8, 102u8, 105u8, 108u8, 101u8, 115u8, 34u8, 58u8, 91u8];
    proof {
        assert(lit@ =~= spec_rec_output_files());
    }
    push_all(out, &lit);
}

fn push_rec_close(out: &mut Vec<u8>)
    ensures
        final(out)@ == old(out)@ + spec_rec_close(),
{
    let lit: Vec<u8> = vec![93u8, 125u8];
    proof {
        assert(lit@ =~= spec_rec_close());
    }
    push_all(out, &lit);
}

fn push_of_open(out: &mut Vec<u8>)
    ensures
        final(out)@ == old(out)@ + spec_of_open(),
{
    let lit: Vec<u8> = vec![123u8, 34u8, 112u8, 97u8, 116u8, 104u8, 115u8, 34u8, 58u8, 91u8];
    proof {
        assert(lit@ =~= spec_of_open());
    }
    push_all(out, &lit);
}

fn push_of_hash(out: &mut Vec<u8>)
    ensures
        final(out)@ == old(out)@ + spec_of_hash(),
{
    let lit: Vec<u8> = vec![93u8, 44u8, 34u8, 104u8, 97u8, 115u8, 104u8, 34u8, 58u8];
    proof {
        assert(lit@ =~= spec_of_hash());
    }
    push_all(out, &lit);
}

/// Append one association's JSON element.
fn push_output_file(out: &mut Vec<u8>, o: &OutputFile)
    ensures
        final(out)@ == old(out)@ + spec_output_file_json(output_pair(*o)),
{
    let ghost base = out@;
    push_of_open(out);
    let ghost items = paths_view(o.paths@).map_values(|p: Seq<u8>| spec_json_string(p));
    let mut j: usize = 0;
    while j < o.paths.len()
        invariant
            j <= o.paths@.len(),
            items == paths_view(o.paths@).map_values(|p: Seq<u8>| spec_json_string(p)),
            items.len() == o.paths@.len(),
            out@ == base + spec_of_open() + spec_join(items.take(j as int), seq![COMMA]),
        decreases o.paths@.len() - j,
    {
        if j > 0 {
            out.push(COMMA);
        }
        push_json_string(out, &o.paths[j]);
        proof {
            lemma_join_push(items.take(j as int), seq![COMMA], items[j as int]);
            assert(items.take(j as int).push(items[j as int]) =~= items.take(j + 1 as int));
            assert(items[j as int] == spec_json_string(o.paths@[j as int]@));
            if j == 0 {
                assert(out@ =~= base + spec_of_open() + spec_join(
                    items.take(j + 1 as int),
                    seq![COMMA],
                ));
            } else {
                assert(out@ =~= base + spec_of_open() + (spec_join(
                    items.take(j as int),
                    seq![COMMA],
                ) + seq![COMMA] + items[j as int]));
            }
        }
        j = j + 1;
    }
    proof {
        assert(items.take(items.len() as int) =~= items);
    }
    push_of_hash(out);
    push_json_string(out, &o.hash);
    out.push(125u8);
    proof {
        assert(out@ =~= base + spec_output_file_json(output_pair(*o)));
    }
}

impl CachedCommand {
    /// Compute the fingerprint of an invocation: command text, filtered env
    /// snapshot, and input files sorted by canonical path.
    pub fn create_hash(
        commandline: &Vec<u8>,
        files: Vec<InputFile>,
        filtered_env: &Vec<EnvEntry>,
    ) -> (r: Vec<u8>)
        ensures
            r@ == spec_fingerprint(commandline@, env_view(filtered_env@), input_pairs(files@)),
            r@.len() == HASH_LEN,
    {
        fingerprint(commandline, files, filtered_env)
    }

    /// The write that persists this record: the fingerprint-named directory
    /// to create, the document path inside it, and the document bytes.
    pub fn store_in_cache(&self, folder: &crate::folder::CacheFolder) -> (r: (
        Vec<u8>,
        Vec<u8>,
        Vec<u8>,
    ))
        ensures
            r.0@ == crate::folder::spec_command_dir(folder.root@, self.hash@),
            r.1@ == crate::folder::spec_join_path(
                crate::folder::spec_command_dir(folder.root@, self.hash@),
                crate::folder::spec_command_file_name(),
            ),
            r.2@ == spec_record_json(*self),
    {
        let dir = folder.command_dir(&self.hash);
        let path = folder.command_json_path(&self.hash);
        let json = self.to_json();
        (dir, path, json)
    }

    /// Serialize this record to its `command.json` document.
    pub fn to_json(&self) -> (r: Vec<u8>)
        ensures
            r@ == spec_record_json(*self),
    {
        let mut out: Vec<u8> = Vec::new();
        push_rec_open(&mut out);
        push_json_string(&mut out, &self.command_line);
        push_rec_env(&mut out);

        let ghost s_env = spec_rec_open() + spec_json_string(self.command_line@)
            + spec_rec_env();
        proof {
            assert(out@ =~= s_env);
        }
        let ghost items = env_view(self.env@).map_values(
            |kv: (Seq<u8>, Seq<u8>)| spec_env_item_json(kv),
        );
        let mut k: usize = 0;
        while k < self.env.len()
            invariant
                k <= self.env@.len(),
                items == env_view(self.env@).map_values(
                    |kv: (Seq<u8>, Seq<u8>)| spec_env_item_json(kv),
                ),
                items.len() == self.env@.len(),
                out@ == s_env + spec_join(items.take(k as int), seq![COMMA]),
            decreases self.env@.len() - k,
        {
            if k > 0 {
                out.push(COMMA);
            }
            push_json_string(&mut out, &self.env[k].name);
            out.push(COLON);
            push_json_string(&mut out, &self.env[k].value);
            proof {
                lemma_join_push(items.take(k as int), seq![COMMA], items[k as int]);
                assert(items.take(k as int).push(items[k as int]) =~= items.take(k + 1 as int));
                assert(env_view(self.env@)[k as int] == (
                    self.env@[k as int].name@,
                    self.env@[k as int].value@,
                ));
                assert(out@ =~= s_env + spec_join(items.take(k + 1 as int), seq![COMMA]));
            }
            k = k + 1;
        }
        proof {
            assert(items.take(items.len() as int) =~= items);
        }

        push_rec_hash(&mut out);
        push_json_string(&mut out, &self.hash);
        push_rec_created(&mut out);
        push_json_string(&mut out, &self.created);
        push_rec_last_accessed(&mut out);
        push_json_string(&mut out, &self.last_accessed);
        push_rec_log(&mut out);
        push_json_string(&mut out, &self.log);
        push_rec_output_files(&mut out);

        let ghost s_ofs = s_env + spec_join(items, seq![COMMA]) + spec_rec_hash()
            + spec_json_string(self.hash@) + spec_rec_created() + spec_json_string(self.created@)
            + spec_rec_last_accessed() + spec_json_string(self.last_accessed@) + spec_rec_log()
            + spec_json_string(self.log@) + spec_rec_output_files();
        proof {
            assert(out@ =~= s_ofs);
        }
        let ghost of_items = output_view(self.output_files@).map_values(
            |o: (Seq<Seq<u8>>, Seq<u8>)| spec_output_file_json(o),
        );
        let mut k2: usize = 0;
        while k2 < self.output_files.len()
            invariant
                k2 <= self.output_files@.len(),
                of_items == output_view(self.output_files@).map_values(
                    |o: (Seq<Seq<u8>>, Seq<u8>)| spec_output_file_json(o),
                ),
                of_items.len() == self.output_files@.len(),
                out@ == s_ofs + spec_join(of_items.take(k2 as int), seq![COMMA]),
            decreases self.output_files@.len() - k2,
        {
            if k2 > 0 {
                out.push(COMMA);
            }
            push_output_file(&mut out, &self.output_files[k2]);
            proof {
                lemma_join_push(of_items.take(k2 as int), seq![COMMA], of_items[k2 as int]);
                assert(of_items.take(k2 as int).push(of_items[k2 as int]) =~= of_items.take(
                    k2 + 1 as int,
                ));
                assert(output_view(self.output_files@)[k2 as int] == output_pair(
                    self.output_files@[k2 as int],
                ));
                assert(out@ =~= s_ofs + spec_join(of_items.take(k2 + 1 as int), seq![COMMA]));
            }
            k2 = k2 + 1;
        }
        proof {
            assert(of_items.take(of_items.len() as int) =~= of_items);
        }

        push_rec_close(&mut out);
        proof {
            assert(out@ =~= spec_record_json(*self));
        }
        out
    }
}

} // verus!
