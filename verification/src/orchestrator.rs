//! The cache orchestrator's decisions for one invocation: the identity of the
//! command (filtered environment, fingerprint, its hex form), the record
//! written after a miss, and the destination lists restored after a hit. The
//! surrounding I/O — probing the store, running the shell, writing files —
//! happens outside and hands plain values in and out.

use vstd::prelude::*;

use crate::bytes::views;
use crate::config::{env_pairs, spec_filter_env, filter_env_vars};
use crate::destinations::{ne_from_vec, ne_seq};
use crate::error::CacheError;
use crate::fingerprint::{
    fingerprint, input_pairs, spec_fingerprint, EnvEntry, InputFile,
};
use crate::hash::HASH_LEN;
use crate::hex::{hex_encode, hex_of};
use crate::json::spec_join;
use crate::record::{output_view, CachedCommand, OutputFile};

verus! {

/// Space.
pub const SPACE: u8 = 0x20;

/// Join command-line words with single spaces into one command string.
pub fn join_command(args: &Vec<Vec<u8>>) -> (r: Vec<u8>)
    ensures
        r@ == spec_join(views(args@), seq![SPACE]),
{
    let mut out: Vec<u8> = Vec::new();
    let mut i: usize = 0;
    while i < args.len()
        invariant
            i <= args@.len(),
            out@ == spec_join(views(args@).take(i as int), seq![SPACE]),
        decreases args@.len() - i,
    {
        if i > 0 {
            out.push(SPACE);
        }
        crate::bytes::push_all(&mut out, &args[i]);
        proof {
            crate::json::lemma_join_push(
                views(args@).take(i as int),
                seq![SPACE],
                views(args@)[i as int],
            );
            assert(views(args@).take(i as int).push(views(args@)[i as int]) =~= views(
                args@,
            ).take(i + 1 as int));
            assert(views(args@)[i as int] == args@[i as int]@);
            assert(out@ =~= spec_join(views(args@).take(i + 1 as int), seq![SPACE]));
        }
        i = i + 1;
    }
    proof {
        assert(views(args@).take(views(args@).len() as int) =~= views(args@));
    }
    out
}

/// Whether a byte is ASCII whitespace.
pub open spec fn spec_is_space(b: u8) -> bool {
    b == 0x20 || b == 0x09 || b == 0x0a || b == 0x0d || b == 0x0b || b == 0x0c
}

/// Whether a command string holds nothing to run: empty up to whitespace.
/// Such an invocation is not processed at all.
pub open spec fn spec_is_blank(s: Seq<u8>) -> bool {
    forall|i: int| 0 <= i < s.len() ==> spec_is_space(#[trigger] s[i])
}

/// Whether a command string holds nothing to run.
pub fn is_blank_command(cmd: &Vec<u8>) -> (r: bool)
    ensures
        r == spec_is_blank(cmd@),
{
    let mut i: usize = 0;
    while i < cmd.len()
        invariant
            i <= cmd@.len(),
            forall|k: int| 0 <= k < i ==> spec_is_space(#[trigger] cmd@[k]),
        decreases cmd@.len() - i,
    {
        let b = cmd[i];
        if !(b == 0x20 || b == 0x09 || b == 0x0a || b == 0x0d || b == 0x0b || b == 0x0c) {
            return false;
        }
        i = i + 1;
    }
    true
}

/// The identity of one invocation: the environment snapshot filtered through
/// the active project's allow-list, the fingerprint over command text,
/// filtered environment and input files, and the fingerprint's hex form that
/// names the record on disk. The fingerprint is fully computed before any
/// cache lookup can use it.
pub fn command_identity(
    command_string: &Vec<u8>,
    input_files: Vec<InputFile>,
    env: &Vec<EnvEntry>,
    allow: &Vec<Vec<u8>>,
) -> (r: (Vec<EnvEntry>, Vec<u8>, Vec<u8>))
    ensures
        env_pairs(r.0@) == spec_filter_env(env_pairs(env@), views(allow@)),
        r.1@ == spec_fingerprint(
            command_string@,
            spec_filter_env(env_pairs(env@), views(allow@)),
            input_pairs(input_files@),
        ),
        r.1@.len() == HASH_LEN,
        r.2@ == hex_of(r.1@),
{
    let filtered = filter_env_vars(env, allow);
    let digest = fingerprint(command_string, input_files, &filtered);
    let hex = hex_encode(&digest);
    (filtered, digest, hex)
}

/// The record a miss persists, after the stdout blob and every output blob
/// were stored: the command text, the filtered environment, the fingerprint
/// and stdout hashes in hex, and the gathered output associations. Creation
/// and last-access stamps start out equal.
pub fn build_record(
    command_string: &Vec<u8>,
    filtered_env: Vec<EnvEntry>,
    fingerprint_hex: &Vec<u8>,
    stdout_hash_hex: &Vec<u8>,
    output_files: Vec<OutputFile>,
) -> (r: CachedCommand)
    ensures
        r.command_line@ == command_string@,
        env_pairs(r.env@) == env_pairs(filtered_env@),
        r.hash@ == fingerprint_hex@,
        r.log@ == stdout_hash_hex@,
        output_view(r.output_files@) == output_view(output_files@),
        r.created@ == r.last_accessed@,
{
    let created = crate::blob::now_utc_rfc3339();
    let last_accessed = crate::bytes::clone_bytes(&created);
    CachedCommand {
        command_line: crate::bytes::clone_bytes(command_string),
        env: filtered_env,
        hash: crate::bytes::clone_bytes(fingerprint_hex),
        created,
        last_accessed,
        log: crate::bytes::clone_bytes(stdout_hash_hex),
        output_files,
    }
}

/// The destination list of one association as a restore target: an
/// association persisted without a single path is malformed.
pub fn destinations_of(paths: Vec<Vec<u8>>) -> (r: Result<
    nonempty::NonEmpty<Vec<u8>>,
    CacheError,
>)
    ensures
        r is Ok <==> paths@.len() > 0,
        r is Err ==> r->Err_0 == CacheError::MalformedData,
        r is Ok ==> ne_seq(r->Ok_0) == views(paths@),
{
    match ne_from_vec(paths) {
        Some(ne) => Ok(ne),
        None => Err(CacheError::MalformedData),
    }
}

} // verus!
