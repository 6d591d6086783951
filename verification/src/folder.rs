//! The on-disk layout of the cache: one directory per stored blob under
//! `files/`, one directory per command record under `commands/`, each path
//! pinned down exactly, and the interpretation of a command-record lookup.

use vstd::prelude::*;

use crate::bytes::push_all;
use crate::error::CacheError;
use crate::record::CachedCommand;

verus! {

/// Path separator.
pub const SLASH: u8 = 0x2f;

/// `files`
pub open spec fn spec_file_folder_name() -> Seq<u8> {
    seq![102u8, 105u8, 108u8, 101u8, 115u8]
}

/// `commands`
pub open spec fn spec_command_dir_name() -> Seq<u8> {
    seq![99u8, 111u8, 109u8, 109u8, 97u8, 110u8, 100u8, 115u8]
}

/// `command.json`
pub open spec fn spec_command_file_name() -> Seq<u8> {
    seq![99u8, 111u8, 109u8, 109u8, 97u8, 110u8, 100u8, 46u8, 106u8, 115u8, 111u8, 110u8]
}

/// `compressed`
pub open spec fn spec_compressed_file_name() -> Seq<u8> {
    seq![99u8, 111u8, 109u8, 112u8, 114u8, 101u8, 115u8, 115u8, 101u8, 100u8]
}

/// `file.json`
pub open spec fn spec_data_file_name() -> Seq<u8> {
    seq![102u8, 105u8, 108u8, 101u8, 46u8, 106u8, 115u8, 111u8, 110u8]
}

/// `files` as a vector.
pub fn file_folder_name() -> (r: Vec<u8>)
    ensures
        r@ == spec_file_folder_name(),
{
    let v: Vec<u8> = vec![102u8, 105u8, 108u8, 101u8, 115u8];
    proof {
        assert(v@ =~= spec_file_folder_name());
    }
    v
}

/// `command.json` as a vector.
pub fn command_file_name() -> (r: Vec<u8>)
    ensures
        r@ == spec_command_file_name(),
{
    let v: Vec<u8> = vec![99u8, 111u8, 109u8, 109u8, 97u8, 110u8, 100u8, 46u8, 106u8, 115u8, 111u8, 110u8];
    proof {
        assert(v@ =~= spec_command_file_name());
    }
    v
}

/// `compressed` as a vector.
pub fn compressed_file_name() -> (r: Vec<u8>)
    ensures
        r@ == spec_compressed_file_name(),
{
    let v: Vec<u8> = vec![99u8, 111u8, 109u8, 112u8, 114u8, 101u8, 115u8, 115u8, 101u8, 100u8];
    proof {
        assert(v@ =~= spec_compressed_file_name());
    }
    v
}

/// `file.json` as a vector.
pub fn data_file_name() -> (r: Vec<u8>)
    ensures
        r@ == spec_data_file_name(),
{
    let v: Vec<u8> = vec![102u8, 105u8, 108u8, 101u8, 46u8, 106u8, 115u8, 111u8, 110u8];
    proof {
        assert(v@ =~= spec_data_file_name());
    }
    v
}

/// A path joined with one more component.
pub open spec fn spec_join_path(dir: Seq<u8>, name: Seq<u8>) -> Seq<u8> {
    dir + seq![SLASH] + name
}

/// Join a path with one more component.
pub fn join_path(dir: &Vec<u8>, name: &Vec<u8>) -> (r: Vec<u8>)
    ensures
        r@ == spec_join_path(dir@, name@),
{
    let mut out: Vec<u8> = Vec::new();
    push_all(&mut out, dir);
    out.push(SLASH);
    push_all(&mut out, name);
    proof {
        assert(out@ =~= spec_join_path(dir@, name@));
    }
    out
}

/// Whether a path's last component is `name`.
pub open spec fn spec_ends_with_component(path: Seq<u8>, name: Seq<u8>) -> bool {
    ||| path == name
    ||| (path.len() > name.len() && path.skip(path.len() - name.len()) == name && path[path.len()
        - name.len() - 1] == SLASH)
}

/// Whether a path's last component is `name`.
pub fn ends_with_component(path: &Vec<u8>, name: &Vec<u8>) -> (r: bool)
    ensures
        r == spec_ends_with_component(path@, name@),
{
    let np = path.len();
    let nn = name.len();
    if np < nn {
        return false;
    }
    if np > nn && path[np - nn - 1] != SLASH {
        return false;
    }
    let start = np - nn;
    let mut i: usize = 0;
    while i < nn
        invariant
            np == path@.len(),
            nn == name@.len(),
            nn <= np,
            start == np - nn,
            i <= nn,
            forall|k: int| 0 <= k < i ==> path@[start + k] == name@[k],
        decreases nn - i,
    {
        if path[start + i] != name[i] {
            proof {
                assert(path@.skip(start as int)[i as int] != name@[i as int]);
                if np == nn {
                    assert(path@[i as int] != name@[i as int]);
                }
            }
            return false;
        }
        i = i + 1;
    }
    proof {
        assert(path@.skip(start as int) =~= name@);
        if np == nn {
            assert(path@ =~= name@);
        }
    }
    true
}

/// The blob area of a cache directory: the directory itself when it already
/// is the `files` folder, else its `files` subdirectory.
pub open spec fn spec_file_cache_dir(path: Seq<u8>) -> Seq<u8> {
    if spec_ends_with_component(path, spec_file_folder_name()) {
        path
    } else {
        spec_join_path(path, spec_file_folder_name())
    }
}

/// Resolve the blob area of a cache directory.
pub fn to_file_cache_dir(path: &Vec<u8>) -> (r: Vec<u8>)
    ensures
        r@ == spec_file_cache_dir(path@),
{
    let name = file_folder_name();
    if ends_with_component(path, &name) {
        let mut out: Vec<u8> = Vec::new();
        push_all(&mut out, path);
        proof {
            assert(out@ =~= path@);
        }
        out
    } else {
        join_path(path, &name)
    }
}

/// The directory of the blob stored under a hash (hex-named).
pub open spec fn spec_file_dir(root: Seq<u8>, hash_hex: Seq<u8>) -> Seq<u8> {
    spec_join_path(spec_file_cache_dir(root), hash_hex)
}

/// The directory of the command record stored under a fingerprint (hex-named).
pub open spec fn spec_command_dir(root: Seq<u8>, hash_hex: Seq<u8>) -> Seq<u8> {
    spec_join_path(spec_join_path(root, spec_command_dir_name()), hash_hex)
}

/// The root of one cache directory tree.
pub struct CacheFolder {
    pub root: Vec<u8>,
}

impl CacheFolder {
    /// A cache folder rooted at the given directory.
    pub fn new(root: Vec<u8>) -> (r: Self)
        ensures
            r.root@ == root@,
    {
        CacheFolder { root }
    }

    /// The directory that holds (or would hold) the blob of the given hash.
    pub fn file_dir(&self, hash_hex: &Vec<u8>) -> (r: Vec<u8>)
        ensures
            r@ == spec_file_dir(self.root@, hash_hex@),
    {
        let area = to_file_cache_dir(&self.root);
        join_path(&area, hash_hex)
    }

    /// The path of a blob's compressed payload.
    pub fn blob_payload_path(&self, hash_hex: &Vec<u8>) -> (r: Vec<u8>)
        ensures
            r@ == spec_join_path(spec_file_dir(self.root@, hash_hex@), spec_compressed_file_name()),
    {
        let dir = self.file_dir(hash_hex);
        let name = compressed_file_name();
        join_path(&dir, &name)
    }

    /// The path of a blob's metadata document.
    pub fn blob_data_path(&self, hash_hex: &Vec<u8>) -> (r: Vec<u8>)
        ensures
            r@ == spec_join_path(spec_file_dir(self.root@, hash_hex@), spec_data_file_name()),
    {
        let dir = self.file_dir(hash_hex);
        let name = data_file_name();
        join_path(&dir, &name)
    }

    /// The directory that holds (or would hold) the record of the given
    /// fingerprint.
    pub fn command_dir(&self, hash_hex: &Vec<u8>) -> (r: Vec<u8>)
        ensures
            r@ == spec_command_dir(self.root@, hash_hex@),
    {
        let name: Vec<u8> = vec![99u8, 111u8, 109u8, 109u8, 97u8, 110u8, 100u8, 115u8];
        proof {
            assert(name@ =~= spec_command_dir_name());
        }
        let area = join_path(&self.root, &name);
        join_path(&area, hash_hex)
    }

    /// The path of a record's document.
    pub fn command_json_path(&self, hash_hex: &Vec<u8>) -> (r: Vec<u8>)
        ensures
            r@ == spec_join_path(
                spec_command_dir(self.root@, hash_hex@),
                spec_command_file_name(),
            ),
    {
        let dir = self.command_dir(hash_hex);
        let name = command_file_name();
        join_path(&dir, &name)
    }

    /// Interpret a command-record lookup from what is on disk: a missing
    /// record directory means the fingerprint is unknown; a directory without
    /// its document is a corrupt entry, reported with that document's path; a
    /// document that did not parse is malformed data.
    pub fn get_cashed_command(
        &self,
        hash_hex: &Vec<u8>,
        folder_exists: bool,
        file_exists: bool,
        parsed: Option<CachedCommand>,
    ) -> (r: Result<CachedCommand, CacheError>)
        ensures
            !folder_exists ==> (r matches Err(CacheError::OpenPathError(p)) && p@
                == spec_command_dir(self.root@, hash_hex@)),
            folder_exists && !file_exists ==> (r matches Err(CacheError::OpenPathError(p)) && p@
                == spec_join_path(
                spec_command_dir(self.root@, hash_hex@),
                spec_command_file_name(),
            )),
            folder_exists && file_exists && parsed is None ==> r == Err::<
                CachedCommand,
                CacheError,
            >(CacheError::MalformedData),
            folder_exists && file_exists && parsed is Some ==> (r matches Ok(c) && c
                == parsed->0),
    {
        if !folder_exists {
            return Err(CacheError::OpenPathError(self.command_dir(hash_hex)));
        }
        if !file_exists {
            return Err(CacheError::OpenPathError(self.command_json_path(hash_hex)));
        }
        match parsed {
            None => Err(CacheError::MalformedData),
            Some(c) => Ok(c),
        }
    }
}

} // verus!
