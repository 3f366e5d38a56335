//! Managed storage layout: maps a source audio file's path onto a stable
//! managed directory, names the copied audio artifact, and plans the
//! idempotent materialization of both.
//!
//! Paths are modeled as plain `/`-separated strings; the host application
//! resolves the local application data directory and performs the planned
//! filesystem actions.

use vstd::prelude::*;
use vstd::string::*;
use crate::fingerprint::{fingerprint_hex, hex_of, md5_of};
use crate::textutil::{last_index_of, rfind_char, str_to_chars, string_from_range};

verus! {

/// The file-name part of a path: everything after the last separator.
pub open spec fn file_name_spec(p: Seq<char>) -> Seq<char> {
    match last_index_of(p, '/') {
        Some(i) => p.subrange(i + 1, p.len() as int),
        None => p,
    }
}

/// The directory part of a path: everything up to and including the last
/// separator, empty when the path has none.
pub open spec fn dir_prefix_spec(p: Seq<char>) -> Seq<char> {
    match last_index_of(p, '/') {
        Some(i) => p.subrange(0, i + 1),
        None => Seq::empty(),
    }
}

/// The stem of a file name: everything before the last dot, except that a
/// name whose only dot is the leading one keeps it all.
pub open spec fn stem_of_name(name: Seq<char>) -> Seq<char> {
    match last_index_of(name, '.') {
        Some(i) => if i > 0 {
            name.subrange(0, i)
        } else {
            name
        },
        None => name,
    }
}

/// The extension of a file name: everything after the last dot, absent when
/// there is no dot past the first character.
pub open spec fn ext_of_name(name: Seq<char>) -> Option<Seq<char>> {
    match last_index_of(name, '.') {
        Some(i) => if i > 0 {
            Some(name.subrange(i + 1, name.len() as int))
        } else {
            None
        },
        None => None,
    }
}

/// The stem of a path's file name.
pub open spec fn file_stem_spec(p: Seq<char>) -> Seq<char> {
    stem_of_name(file_name_spec(p))
}

/// The extension of a path's file name.
pub open spec fn extension_spec(p: Seq<char>) -> Option<Seq<char>> {
    ext_of_name(file_name_spec(p))
}

/// Extracts the file-name part of a path.
pub fn file_name_of(p: &str) -> (r: String)
    ensures
        r@ == file_name_spec(p@),
{
    let chars = str_to_chars(p);
    let n = chars.len();
    match rfind_char(&chars, '/') {
        Some(i) => string_from_range(&chars, i + 1, n),
        None => {
            let r = string_from_range(&chars, 0, chars.len());
            proof {
                assert(chars@.subrange(0, chars@.len() as int) =~= p@);
            }
            r
        },
    }
}

/// Extracts the stem of a path's file name.
pub fn file_stem_of(p: &str) -> (r: String)
    ensures
        r@ == file_stem_spec(p@),
{
    let name = file_name_of(p);
    let chars = str_to_chars(name.as_str());
    match rfind_char(&chars, '.') {
        Some(i) => {
            if i > 0 {
                string_from_range(&chars, 0, i)
            } else {
                let r = string_from_range(&chars, 0, chars.len());
                proof {
                    assert(chars@.subrange(0, chars@.len() as int) =~= name@);
                }
                r
            }
        },
        None => {
            let r = string_from_range(&chars, 0, chars.len());
            proof {
                assert(chars@.subrange(0, chars@.len() as int) =~= name@);
            }
            r
        },
    }
}

/// Extracts the extension of a path's file name.
pub fn extension_of(p: &str) -> (r: Option<String>)
    ensures
        match r {
            Some(e) => extension_spec(p@) == Some(e@),
            None => extension_spec(p@) is None,
        },
{
    let name = file_name_of(p);
    let chars = str_to_chars(name.as_str());
    let n = chars.len();
    match rfind_char(&chars, '.') {
        Some(i) => {
            if i > 0 {
                Some(string_from_range(&chars, i + 1, n))
            } else {
                None
            }
        },
        None => None,
    }
}

/// The root of the managed storage tree under the host's local application
/// data directory.
pub open spec fn storage_root_spec(local_data_dir: Seq<char>) -> Seq<char> {
    local_data_dir + "/open-recorder"@
}

/// The directory holding per-fingerprint insights cache files.
pub open spec fn summaries_dir_spec(local_data_dir: Seq<char>) -> Seq<char> {
    storage_root_spec(local_data_dir) + "/summaries"@
}

/// The insights cache file for a fingerprint.
pub open spec fn cache_file_path_spec(local_data_dir: Seq<char>, hash: Seq<char>) -> Seq<char> {
    summaries_dir_spec(local_data_dir) + "/"@ + hash + ".txt"@
}

/// The managed directory name for a source path: its stem, a dash, and the
/// first six hex characters of the fingerprint of the full path string.
pub open spec fn managed_dir_name_spec(p: Seq<char>) -> Seq<char> {
    file_stem_spec(p) + "-"@ + hex_of(md5_of(p)).take(6)
}

/// The managed directory path for a source path.
pub open spec fn managed_path_spec(local_data_dir: Seq<char>, p: Seq<char>) -> Seq<char> {
    storage_root_spec(local_data_dir) + "/audios/"@ + managed_dir_name_spec(p)
}

/// The name of the copied audio artifact inside a managed directory: the
/// source file's extension, or `bin` when it has none.
pub open spec fn artifact_name_spec(p: Seq<char>) -> Seq<char> {
    "audio."@ + match extension_spec(p) {
        Some(e) => e,
        None => "bin"@,
    }
}

/// The full path of the copied audio artifact for a source path.
pub open spec fn artifact_path_spec(local_data_dir: Seq<char>, p: Seq<char>) -> Seq<char> {
    managed_path_spec(local_data_dir, p) + "/"@ + artifact_name_spec(p)
}

/// The managed transcript file for a source path.
pub open spec fn managed_transcript_path_spec(local_data_dir: Seq<char>, p: Seq<char>) -> Seq<
    char,
> {
    managed_path_spec(local_data_dir, p) + "/transcript.txt"@
}

/// The legacy sidecar transcript beside the source file: the source path
/// with its extension replaced by `txt`.
pub open spec fn sidecar_path_spec(p: Seq<char>) -> Seq<char> {
    dir_prefix_spec(p) + file_stem_spec(p) + ".txt"@
}

/// Computes the managed storage root from the host-resolved local
/// application data directory.
pub fn get_storage_root(local_data_dir: &str) -> (r: String)
    ensures
        r@ == storage_root_spec(local_data_dir@),
{
    String::from_str(local_data_dir).concat("/open-recorder")
}

/// Computes the insights directory under the storage root.
pub fn get_insights_dir(local_data_dir: &str) -> (r: String)
    ensures
        r@ == storage_root_spec(local_data_dir@) + "/insights"@,
{
    get_storage_root(local_data_dir).concat("/insights")
}

/// Computes the summaries cache directory under the storage root.
pub fn get_summaries_dir(local_data_dir: &str) -> (r: String)
    ensures
        r@ == summaries_dir_spec(local_data_dir@),
{
    get_storage_root(local_data_dir).concat("/summaries")
}

/// Computes the insights cache file path for a fingerprint.
pub fn get_cache_file_path(local_data_dir: &str, hash: &str) -> (r: String)
    ensures
        r@ == cache_file_path_spec(local_data_dir@, hash@),
{
    get_summaries_dir(local_data_dir).concat("/").concat(hash).concat(".txt")
}

/// Derives the managed directory name for a source path. The name is a pure
/// function of the full path string, so it is stable across runs, and two
/// sources sharing a stem but not a path get different suffixes with
/// overwhelming probability.
pub fn get_managed_audio_dir_name(source_path: &str) -> (r: String)
    ensures
        r@ == managed_dir_name_spec(source_path@),
{
    let stem = file_stem_of(source_path);
    let hash = fingerprint_hex(source_path);
    let hash_chars = str_to_chars(hash.as_str());
    let hash6 = string_from_range(&hash_chars, 0, 6);
    proof {
        assert(hash_chars@.subrange(0, 6) =~= hex_of(md5_of(source_path@)).take(6));
    }
    stem.concat("-").concat(hash6.as_str())
}

/// Locates the managed directory for a source path; pure, never touches
/// the disk.
pub fn get_managed_path(local_data_dir: &str, source_path: &str) -> (r: String)
    ensures
        r@ == managed_path_spec(local_data_dir@, source_path@),
{
    let dir_name = get_managed_audio_dir_name(source_path);
    get_storage_root(local_data_dir).concat("/audios/").concat(dir_name.as_str())
}

/// Computes the managed transcript file path for a source path.
pub fn get_managed_transcript_path(local_data_dir: &str, source_path: &str) -> (r: String)
    ensures
        r@ == managed_transcript_path_spec(local_data_dir@, source_path@),
{
    get_managed_path(local_data_dir, source_path).concat("/transcript.txt")
}

/// Computes the legacy sidecar transcript path for a source path.
pub fn get_sidecar_path(source_path: &str) -> (r: String)
    ensures
        r@ == sidecar_path_spec(source_path@),
{
    let chars = str_to_chars(source_path);
    let n = chars.len();
    let prefix = match rfind_char(&chars, '/') {
        Some(i) => {
            assert(i + 1 <= n);
            string_from_range(&chars, 0, i + 1)
        },
        None => {
            let r = String::new();
            proof {
                assert(r@ =~= dir_prefix_spec(source_path@));
            }
            r
        },
    };
    let stem = file_stem_of(source_path);
    prefix.concat(stem.as_str()).concat(".txt")
}

/// The existence snapshot the materializer decides from.
pub struct StorageState {
    /// Whether the managed directory already exists.
    pub dir_exists: bool,
    /// Whether the copied audio artifact already exists.
    pub artifact_exists: bool,
}

/// What the materializer does for a given snapshot: create the directory
/// exactly when it is missing, copy the artifact exactly when it is missing.
pub open spec fn ensure_plan_spec(s: StorageState) -> (bool, bool) {
    (!s.dir_exists, !s.artifact_exists)
}

/// The snapshot after the planned actions ran: both parts exist.
pub open spec fn ensure_apply_spec(s: StorageState) -> StorageState {
    StorageState { dir_exists: true, artifact_exists: true }
}

/// The materialization plan for one source path.
pub struct EnsurePlan {
    /// The managed directory to create (when planned) and return.
    pub managed_dir: String,
    /// Whether the directory must be created.
    pub create_dir: bool,
    /// The full path of the audio artifact.
    pub artifact_path: String,
    /// Whether the source bytes must be copied to the artifact path.
    pub copy_artifact: bool,
}

/// Plans the materialization of a source path's managed directory, given
/// which parts already exist. The host runs the plan: create the directory
/// first, then copy the source file to the artifact path. The source file
/// itself is never written.
pub fn ensure_audio_dir_plan(
    local_data_dir: &str,
    source_path: &str,
    dir_exists: bool,
    artifact_exists: bool,
) -> (r: EnsurePlan)
    ensures
        r.managed_dir@ == managed_path_spec(local_data_dir@, source_path@),
        r.artifact_path@ == artifact_path_spec(local_data_dir@, source_path@),
        (r.create_dir, r.copy_artifact) == ensure_plan_spec(
            StorageState { dir_exists, artifact_exists },
        ),
{
    let managed_dir = get_managed_path(local_data_dir, source_path);
    let ext = extension_of(source_path);
    let artifact_name = match ext {
        Some(e) => String::from_str("audio.").concat(e.as_str()),
        None => String::from_str("audio.").concat("bin"),
    };
    proof {
        assert(artifact_name@ == artifact_name_spec(source_path@));
    }
    let artifact_path = managed_dir.clone().concat("/").concat(artifact_name.as_str());
    EnsurePlan { managed_dir, create_dir: !dir_exists, artifact_path, copy_artifact: !artifact_exists }
}

/// Finds the transcript path a caller should read, without touching the
/// disk: the managed transcript when it exists, else the legacy sidecar
/// when that exists, else none. The host hands in the two existence
/// flags; no migration happens here.
pub fn get_transcript_path(
    local_data_dir: &str,
    source_path: &str,
    managed_exists: bool,
    sidecar_exists: bool,
) -> (r: Option<String>)
    ensures
        managed_exists ==> (r matches Some(p) && p@ == managed_transcript_path_spec(
            local_data_dir@,
            source_path@,
        )),
        !managed_exists && sidecar_exists ==> (r matches Some(p) && p@ == sidecar_path_spec(
            source_path@,
        )),
        r is None <==> !managed_exists && !sidecar_exists,
{
    if managed_exists {
        Some(get_managed_transcript_path(local_data_dir, source_path))
    } else if sidecar_exists {
        Some(get_sidecar_path(source_path))
    } else {
        None
    }
}

/// Locating a source path is pure and deterministic: the managed path is a
/// function of the storage root and the path string alone, so recomputing
/// it yields the same directory, and neither the file's content nor its
/// modification time enters the result.
pub proof fn lemma_locate_deterministic(
    local_data_dir: Seq<char>,
    p1: Seq<char>,
    p2: Seq<char>,
)
    requires
        p1 == p2,
    ensures
        managed_path_spec(local_data_dir, p1) == managed_path_spec(local_data_dir, p2),
{
}

/// Materialization is idempotent: after one run of the plan both the
/// directory and the artifact exist, a second plan for the same source
/// performs no directory creation and no copy, and across the two runs the
/// source bytes are copied exactly once when the artifact was missing and
/// never when it was already there.
pub proof fn lemma_ensure_idempotent(s: StorageState)
    ensures
        ensure_apply_spec(s).dir_exists,
        ensure_apply_spec(s).artifact_exists,
        ensure_plan_spec(ensure_apply_spec(s)).0 == false,
        ensure_plan_spec(ensure_apply_spec(s)).1 == false,
        ensure_plan_spec(s).1 == !s.artifact_exists,
{
}

} // verus!
