//! Download locations of a toolchain's files, and the integrity gate that every
//! downloaded file passes before anything is installed.

use std::io::Cursor;

use vstd::prelude::*;

use crate::archive::ArchiveError;
use crate::checksum::{algorithm_prefix, fingerprint_of, is_supported, is_supported_checksum, sha256_of, verify};
use crate::registry::{File, Registry, Toolchain};
use crate::zipio::{open_archive, zip_all_readable, zip_parsed, zip_stored};

verus! {

#[verifier::external_type_specification]
#[verifier::external_body]
pub struct ExUrlParseError(url::ParseError);

/// The serialization of a parsed URL, where the text is a valid absolute URL.
pub uninterp spec fn url_parsed(s: Seq<char>) -> Option<Seq<char>>;

/// The serialization of `rel` resolved against the URL `base`, where both parse.
pub uninterp spec fn url_joined(base: Seq<char>, rel: Seq<char>) -> Option<Seq<char>>;

/// The content that xz decompression gives for a byte string, where it is valid
/// xz data.
pub uninterp spec fn xz_decoded(data: Seq<u8>) -> Option<Seq<u8>>;

/// Relies on `url::Url::parse` and `Url::as_str`: the serialization of an absolute
/// URL; an error exactly when the text is no valid URL.
#[verifier::external_body]
fn parse_url(s: &str) -> (r: Result<String, url::ParseError>)
    ensures
        r is Ok <==> url_parsed(s@) is Some,
        r matches Ok(u) ==> url_parsed(s@) == Some(u@),
{
    url::Url::parse(s).map(|u| u.as_str().to_owned())
}

/// The serialization of a registry location, if it is a valid URL.
pub fn parse_registry_url(s: &str) -> (r: Result<String, url::ParseError>)
    ensures
        r is Ok <==> url_parsed(s@) is Some,
        r matches Ok(u) ==> url_parsed(s@) == Some(u@),
{
    parse_url(s)
}

/// Relies on `url::Url::parse` then `Url::join`: `rel` resolved against `base`;
/// an error exactly when either step fails.
#[verifier::external_body]
fn join_url(base: &str, rel: &str) -> (r: Result<String, url::ParseError>)
    ensures
        r is Ok <==> url_joined(base@, rel@) is Some,
        r matches Ok(u) ==> url_joined(base@, rel@) == Some(u@),
{
    url::Url::parse(base).and_then(|b| b.join(rel)).map(|u| u.as_str().to_owned())
}

/// Relies on xz2's `bufread::XzDecoder` read to the end: the decompressed bytes;
/// an error exactly when the input is no valid xz data.
#[verifier::external_body]
fn xz_decompress(data: &[u8]) -> (r: Result<Vec<u8>, std::io::Error>)
    ensures
        r is Ok <==> xz_decoded(data@) is Some,
        r matches Ok(v) ==> xz_decoded(data@) == Some(v@),
{
    let mut out = Vec::new();
    std::io::Read::read_to_end(&mut xz2::bufread::XzDecoder::new(data), &mut out).map(|_| out)
}

/// Why a toolchain could not be downloaded or installed.
#[derive(Debug)]
pub enum InstallError {
    /// The registry lists no library bundle for the toolchain.
    MissingCore,
    /// The registry declares a checksum of an unsupported algorithm for this file.
    InvalidChecksum { filename: String },
    /// A download location is not a valid URL.
    Url(url::ParseError),
    /// Fetching this file failed.
    Network { filename: String, message: String },
    /// This file's content is not valid xz data.
    Decompress { filename: String },
    /// This file's content does not have the declared fingerprint.
    ChecksumMismatch { filename: String },
    /// The download tasks did not report exactly one result per file.
    TaskMismatch,
    /// The library bundle is not a valid archive.
    Archive(ArchiveError),
}

/// The text `a/b/`.
pub open spec fn two_segments(a: Seq<char>, b: Seq<char>) -> Seq<char> {
    a + seq!['/'] + b + seq!['/']
}

fn segments(a: &str, b: &str) -> (r: String)
    ensures
        r@ == two_segments(a@, b@),
{
    proof {
        reveal_strlit("/");
    }
    let mut s = a.to_owned();
    s.append("/");
    s.append(b);
    s.append("/");
    s
}

/// Where the registry index for an architecture is: `<registry>/<arch>/`.
pub open spec fn registry_index(registry: Seq<char>, arch: Seq<char>) -> Option<Seq<char>> {
    match url_parsed(registry) {
        Some(base) => url_joined(base, arch + seq!['/']),
        None => None,
    }
}

/// Where the registry index for an architecture is: `<registry>/<arch>/`.
pub fn registry_url(registry: &str, arch: &str) -> (r: Result<String, url::ParseError>)
    ensures
        r is Ok <==> registry_index(registry@, arch@) is Some,
        r matches Ok(u) ==> registry_index(registry@, arch@) == Some(u@),
{
    proof {
        reveal_strlit("/");
        assert("/"@ =~= seq!['/']);
    }
    let base = parse_url(registry)?;
    let mut rel = arch.to_owned();
    rel.append("/");
    join_url(base.as_str(), rel.as_str())
}

/// The base location of a toolchain's files for one architecture tag:
/// `<downloadfrom>/<toolchain>/<tag>/`.
pub open spec fn files_base(downloadfrom: Seq<char>, toolchain: Seq<char>, tag: Seq<char>) -> Option<Seq<char>> {
    match url_parsed(downloadfrom) {
        Some(root) => url_joined(root, two_segments(toolchain, tag)),
        None => None,
    }
}

/// A file's location under a base location.
pub open spec fn file_location(base: Option<Seq<char>>, file: Seq<char>) -> Option<Seq<char>> {
    match base {
        Some(b) => url_joined(b, file),
        None => None,
    }
}

fn base_url(registry: &Registry, toolchain: &Toolchain, tag: &str) -> (r: Result<String, InstallError>)
    ensures
        r is Ok <==> files_base(registry.downloadfrom@, toolchain.name@, tag@) is Some,
        r matches Ok(u) ==> files_base(registry.downloadfrom@, toolchain.name@, tag@) == Some(u@),
        r is Err ==> r matches Err(InstallError::Url(_)),
{
    let root = match parse_url(registry.downloadfrom.as_str()) {
        Ok(u) => u,
        Err(e) => {
            return Err(InstallError::Url(e));
        },
    };
    let rel = segments(toolchain.name.as_str(), tag);
    match join_url(root.as_str(), rel.as_str()) {
        Ok(u) => Ok(u),
        Err(e) => Err(InstallError::Url(e)),
    }
}

/// Where each binary of a toolchain is downloaded from:
/// `<downloadfrom>/<toolchain>/<arch>/<file>`. Fails, with the URL error, exactly
/// when one of these locations is no valid URL.
pub fn binary_urls(registry: &Registry, toolchain: &Toolchain, arch: &str) -> (r: Result<Vec<String>, InstallError>)
    ensures
        r is Ok <==> (files_base(registry.downloadfrom@, toolchain.name@, arch@) is Some
            && forall|i: int| 0 <= i < toolchain.bin@.len() ==> (#[trigger] file_location(
                files_base(registry.downloadfrom@, toolchain.name@, arch@),
                toolchain.bin@[i].downloadfrom@,
            )) is Some),
        r is Err ==> r matches Err(InstallError::Url(_)),
        r matches Ok(urls) ==> {
            &&& urls@.len() == toolchain.bin@.len()
            &&& forall|i: int| 0 <= i < urls@.len() ==> Some((#[trigger] urls@[i])@) == file_location(
                files_base(registry.downloadfrom@, toolchain.name@, arch@),
                toolchain.bin@[i].downloadfrom@,
            )
        },
{
    let ghost fb = files_base(registry.downloadfrom@, toolchain.name@, arch@);
    let base = base_url(registry, toolchain, arch)?;
    let mut urls: Vec<String> = Vec::new();
    let mut i: usize = 0;
    while i < toolchain.bin.len()
        invariant
            i <= toolchain.bin@.len(),
            fb == Some(base@),
            fb == files_base(registry.downloadfrom@, toolchain.name@, arch@),
            urls@.len() == i,
            forall|k: int| 0 <= k < i ==> Some((#[trigger] urls@[k])@) == file_location(fb, toolchain.bin@[k].downloadfrom@),
        decreases toolchain.bin@.len() - i,
    {
        match join_url(base.as_str(), toolchain.bin[i].downloadfrom.as_str()) {
            Ok(u) => urls.push(u),
            Err(e) => {
                proof {
                    assert(file_location(fb, toolchain.bin@[i as int].downloadfrom@) is None);
                }
                return Err(InstallError::Url(e));
            },
        }
        i = i + 1;
    }
    proof {
        assert forall|k: int| 0 <= k < toolchain.bin@.len() implies (#[trigger] file_location(fb, toolchain.bin@[k].downloadfrom@)) is Some by {
            assert(Some(urls@[k]@) == file_location(fb, toolchain.bin@[k].downloadfrom@));
        }
    }
    Ok(urls)
}

/// Where the library bundle of a toolchain is downloaded from:
/// `<downloadfrom>/<toolchain>/multiarch/<file>`, for its first bundle.
pub fn core_url(registry: &Registry, toolchain: &Toolchain) -> (r: Result<String, InstallError>)
    ensures
        toolchain.core@.len() == 0 <==> r matches Err(InstallError::MissingCore),
        toolchain.core@.len() > 0 ==> (r is Ok <==> file_location(
            files_base(registry.downloadfrom@, toolchain.name@, "multiarch"@),
            toolchain.core@[0].downloadfrom@,
        ) is Some),
        toolchain.core@.len() > 0 && r is Err ==> r matches Err(InstallError::Url(_)),
        r matches Ok(u) ==> Some(u@) == file_location(
            files_base(registry.downloadfrom@, toolchain.name@, "multiarch"@),
            toolchain.core@[0].downloadfrom@,
        ),
{
    if toolchain.core.len() == 0 {
        return Err(InstallError::MissingCore);
    }
    let base = base_url(registry, toolchain, "multiarch")?;
    match join_url(base.as_str(), toolchain.core[0].downloadfrom.as_str()) {
        Ok(u) => Ok(u),
        Err(e) => Err(InstallError::Url(e)),
    }
}

/// What fetching one file gave.
#[derive(Clone, Debug)]
pub enum FetchOutcome {
    /// The full response body.
    Fetched(Vec<u8>),
    /// The transfer or the status failed; the message says how.
    Failed(String),
}

/// Whether a fetched binary passes the integrity gate: it is valid xz data whose
/// decompressed content has the declared fingerprint.
pub open spec fn binary_verified(file: File, compressed: Seq<u8>) -> bool {
    match xz_decoded(compressed) {
        Some(d) => file.checksum@ == fingerprint_of(sha256_of(d)),
        None => false,
    }
}

proof fn lemma_fingerprint_supported(d: Seq<u8>)
    ensures
        is_supported_checksum(fingerprint_of(d)),
{
    assert(fingerprint_of(d).subrange(0, 7) =~= algorithm_prefix());
}

/// Decompresses a fetched binary and checks it against its declared checksum; a
/// checksum of an unsupported algorithm is a registry error, whatever was fetched.
/// Each error names the file.
pub fn verify_binary(file: &File, outcome: FetchOutcome) -> (r: Result<Vec<u8>, InstallError>)
    ensures
        !is_supported_checksum(file.checksum@) <==> r matches Err(InstallError::InvalidChecksum { .. }),
        r matches Err(InstallError::InvalidChecksum { filename }) ==> filename@ == file.filename@,
        is_supported_checksum(file.checksum@) && outcome is Failed ==> r matches Err(InstallError::Network { .. }),
        r matches Err(InstallError::Network { filename, .. }) ==> filename@ == file.filename@ && outcome is Failed,
        outcome matches FetchOutcome::Fetched(body) ==> {
            &&& is_supported_checksum(file.checksum@) ==> (r is Ok <==> binary_verified(*file, body@))
            &&& r matches Ok(v) ==> xz_decoded(body@) == Some(v@) && binary_verified(*file, body@)
            &&& is_supported_checksum(file.checksum@) ==> (r matches Err(InstallError::Decompress { .. }) <==> xz_decoded(body@) is None)
            &&& r matches Err(InstallError::ChecksumMismatch { filename }) ==> filename@ == file.filename@
                && xz_decoded(body@) is Some && !binary_verified(*file, body@)
            &&& r matches Err(InstallError::Decompress { filename }) ==> filename@ == file.filename@
            &&& r is Err ==> (r matches Err(InstallError::ChecksumMismatch { .. }) || r matches Err(InstallError::Decompress { .. })
                || r matches Err(InstallError::InvalidChecksum { .. }))
        },
{
    if !is_supported(&file.checksum) {
        return Err(InstallError::InvalidChecksum { filename: file.filename.clone() });
    }
    match outcome {
        FetchOutcome::Failed(message) => Err(InstallError::Network { filename: file.filename.clone(), message }),
        FetchOutcome::Fetched(body) => {
            let content = match xz_decompress(body.as_slice()) {
                Ok(c) => c,
                Err(_) => {
                    return Err(InstallError::Decompress { filename: file.filename.clone() });
                },
            };
            if verify(content.as_slice(), &file.checksum) {
                Ok(content)
            } else {
                Err(InstallError::ChecksumMismatch { filename: file.filename.clone() })
            }
        },
    }
}

/// Whether `content` is what the fetched body decompresses to.
pub open spec fn decompressed_from(outcome: FetchOutcome, content: Seq<u8>) -> bool {
    match outcome {
        FetchOutcome::Fetched(body) => xz_decoded(body@) == Some(content),
        FetchOutcome::Failed(_) => false,
    }
}

/// Whether a fetched library bundle has its declared fingerprint.
pub open spec fn bundle_verified(file: File, outcome: FetchOutcome) -> bool {
    match outcome {
        FetchOutcome::Fetched(body) => file.checksum@ == fingerprint_of(sha256_of(body@)),
        FetchOutcome::Failed(_) => false,
    }
}

/// Whether some reported result for binary `i` decompresses to `content`.
pub open spec fn fetched_for(completed: Seq<(usize, FetchOutcome)>, i: int, content: Seq<u8>) -> bool {
    exists|k: int| 0 <= k < completed.len() && (#[trigger] completed[k]).0 == i && decompressed_from(completed[k].1, content)
}

/// Whether a slot holds exactly this content.
pub open spec fn slot_holds(slot: Option<Vec<u8>>, content: Seq<u8>) -> bool {
    match slot {
        Some(c) => c@ == content,
        None => false,
    }
}

/// Whether a reported fetch result is for a declared binary and passes its gate.
pub open spec fn result_verified(bin: Seq<File>, result: (usize, FetchOutcome)) -> bool {
    &&& result.0 < bin.len()
    &&& result.1 matches FetchOutcome::Fetched(body) && binary_verified(bin[result.0 as int], body@)
}

/// Whether a reported result was fetched as valid xz data, for a declared binary
/// whose checksum names the supported algorithm.
pub open spec fn result_decodes(bin: Seq<File>, result: (usize, FetchOutcome)) -> bool {
    &&& result.0 < bin.len()
    &&& is_supported_checksum(bin[result.0 as int].checksum@)
    &&& result.1 matches FetchOutcome::Fetched(body) && xz_decoded(body@) is Some
}

/// Whether, with one result per binary and every body valid xz data, result `b`
/// is the only one that fails its gate.
pub open spec fn only_failure(bin: Seq<File>, completed: Seq<(usize, FetchOutcome)>, b: int) -> bool {
    &&& one_result_each(bin.len() as int, completed)
    &&& forall|k: int| 0 <= k < completed.len() ==> result_decodes(bin, #[trigger] completed[k])
    &&& 0 <= b < completed.len()
    &&& !result_verified(bin, completed[b])
    &&& forall|k: int| 0 <= k < completed.len() && k != b ==> result_verified(bin, #[trigger] completed[k])
}

/// Whether the fetch tasks reported exactly one result for each declared binary.
pub open spec fn one_result_each(n: int, completed: Seq<(usize, FetchOutcome)>) -> bool {
    &&& completed.len() == n
    &&& forall|k: int| 0 <= k < completed.len() ==> (#[trigger] completed[k]).0 < n
    &&& forall|j: int, k: int| 0 <= j < k < completed.len() ==> (#[trigger] completed[j]).0 != (#[trigger] completed[k]).0
    &&& forall|i: int| 0 <= i < n ==> #[trigger] reported(completed, i)
}

/// Whether some result was reported for binary `i`.
pub open spec fn reported(completed: Seq<(usize, FetchOutcome)>, i: int) -> bool {
    exists|k: int| 0 <= k < completed.len() && (#[trigger] completed[k]).0 == i
}

/// The binaries verified for installation: the content of each declared binary, in
/// declaration order, from fetch results reported in completion order as (index of
/// the binary, outcome). The first failure in completion order stops the whole set:
/// nothing is handed on for installation unless every binary passed its gate. With
/// one result per binary, all passing gives the set, and where every body decodes,
/// the only failure is a checksum error naming a file that failed its gate.
pub fn gather_binaries(bin: &Vec<File>, completed: Vec<(usize, FetchOutcome)>) -> (r: Result<Vec<Vec<u8>>, InstallError>)
    ensures
        r is Ok ==> completed@.len() == bin@.len(),
        r is Ok ==> forall|k: int| 0 <= k < completed@.len() ==> result_verified(bin@, #[trigger] completed@[k]),
        r matches Ok(contents) ==> {
            &&& contents@.len() == bin@.len()
            &&& forall|i: int| 0 <= i < bin@.len() ==> fetched_for(completed@, i, (#[trigger] contents@[i])@)
        },
        (exists|k: int| 0 <= k < completed@.len() && !result_verified(bin@, #[trigger] completed@[k])) ==> r is Err,
        one_result_each(bin@.len() as int, completed@)
            && (forall|k: int| 0 <= k < completed@.len() ==> result_verified(bin@, #[trigger] completed@[k])) ==> r is Ok,
        one_result_each(bin@.len() as int, completed@)
            && (forall|k: int| 0 <= k < completed@.len() ==> result_decodes(bin@, #[trigger] completed@[k]))
            ==> (r is Ok || r matches Err(InstallError::ChecksumMismatch { .. })),
        r matches Err(InstallError::ChecksumMismatch { filename }) ==> exists|k: int|
            0 <= k < completed@.len() && (#[trigger] completed@[k]).0 < bin@.len()
                && !result_verified(bin@, completed@[k]) && filename@ == bin@[completed@[k].0 as int].filename@,
        forall|b: int| #![trigger completed@[b]] only_failure(bin@, completed@, b) ==> (r matches Err(InstallError::ChecksumMismatch { filename })
            && filename@ == bin@[completed@[b].0 as int].filename@),
{
    let n = bin.len();
    let ghost all = completed@;
    let ghost once = one_result_each(bin@.len() as int, completed@);
    if completed.len() != n {
        return Err(InstallError::TaskMismatch);
    }
    let mut slots: Vec<Option<Vec<u8>>> = Vec::new();
    let mut i: usize = 0;
    while i < n
        invariant
            i <= n,
            slots@.len() == i,
            forall|m: int| 0 <= m < i ==> (#[trigger] slots@[m]) is None,
        decreases n - i,
    {
        slots.push(None);
        i = i + 1;
    }
    let mut rest = completed;
    let mut k: usize = 0;
    while k < n
        invariant
            k <= n,
            n == bin@.len(),
            all.len() == n,
            all == completed@,
            once == one_result_each(n as int, all),
            rest@ == all.subrange(k as int, n as int),
            slots@.len() == n,
            forall|j: int| 0 <= j < k ==> result_verified(bin@, #[trigger] all[j]),
            forall|j: int| 0 <= j < k ==> (#[trigger] all[j]).0 < n && slots@[all[j].0 as int] is Some,
            forall|m: int| 0 <= m < n ==> (#[trigger] slots@[m] matches Some(c) ==> exists|j: int|
                0 <= j < k && (#[trigger] all[j]).0 == m && decompressed_from(all[j].1, c@)),
        decreases n - k,
    {
        let (idx, outcome) = rest.remove(0);
        proof {
            assert(all[k as int] == (idx, outcome));
            assert(rest@ =~= all.subrange(k + 1, n as int));
        }
        if idx >= n {
            return Err(InstallError::TaskMismatch);
        }
        if slots[idx].is_some() {
            proof {
                let j = choose|j: int| 0 <= j < k && (#[trigger] all[j]).0 == idx as int
                    && decompressed_from(all[j].1, slots@[idx as int]->0@);
                assert(all[j].0 == all[k as int].0);
                if once {
                    assert(completed@[j].0 != completed@[k as int].0);
                }
            }
            return Err(InstallError::TaskMismatch);
        }
        let ghost og = outcome;
        proof {
            match og {
                FetchOutcome::Fetched(body) => {
                    if binary_verified(bin@[idx as int], body@) {
                        lemma_fingerprint_supported(xz_decoded(body@)->0);
                    }
                },
                _ => {},
            }
        }
        let content = match verify_binary(&bin[idx], outcome) {
            Ok(c) => c,
            Err(e) => {
                return Err(e);
            },
        };
        let ghost before = slots@;
        slots.set(idx, Some(content));
        proof {
            assert(result_verified(bin@, all[k as int]));
            assert forall|m: int| 0 <= m < n implies (#[trigger] slots@[m] matches Some(c) ==> exists|j: int|
                0 <= j < k + 1 && (#[trigger] all[j]).0 == m && decompressed_from(all[j].1, c@)) by {
                if m != idx {
                    assert(slots@[m] == before[m]);
                } else {
                    assert(all[k as int].0 == m);
                }
            }
            assert forall|j: int| 0 <= j < k + 1 implies (#[trigger] all[j]).0 < n && slots@[all[j].0 as int] is Some by {
                if j < k {
                    if all[j].0 != idx {
                        assert(slots@[all[j].0 as int] == before[all[j].0 as int]);
                    }
                }
            }
        }
        k = k + 1;
    }
    proof {
        if once {
            assert forall|m: int| 0 <= m < n implies (#[trigger] slots@[m]) is Some by {
                assert(reported(all, m));
                let j = choose|j: int| 0 <= j < all.len() && (#[trigger] all[j]).0 == m;
                assert(slots@[all[j].0 as int] is Some);
            }
        }
    }
    let mut contents: Vec<Vec<u8>> = Vec::new();
    let ghost filled = slots@;
    let mut i: usize = 0;
    while i < n
        invariant
            i <= n,
            n == bin@.len(),
            filled.len() == n,
            slots@ == filled.subrange(i as int, n as int),
            all == completed@,
            once == one_result_each(n as int, all),
            once ==> forall|m: int| 0 <= m < n ==> (#[trigger] filled[m]) is Some,
            contents@.len() == i,
            forall|m: int| 0 <= m < i ==> slot_holds(filled[m], (#[trigger] contents@[m])@),
        decreases n - i,
    {
        let slot = slots.remove(0);
        proof {
            assert(filled[i as int] == slot);
            assert(slots@ =~= filled.subrange(i + 1, n as int));
        }
        match slot {
            Some(c) => {
                let ghost before = contents@;
                contents.push(c);
                proof {
                    assert forall|m: int| 0 <= m < i + 1 implies slot_holds(filled[m], (#[trigger] contents@[m])@) by {
                        if m < i {
                            assert(contents@[m] == before[m]);
                        }
                    }
                }
            },
            None => {
                return Err(InstallError::TaskMismatch);
            },
        }
        i = i + 1;
    }
    proof {
        assert(all == completed@);
        assert forall|m: int| 0 <= m < bin@.len() implies fetched_for(completed@, m, (#[trigger] contents@[m])@) by {
            assert(slot_holds(filled[m], contents@[m]@));
            let c = filled[m]->0;
            let j = choose|j: int| 0 <= j < n && (#[trigger] all[j]).0 == m && decompressed_from(all[j].1, c@);
            assert(completed@[j] == all[j]);
        }
    }
    Ok(contents)
}

/// Checks the fetched library bundle against its declared checksum, on the bytes as
/// transferred, and opens it as an archive.
pub fn verify_core(toolchain: &Toolchain, outcome: FetchOutcome) -> (r: Result<zip::ZipArchive<Cursor<Vec<u8>>>, InstallError>)
    ensures
        toolchain.core@.len() == 0 <==> r matches Err(InstallError::MissingCore),
        toolchain.core@.len() > 0 ==> (!is_supported_checksum(toolchain.core@[0].checksum@)
            <==> r matches Err(InstallError::InvalidChecksum { .. })),
        r is Ok ==> bundle_verified(toolchain.core@[0], outcome),
        toolchain.core@.len() > 0 && is_supported_checksum(toolchain.core@[0].checksum@) && outcome is Failed
            ==> r matches Err(InstallError::Network { .. }),
        toolchain.core@.len() > 0 && is_supported_checksum(toolchain.core@[0].checksum@) && outcome is Fetched
            ==> (r matches Err(InstallError::ChecksumMismatch { .. }) <==> !bundle_verified(toolchain.core@[0], outcome)),
        r matches Err(InstallError::ChecksumMismatch { filename }) ==> filename@ == toolchain.core@[0].filename@,
        toolchain.core@.len() > 0 && bundle_verified(toolchain.core@[0], outcome)
            && (outcome matches FetchOutcome::Fetched(body) && zip_parsed(body@) is Some) ==> r is Ok,
        r matches Ok(a) ==> (outcome matches FetchOutcome::Fetched(body) && (zip_parsed(body@) is Some
            ==> zip_parsed(body@) == Some(zip_stored(a)) && zip_all_readable(a))),
{
    if toolchain.core.len() == 0 {
        return Err(InstallError::MissingCore);
    }
    let file = &toolchain.core[0];
    let ghost og = outcome;
    proof {
        match og {
            FetchOutcome::Fetched(body) => {
                if bundle_verified(*file, og) {
                    lemma_fingerprint_supported(sha256_of(body@));
                }
            },
            _ => {},
        }
    }
    if !is_supported(&file.checksum) {
        return Err(InstallError::InvalidChecksum { filename: file.filename.clone() });
    }
    match outcome {
        FetchOutcome::Failed(message) => Err(InstallError::Network { filename: file.filename.clone(), message }),
        FetchOutcome::Fetched(body) => {
            if !verify(body.as_slice(), &file.checksum) {
                return Err(InstallError::ChecksumMismatch { filename: file.filename.clone() });
            }
            match open_archive(body) {
                Ok(a) => Ok(a),
                Err(e) => Err(InstallError::Archive(ArchiveError::Zip(e))),
            }
        },
    }
}

} // verus!
