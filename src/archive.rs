//! The archive engine: packing the library tree into a zip archive, and turning
//! an archive back into the directory and file writes that restore it.

use std::io::Cursor;

use vstd::prelude::*;

use crate::paths::{chars_of, is_separator, same_text, starts_with_text, string_from_chars};
use crate::zipio::{
    add_directory, archive_bytes, time_fields, zip_archive_comment, zip_comment, zip_entry_modified, zip_compression,
    entries_fit, ArchiveWriter, ZipMethod, MAX_ENTRY_BYTES, MAX_NAME_CHARS, archive_len, open_archive, dir_entry_name, finish_into_readable, new_writer, read_entry,
    set_comment, start_file, write_data, zip_all_readable, zip_entry_readable, zip_parsed, zip_stored, zip_written,
    name_taken, stored_dir_mode, stored_file_mode, ZipDateTime, ZipEntry,
};

verus! {

/// The comment every packed archive carries.
pub const ARCHIVE_COMMENT: &'static str = "backup of MoonBit core, generated by MultiMoon";

/// The deflate level of packed files.
pub const COMPRESSION_LEVEL: i64 = 6;

/// What a walked path is.
#[derive(Clone, Copy, Debug, PartialEq, Eq, Structural)]
pub enum SourceKind {
    File,
    Dir,
    Other,
}

/// One path of the library tree, relative to the library directory and
/// slash-separated, as a walk in sorted order gives it.
#[derive(Clone, Debug)]
pub struct SourceEntry {
    pub path: String,
    pub kind: SourceKind,
    /// Unix mode bits, where the platform has them.
    pub mode: Option<u32>,
    /// The content of a file; empty for anything else.
    pub data: Vec<u8>,
}

/// Why packing or unpacking failed.
#[derive(Debug)]
pub enum ArchiveError {
    /// The tree has no `core` directory.
    MissingCore,
    /// The `core` directory has no manifest marker file.
    MissingManifest,
    /// An archive entry would land outside the `core` directory.
    OutsideTarget { path: String },
    /// A walked path is too long to name an archive entry.
    PathTooLong { path: String },
    /// The archive could not be written or read.
    Zip(zip::result::ZipError),
    /// File content could not be handed to the archive.
    Write(std::io::Error),
}

/// The library root inside the library directory.
pub open spec fn core_dir() -> Seq<char> {
    seq!['c', 'o', 'r', 'e']
}

/// The build-output cache, which is never archived.
pub open spec fn cache_dir() -> Seq<char> {
    seq!['c', 'o', 'r', 'e', '/', 't', 'a', 'r', 'g', 'e', 't']
}

/// The manifest marker whose presence makes a directory a library root.
pub open spec fn manifest_path() -> Seq<char> {
    seq!['c', 'o', 'r', 'e', '/', 'm', 'o', 'o', 'n', '.', 'm', 'o', 'd', '.', 'j', 's', 'o', 'n']
}

/// Whether a path is the cache directory or lies below it.
pub open spec fn is_ignored(p: Seq<char>) -> bool {
    p == cache_dir() || cache_dir().push('/').is_prefix_of(p)
}

/// Whether a walked path goes into the archive: files, and directories other than
/// the archive root, outside the cache.
pub open spec fn is_packed(e: SourceEntry) -> bool {
    !is_ignored(e.path@) && (e.kind == SourceKind::File || (e.kind == SourceKind::Dir && e.path@.len() > 0))
}

/// The archive entry of a packed path: name and content.
pub open spec fn packed_item(e: SourceEntry) -> (Seq<char>, Seq<u8>, Option<u32>) {
    if e.kind == SourceKind::Dir {
        (dir_entry_name(e.path@), Seq::<u8>::empty(), Some(stored_dir_mode(e.mode)))
    } else {
        (e.path@, e.data@, Some(stored_file_mode(e.mode)))
    }
}

/// Whether a walk can be packed as it is: no two packed paths give the same entry
/// name, and no file holds more than `u32::MAX` bytes.
pub open spec fn packable(s: Seq<SourceEntry>) -> bool {
    &&& forall|j: int, k: int|
        0 <= j < k < s.len() && is_packed(s[j]) && is_packed(s[k]) ==> (#[trigger] packed_item(s[j])).0 != (#[trigger] packed_item(s[k])).0
    &&& forall|k: int| 0 <= k < s.len() && (#[trigger] s[k]).kind == SourceKind::File ==> s[k].data@.len() <= MAX_ENTRY_BYTES
    &&& forall|k: int| 0 <= k < s.len() && is_packed(#[trigger] s[k]) ==> s[k].path@.len() <= MAX_NAME_CHARS
}

/// The compression of each archive entry of a walk, in walk order: files are
/// deflated at the packing level, directories are stored.
pub open spec fn packed_compression(s: Seq<SourceEntry>) -> Seq<(ZipMethod, Option<i64>)>
    decreases s.len(),
{
    if s.len() == 0 {
        seq![]
    } else if is_packed(s.last()) {
        packed_compression(s.drop_last()).push(
            if s.last().kind == SourceKind::Dir {
                (ZipMethod::Stored, None)
            } else {
                (ZipMethod::Deflated, Some(COMPRESSION_LEVEL))
            },
        )
    } else {
        packed_compression(s.drop_last())
    }
}

/// The archive entries of a walk, in walk order.
pub open spec fn packed_items(s: Seq<SourceEntry>) -> Seq<(Seq<char>, Seq<u8>, Option<u32>)>
    decreases s.len(),
{
    if s.len() == 0 {
        seq![]
    } else if is_packed(s.last()) {
        packed_items(s.drop_last()).push(packed_item(s.last()))
    } else {
        packed_items(s.drop_last())
    }
}

/// Whether the walk found the `core` directory.
pub open spec fn has_core_dir(s: Seq<SourceEntry>) -> bool {
    exists|k: int| 0 <= k < s.len() && (#[trigger] s[k]).kind == SourceKind::Dir && s[k].path@ == core_dir()
}

/// Whether the walk found the manifest marker file.
pub open spec fn has_manifest(s: Seq<SourceEntry>) -> bool {
    exists|k: int| 0 <= k < s.len() && (#[trigger] s[k]).kind == SourceKind::File && s[k].path@ == manifest_path()
}

// ---------------------------------------------------------------------------
// Where an archive entry lands

/// One component taken into a resolved path: empty and `.` components vanish,
/// `..` removes the previous one (and escapes at the top), a component holding a
/// drive colon is refused, any other is appended.
pub open spec fn settle(stack: Option<Seq<Seq<char>>>, comp: Seq<char>) -> Option<Seq<Seq<char>>> {
    match stack {
        None => None,
        Some(st) => if comp.len() == 0 || comp == seq!['.'] {
            Some(st)
        } else if comp == seq!['.', '.'] {
            if st.len() == 0 {
                None
            } else {
                Some(st.drop_last())
            }
        } else if comp.contains(':') {
            None
        } else {
            Some(st.push(comp))
        },
    }
}

/// The resolved components before the last separator of `s`, and the text after it.
pub open spec fn walk(s: Seq<char>) -> (Option<Seq<Seq<char>>>, Seq<char>)
    decreases s.len(),
{
    if s.len() == 0 {
        (Some(seq![]), seq![])
    } else {
        let w = walk(s.drop_last());
        if is_separator(s.last()) {
            (settle(w.0, w.1), seq![])
        } else {
            (w.0, w.1.push(s.last()))
        }
    }
}

/// The normalized components of an entry name, or `None` where the name is
/// absolute or climbs above the directory it is unpacked into.
pub open spec fn resolved(name: Seq<char>) -> Option<Seq<Seq<char>>> {
    if name.len() > 0 && is_separator(name[0]) {
        None
    } else {
        settle(walk(name).0, walk(name).1)
    }
}

/// Whether an entry name lands in the `core` directory or below it.
pub open spec fn inside_target(name: Seq<char>) -> bool {
    &&& resolved(name) is Some
    &&& resolved(name)->0.len() > 0
    &&& resolved(name)->0[0] == core_dir()
}

/// Components joined by `/`.
pub open spec fn joined_components(cs: Seq<Seq<char>>) -> Seq<char>
    decreases cs.len(),
{
    if cs.len() == 0 {
        seq![]
    } else if cs.len() == 1 {
        cs[0]
    } else {
        joined_components(cs.drop_last()) + seq!['/'] + cs.last()
    }
}

/// The normalized path, relative to the library directory, where an entry lands.
pub open spec fn target_path(name: Seq<char>) -> Seq<char> {
    joined_components(resolved(name)->0)
}

/// Whether an entry name denotes a directory.
pub open spec fn is_dir_name(name: Seq<char>) -> bool {
    name.len() > 0 && is_separator(name.last())
}

/// Component sequences of exec values, as text.
pub open spec fn comps_view(v: Seq<Vec<char>>) -> Seq<Seq<char>> {
    v.map_values(|c: Vec<char>| c@)
}

fn settle_component(stack: &mut Vec<Vec<char>>, comp: Vec<char>) -> (ok: bool)
    ensures
        ok == settle(Some(comps_view(old(stack)@)), comp@) is Some,
        ok ==> comps_view(final(stack)@) == settle(Some(comps_view(old(stack)@)), comp@)->0,
{
    let n = comp.len();
    if n == 0 || (n == 1 && comp[0] == '.') {
        proof {
            if n == 1 {
                assert(comp@ =~= seq!['.']);
            }
        }
        return true;
    }
    if n == 2 && comp[0] == '.' && comp[1] == '.' {
        proof {
            assert(comp@ =~= seq!['.', '.']);
        }
        if stack.len() == 0 {
            return false;
        }
        let _ = stack.pop();
        proof {
            assert(comps_view(stack@) =~= comps_view(old(stack)@).drop_last());
        }
        return true;
    }
    proof {
        assert(comp@ != seq!['.']);
        assert(comp@ != seq!['.', '.']);
    }
    let mut i: usize = 0;
    while i < n
        invariant
            i <= n,
            n == comp@.len(),
            forall|j: int| 0 <= j < i ==> comp@[j] != ':',
        decreases n - i,
    {
        if comp[i] == ':' {
            proof {
                assert(comp@.contains(':'));
            }
            return false;
        }
        i = i + 1;
    }
    proof {
        assert(!comp@.contains(':'));
    }
    let ghost before = comps_view(stack@);
    let ghost text = comp@;
    stack.push(comp);
    proof {
        assert(comps_view(stack@) =~= before.push(text));
    }
    true
}

/// The normalized components of an entry name, or `None` where it escapes.
pub fn resolve_name(name: &str) -> (r: Option<Vec<Vec<char>>>)
    ensures
        r is Some <==> resolved(name@) is Some,
        r is Some ==> comps_view(r->0@) == resolved(name@)->0,
{
    let chars = chars_of(name);
    let n = chars.len();
    if n > 0 && (chars[0] == '/' || chars[0] == '\\') {
        return None;
    }
    let mut ok = true;
    let mut stack: Vec<Vec<char>> = Vec::new();
    let mut cur: Vec<char> = Vec::new();
    let mut i: usize = 0;
    proof {
        assert(chars@.subrange(0, 0) =~= Seq::<char>::empty());
        assert(comps_view(stack@) =~= Seq::<Seq<char>>::empty());
    }
    while i < n
        invariant
            i <= n,
            n == chars@.len(),
            chars@ == name@,
            walk(chars@.subrange(0, i as int)).1 == cur@,
            ok ==> walk(chars@.subrange(0, i as int)).0 == Some(comps_view(stack@)),
            !ok ==> walk(chars@.subrange(0, i as int)).0 is None,
        decreases n - i,
    {
        let c = chars[i];
        proof {
            assert(chars@.subrange(0, i + 1).drop_last() =~= chars@.subrange(0, i as int));
            assert(chars@.subrange(0, i + 1).last() == c);
        }
        if c == '/' || c == '\\' {
            let comp = cur;
            cur = Vec::new();
            if ok {
                ok = settle_component(&mut stack, comp);
            }
        } else {
            cur.push(c);
        }
        i = i + 1;
    }
    proof {
        assert(chars@.subrange(0, n as int) =~= chars@);
    }
    if !ok {
        return None;
    }
    if settle_component(&mut stack, cur) {
        Some(stack)
    } else {
        None
    }
}

/// The text of normalized components joined by `/`.
pub fn join_components(comps: &Vec<Vec<char>>) -> (r: String)
    ensures
        r@ == joined_components(comps_view(comps@)),
{
    let ghost cs = comps_view(comps@);
    let mut out: Vec<char> = Vec::new();
    let mut k: usize = 0;
    proof {
        assert(cs.subrange(0, 0) =~= Seq::<Seq<char>>::empty());
    }
    while k < comps.len()
        invariant
            k <= comps@.len(),
            cs == comps_view(comps@),
            out@ == joined_components(cs.subrange(0, k as int)),
        decreases comps@.len() - k,
    {
        let ghost before = out@;
        if k > 0 {
            out.push('/');
        }
        let part = &comps[k];
        let mut j: usize = 0;
        let ghost mid = out@;
        while j < part.len()
            invariant
                j <= part@.len(),
                out@ == mid + part@.subrange(0, j as int),
            decreases part@.len() - j,
        {
            out.push(part[j]);
            j = j + 1;
            proof {
                assert(out@ =~= mid + part@.subrange(0, j as int));
            }
        }
        proof {
            assert(part@.subrange(0, part@.len() as int) =~= part@);
            let sub = cs.subrange(0, k + 1);
            assert(sub.drop_last() =~= cs.subrange(0, k as int));
            assert(sub.last() == part@);
            if k == 0 {
                assert(out@ =~= part@);
            } else {
                assert(out@ =~= before + seq!['/'] + part@);
            }
        }
        k = k + 1;
    }
    proof {
        assert(cs.subrange(0, comps@.len() as int) =~= cs);
    }
    string_from_chars(&out)
}

// ---------------------------------------------------------------------------
// Packing

/// Whether a path is the cache directory or lies below it.
pub fn is_ignored_path(p: &str) -> (r: bool)
    ensures
        r == is_ignored(p@),
{
    proof {
        reveal_strlit("core/target");
        reveal_strlit("core/target/");
        assert("core/target"@ =~= cache_dir());
        assert("core/target/"@ =~= cache_dir().push('/'));
    }
    same_text(p, "core/target") || starts_with_text(p, "core/target/")
}

fn find_core_and_manifest(sources: &Vec<SourceEntry>) -> (r: (bool, bool))
    ensures
        r.0 == has_core_dir(sources@),
        r.1 == has_manifest(sources@),
{
    proof {
        reveal_strlit("core");
        reveal_strlit("core/moon.mod.json");
        assert("core"@ =~= core_dir());
        assert("core/moon.mod.json"@ =~= manifest_path());
    }
    let mut core = false;
    let mut manifest = false;
    let mut i: usize = 0;
    while i < sources.len()
        invariant
            i <= sources@.len(),
            "core"@ == core_dir(),
            "core/moon.mod.json"@ == manifest_path(),
            core == exists|k: int| 0 <= k < i && (#[trigger] sources@[k]).kind == SourceKind::Dir && sources@[k].path@ == core_dir(),
            manifest == exists|k: int| 0 <= k < i && (#[trigger] sources@[k]).kind == SourceKind::File && sources@[k].path@ == manifest_path(),
        decreases sources@.len() - i,
    {
        let e = &sources[i];
        if e.kind == SourceKind::Dir && same_text(e.path.as_str(), "core") {
            core = true;
        }
        if e.kind == SourceKind::File && same_text(e.path.as_str(), "core/moon.mod.json") {
            manifest = true;
        }
        proof {
            assert(sources@[i as int] == *e);
        }
        i = i + 1;
    }
    (core, manifest)
}

/// Packs a walked library tree into an in-memory zip archive: every file and every
/// directory but the archive root, outside the build-output cache, in walk order.
/// The tree must hold the `core` directory and its manifest marker.
pub fn archive(sources: &Vec<SourceEntry>) -> (r: Result<zip::ZipArchive<Cursor<Vec<u8>>>, ArchiveError>)
    ensures
        !has_core_dir(sources@) <==> r matches Err(ArchiveError::MissingCore),
        has_core_dir(sources@) && !has_manifest(sources@) <==> r matches Err(ArchiveError::MissingManifest),
        r matches Ok(a) ==> zip_stored(a) == packed_items(sources@) && zip_all_readable(a)
            && zip_archive_comment(a) == ARCHIVE_COMMENT@
            && exists|w: ArchiveWriter| zip_written(w) == zip_stored(a) && zip_compression(w) == packed_compression(sources@),
        has_core_dir(sources@) && has_manifest(sources@) && packable(sources@) ==> r is Ok,
        r matches Err(ArchiveError::PathTooLong { path }) ==> exists|k: int|
            0 <= k < sources@.len() && is_packed(#[trigger] sources@[k]) && sources@[k].path@ == path@
                && path@.len() > MAX_NAME_CHARS,
        r is Err ==> !(r matches Err(ArchiveError::OutsideTarget { .. })),
{
    let (core, manifest) = find_core_and_manifest(sources);
    if !core {
        return Err(ArchiveError::MissingCore);
    }
    if !manifest {
        return Err(ArchiveError::MissingManifest);
    }
    let mut w = new_writer();
    set_comment(&mut w, ARCHIVE_COMMENT);
    let mut i: usize = 0;
    proof {
        assert(sources@.subrange(0, 0) =~= Seq::<SourceEntry>::empty());
        reveal_strlit("backup of MoonBit core, generated by MultiMoon");
    }
    while i < sources.len()
        invariant
            i <= sources@.len(),
            has_core_dir(sources@),
            has_manifest(sources@),
            zip_written(w) == packed_items(sources@.subrange(0, i as int)),
            zip_compression(w) == packed_compression(sources@.subrange(0, i as int)),
            zip_comment(w) == ARCHIVE_COMMENT@,
            ARCHIVE_COMMENT@.len() <= 16383,
            from_walk(zip_written(w), sources@, i as int),
        decreases sources@.len() - i,
    {
        let e = &sources[i];
        let ghost before = zip_written(w);
        proof {
            assert(sources@.subrange(0, i + 1).drop_last() =~= sources@.subrange(0, i as int));
            assert(sources@.subrange(0, i + 1).last() == *e);
            assert(sources@[i as int] == *e);
            if packable(sources@) {
                lemma_written_fit(sources@, i as int, before);
                if is_packed(*e) {
                    lemma_fresh_name(sources@, i as int, before);
                }
            }
        }
        if !is_ignored_path(e.path.as_str()) && (e.kind == SourceKind::File
            || (e.kind == SourceKind::Dir && e.path.as_str().unicode_len() > 0)) {
            if e.path.as_str().unicode_len() > MAX_NAME_CHARS {
                return Err(ArchiveError::PathTooLong { path: e.path.clone() });
            }
            if e.kind == SourceKind::File {
                match start_file(&mut w, e.path.as_str(), ZipMethod::Deflated, Some(COMPRESSION_LEVEL), e.mode) {
                    Ok(()) => {},
                    Err(err) => {
                        return Err(ArchiveError::Zip(err));
                    },
                }
                match write_data(&mut w, e.data.as_slice()) {
                    Ok(()) => {},
                    Err(err) => {
                        return Err(ArchiveError::Write(err));
                    },
                }
                proof {
                    assert(Seq::<u8>::empty() + e.data@ =~= e.data@);
                    assert(zip_written(w) =~= before.push(packed_item(*e)));
                    lemma_from_walk_step(before, zip_written(w), sources@, i as int);
                }
            } else {
                match add_directory(&mut w, e.path.as_str(), e.mode) {
                    Ok(()) => {},
                    Err(err) => {
                        return Err(ArchiveError::Zip(err));
                    },
                }
                proof {
                    assert(zip_written(w) == before.push(packed_item(*e)));
                    lemma_from_walk_step(before, zip_written(w), sources@, i as int);
                }
            }
        } else {
            proof {
                lemma_from_walk_step(before, zip_written(w), sources@, i as int);
            }
        }
        i = i + 1;
    }
    proof {
        assert(sources@.subrange(0, sources@.len() as int) =~= sources@);
        if packable(sources@) {
            lemma_written_fit(sources@, sources@.len() as int, zip_written(w));
        }
    }
    let ghost w0 = w;
    match finish_into_readable(w) {
        Ok(a) => {
            proof {
                assert(zip_written(w0) == zip_stored(a) && zip_compression(w0) == packed_compression(sources@));
            }
            Ok(a)
        },
        Err(err) => Err(ArchiveError::Zip(err)),
    }
}

proof fn lemma_written_fit(s: Seq<SourceEntry>, i: int, written: Seq<(Seq<char>, Seq<u8>, Option<u32>)>)
    requires
        packable(s),
        0 <= i <= s.len(),
        from_walk(written, s, i),
    ensures
        entries_fit(written),
{
    assert forall|k: int| 0 <= k < written.len() implies (#[trigger] written[k]).1.len() <= MAX_ENTRY_BYTES by {
        assert(entry_of_walk(written[k], s, i));
        let j = choose|j: int| 0 <= j < i && is_packed(s[j]) && written[k] == #[trigger] packed_item(s[j]);
        if s[j].kind == SourceKind::File {
            assert(s[j].data@.len() <= MAX_ENTRY_BYTES);
        }
    }
}

/// Whether every entry written so far is the entry of a packed path before `i`.
pub open spec fn from_walk(written: Seq<(Seq<char>, Seq<u8>, Option<u32>)>, s: Seq<SourceEntry>, i: int) -> bool {
    forall|k: int| 0 <= k < written.len() ==> entry_of_walk(#[trigger] written[k], s, i)
}

/// Whether an entry is the entry of a packed path before `i`.
pub open spec fn entry_of_walk(item: (Seq<char>, Seq<u8>, Option<u32>), s: Seq<SourceEntry>, i: int) -> bool {
    exists|j: int| 0 <= j < i && is_packed(s[j]) && item == #[trigger] packed_item(s[j])
}

proof fn lemma_from_walk_step(
    before: Seq<(Seq<char>, Seq<u8>, Option<u32>)>,
    after: Seq<(Seq<char>, Seq<u8>, Option<u32>)>,
    s: Seq<SourceEntry>,
    i: int,
)
    requires
        0 <= i < s.len(),
        from_walk(before, s, i),
        after == before || (is_packed(s[i]) && after == before.push(packed_item(s[i]))),
    ensures
        from_walk(after, s, i + 1),
{
    assert forall|k: int| 0 <= k < after.len() implies entry_of_walk(#[trigger] after[k], s, i + 1) by {
        if k < before.len() {
            assert(after[k] == before[k]);
            assert(entry_of_walk(before[k], s, i));
            let j = choose|j: int| 0 <= j < i && is_packed(s[j]) && before[k] == #[trigger] packed_item(s[j]);
            assert(after[k] == packed_item(s[j]));
        } else {
            assert(after[k] == packed_item(s[i]));
        }
    }
}

proof fn lemma_fresh_name(s: Seq<SourceEntry>, i: int, written: Seq<(Seq<char>, Seq<u8>, Option<u32>)>)
    requires
        packable(s),
        0 <= i < s.len(),
        is_packed(s[i]),
        from_walk(written, s, i),
    ensures
        !name_taken(written, packed_item(s[i]).0),
{
    if name_taken(written, packed_item(s[i]).0) {
        let k = choose|k: int| 0 <= k < written.len() && (#[trigger] written[k]).0 == packed_item(s[i]).0;
        assert(entry_of_walk(written[k], s, i));
        let j = choose|j: int| 0 <= j < i && is_packed(s[j]) && written[k] == #[trigger] packed_item(s[j]);
        assert(packed_item(s[j]).0 != packed_item(s[i]).0);
    }
}

/// No archive entry lies in the build-output cache, whatever the walk held.
pub proof fn lemma_cache_never_packed(s: Seq<SourceEntry>)
    ensures
        forall|j: int| 0 <= j < packed_items(s).len() ==> !is_ignored(#[trigger] packed_items(s)[j].0),
    decreases s.len(),
{
    if s.len() > 0 {
        lemma_cache_never_packed(s.drop_last());
        let e = s.last();
        if is_packed(e) && e.kind == SourceKind::Dir {
            lemma_dir_name_not_ignored(e.path@);
        }
        let items = packed_items(s);
        assert forall|j: int| 0 <= j < items.len() implies !is_ignored(#[trigger] items[j].0) by {
            if j < packed_items(s.drop_last()).len() {
                assert(items[j] == packed_items(s.drop_last())[j]);
            }
        }
    }
}

proof fn lemma_dir_name_not_ignored(p: Seq<char>)
    requires
        !is_ignored(p),
    ensures
        !is_ignored(dir_entry_name(p)),
{
    let c = cache_dir().push('/');
    let d = dir_entry_name(p);
    if d != p {
        assert(d == p.push('/'));
        if d == cache_dir() {
            assert(d.last() == '/');
            assert(cache_dir().last() == 't');
        }
        if c.is_prefix_of(d) {
            if p.len() == cache_dir().len() {
                assert(p =~= cache_dir()) by {
                    assert forall|k: int| 0 <= k < p.len() implies p[k] == cache_dir()[k] by {
                        assert(d[k] == c[k]);
                    }
                }
            } else {
                assert(p.len() >= c.len()) by {
                    assert(d.len() >= c.len());
                }
                assert(c.is_prefix_of(p)) by {
                    assert forall|k: int| 0 <= k < c.len() implies c[k] == p[k] by {
                        assert(d[k] == c[k]);
                    }
                }
            }
        }
    }
}

// ---------------------------------------------------------------------------
// Unpacking

/// Options of unpacking.
#[derive(Clone, Copy, Debug)]
pub struct ExtractOptions {
    /// The time given to entries whose own time is missing or not a valid local time.
    pub fallback_timestamp: i64,
}

/// One write that unpacking makes, relative to the library directory.
#[derive(Clone, Debug)]
pub enum ExtractOp {
    /// Create the directory and its missing parents, then set its mode if given.
    CreateDir { path: String, mode: Option<u32> },
    /// Create the parent directories, write the file in full, then set its mode if given.
    WriteFile { path: String, data: Vec<u8>, mode: Option<u32> },
}

/// All writes of an unpack, to be made in order, then the modification times to
/// set: all files first, then all directories.
#[derive(Clone, Debug)]
pub struct ExtractPlan {
    pub ops: Vec<ExtractOp>,
    pub times: Vec<(String, i64)>,
}

/// Whether `op` is the write that restores an entry of this name, content and mode.
pub open spec fn op_restores(op: ExtractOp, name: Seq<char>, data: Seq<u8>, mode: Option<u32>) -> bool {
    match op {
        ExtractOp::CreateDir { path, mode: m } => is_dir_name(name) && path@ == target_path(name) && m == mode,
        ExtractOp::WriteFile { path, data: d, mode: m } => !is_dir_name(name) && path@ == target_path(name) && d@ == data
            && m == mode,
    }
}

/// Positions of the directory entries (`dirs`) or of the file entries among entry
/// names, in order.
pub open spec fn positions(names: Seq<Seq<char>>, dirs: bool) -> Seq<int>
    decreases names.len(),
{
    if names.len() == 0 {
        seq![]
    } else if is_dir_name(names.last()) == dirs {
        positions(names.drop_last(), dirs).push(names.len() - 1)
    } else {
        positions(names.drop_last(), dirs)
    }
}

/// The order in which times are restored: files first, then directories, since
/// writing into a directory changes its own time.
pub open spec fn time_order(names: Seq<Seq<char>>) -> Seq<int> {
    positions(names, false) + positions(names, true)
}

/// The names of entries read back.
pub open spec fn entry_names(es: Seq<ZipEntry>) -> Seq<Seq<char>> {
    es.map_values(|e: ZipEntry| e.name@)
}

/// The names of stored archive entries.
pub open spec fn item_names(items: Seq<(Seq<char>, Seq<u8>, Option<u32>)>) -> Seq<Seq<char>> {
    items.map_values(|p: (Seq<char>, Seq<u8>, Option<u32>)| p.0)
}

/// Whether a zip time has calendar fields in range.
pub open spec fn plausible_time(t: ZipDateTime) -> bool {
    1 <= t.month <= 12 && 1 <= t.day <= 31 && t.hour < 24 && t.minute < 60 && t.second < 60
}

/// Whether recorded time fields are in calendar range; the time an entry without
/// such a time gets is the fallback.
pub open spec fn has_plausible_time(t: Option<(int, int, int, int, int, int)>) -> bool {
    match t {
        Some(f) => 1 <= f.1 <= 12 && 1 <= f.2 <= 31 && f.3 < 24 && f.4 < 60 && f.5 < 60,
        None => false,
    }
}

/// The time an entry gets from the local-time lookup: its result, or the fallback
/// where the lookup found no valid local time.
pub fn resolve_timestamp(lookup: Option<i64>, fallback: i64) -> (r: i64)
    ensures
        r == resolved_time(lookup, fallback),
{
    match lookup {
        Some(t) => t,
        None => fallback,
    }
}

/// Relies on chrono's `Local.with_ymd_and_hms(..).earliest()`: the earliest
/// instant with this local wall-clock time, in seconds since the epoch; `None`
/// where the fields are no calendar date and time (`NaiveDate::from_ymd_opt`,
/// `and_hms_opt`).
#[verifier::external_body]
fn local_timestamp(t: ZipDateTime) -> (r: Option<i64>)
    ensures
        !plausible_time(t) ==> r is None,
{
    chrono::TimeZone::with_ymd_and_hms(
        &chrono::Local, t.year as i32, t.month as u32, t.day as u32, t.hour as u32, t.minute as u32, t.second as u32,
    ).earliest().map(|d| d.timestamp())
}

/// The time to give an unpacked entry: its own, read as local time, where that
/// is a valid point in time; the fallback otherwise.
pub fn timestamp_from_zipfile(modified: Option<ZipDateTime>, fallback: i64) -> (r: i64)
    ensures
        !has_plausible_time(time_fields(modified)) ==> r == fallback,
{
    match modified {
        None => fallback,
        Some(t) => resolve_timestamp(local_timestamp(t), fallback),
    }
}

/// The time an entry gets from its local-time lookup: the looked-up time, or the
/// fallback where the lookup found none.
pub open spec fn resolved_time(lookup: Option<i64>, fallback: i64) -> i64 {
    match lookup {
        Some(t) => t,
        None => fallback,
    }
}

/// The local-time lookup of each entry's recorded time, in entry order: `None`
/// for an entry without a recorded time or with one that is no valid local time.
pub fn lookup_times(entries: &Vec<ZipEntry>) -> (r: Vec<Option<i64>>)
    ensures
        r@.len() == entries@.len(),
        forall|k: int| 0 <= k < entries@.len() && !has_plausible_time(time_fields(entries@[k].modified))
            ==> (#[trigger] r@[k]) is None,
{
    let mut out: Vec<Option<i64>> = Vec::new();
    let mut i: usize = 0;
    while i < entries.len()
        invariant
            i <= entries@.len(),
            out@.len() == i,
            forall|k: int| 0 <= k < i && !has_plausible_time(time_fields(entries@[k].modified)) ==> (#[trigger] out@[k]) is None,
        decreases entries@.len() - i,
    {
        let found = match entries[i].modified {
            Some(t) => local_timestamp(t),
            None => None,
        };
        out.push(found);
        i = i + 1;
    }
    out
}

/// The writes and times that restore archive entries under the library directory,
/// given the local-time lookup of each entry's recorded time (see `lookup_times`).
/// Any entry whose name, normalized, does not land in the `core` directory aborts
/// the whole unpack before anything is written.
pub fn extract_plan(entries: &Vec<ZipEntry>, lookups: &Vec<Option<i64>>, options: &ExtractOptions) -> (r: Result<ExtractPlan, ArchiveError>)
    requires
        lookups@.len() == entries@.len(),
    ensures
        r is Ok <==> forall|k: int| 0 <= k < entries@.len() ==> inside_target(#[trigger] entries@[k].name@),
        r is Err ==> (r matches Err(ArchiveError::OutsideTarget { path }) && exists|k: int|
            0 <= k < entries@.len() && !inside_target(#[trigger] entries@[k].name@) && path@ == entries@[k].name@),
        r matches Ok(plan) ==> {
            &&& plan.ops@.len() == entries@.len()
            &&& forall|k: int| 0 <= k < entries@.len() ==> op_restores(#[trigger] plan.ops@[k], entries@[k].name@, entries@[k].data@, entries@[k].unix_mode)
            &&& plan.times@.len() == time_order(entry_names(entries@)).len()
            &&& forall|j: int| 0 <= j < plan.times@.len() ==> {
                let k = time_order(entry_names(entries@))[j];
                &&& 0 <= k < entries@.len()
                &&& (#[trigger] plan.times@[j]).0@ == target_path(entries@[k].name@)
                &&& plan.times@[j].1 == resolved_time(lookups@[k], options.fallback_timestamp)
            }
        },
{
    let ghost names = entry_names(entries@);
    let mut ops: Vec<ExtractOp> = Vec::new();
    let mut paths: Vec<String> = Vec::new();
    let mut k: usize = 0;
    while k < entries.len()
        invariant
            k <= entries@.len(),
            names == entry_names(entries@),
            ops@.len() == k,
            paths@.len() == k,
            forall|i: int| 0 <= i < k ==> inside_target(#[trigger] entries@[i].name@),
            forall|i: int| 0 <= i < k ==> op_restores(#[trigger] ops@[i], entries@[i].name@, entries@[i].data@, entries@[i].unix_mode),
            forall|i: int| 0 <= i < k ==> (#[trigger] paths@[i])@ == target_path(entries@[i].name@),
        decreases entries@.len() - k,
    {
        let e = &entries[k];
        let comps = match resolve_name(e.name.as_str()) {
            Some(c) => c,
            None => {
                return Err(ArchiveError::OutsideTarget { path: e.name.clone() });
            },
        };
        proof {
            reveal_strlit("core");
            assert("core"@ =~= core_dir());
        }
        if comps.len() == 0 || !same_text(string_from_chars(&comps[0]).as_str(), "core") {
            return Err(ArchiveError::OutsideTarget { path: e.name.clone() });
        }
        let path = join_components(&comps);
        let n = e.name.as_str().unicode_len();
        let is_dir = n > 0 && {
            let last = e.name.as_str().get_char(n - 1);
            last == '/' || last == '\\'
        };
        if is_dir {
            ops.push(ExtractOp::CreateDir { path: path.clone(), mode: e.unix_mode });
        } else {
            ops.push(ExtractOp::WriteFile { path: path.clone(), data: e.data.clone(), mode: e.unix_mode });
        }
        paths.push(path);
        k = k + 1;
    }
    let mut times: Vec<(String, i64)> = Vec::new();
    append_times(entries, &paths, lookups, false, options.fallback_timestamp, &mut times);
    let ghost times1 = times@;
    append_times(entries, &paths, lookups, true, options.fallback_timestamp, &mut times);
    proof {
        let order = time_order(names);
        let files = positions(names, false);
        assert forall|j: int| 0 <= j < times@.len() implies {
            let k = order[j];
            &&& 0 <= k < entries@.len()
            &&& (#[trigger] times@[j]).0@ == target_path(entries@[k].name@)
            &&& times@[j].1 == resolved_time(lookups@[k], options.fallback_timestamp)
        } by {
            if j < files.len() {
                assert(order[j] == files[j]);
                assert(times@[j] == times1[0 + j]);
            } else {
                assert(order[j] == positions(names, true)[j - files.len()]);
                assert(times@[j] == times@[files.len() + (j - files.len())]);
            }
        }
    }
    Ok(ExtractPlan { ops, times })
}

/// Appends, in entry order, the target path and time of each directory entry
/// (`dirs`) or each file entry.
fn append_times(
    entries: &Vec<ZipEntry>,
    paths: &Vec<String>,
    lookups: &Vec<Option<i64>>,
    dirs: bool,
    fallback: i64,
    times: &mut Vec<(String, i64)>,
)
    requires
        paths@.len() == entries@.len(),
        lookups@.len() == entries@.len(),
        forall|m: int| 0 <= m < entries@.len() ==> (#[trigger] paths@[m])@ == target_path(entries@[m].name@),
    ensures
        final(times)@.len() == old(times)@.len() + positions(entry_names(entries@), dirs).len(),
        forall|j: int| 0 <= j < old(times)@.len() ==> #[trigger] final(times)@[j] == old(times)@[j],
        forall|j: int| #![trigger positions(entry_names(entries@), dirs)[j]] 0 <= j < positions(entry_names(entries@), dirs).len() ==> {
            let m = positions(entry_names(entries@), dirs)[j];
            &&& 0 <= m < entries@.len()
            &&& final(times)@[old(times)@.len() + j].0@ == target_path(entries@[m].name@)
            &&& final(times)@[old(times)@.len() + j].1 == resolved_time(lookups@[m], fallback)
        },
{
    let ghost names = entry_names(entries@);
    let ghost start = times@.len();
    let ghost before = times@;
    let mut i: usize = 0;
    proof {
        assert(names.subrange(0, 0) =~= Seq::<Seq<char>>::empty());
    }
    while i < entries.len()
        invariant
            i <= entries@.len(),
            names == entry_names(entries@),
            names.len() == entries@.len(),
            paths@.len() == entries@.len(),
            lookups@.len() == entries@.len(),
            forall|m: int| 0 <= m < entries@.len() ==> (#[trigger] paths@[m])@ == target_path(entries@[m].name@),
            start == before.len(),
            times@.len() == start + positions(names.subrange(0, i as int), dirs).len(),
            forall|j: int| 0 <= j < start ==> #[trigger] times@[j] == before[j],
            forall|j: int| #![trigger positions(names.subrange(0, i as int), dirs)[j]] 0 <= j < positions(names.subrange(0, i as int), dirs).len() ==> {
                let m = positions(names.subrange(0, i as int), dirs)[j];
                &&& 0 <= m < i
                &&& times@[start + j].0@ == target_path(entries@[m].name@)
                &&& times@[start + j].1 == resolved_time(lookups@[m], fallback)
            },
        decreases entries@.len() - i,
    {
        let e = &entries[i];
        let n = e.name.as_str().unicode_len();
        let is_dir = n > 0 && {
            let last = e.name.as_str().get_char(n - 1);
            last == '/' || last == '\\'
        };
        let ghost prev = positions(names.subrange(0, i as int), dirs);
        proof {
            let sub = names.subrange(0, i + 1);
            assert(sub.drop_last() =~= names.subrange(0, i as int));
            assert(sub.last() == e.name@);
            assert(is_dir == is_dir_name(e.name@));
        }
        if is_dir == dirs {
            let t = resolve_timestamp(lookups[i], fallback);
            let ghost old_times = times@;
            let p = paths[i].clone();
            times.push((p, t));
            proof {
                let cur = positions(names.subrange(0, i + 1), dirs);
                assert(cur == prev.push(i as int));
                assert forall|j: int| #![trigger cur[j]] 0 <= j < cur.len() implies {
                    let m = cur[j];
                    &&& 0 <= m < i + 1
                    &&& times@[start + j].0@ == target_path(entries@[m].name@)
                    &&& times@[start + j].1 == resolved_time(lookups@[m], fallback)
                } by {
                    if j < prev.len() {
                        assert(cur[j] == prev[j]);
                        assert(times@[start + j] == old_times[start + j]);
                    } else {
                        assert(cur[j] == i);
                        assert(times@[start + j].0@ == paths@[i as int]@);
                        assert(times@[start + j].1 == t);
                    }
                }
                assert forall|j: int| 0 <= j < start implies #[trigger] times@[j] == before[j] by {
                    assert(times@[j] == old_times[j]);
                }
            }
        } else {
            proof {
                assert(positions(names.subrange(0, i + 1), dirs) == prev);
            }
        }
        i = i + 1;
    }
    proof {
        assert(names.subrange(0, entries@.len() as int) =~= names);
    }
}

/// Reads every entry of an archive and plans the writes and times that restore it
/// under the library directory. Nothing is written by this function: an entry that
/// would land outside the `core` directory fails the whole plan.
pub fn extract_verbose(archive: &mut zip::ZipArchive<Cursor<Vec<u8>>>, options: &ExtractOptions) -> (r: Result<ExtractPlan, ArchiveError>)
    ensures
        zip_stored(*final(archive)) == zip_stored(*old(archive)),
        r is Ok <==> zip_all_readable(*old(archive))
            && forall|k: int| 0 <= k < zip_stored(*old(archive)).len() ==> inside_target(#[trigger] zip_stored(*old(archive))[k].0),
        r matches Err(ArchiveError::OutsideTarget { path }) ==> exists|k: int|
            0 <= k < zip_stored(*old(archive)).len() && !inside_target(#[trigger] zip_stored(*old(archive))[k].0)
                && path@ == zip_stored(*old(archive))[k].0,
        r is Err ==> (r matches Err(ArchiveError::OutsideTarget { .. }) || r matches Err(ArchiveError::Zip(_))),
        r matches Err(ArchiveError::Zip(_)) ==> !zip_all_readable(*old(archive)),
        r matches Err(ArchiveError::OutsideTarget { .. }) ==> zip_all_readable(*old(archive)),
        r matches Ok(plan) ==> {
            &&& plan.ops@.len() == zip_stored(*old(archive)).len()
            &&& forall|k: int| 0 <= k < plan.ops@.len() ==> op_restores(#[trigger] plan.ops@[k], zip_stored(*old(archive))[k].0,
                zip_stored(*old(archive))[k].1, zip_stored(*old(archive))[k].2)
            &&& plan.times@.len() == time_order(item_names(zip_stored(*old(archive)))).len()
            &&& forall|j: int| 0 <= j < plan.times@.len() ==> {
                let k = time_order(item_names(zip_stored(*old(archive))))[j];
                &&& (#[trigger] plan.times@[j]).0@ == target_path(zip_stored(*old(archive))[k].0)
                &&& !has_plausible_time(zip_entry_modified(*old(archive), k)) ==> plan.times@[j].1 == options.fallback_timestamp
            }
        },
{
    let ghost stored = zip_stored(*archive);
    let n = archive_len(archive);
    let mut entries: Vec<ZipEntry> = Vec::new();
    let mut i: usize = 0;
    while i < n
        invariant
            i <= n,
            n == stored.len(),
            stored == zip_stored(*old(archive)),
            zip_stored(*archive) == stored,
            forall|k: int| #[trigger] zip_entry_readable(*archive, k) == zip_entry_readable(*old(archive), k),
            forall|k: int| #[trigger] zip_entry_modified(*archive, k) == zip_entry_modified(*old(archive), k),
            forall|k: int| 0 <= k < i ==> time_fields((#[trigger] entries@[k]).modified) == zip_entry_modified(*old(archive), k),
            entries@.len() == i,
            forall|k: int| 0 <= k < i ==> zip_entry_readable(*old(archive), k),
            forall|k: int| 0 <= k < i ==> (#[trigger] entries@[k]).name@ == stored[k].0 && entries@[k].data@ == stored[k].1
                && entries@[k].unix_mode == stored[k].2,
        decreases n - i,
    {
        match read_entry(archive, i) {
            Ok(e) => {
                entries.push(e);
            },
            Err(err) => {
                proof {
                    assert(!zip_entry_readable(*old(archive), i as int));
                }
                return Err(ArchiveError::Zip(err));
            },
        }
        i = i + 1;
    }
    proof {
        assert(entry_names(entries@) =~= item_names(stored));
    }
    let lookups = lookup_times(&entries);
    let r = extract_plan(&entries, &lookups, options);
    proof {
        if r is Err {
            let k = choose|k: int| 0 <= k < entries@.len() && !inside_target(#[trigger] entries@[k].name@);
            assert(entries@[k].name@ == stored[k].0);
        } else {
            assert forall|k: int| 0 <= k < stored.len() implies inside_target(#[trigger] stored[k].0) by {
                assert(entries@[k].name@ == stored[k].0);
            }
            let plan = r->Ok_0;
            assert forall|k: int| 0 <= k < plan.ops@.len() implies op_restores(#[trigger] plan.ops@[k], stored[k].0, stored[k].1, stored[k].2) by {
                assert(entries@[k].name@ == stored[k].0);
                assert(op_restores(plan.ops@[k], entries@[k].name@, entries@[k].data@, entries@[k].unix_mode));
            }
            let order = time_order(item_names(stored));
            assert(plan.ops@.len() == stored.len());
            assert(time_order(entry_names(entries@)) == order);
            assert(plan.times@.len() == order.len());
            assert(stored == zip_stored(*old(archive)));
            assert forall|j: int| 0 <= j < plan.times@.len() implies {
                let k = time_order(item_names(zip_stored(*old(archive))))[j];
                &&& 0 <= k < zip_stored(*old(archive)).len()
                &&& (#[trigger] plan.times@[j]).0@ == target_path(zip_stored(*old(archive))[k].0)
                &&& !has_plausible_time(zip_entry_modified(*old(archive), k)) ==> plan.times@[j].1 == options.fallback_timestamp
            } by {
                let k = order[j];
                let t = plan.times@[j];
                assert(0 <= k < entries@.len());
                assert(entries@[k].name@ == stored[k].0);
            }
        }
    }
    r
}

/// Relies on chrono's `Utc::now().timestamp()`: the current time in seconds since
/// the epoch.
#[verifier::external_body]
fn now_timestamp() -> (r: i64) {
    chrono::Utc::now().timestamp()
}

/// Plans the unpack of an archive, giving entries without a valid time of their
/// own the current time.
pub fn extract(archive: &mut zip::ZipArchive<Cursor<Vec<u8>>>) -> (r: Result<ExtractPlan, ArchiveError>)
    ensures
        zip_stored(*final(archive)) == zip_stored(*old(archive)),
        r is Ok <==> zip_all_readable(*old(archive))
            && forall|k: int| 0 <= k < zip_stored(*old(archive)).len() ==> inside_target(#[trigger] zip_stored(*old(archive))[k].0),
        r is Err ==> (r matches Err(ArchiveError::OutsideTarget { .. }) || r matches Err(ArchiveError::Zip(_))),
        r matches Err(ArchiveError::Zip(_)) ==> !zip_all_readable(*old(archive)),
        r matches Err(ArchiveError::OutsideTarget { .. }) ==> zip_all_readable(*old(archive)),
        r matches Err(ArchiveError::OutsideTarget { path }) ==> exists|k: int|
            0 <= k < zip_stored(*old(archive)).len() && !inside_target(#[trigger] zip_stored(*old(archive))[k].0)
                && path@ == zip_stored(*old(archive))[k].0,
        r matches Ok(plan) ==> {
            &&& plan.ops@.len() == zip_stored(*old(archive)).len()
            &&& forall|k: int| 0 <= k < plan.ops@.len() ==> op_restores(#[trigger] plan.ops@[k], zip_stored(*old(archive))[k].0,
                zip_stored(*old(archive))[k].1, zip_stored(*old(archive))[k].2)
            &&& plan.times@.len() == time_order(item_names(zip_stored(*old(archive)))).len()
            &&& forall|j: int| 0 <= j < plan.times@.len() ==> {
                let k = time_order(item_names(zip_stored(*old(archive))))[j];
                (#[trigger] plan.times@[j]).0@ == target_path(zip_stored(*old(archive))[k].0)
            }
        },
{
    let options = ExtractOptions { fallback_timestamp: now_timestamp() };
    extract_verbose(archive, &options)
}

/// The permission bits of a packed entry's recorded mode are those of the walked
/// path, for files and directories alike.
pub proof fn lemma_permission_bits_kept(m: u32)
    ensures
        stored_file_mode(Some(m)) & 0o777u32 == m & 0o777u32,
        stored_dir_mode(Some(m)) & 0o777u32 == m & 0o777u32,
{
    assert(((m & 0o777u32) | 0o100000u32) & 0o777u32 == m & 0o777u32) by (bit_vector);
    assert(((m & 0o777u32) | 0o40000u32) & 0o777u32 == m & 0o777u32) by (bit_vector);
}

/// Whether a path is already in the normal form that unpacking gives it, inside
/// the `core` directory, and names no directory by a trailing separator.
pub open spec fn is_normal_core_path(p: Seq<char>) -> bool {
    inside_target(p) && target_path(p) == p && !is_dir_name(p)
}

proof fn lemma_dir_entry_lands(p: Seq<char>)
    requires
        is_normal_core_path(p),
    ensures
        dir_entry_name(p) == p.push('/'),
        is_dir_name(dir_entry_name(p)),
        resolved(dir_entry_name(p)) == resolved(p),
        inside_target(dir_entry_name(p)),
        target_path(dir_entry_name(p)) == p,
{
    let d = p.push('/');
    assert(d.drop_last() =~= p);
    assert(p.len() > 0);
    assert(d[0] == p[0]);
}

/// Packing then unpacking restores the tree: every archived entry lands inside the
/// `core` directory, each packed file is stored with its content and unpacks to its
/// own path, and each packed directory unpacks to its own path; this holds for
/// trees whose paths are in normal form, as a walk of the library gives them.
pub proof fn lemma_pack_then_extract(s: Seq<SourceEntry>)
    requires
        forall|k: int| 0 <= k < s.len() && is_packed(#[trigger] s[k]) ==> is_normal_core_path(s[k].path@),
    ensures
        forall|j: int| 0 <= j < packed_items(s).len() ==> inside_target(#[trigger] packed_items(s)[j].0),
        forall|k: int| 0 <= k < s.len() && is_packed(#[trigger] s[k]) && s[k].kind == SourceKind::File ==> exists|j: int|
            0 <= j < packed_items(s).len() && #[trigger] packed_items(s)[j] == packed_item(s[k])
                && !is_dir_name(packed_items(s)[j].0) && target_path(packed_items(s)[j].0) == s[k].path@,
        forall|k: int| 0 <= k < s.len() && is_packed(#[trigger] s[k]) && s[k].kind == SourceKind::Dir ==> exists|j: int|
            0 <= j < packed_items(s).len() && is_dir_name(#[trigger] packed_items(s)[j].0)
                && packed_items(s)[j] == packed_item(s[k]) && target_path(packed_items(s)[j].0) == s[k].path@,
    decreases s.len(),
{
    if s.len() > 0 {
        let rest = s.drop_last();
        assert forall|k: int| 0 <= k < rest.len() && is_packed(#[trigger] rest[k]) implies is_normal_core_path(rest[k].path@) by {
            assert(rest[k] == s[k]);
        }
        lemma_pack_then_extract(rest);
        let e = s.last();
        let items = packed_items(s);
        let prev = packed_items(rest);
        if is_packed(e) {
            assert(is_packed(s[s.len() - 1]));
            if e.kind == SourceKind::Dir {
                lemma_dir_entry_lands(e.path@);
            }
        }
        assert forall|j: int| 0 <= j < items.len() implies inside_target(#[trigger] items[j].0) by {
            if j < prev.len() {
                assert(items[j] == prev[j]);
            }
        }
        assert forall|k: int| 0 <= k < s.len() && is_packed(#[trigger] s[k]) && s[k].kind == SourceKind::File implies exists|j: int|
            0 <= j < items.len() && #[trigger] items[j] == packed_item(s[k])
                && !is_dir_name(items[j].0) && target_path(items[j].0) == s[k].path@ by {
            if k < rest.len() {
                assert(rest[k] == s[k]);
                let j = choose|j: int|
                    0 <= j < prev.len() && #[trigger] prev[j] == packed_item(rest[k])
                        && !is_dir_name(prev[j].0) && target_path(prev[j].0) == rest[k].path@;
                assert(items[j] == prev[j]);
            } else {
                assert(items[prev.len() as int] == packed_item(e));
            }
        }
        assert forall|k: int| 0 <= k < s.len() && is_packed(#[trigger] s[k]) && s[k].kind == SourceKind::Dir implies exists|j: int|
            0 <= j < items.len() && is_dir_name(#[trigger] items[j].0) && items[j] == packed_item(s[k])
                && target_path(items[j].0) == s[k].path@ by {
            if k < rest.len() {
                assert(rest[k] == s[k]);
                let j = choose|j: int|
                    0 <= j < prev.len() && is_dir_name(#[trigger] prev[j].0) && prev[j] == packed_item(rest[k])
                        && target_path(prev[j].0) == rest[k].path@;
                assert(items[j] == prev[j]);
            } else {
                assert(items[prev.len() as int] == packed_item(e));
                assert(is_dir_name(items[prev.len() as int].0));
            }
        }
    }
}

/// Packs a walked library tree into the bytes of a zip archive; those bytes open
/// again as exactly the packed entries.
pub fn pack_to_bytes(sources: &Vec<SourceEntry>) -> (r: Result<Vec<u8>, ArchiveError>)
    ensures
        !has_core_dir(sources@) <==> r matches Err(ArchiveError::MissingCore),
        has_core_dir(sources@) && !has_manifest(sources@) <==> r matches Err(ArchiveError::MissingManifest),
        has_core_dir(sources@) && has_manifest(sources@) && packable(sources@) ==> r is Ok,
        r matches Ok(b) ==> zip_parsed(b@) == Some(packed_items(sources@)),
{
    let a = archive(sources)?;
    Ok(archive_bytes(a))
}

/// Opens the bytes of a zip archive for unpacking.
pub fn open_archive_bytes(bytes: Vec<u8>) -> (r: Result<zip::ZipArchive<Cursor<Vec<u8>>>, ArchiveError>)
    ensures
        zip_parsed(bytes@) is Some ==> r is Ok,
        r is Err ==> r matches Err(ArchiveError::Zip(_)),
        r matches Ok(a) ==> (zip_all_readable(a) <==> zip_parsed(bytes@) is Some)
            && (zip_all_readable(a) ==> zip_parsed(bytes@) == Some(zip_stored(a))),
{
    match open_archive(bytes) {
        Ok(a) => Ok(a),
        Err(e) => Err(ArchiveError::Zip(e)),
    }
}

/// What progress report a written path gets.
#[derive(Clone, Copy, Debug, PartialEq, Eq, Structural)]
pub enum Progress {
    /// Name the path.
    Name,
    /// Say, once, that further paths go unnamed.
    Omitted,
    /// Say nothing.
    Quiet,
}

/// The progress report for the path written after `count` others: the first five
/// are named (all of them when verbose), then one note says the rest go unnamed.
pub fn progress_note(count: u64, verbose: bool) -> (r: Progress)
    ensures
        r == Progress::Name <==> verbose || count < 5,
        r == Progress::Omitted <==> !verbose && count == 5,
{
    if verbose || count < 5 {
        Progress::Name
    } else if count == 5 {
        Progress::Omitted
    } else {
        Progress::Quiet
    }
}

/// Restoring the bytes of a packed tree writes every packed file back at its own
/// path with its content and its permission bits, and every packed directory back at
/// its own path with its permission bits, and writes nothing in the build-output
/// cache; this holds for trees whose paths are in
/// normal form, as a walk of the library gives them.
pub proof fn lemma_restore_of_pack(s: Seq<SourceEntry>, bytes: Seq<u8>, ops: Seq<ExtractOp>)
    requires
        forall|k: int| 0 <= k < s.len() && is_packed(#[trigger] s[k]) ==> is_normal_core_path(s[k].path@),
        zip_parsed(bytes) == Some(packed_items(s)),
        ops.len() == packed_items(s).len(),
        forall|k: int| 0 <= k < ops.len() ==> op_restores(#[trigger] ops[k], packed_items(s)[k].0, packed_items(s)[k].1, packed_items(s)[k].2),
    ensures
        forall|k: int| 0 <= k < s.len() && is_packed(#[trigger] s[k]) && s[k].kind == SourceKind::File ==> exists|j: int|
            0 <= j < ops.len() && restores_file(#[trigger] ops[j], s[k]),
        forall|k: int| 0 <= k < s.len() && is_packed(#[trigger] s[k]) && s[k].kind == SourceKind::Dir ==> exists|j: int|
            0 <= j < ops.len() && restores_dir(#[trigger] ops[j], s[k]),
        forall|j: int| 0 <= j < ops.len() ==> !is_ignored(op_path(#[trigger] ops[j])),
{
    lemma_pack_then_extract(s);
    let items = packed_items(s);
    lemma_items_from_walk(s, s.len() as int);
    assert(s.subrange(0, s.len() as int) =~= s);
    assert forall|j: int| 0 <= j < ops.len() implies !is_ignored(op_path(#[trigger] ops[j])) by {
        assert(entry_of_walk(items[j], s, s.len() as int));
        let k = choose|k: int| 0 <= k < s.len() && is_packed(s[k]) && items[j] == #[trigger] packed_item(s[k]);
        assert(op_restores(ops[j], items[j].0, items[j].1, items[j].2));
        if s[k].kind == SourceKind::Dir {
            lemma_dir_entry_lands(s[k].path@);
        }
    }
    assert forall|k: int| 0 <= k < s.len() && is_packed(#[trigger] s[k]) && s[k].kind == SourceKind::File implies exists|j: int|
        0 <= j < ops.len() && restores_file(#[trigger] ops[j], s[k]) by {
        let j = choose|j: int|
            0 <= j < items.len() && #[trigger] items[j] == packed_item(s[k])
                && !is_dir_name(items[j].0) && target_path(items[j].0) == s[k].path@;
        lemma_permission_bits_kept(s[k].mode->0);
        assert(op_restores(ops[j], items[j].0, items[j].1, items[j].2));
        assert(restores_file(ops[j], s[k]));
    }
    assert forall|k: int| 0 <= k < s.len() && is_packed(#[trigger] s[k]) && s[k].kind == SourceKind::Dir implies exists|j: int|
        0 <= j < ops.len() && restores_dir(#[trigger] ops[j], s[k]) by {
        let p = s[k].path@;
        lemma_dir_entry_lands(p);
        let j = choose|j: int|
            0 <= j < items.len() && is_dir_name(#[trigger] items[j].0) && items[j] == packed_item(s[k])
                && target_path(items[j].0) == s[k].path@;
        assert(op_restores(ops[j], items[j].0, items[j].1, items[j].2));
        assert(restores_dir(ops[j], s[k]));
    }
}

/// The path an unpack write goes to, relative to the library directory.
pub open spec fn op_path(op: ExtractOp) -> Seq<char> {
    match op {
        ExtractOp::CreateDir { path, .. } => path@,
        ExtractOp::WriteFile { path, .. } => path@,
    }
}

proof fn lemma_items_from_walk(s: Seq<SourceEntry>, i: int)
    requires
        0 <= i <= s.len(),
    ensures
        from_walk(packed_items(s.subrange(0, i)), s, i),
    decreases i,
{
    if i > 0 {
        lemma_items_from_walk(s, i - 1);
        let sub = s.subrange(0, i);
        assert(sub.drop_last() =~= s.subrange(0, i - 1));
        assert(sub.last() == s[i - 1]);
        lemma_from_walk_step(packed_items(s.subrange(0, i - 1)), packed_items(sub), s, i - 1);
    } else {
        assert(s.subrange(0, 0).len() == 0);
    }
}

/// Whether `op` writes the walked file `e` back: its path, its content, and a mode
/// with its permission bits (`0o644` where the walk gave none).
pub open spec fn restores_file(op: ExtractOp, e: SourceEntry) -> bool {
    op matches ExtractOp::WriteFile { path, data, mode } && path@ == e.path@ && data@ == e.data@
        && mode == Some(stored_file_mode(e.mode))
}

/// Whether `op` creates the walked directory `e` again, with a mode holding its
/// permission bits (`0o755` where the walk gave none).
pub open spec fn restores_dir(op: ExtractOp, e: SourceEntry) -> bool {
    op matches ExtractOp::CreateDir { path, mode } && path@ == e.path@ && mode == Some(stored_dir_mode(e.mode))
}

} // verus!
