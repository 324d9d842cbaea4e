//! Named backups of the library: naming, file names and listing order.

use vstd::prelude::*;

use crate::archive::{
    extract, has_core_dir, has_manifest, inside_target, op_restores, open_archive_bytes, pack_to_bytes, packable,
    packed_items, ArchiveError, ExtractPlan, SourceEntry,
};
use crate::zipio::{zip_all_readable, zip_parsed, zip_stored};
use crate::global::{backups_dir, core_backups_path, GlobalInfo};
use crate::paths::{join_path, joined, string_from_chars};

verus! {

/// The archive extension of backup files.
pub open spec fn zip_suffix() -> Seq<char> {
    seq!['.', 'z', 'i', 'p']
}

/// Whether `s` ends with the archive extension.
pub open spec fn has_zip_suffix(s: Seq<char>) -> bool {
    s.len() >= 4 && s.subrange(s.len() - 4, s.len() as int) == zip_suffix()
}

/// A backup name with one trailing archive extension taken off, if it has one.
pub open spec fn normalized_name(s: Seq<char>) -> Seq<char> {
    if has_zip_suffix(s) {
        s.subrange(0, s.len() - 4)
    } else {
        s
    }
}

/// The file name under which a backup of this name is stored.
pub open spec fn backup_file_of(name: Seq<char>) -> Seq<char> {
    normalized_name(name) + zip_suffix()
}

/// Whether `s` ends with the archive extension.
pub fn ends_with_zip(s: &str) -> (r: bool)
    ensures
        r == has_zip_suffix(s@),
{
    let n = s.unicode_len();
    if n < 4 {
        return false;
    }
    let r = s.get_char(n - 4) == '.' && s.get_char(n - 3) == 'z' && s.get_char(n - 2) == 'i'
        && s.get_char(n - 1) == 'p';
    assert(r == (s@.subrange(n - 4, n as int) =~= zip_suffix()));
    r
}

/// A backup name with one trailing `.zip` taken off.
pub fn normalize_backup_name(name: &str) -> (r: String)
    ensures
        r@ == normalized_name(name@),
{
    if ends_with_zip(name) {
        let n = name.unicode_len();
        name.substring_char(0, n - 4).to_owned()
    } else {
        name.to_owned()
    }
}

/// The file name of the backup called `name`: the normalized name and `.zip`.
pub fn backup_file_name(name: &str) -> (r: String)
    ensures
        r@ == backup_file_of(name@),
{
    let mut file = normalize_backup_name(name);
    proof {
        reveal_strlit(".zip");
    }
    file.append(".zip");
    file
}

/// The full path of the backup called `name`.
pub fn backup_path(info: &GlobalInfo, name: &str) -> (r: String)
    ensures
        r@ == joined(backups_dir(*info), backup_file_of(name@)),
{
    let dir = core_backups_path(info);
    let file = backup_file_name(name);
    join_path(dir.as_str(), file.as_str())
}

/// A name given with or without its extension addresses the same backup file, and
/// the extension is never doubled.
pub proof fn lemma_backup_name_suffix(name: Seq<char>)
    requires
        !has_zip_suffix(name),
    ensures
        backup_file_of(name + zip_suffix()) == name + zip_suffix(),
        backup_file_of(name) == name + zip_suffix(),
        normalized_name(name + zip_suffix()) == normalized_name(name),
{
    let full = name + zip_suffix();
    assert(full.subrange(full.len() - 4, full.len() as int) =~= zip_suffix());
    assert(full.subrange(0, full.len() - 4) =~= name);
}

/// A backup is found at the same path whether its name is given with or without
/// the `.zip` extension.
pub proof fn lemma_backup_path_suffix(info: GlobalInfo, name: Seq<char>)
    requires
        !has_zip_suffix(name),
    ensures
        joined(backups_dir(info), backup_file_of(name)) == joined(backups_dir(info), backup_file_of(name + zip_suffix())),
{
    lemma_backup_name_suffix(name);
}

// ---------------------------------------------------------------------------
// Names made from the local time

/// A local calendar time, as the clock gives it.
#[derive(Clone, Copy, Debug, PartialEq, Eq, Structural)]
pub struct LocalDateTime {
    pub year: i32,
    pub month: u32,
    pub day: u32,
    pub hour: u32,
    pub minute: u32,
    pub second: u32,
}

impl LocalDateTime {
    /// The fields are in their calendar ranges and the year has four digits.
    pub open spec fn wf(self) -> bool {
        &&& 0 <= self.year <= 9999
        &&& 1 <= self.month <= 12
        &&& 1 <= self.day <= 31
        &&& self.hour < 24
        &&& self.minute < 60
        &&& self.second < 60
    }

    /// The time as one number that grows with the time: fields weighted by rank.
    pub open spec fn rank(self) -> int {
        ((((self.year as int * 100 + self.month as int) * 100 + self.day as int) * 100
            + self.hour as int) * 100 + self.minute as int) * 100 + self.second as int
    }
}

/// The decimal digit of `d`.
pub open spec fn digit_char(d: int) -> char {
    seq!['0', '1', '2', '3', '4', '5', '6', '7', '8', '9'][d]
}

/// `n` in decimal with exactly `width` digits, zero-padded (the low digits, should
/// `n` need more).
pub open spec fn padded(n: nat, width: nat) -> Seq<char>
    decreases width,
{
    if width == 0 {
        seq![]
    } else {
        padded(n / 10, (width - 1) as nat).push(digit_char((n % 10) as int))
    }
}

/// The default backup name of a time: `YYYYMMDD-HHMMSS`.
pub open spec fn stamp_of(t: LocalDateTime) -> Seq<char> {
    padded(t.year as nat, 4) + padded(t.month as nat, 2) + padded(t.day as nat, 2) + seq!['-']
        + padded(t.hour as nat, 2) + padded(t.minute as nat, 2) + padded(t.second as nat, 2)
}

fn push_padded(out: &mut Vec<char>, n: u32, width: u32)
    requires
        width <= 4,
    ensures
        final(out)@ == old(out)@ + padded(n as nat, width as nat),
    decreases width,
{
    if width > 0 {
        push_padded(out, n / 10, width - 1);
        let d = n % 10;
        out.push(if d == 0 {
            '0'
        } else if d == 1 {
            '1'
        } else if d == 2 {
            '2'
        } else if d == 3 {
            '3'
        } else if d == 4 {
            '4'
        } else if d == 5 {
            '5'
        } else if d == 6 {
            '6'
        } else if d == 7 {
            '7'
        } else if d == 8 {
            '8'
        } else {
            '9'
        });
        proof {
            assert((n / 10) as nat == (n as nat) / 10);
        }
    }
}

/// The default name of a backup taken at `t`: `YYYYMMDD-HHMMSS`.
pub fn timestamp_name(t: &LocalDateTime) -> (r: String)
    requires
        t.wf(),
    ensures
        r@ == stamp_of(*t),
{
    let mut out: Vec<char> = Vec::new();
    push_padded(&mut out, t.year as u32, 4);
    push_padded(&mut out, t.month, 2);
    push_padded(&mut out, t.day, 2);
    out.push('-');
    push_padded(&mut out, t.hour, 2);
    push_padded(&mut out, t.minute, 2);
    push_padded(&mut out, t.second, 2);
    proof {
        assert(out@ =~= stamp_of(*t));
    }
    string_from_chars(&out)
}

/// The name a new backup gets: the given one, or the time stamp, normalized.
pub fn choose_backup_name(given: Option<&str>, now: &LocalDateTime) -> (r: String)
    requires
        now.wf(),
    ensures
        given is Some ==> r@ == normalized_name(given->0@),
        given is None ==> r@ == stamp_of(*now),
{
    match given {
        Some(name) => normalize_backup_name(name),
        None => {
            let stamp = timestamp_name(now);
            proof {
                lemma_stamp_has_no_suffix(*now);
            }
            normalize_backup_name(stamp.as_str())
        },
    }
}

/// A time stamp ends with a digit, so normalizing leaves it as it is.
proof fn lemma_stamp_has_no_suffix(t: LocalDateTime)
    requires
        t.wf(),
    ensures
        normalized_name(stamp_of(t)) == stamp_of(t),
{
    let st = stamp_of(t);
    let d = (t.second as nat % 10) as int;
    lemma_digit_code(d);
    assert(padded(t.second as nat, 2) == padded(t.second as nat / 10, 1).push(digit_char(d)));
    assert(st.last() == digit_char(d));
    if has_zip_suffix(st) {
        assert(st.subrange(st.len() - 4, st.len() as int)[3] == st.last());
        assert(zip_suffix()[3] == 'p');
        assert(('p' as u32) == 112);
    }
}

// ---------------------------------------------------------------------------
// Listing

/// One entry of the backups directory, as read from the file system.
#[derive(Clone, Debug)]
pub struct DirEntryInfo {
    pub file_name: String,
    pub is_file: bool,
    /// Seconds since the epoch of the last modification, if it could be read.
    pub modified: Option<i64>,
}

/// The backups among directory entries, each with its time, in directory order.
pub open spec fn backups_among(entries: Seq<DirEntryInfo>) -> Seq<(Seq<char>, i64)>
    decreases entries.len(),
{
    if entries.len() == 0 {
        seq![]
    } else {
        let e = entries.last();
        let rest = backups_among(entries.drop_last());
        if e.is_file && has_zip_suffix(e.file_name@) {
            rest.push((normalized_name(e.file_name@), if e.modified is Some { e.modified->0 } else { 0 }))
        } else {
            rest
        }
    }
}

/// The first position in `s` whose time is later than `t` (or the length).
pub open spec fn insertion_point(s: Seq<(Seq<char>, i64)>, t: i64) -> int
    decreases s.len(),
{
    if s.len() == 0 {
        0
    } else if s.last().1 > t {
        insertion_point(s.drop_last(), t)
    } else {
        s.len() as int
    }
}

/// A stable sort by time: each item goes after every earlier item whose time is
/// not later than its own.
pub open spec fn sorted_by_time(s: Seq<(Seq<char>, i64)>) -> Seq<(Seq<char>, i64)>
    decreases s.len(),
{
    if s.len() == 0 {
        seq![]
    } else {
        let sorted = sorted_by_time(s.drop_last());
        sorted.insert(insertion_point(sorted, s.last().1), s.last())
    }
}

/// Backup names ordered by time, oldest first, equal times in directory order.
pub open spec fn listing(entries: Seq<DirEntryInfo>) -> Seq<Seq<char>> {
    sorted_by_time(backups_among(entries)).map_values(|p: (Seq<char>, i64)| p.0)
}

/// Whether times never decrease along `s`.
pub open spec fn ascending(s: Seq<(Seq<char>, i64)>) -> bool {
    forall|i: int, j: int| 0 <= i < j < s.len() ==> s[i].1 <= s[j].1
}


/// The listed pairs of exec values, as names and times.
pub open spec fn pairs_view(v: Seq<(String, i64)>) -> Seq<(Seq<char>, i64)> {
    v.map_values(|p: (String, i64)| (p.0@, p.1))
}

proof fn lemma_insertion_point(s: Seq<(Seq<char>, i64)>, t: i64)
    ensures
        0 <= insertion_point(s, t) <= s.len(),
        forall|i: int| insertion_point(s, t) <= i < s.len() ==> s[i].1 > t,
        ascending(s) ==> forall|i: int| 0 <= i < insertion_point(s, t) ==> s[i].1 <= t,
    decreases s.len(),
{
    if s.len() > 0 {
        lemma_insertion_point(s.drop_last(), t);
        if s.last().1 > t {
            assert forall|i: int| insertion_point(s, t) <= i < s.len() implies s[i].1 > t by {
                if i < s.len() - 1 {
                    assert(s[i] == s.drop_last()[i]);
                }
            }
            if ascending(s) {
                assert(ascending(s.drop_last()));
                assert forall|i: int| 0 <= i < insertion_point(s, t) implies s[i].1 <= t by {
                    assert(s[i] == s.drop_last()[i]);
                }
            }
        }
    }
}

/// Sorting by time gives ascending times and keeps every item, each as often as before.
pub proof fn lemma_sorted_by_time(s: Seq<(Seq<char>, i64)>)
    ensures
        ascending(sorted_by_time(s)),
        sorted_by_time(s).to_multiset() == s.to_multiset(),
        sorted_by_time(s).len() == s.len(),
    decreases s.len(),
{
    broadcast use vstd::seq_lib::to_multiset_build, vstd::seq_lib::to_multiset_insert;
    if s.len() > 0 {
        let rest = s.drop_last();
        lemma_sorted_by_time(rest);
        let sorted = sorted_by_time(rest);
        let x = s.last();
        let p = insertion_point(sorted, x.1);
        lemma_insertion_point(sorted, x.1);
        let out = sorted.insert(p, x);
        assert forall|i: int, j: int| 0 <= i < j < out.len() implies out[i].1 <= out[j].1 by {
            if j < p {
            } else if j == p {
            } else if i < p {
                assert(out[j] == sorted[j - 1]);
            } else if i == p {
                assert(out[j] == sorted[j - 1]);
            } else {
                assert(out[i] == sorted[i - 1]);
                assert(out[j] == sorted[j - 1]);
            }
        }
        assert(s =~= rest.push(x));
        assert(out.to_multiset() == sorted.to_multiset().insert(x));
        assert(rest.push(x).to_multiset() == rest.to_multiset().insert(x));
    } else {
        assert(s =~= Seq::<(Seq<char>, i64)>::empty());
    }
}

/// A name is listed only where the directory holds a `.zip` file of that name: a
/// file with another extension, or a directory, adds nothing to the listing.
pub proof fn lemma_listed_only_from_zip_files(entries: Seq<DirEntryInfo>, name: Seq<char>)
    requires
        forall|j: int| 0 <= j < entries.len() && (#[trigger] entries[j]).is_file && has_zip_suffix(entries[j].file_name@)
            ==> normalized_name(entries[j].file_name@) != name,
    ensures
        !listing(entries).contains(name),
{
    lemma_listing_ordered(entries);
    let found = backups_among(entries);
    let sorted = sorted_by_time(found);
    if listing(entries).contains(name) {
        let i = choose|i: int| 0 <= i < listing(entries).len() && listing(entries)[i] == name;
        assert(listing(entries)[i] == sorted[i].0);
        assert(sorted.contains(sorted[i]));
        vstd::seq_lib::to_multiset_contains(sorted, sorted[i]);
        vstd::seq_lib::to_multiset_contains(found, sorted[i]);
        let k = choose|k: int| 0 <= k < found.len() && found[k] == sorted[i];
        let j = choose|j: int|
            0 <= j < entries.len() && (#[trigger] entries[j]).is_file && has_zip_suffix(entries[j].file_name@)
                && normalized_name(entries[j].file_name@) == (#[trigger] found[k]).0;
        assert(normalized_name(entries[j].file_name@) != name);
    }
}

/// The listing puts backups in ascending order of time, and holds exactly the
/// `.zip` files of the directory, by name, each once.
pub proof fn lemma_listing_ordered(entries: Seq<DirEntryInfo>)
    ensures
        ascending(sorted_by_time(backups_among(entries))),
        sorted_by_time(backups_among(entries)).to_multiset() == backups_among(entries).to_multiset(),
        listing(entries).len() == backups_among(entries).len(),
        forall|i: int| 0 <= i < listing(entries).len() ==> #[trigger] listing(entries)[i]
            == sorted_by_time(backups_among(entries))[i].0,
        forall|k: int| 0 <= k < backups_among(entries).len() ==> exists|j: int|
            0 <= j < entries.len() && (#[trigger] entries[j]).is_file && has_zip_suffix(entries[j].file_name@)
                && normalized_name(entries[j].file_name@) == (#[trigger] backups_among(entries)[k]).0,
{
    lemma_sorted_by_time(backups_among(entries));
    lemma_backups_from_zip_files(entries);
}

proof fn lemma_backups_from_zip_files(entries: Seq<DirEntryInfo>)
    ensures
        forall|k: int| 0 <= k < backups_among(entries).len() ==> exists|j: int|
            0 <= j < entries.len() && (#[trigger] entries[j]).is_file && has_zip_suffix(entries[j].file_name@)
                && normalized_name(entries[j].file_name@) == (#[trigger] backups_among(entries)[k]).0,
    decreases entries.len(),
{
    if entries.len() > 0 {
        let rest = entries.drop_last();
        lemma_backups_from_zip_files(rest);
        assert forall|k: int| 0 <= k < backups_among(entries).len() implies exists|j: int|
            0 <= j < entries.len() && (#[trigger] entries[j]).is_file && has_zip_suffix(entries[j].file_name@)
                && normalized_name(entries[j].file_name@) == (#[trigger] backups_among(entries)[k]).0 by {
            if k < backups_among(rest).len() {
                assert(backups_among(entries)[k] == backups_among(rest)[k]);
                let j = choose|j: int|
                    0 <= j < rest.len() && (#[trigger] rest[j]).is_file && has_zip_suffix(rest[j].file_name@)
                        && normalized_name(rest[j].file_name@) == (#[trigger] backups_among(rest)[k]).0;
                assert(entries[j] == rest[j]);
            } else {
                assert(entries[entries.len() - 1] == entries.last());
            }
        }
    }
}

fn collect_backups(entries: &Vec<DirEntryInfo>) -> (r: Vec<(String, i64)>)
    ensures
        pairs_view(r@) == backups_among(entries@),
{
    let mut out: Vec<(String, i64)> = Vec::new();
    let mut i: usize = 0;
    while i < entries.len()
        invariant
            i <= entries@.len(),
            pairs_view(out@) == backups_among(entries@.subrange(0, i as int)),
        decreases entries@.len() - i,
    {
        let e = &entries[i];
        proof {
            assert(entries@.subrange(0, i + 1).drop_last() =~= entries@.subrange(0, i as int));
        }
        if e.is_file && ends_with_zip(e.file_name.as_str()) {
            let t: i64 = match e.modified {
                Some(t) => t,
                None => 0,
            };
            let name = normalize_backup_name(e.file_name.as_str());
            out.push((name, t));
            proof {
                assert(pairs_view(out@) =~= pairs_view(out@.drop_last()).push((name@, t)));
            }
        }
        i = i + 1;
    }
    proof {
        assert(entries@.subrange(0, entries@.len() as int) =~= entries@);
    }
    out
}

fn insert_by_time(sorted: &mut Vec<(String, i64)>, item: (String, i64))
    ensures
        pairs_view(final(sorted)@) == pairs_view(old(sorted)@).insert(
            insertion_point(pairs_view(old(sorted)@), item.1),
            (item.0@, item.1),
        ),
{
    let ghost before = pairs_view(sorted@);
    let mut j: usize = sorted.len();
    proof {
        assert(before.subrange(0, j as int) =~= before);
    }
    while j > 0 && sorted[j - 1].1 > item.1
        invariant
            j <= sorted@.len(),
            pairs_view(sorted@) == before,
            insertion_point(before, item.1) == insertion_point(before.subrange(0, j as int), item.1),
        decreases j,
    {
        proof {
            assert(before.subrange(0, j as int).drop_last() =~= before.subrange(0, j - 1));
        }
        j = j - 1;
    }
    proof {
        if j > 0 {
            assert(before.subrange(0, j as int).last() == before[j - 1]);
        }
    }
    let t = item.1;
    let ghost name = item.0@;
    sorted.insert(j, item);
    proof {
        assert(pairs_view(sorted@) =~= before.insert(j as int, (name, t)));
    }
}

/// Backup names ordered by the time of their files, oldest first; entries that are
/// not `.zip` files are left out.
pub fn list(entries: &Vec<DirEntryInfo>) -> (r: Vec<String>)
    ensures
        r@.len() == listing(entries@).len(),
        forall|i: int| 0 <= i < r@.len() ==> #[trigger] r@[i]@ == listing(entries@)[i],
{
    let found = collect_backups(entries);
    let sorted = sort_by_time(found);
    let mut names: Vec<String> = Vec::new();
    let mut m: usize = 0;
    while m < sorted.len()
        invariant
            m <= sorted@.len(),
            pairs_view(sorted@) == sorted_by_time(backups_among(entries@)),
            names@.len() == m,
            forall|i: int| 0 <= i < m ==> #[trigger] names@[i]@ == sorted@[i].0@,
        decreases sorted@.len() - m,
    {
        let name = sorted[m].0.clone();
        names.push(name);
        m = m + 1;
    }
    names
}

/// Pairs of text and time, stably sorted by time, earliest first.
pub fn sort_by_time(items: Vec<(String, i64)>) -> (r: Vec<(String, i64)>)
    ensures
        pairs_view(r@) == sorted_by_time(pairs_view(items@)),
{
    let mut sorted: Vec<(String, i64)> = Vec::new();
    let mut k: usize = 0;
    let n = items.len();
    while k < n
        invariant
            k <= n,
            n == items@.len(),
            pairs_view(sorted@) == sorted_by_time(pairs_view(items@).subrange(0, k as int)),
        decreases n - k,
    {
        proof {
            assert(pairs_view(items@).subrange(0, k + 1).drop_last() =~= pairs_view(items@).subrange(0, k as int));
        }
        let item = (items[k].0.clone(), items[k].1);
        insert_by_time(&mut sorted, item);
        k = k + 1;
    }
    proof {
        assert(pairs_view(items@).subrange(0, n as int) =~= pairs_view(items@));
    }
    sorted
}

/// The name of a backup taken at local time `now`: the given one with one
/// trailing `.zip` taken off, or else the time stamp of `now`. Time stamps are
/// written for calendar times with a four-digit year; for any other `now`, and no
/// name given, there is no name.
pub fn backup_name(given: Option<&str>, now: &LocalDateTime) -> (r: Option<String>)
    ensures
        given matches Some(n) ==> r matches Some(s) && s@ == normalized_name(n@),
        given is None && now.wf() ==> (r matches Some(s) && s@ == stamp_of(*now)),
        given is None && !now.wf() ==> r is None,
{
    match given {
        Some(name) => Some(normalize_backup_name(name)),
        None => {
            if now.year < 0 || now.year > 9999 || now.month < 1 || now.month > 12 || now.day < 1 || now.day > 31
                || now.hour >= 24 || now.minute >= 60 || now.second >= 60 {
                None
            } else {
                Some(choose_backup_name(None, now))
            }
        },
    }
}

// ---------------------------------------------------------------------------
// Order of time-stamped names

/// Whether text `a` sorts before text `b`: at the first position where they
/// differ, `a` has the smaller character.
pub open spec fn text_before(a: Seq<char>, b: Seq<char>) -> bool {
    exists|i: int|
        0 <= i < a.len() && i < b.len() && #[trigger] a.subrange(0, i) == b.subrange(0, i) && (a[i] as u32) < (b[i] as u32)
}

/// Ten to the power `w`.
pub open spec fn pow10(w: nat) -> nat
    decreases w,
{
    if w == 0 {
        1
    } else {
        10 * pow10((w - 1) as nat)
    }
}

proof fn lemma_digit_code(d: int)
    requires
        0 <= d < 10,
    ensures
        digit_char(d) as u32 == 48 + d,
{
    let t = seq!['0', '1', '2', '3', '4', '5', '6', '7', '8', '9'];
    assert(digit_char(d) == t[d]);
    if d == 0 {
        assert(t[0] == '0');
    } else if d == 1 {
        assert(t[1] == '1');
    } else if d == 2 {
        assert(t[2] == '2');
    } else if d == 3 {
        assert(t[3] == '3');
    } else if d == 4 {
        assert(t[4] == '4');
    } else if d == 5 {
        assert(t[5] == '5');
    } else if d == 6 {
        assert(t[6] == '6');
    } else if d == 7 {
        assert(t[7] == '7');
    } else if d == 8 {
        assert(t[8] == '8');
    } else {
        assert(t[9] == '9');
    }
}

proof fn lemma_padded_len(n: nat, w: nat)
    ensures
        padded(n, w).len() == w,
    decreases w,
{
    if w > 0 {
        lemma_padded_len(n / 10, (w - 1) as nat);
    }
}

proof fn lemma_before_push(a: Seq<char>, b: Seq<char>, x: char, y: char)
    requires
        text_before(a, b),
        a.len() == b.len(),
    ensures
        text_before(a.push(x), b.push(y)),
{
    let i = choose|i: int|
        0 <= i < a.len() && i < b.len() && #[trigger] a.subrange(0, i) == b.subrange(0, i) && (a[i] as u32) < (b[i] as u32);
    assert(a.push(x).subrange(0, i) =~= a.subrange(0, i));
    assert(b.push(y).subrange(0, i) =~= b.subrange(0, i));
    assert(a.push(x)[i] == a[i]);
    assert(b.push(y)[i] == b[i]);
}

/// Zero-padded numbers of one width sort as the numbers do.
pub proof fn lemma_padded_order(n1: nat, n2: nat, w: nat)
    requires
        n1 < n2 < pow10(w),
    ensures
        text_before(padded(n1, w), padded(n2, w)),
    decreases w,
{
    if w == 0 {
        assert(false);
    } else {
        let p = pow10((w - 1) as nat);
        assert(n2 / 10 < p) by (nonlinear_arith)
            requires
                n2 < 10 * p,
        ;
        assert(n1 / 10 <= n2 / 10) by (nonlinear_arith)
            requires
                n1 < n2,
        ;
        lemma_padded_len(n1 / 10, (w - 1) as nat);
        lemma_padded_len(n2 / 10, (w - 1) as nat);
        let a = padded(n1 / 10, (w - 1) as nat);
        let b = padded(n2 / 10, (w - 1) as nat);
        if n1 / 10 < n2 / 10 {
            lemma_padded_order(n1 / 10, n2 / 10, (w - 1) as nat);
            lemma_before_push(a, b, digit_char((n1 % 10) as int), digit_char((n2 % 10) as int));
        } else {
            assert(n1 % 10 < n2 % 10) by (nonlinear_arith)
                requires
                    n1 < n2,
                    n1 / 10 == n2 / 10,
            ;
            lemma_digit_code((n1 % 10) as int);
            lemma_digit_code((n2 % 10) as int);
            let i = (w - 1) as int;
            assert(a.push(digit_char((n1 % 10) as int)).subrange(0, i) =~= a);
            assert(b.push(digit_char((n2 % 10) as int)).subrange(0, i) =~= b);
            assert(padded(n1, w).subrange(0, i) == padded(n2, w).subrange(0, i));
        }
    }
}

proof fn lemma_padded_split(a: nat, b: nat, w: nat)
    requires
        b < 100,
        w >= 2,
    ensures
        padded(a * 100 + b, w) == padded(a, (w - 2) as nat) + padded(b, 2),
{
    let n = a * 100 + b;
    assert(n / 10 == a * 10 + b / 10 && n % 10 == b % 10) by (nonlinear_arith)
        requires
            n == a * 100 + b,
            b < 100,
    ;
    let m = a * 10 + b / 10;
    assert(m / 10 == a && m % 10 == b / 10 && b / 10 < 10) by (nonlinear_arith)
        requires
            m == a * 10 + b / 10,
            b < 100,
    ;
    assert(b / 100 == 0) by (nonlinear_arith)
        requires
            b < 100,
    ;
    assert(padded(b / 100, 0) =~= Seq::<char>::empty());
    assert(padded(b, 2) == padded(b / 10, 1).push(digit_char((b % 10) as int)));
    assert(padded(b / 10, 1) == padded(b / 100, 0).push(digit_char(((b / 10) % 10) as int)));
    assert(((b / 10) % 10) == b / 10) by (nonlinear_arith)
        requires
            b / 10 < 10,
    ;
    assert(padded(n, w) == padded(m, (w - 1) as nat).push(digit_char((n % 10) as int)));
    assert(padded(m, (w - 1) as nat) == padded(a, (w - 2) as nat).push(digit_char((m % 10) as int)));
    assert(padded(n, w) =~= padded(a, (w - 2) as nat) + padded(b, 2));
}

/// The stamp of a time without its separator: the time's rank as fourteen digits.
proof fn lemma_stamp_digits(t: LocalDateTime)
    requires
        t.wf(),
    ensures
        stamp_of(t) == padded(t.rank() as nat, 14).subrange(0, 8) + seq!['-'] + padded(t.rank() as nat, 14).subrange(8, 14),
        t.rank() < pow10(14),
        0 <= t.rank(),
{
    reveal_with_fuel(pow10, 15);
    let y = t.year as nat;
    let mo = t.month as nat;
    let d = t.day as nat;
    let h = t.hour as nat;
    let mi = t.minute as nat;
    let sec = t.second as nat;
    let r1 = y * 100 + mo;
    let r2 = r1 * 100 + d;
    let r3 = r2 * 100 + h;
    let r4 = r3 * 100 + mi;
    let r5 = r4 * 100 + sec;
    assert(t.rank() == r5);
    lemma_padded_split(r4, sec, 14);
    lemma_padded_split(r3, mi, 12);
    lemma_padded_split(r2, h, 10);
    lemma_padded_split(r1, d, 8);
    lemma_padded_split(y, mo, 6);
    lemma_padded_len(y, 4);
    lemma_padded_len(mo, 2);
    lemma_padded_len(d, 2);
    lemma_padded_len(h, 2);
    lemma_padded_len(mi, 2);
    lemma_padded_len(sec, 2);
    let full = padded(r5, 14);
    let date = padded(y, 4) + padded(mo, 2) + padded(d, 2);
    let time = padded(h, 2) + padded(mi, 2) + padded(sec, 2);
    assert(full =~= date + time);
    assert(full.subrange(0, 8) =~= date);
    assert(full.subrange(8, 14) =~= time);
    assert(stamp_of(t) =~= date + seq!['-'] + time);
}

/// Default backup names follow the clock: of two times in calendar range, the later
/// one gets a name that sorts after the earlier one's, so the two names differ.
pub proof fn lemma_stamp_order(t1: LocalDateTime, t2: LocalDateTime)
    requires
        t1.wf(),
        t2.wf(),
        t1.rank() < t2.rank(),
    ensures
        text_before(stamp_of(t1), stamp_of(t2)),
        stamp_of(t1) != stamp_of(t2),
{
    lemma_stamp_digits(t1);
    lemma_stamp_digits(t2);
    let digits_a = padded(t1.rank() as nat, 14);
    let digits_b = padded(t2.rank() as nat, 14);
    lemma_padded_len(t1.rank() as nat, 14);
    lemma_padded_len(t2.rank() as nat, 14);
    lemma_padded_order(t1.rank() as nat, t2.rank() as nat, 14);
    let i = choose|i: int|
        0 <= i < digits_a.len() && i < digits_b.len() && #[trigger] digits_a.subrange(0, i) == digits_b.subrange(0, i) && (digits_a[i] as u32) < (digits_b[i] as u32);
    let s1 = stamp_of(t1);
    let s2 = stamp_of(t2);
    if i < 8 {
        assert(s1.subrange(0, i) =~= digits_a.subrange(0, i));
        assert(s2.subrange(0, i) =~= digits_b.subrange(0, i));
        assert(s1[i] == digits_a[i]);
        assert(s2[i] == digits_b[i]);
    } else {
        assert forall|k: int| 0 <= k < i + 1 implies s1[k] == s2[k] by {
            if k < 8 {
                assert(digits_a.subrange(0, i)[k] == digits_b.subrange(0, i)[k]);
            } else if k > 8 {
                assert(digits_a.subrange(0, i)[k - 1] == digits_b.subrange(0, i)[k - 1]);
            }
        }
        assert(s1.subrange(0, i + 1) =~= s2.subrange(0, i + 1));
        assert(s1[i + 1] == digits_a[i]);
        assert(s2[i + 1] == digits_b[i]);
    }
    assert(s1 != s2) by {
        if s1 == s2 {
            assert(s1[i] == s2[i]);
        }
    }
}

/// Why a backup could not be made.
#[derive(Debug)]
pub enum BackupError {
    /// The library tree could not be packed.
    Archive(ArchiveError),
    /// No name was given and the local time is no calendar time with a four-digit year.
    NoTimestamp,
}

/// A packed backup, ready to be written to a new file at `path`.
#[derive(Debug)]
pub struct BackupFile {
    pub name: String,
    pub path: String,
    pub bytes: Vec<u8>,
}

/// Packs the walked library tree as a backup taken at local time `now`: its name is
/// the given one with one trailing `.zip` taken off, or else the time stamp of
/// `now`, and it goes to `<name>.zip` in the backups directory.
pub fn backup(info: &GlobalInfo, name: Option<&str>, now: &LocalDateTime, sources: &Vec<SourceEntry>) -> (r: Result<BackupFile, BackupError>)
    ensures
        !has_core_dir(sources@) <==> r matches Err(BackupError::Archive(ArchiveError::MissingCore)),
        has_core_dir(sources@) && !has_manifest(sources@) <==> r matches Err(BackupError::Archive(ArchiveError::MissingManifest)),
        r matches Ok(b) ==> b.path@ == joined(backups_dir(*info), b.name@ + zip_suffix()),
        name matches Some(n) ==> (r matches Ok(b) ==> b.name@ == normalized_name(n@)),
        name is Some ==> !(r matches Err(BackupError::NoTimestamp)),
        name is None ==> (r matches Ok(b) ==> b.name@ == stamp_of(*now)),
        name is None && !now.wf() ==> r is Err,
        has_core_dir(sources@) && has_manifest(sources@) && packable(sources@) && (name is Some || now.wf()) ==> r is Ok,
        r matches Ok(b) ==> zip_parsed(b.bytes@) == Some(packed_items(sources@)),
{
    let bytes = match pack_to_bytes(sources) {
        Ok(b) => b,
        Err(e) => {
            return Err(BackupError::Archive(e));
        },
    };
    let chosen = match backup_name(name, now) {
        Some(n) => n,
        None => {
            return Err(BackupError::NoTimestamp);
        },
    };
    let mut file = chosen.clone();
    proof {
        reveal_strlit(".zip");
        assert(".zip"@ =~= zip_suffix());
    }
    file.append(".zip");
    let dir = core_backups_path(info);
    let path = join_path(dir.as_str(), file.as_str());
    Ok(BackupFile { name: chosen, path, bytes })
}

/// Plans the restore of a backup from the bytes of its file: it succeeds exactly
/// when the bytes are an archive whose every entry reads back and lands inside the
/// `core` directory, and then each write restores the matching entry. Entries
/// without a valid time of their own get the current time. No version check is
/// made: a restore is taken as intended.
pub fn restore(bytes: Vec<u8>) -> (r: Result<ExtractPlan, ArchiveError>)
    ensures
        r is Ok <==> (zip_parsed(bytes@) matches Some(es)
            && forall|k: int| 0 <= k < es.len() ==> inside_target(#[trigger] es[k].0)),
        r matches Ok(plan) ==> (zip_parsed(bytes@) matches Some(es) && plan.ops@.len() == es.len()
            && forall|k: int| 0 <= k < es.len() ==> op_restores(#[trigger] plan.ops@[k], es[k].0, es[k].1, es[k].2)),
        r is Err ==> (r matches Err(ArchiveError::Zip(_)) || r matches Err(ArchiveError::OutsideTarget { .. })),
        r matches Err(ArchiveError::Zip(_)) ==> zip_parsed(bytes@) is None,
        r matches Err(ArchiveError::OutsideTarget { path }) ==> (zip_parsed(bytes@) matches Some(es) && exists|k: int|
            0 <= k < es.len() && !inside_target(#[trigger] es[k].0) && path@ == es[k].0),
{
    let ghost b = bytes@;
    let mut archive = open_archive_bytes(bytes)?;
    let ghost a0 = archive;
    let r = extract(&mut archive);
    proof {
        let st = zip_stored(a0);
        if zip_parsed(b) is Some {
            assert(zip_all_readable(a0));
            let es = zip_parsed(b)->0;
            assert(es == st);
            if forall|k: int| 0 <= k < es.len() ==> inside_target(#[trigger] es[k].0) {
                assert forall|k: int| 0 <= k < st.len() implies inside_target(#[trigger] st[k].0) by {
                    assert(es[k] == st[k]);
                }
                assert(r is Ok);
            }
        }
        if r is Ok {
            assert(zip_all_readable(a0));
            assert(zip_parsed(b) == Some(st));
        }
        if r matches Err(ArchiveError::OutsideTarget { .. }) {
            assert(zip_all_readable(a0));
            assert(zip_parsed(b) == Some(st));
        }
    }
    r
}

} // verus!
