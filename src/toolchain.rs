//! Which toolchain a command is about, and whether it needs installing.

use vstd::prelude::*;

use crate::backup::{pairs_view, sort_by_time, sorted_by_time};
use crate::paths::same_text;
use crate::registry::Toolchain;

verus! {

/// Why no toolchain could be chosen from the registry.
#[derive(Clone, Debug, PartialEq, Eq)]
pub enum SelectError {
    /// The registry lists no toolchains.
    NoToolchains,
    /// No toolchain of this name is listed.
    NotFound { name: String },
}

/// Whether toolchain `i` is the latest among those `pick` admits: no admitted one is
/// newer, and every earlier admitted one is strictly older (ties go to the first
/// listed, as a stable sort from newest to oldest puts it first).
pub open spec fn is_latest_among(ts: Seq<Toolchain>, pick: Seq<bool>, i: int) -> bool {
    &&& 0 <= i < ts.len()
    &&& pick[i]
    &&& forall|j: int| 0 <= j < ts.len() && pick[j] ==> (#[trigger] ts[j]).last_modified <= ts[i].last_modified
    &&& forall|j: int| 0 <= j < i && pick[j] ==> (#[trigger] ts[j]).last_modified < ts[i].last_modified
}

/// The latest of the toolchains `pick` admits, if any is admitted.
pub fn latest_among(ts: &Vec<Toolchain>, pick: &Vec<bool>) -> (r: Option<usize>)
    requires
        pick@.len() == ts@.len(),
    ensures
        r is None <==> forall|j: int| 0 <= j < ts@.len() ==> !(#[trigger] pick@[j]),
        r matches Some(i) ==> is_latest_among(ts@, pick@, i as int),
{
    let mut best: Option<usize> = None;
    let mut k: usize = 0;
    while k < ts.len()
        invariant
            k <= ts@.len(),
            pick@.len() == ts@.len(),
            best is None <==> forall|j: int| 0 <= j < k ==> !(#[trigger] pick@[j]),
            best matches Some(i) ==> {
                &&& 0 <= i < k
                &&& pick@[i as int]
                &&& forall|j: int| 0 <= j < k && pick@[j] ==> (#[trigger] ts@[j]).last_modified <= ts@[i as int].last_modified
                &&& forall|j: int| 0 <= j < i && pick@[j] ==> (#[trigger] ts@[j]).last_modified < ts@[i as int].last_modified
            },
        decreases ts@.len() - k,
    {
        if pick[k] {
            match best {
                None => {
                    best = Some(k);
                },
                Some(i) => {
                    if ts[k].last_modified > ts[i].last_modified {
                        best = Some(k);
                    }
                },
            }
        }
        k = k + 1;
    }
    best
}

/// The newest toolchain of the registry: the first listed among the newest.
pub fn latest_toolchain(ts: &Vec<Toolchain>) -> (r: Result<usize, SelectError>)
    ensures
        ts@.len() == 0 <==> r is Err,
        r is Err ==> r == Err::<usize, SelectError>(SelectError::NoToolchains),
        r matches Ok(i) ==> is_latest_among(ts@, Seq::new(ts@.len(), |j: int| true), i as int),
{
    let mut all: Vec<bool> = Vec::new();
    let mut k: usize = 0;
    while k < ts.len()
        invariant
            k <= ts@.len(),
            all@ == Seq::new(k as nat, |j: int| true),
        decreases ts@.len() - k,
    {
        all.push(true);
        k = k + 1;
        proof {
            assert(all@ =~= Seq::new(k as nat, |j: int| true));
        }
    }
    match latest_among(ts, &all) {
        Some(i) => Ok(i),
        None => {
            proof {
                if ts@.len() > 0 {
                    assert(all@[0]);
                }
            }
            Err(SelectError::NoToolchains)
        },
    }
}

/// The toolchain that is installed now, given whether each one matches the installed
/// binaries: the newest matching one, the first listed among equally new ones.
pub fn current_toolchain(ts: &Vec<Toolchain>, matches: &Vec<bool>) -> (r: Option<usize>)
    requires
        matches@.len() == ts@.len(),
    ensures
        r is None <==> forall|j: int| 0 <= j < ts@.len() ==> !(#[trigger] matches@[j]),
        r matches Some(i) ==> is_latest_among(ts@, matches@, i as int),
{
    latest_among(ts, matches)
}

/// The first toolchain listed under `name`.
pub fn find_toolchain(ts: &Vec<Toolchain>, name: &str) -> (r: Result<usize, SelectError>)
    ensures
        r matches Ok(i) ==> 0 <= i < ts@.len() && ts@[i as int].name@ == name@
            && forall|j: int| 0 <= j < i ==> (#[trigger] ts@[j]).name@ != name@,
        r is Err <==> forall|j: int| 0 <= j < ts@.len() ==> (#[trigger] ts@[j]).name@ != name@,
        r matches Err(e) ==> e matches SelectError::NotFound { name: n } && n@ == name@,
{
    let mut k: usize = 0;
    while k < ts.len()
        invariant
            k <= ts@.len(),
            forall|j: int| 0 <= j < k ==> (#[trigger] ts@[j]).name@ != name@,
        decreases ts@.len() - k,
    {
        if same_text(ts[k].name.as_str(), name) {
            return Ok(k);
        }
        k = k + 1;
    }
    Err(SelectError::NotFound { name: name.to_owned() })
}

/// What an update does.
#[derive(Clone, Copy, Debug, PartialEq, Eq, Structural)]
pub enum UpdateAction {
    /// The toolchain is installed already: nothing changes.
    AlreadyCurrent,
    /// Download and install the toolchain.
    Install,
}

/// An installation is skipped exactly when the toolchain already matches and no
/// reinstall was asked for.
pub fn decide_update(matches: bool, force: bool) -> (r: UpdateAction)
    ensures
        r == UpdateAction::Install <==> !matches || force,
{
    if matches && !force {
        UpdateAction::AlreadyCurrent
    } else {
        UpdateAction::Install
    }
}

/// The listing line of a toolchain.
pub open spec fn list_line(name: Seq<char>, current: bool) -> Seq<char> {
    if current {
        name + " toolchain (current)"@
    } else {
        name + " toolchain"@
    }
}

/// Each toolchain's listing line with its time, in registry order.
pub open spec fn line_items(ts: Seq<Toolchain>, matches: Seq<bool>) -> Seq<(Seq<char>, i64)> {
    Seq::new(ts.len(), |k: int| (list_line(ts[k].name@, matches[k]), ts[k].last_modified))
}

/// The lines that list all toolchains, oldest first (equally old ones in registry
/// order), marking those that match the installed binaries.
pub fn toolchain_lines(ts: &Vec<Toolchain>, matches: &Vec<bool>) -> (r: Vec<String>)
    requires
        matches@.len() == ts@.len(),
    ensures
        r@.len() == ts@.len(),
        forall|k: int| 0 <= k < r@.len() ==> (#[trigger] r@[k])@ == sorted_by_time(line_items(ts@, matches@))[k].0,
{
    let mut items: Vec<(String, i64)> = Vec::new();
    let mut k: usize = 0;
    while k < ts.len()
        invariant
            k <= ts@.len(),
            matches@.len() == ts@.len(),
            items@.len() == k,
            forall|m: int| 0 <= m < k ==> (#[trigger] items@[m]).0@ == list_line(ts@[m].name@, matches@[m])
                && items@[m].1 == ts@[m].last_modified,
        decreases ts@.len() - k,
    {
        let mut line = ts[k].name.clone();
        proof {
            assert(line@ == ts@[k as int].name@);
        }
        if matches[k] {
            line.append(" toolchain (current)");
        } else {
            line.append(" toolchain");
        }
        items.push((line, ts[k].last_modified));
        k = k + 1;
    }
    let ghost before = items@;
    proof {
        assert(pairs_view(before) =~= line_items(ts@, matches@));
    }
    let sorted = sort_by_time(items);
    proof {
        crate::backup::lemma_sorted_by_time(pairs_view(before));
    }
    let mut lines: Vec<String> = Vec::new();
    let mut m: usize = 0;
    while m < sorted.len()
        invariant
            m <= sorted@.len(),
            pairs_view(sorted@) == sorted_by_time(pairs_view(before)),
            lines@.len() == m,
            forall|i: int| 0 <= i < m ==> #[trigger] lines@[i]@ == sorted@[i].0@,
        decreases sorted@.len() - m,
    {
        lines.push(sorted[m].0.clone());
        m = m + 1;
    }
    proof {
        assert(sorted_by_time(pairs_view(before)).len() == before.len());
        assert forall|k: int| 0 <= k < lines@.len() implies (#[trigger] lines@[k])@ == sorted_by_time(pairs_view(before))[k].0 by {
            assert(pairs_view(sorted@)[k] == (sorted@[k].0@, sorted@[k].1));
        }
    }
    lines
}

} // verus!
