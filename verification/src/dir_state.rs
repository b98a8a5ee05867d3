//! The registry operations over an explicit directory snapshot.
//!
//! A [`DirState`] holds what the registry reads and writes: the regular files
//! of the registry directory, each with its name and full content. The caller
//! owns the snapshot; a directory that does not exist is indistinguishable
//! from an empty one. Every operation is specified against the snapshot's
//! mathematical view, a map from file name to content.

use vstd::prelude::*;

use crate::config::{ConfigView, ResolverConfig};
use crate::error::ResolverError;
use crate::file_resolver::{
    owned_content, orphan_candidate_pid, permanent_content, transient_content, FileResolver,
};
use crate::text::str_eq;

verus! {

/// One regular file of a directory snapshot: its name (the domain) and its
/// full text content.
pub struct FileEntry {
    /// The file name, used verbatim as the domain.
    pub name: String,
    /// The file's full content.
    pub content: String,
}

/// An in-memory snapshot of the registry directory's regular files.
pub struct DirState {
    /// The files, in no particular order, with pairwise distinct names.
    pub files: Vec<FileEntry>,
}

/// Pairwise distinct file names.
pub open spec fn unique_names(files: Seq<FileEntry>) -> bool {
    forall|i: int, j: int|
        0 <= i < j < files.len() ==> (#[trigger] files[i].name)@ != (#[trigger] files[j].name)@
}

/// The map from file name to content that a file sequence denotes.
pub open spec fn files_map(files: Seq<FileEntry>) -> Map<Seq<char>, Seq<char>>
    decreases files.len(),
{
    if files.len() == 0 {
        Map::empty()
    } else {
        files_map(files.drop_last()).insert(files.last().name@, files.last().content@)
    }
}

impl View for DirState {
    type V = Map<Seq<char>, Seq<char>>;

    open spec fn view(&self) -> Map<Seq<char>, Seq<char>> {
        files_map(self.files@)
    }
}

impl DirState {
    /// The snapshot is well formed: no two files share a name.
    pub open spec fn wf(&self) -> bool {
        unique_names(self.files@)
    }

    /// An empty directory (equally: one that does not exist yet).
    pub fn empty() -> (r: Self)
        ensures
            r.wf(),
            r@ == Map::<Seq<char>, Seq<char>>::empty(),
    {
        DirState { files: Vec::new() }
    }
}

/// A name is in the map exactly when some file carries it.
proof fn lemma_files_map_contains(files: Seq<FileEntry>, d: Seq<char>)
    ensures
        files_map(files).contains_key(d) <==> exists|i: int|
            0 <= i < files.len() && (#[trigger] files[i].name)@ == d,
    decreases files.len(),
{
    if files.len() > 0 {
        lemma_files_map_contains(files.drop_last(), d);
        if files.last().name@ == d {
            assert(files[files.len() - 1].name@ == d);
        } else if files_map(files).contains_key(d) {
            let i = choose|i: int|
                0 <= i < files.drop_last().len() && (#[trigger] files.drop_last()[i].name)@ == d;
            assert(files[i].name@ == d);
        } else if exists|i: int| 0 <= i < files.len() && (#[trigger] files[i].name)@ == d {
            let i = choose|i: int| 0 <= i < files.len() && (#[trigger] files[i].name)@ == d;
            assert(files.drop_last()[i].name@ == d);
        }
    }
}

/// Under unique names, the map sends each file's name to its content.
proof fn lemma_files_map_at(files: Seq<FileEntry>, i: int)
    requires
        unique_names(files),
        0 <= i < files.len(),
    ensures
        files_map(files).contains_key(files[i].name@),
        files_map(files)[files[i].name@] == files[i].content@,
    decreases files.len(),
{
    if i == files.len() - 1 {
    } else {
        assert(unique_names(files.drop_last()));
        assert(files.drop_last()[i] == files[i]);
        lemma_files_map_at(files.drop_last(), i);
        assert(files[files.len() - 1].name@ != files[i].name@);
    }
}

/// Under unique names, removing the file at `i` removes its name from the map.
proof fn lemma_files_map_remove(files: Seq<FileEntry>, i: int)
    requires
        unique_names(files),
        0 <= i < files.len(),
    ensures
        unique_names(files.remove(i)),
        files_map(files.remove(i)) == files_map(files).remove(files[i].name@),
    decreases files.len(),
{
    assert(unique_names(files.remove(i)));
    if i == files.len() - 1 {
        assert(files.remove(i) =~= files.drop_last());
        lemma_files_map_contains(files.drop_last(), files[i].name@);
        assert(files_map(files.drop_last()) =~= files_map(files).remove(files[i].name@));
    } else {
        let d = files[i].name@;
        let last = files[files.len() - 1];
        assert(unique_names(files.drop_last()));
        lemma_files_map_remove(files.drop_last(), i);
        assert(files.remove(i).drop_last() =~= files.drop_last().remove(i));
        assert(files.remove(i).last() == last);
        assert(last.name@ != d);
        assert(files_map(files.remove(i)) == files_map(files.drop_last().remove(i)).insert(
            last.name@,
            last.content@,
        ));
        assert(files_map(files.drop_last()).remove(d).insert(last.name@, last.content@)
            =~= files_map(files.drop_last()).insert(last.name@, last.content@).remove(d));
    }
}

/// Position of the file named `domain`, if one exists.
fn find_entry(files: &Vec<FileEntry>, domain: &str) -> (r: Option<usize>)
    ensures
        match r {
            Some(i) => i < files@.len() && files@[i as int].name@ == domain@,
            None => forall|i: int|
                0 <= i < files@.len() ==> (#[trigger] files@[i].name)@ != domain@,
        },
{
    let mut i: usize = 0;
    while i < files.len()
        invariant
            i <= files@.len(),
            forall|j: int| 0 <= j < i ==> (#[trigger] files@[j].name)@ != domain@,
        decreases files@.len() - i,
    {
        if str_eq(files[i].name.as_str(), domain) {
            return Some(i);
        }
        i = i + 1;
    }
    None
}

/// Inserts or replaces the file named `name`, keeping names unique.
fn upsert(files: &mut Vec<FileEntry>, name: String, content: String)
    requires
        unique_names(old(files)@),
    ensures
        unique_names(final(files)@),
        files_map(final(files)@) == files_map(old(files)@).insert(name@, content@),
{
    let found = find_entry(files, name.as_str());
    match found {
        Some(i) => {
            proof {
                lemma_files_map_remove(files@, i as int);
            }
            let ghost pre = files@;
            files.remove(i);
            files.push(FileEntry { name, content });
            proof {
                assert(final(files)@.drop_last() =~= pre.remove(i as int));
                assert(unique_names(final(files)@));
                assert(files_map(final(files)@) =~= files_map(pre).insert(name@, content@));
            }
        },
        None => {
            let ghost pre = files@;
            files.push(FileEntry { name, content });
            proof {
                assert(final(files)@.drop_last() =~= pre);
                assert(unique_names(final(files)@));
            }
        },
    }
}

/// The registry state after a (transient) registration: the domain's file
/// holds the freshly rendered transient content, every other file stays.
pub open spec fn after_register(
    state: Map<Seq<char>, Seq<char>>,
    marker: Seq<char>,
    pid: u32,
    c: ConfigView,
) -> Map<Seq<char>, Seq<char>> {
    state.insert(c.domain, transient_content(marker, pid, c))
}

/// The registry state after a permanent registration.
pub open spec fn after_register_permanent(
    state: Map<Seq<char>, Seq<char>>,
    marker: Seq<char>,
    c: ConfigView,
) -> Map<Seq<char>, Seq<char>> {
    state.insert(c.domain, permanent_content(marker, c))
}

/// Unregistration succeeds exactly when the domain's file is absent or owned.
pub open spec fn unregister_allowed(
    state: Map<Seq<char>, Seq<char>>,
    marker: Seq<char>,
    domain: Seq<char>,
) -> bool {
    !state.contains_key(domain) || owned_content(state[domain], marker)
}

/// The registry state after an unregistration: the domain's file is gone if
/// it was owned; an absent file is a no-op; an unowned file stays untouched.
pub open spec fn after_unregister(
    state: Map<Seq<char>, Seq<char>>,
    marker: Seq<char>,
    domain: Seq<char>,
) -> Map<Seq<char>, Seq<char>> {
    if state.contains_key(domain) && owned_content(state[domain], marker) {
        state.remove(domain)
    } else {
        state
    }
}

/// A domain is registered when its file exists and is owned.
pub open spec fn registered(
    state: Map<Seq<char>, Seq<char>>,
    marker: Seq<char>,
    domain: Seq<char>,
) -> bool {
    state.contains_key(domain) && owned_content(state[domain], marker)
}

/// A file content is an orphan for this marker and set of live PIDs: owned,
/// carrying a parseable PID, and that PID is not live. Unowned and permanent
/// files are never orphans.
pub open spec fn is_orphan(content: Seq<char>, marker: Seq<char>, live: Seq<u32>) -> bool {
    match orphan_candidate_pid(content, marker) {
        Some(p) => !live.contains(p),
        None => false,
    }
}

/// The registry state after an orphan sweep: exactly the orphans are gone.
pub open spec fn after_cleanup(
    state: Map<Seq<char>, Seq<char>>,
    marker: Seq<char>,
    live: Seq<u32>,
) -> Map<Seq<char>, Seq<char>> {
    Map::new(
        |d: Seq<char>| state.contains_key(d) && !is_orphan(state[d], marker, live),
        |d: Seq<char>| state[d],
    )
}

/// The domains of the owned files, in file order.
pub open spec fn managed_names(files: Seq<FileEntry>, marker: Seq<char>) -> Seq<Seq<char>>
    decreases files.len(),
{
    if files.len() == 0 {
        Seq::empty()
    } else {
        managed_names(files.drop_last(), marker) + (if owned_content(
            files.last().content@,
            marker,
        ) {
            seq![files.last().name@]
        } else {
            Seq::empty()
        })
    }
}

/// Listing is exact: a name is among the owned names exactly when its domain
/// is registered in the snapshot's map.
pub proof fn lemma_managed_names_exact(files: Seq<FileEntry>, marker: Seq<char>, d: Seq<char>)
    requires
        unique_names(files),
    ensures
        managed_names(files, marker).contains(d) <==> registered(files_map(files), marker, d),
    decreases files.len(),
{
    if files.len() > 0 {
        let pre = files.drop_last();
        let last = files.last();
        assert(unique_names(pre));
        lemma_managed_names_exact(pre, marker, d);
        lemma_files_map_contains(pre, last.name@);
        assert(!files_map(pre).contains_key(last.name@)) by {
            if files_map(pre).contains_key(last.name@) {
                let j = choose|j: int|
                    0 <= j < pre.len() && (#[trigger] pre[j].name)@ == last.name@;
                assert(files[j].name@ == files[files.len() - 1].name@);
            }
        }
        let m = managed_names(files, marker);
        let mp = managed_names(pre, marker);
        if owned_content(last.content@, marker) {
            assert(m =~= mp.push(last.name@));
            assert(m[m.len() - 1] == last.name@);
            assert(m.contains(d) <==> (mp.contains(d) || d == last.name@)) by {
                if mp.contains(d) {
                    let i = choose|i: int| 0 <= i < mp.len() && mp[i] == d;
                    assert(m[i] == d);
                }
                if m.contains(d) {
                    let i = choose|i: int| 0 <= i < m.len() && m[i] == d;
                    if i < mp.len() {
                        assert(mp[i] == d);
                    }
                }
            }
        } else {
            assert(m =~= mp);
        }
        if d == last.name@ {
            assert(!mp.contains(d)) by {
                if mp.contains(d) {
                    assert(registered(files_map(pre), marker, d));
                }
            }
        }
    }
}

/// How many of the files are orphans.
pub open spec fn orphan_count(files: Seq<FileEntry>, marker: Seq<char>, live: Seq<u32>) -> nat
    decreases files.len(),
{
    if files.len() == 0 {
        0
    } else {
        orphan_count(files.drop_last(), marker, live) + (if is_orphan(
            files.last().content@,
            marker,
            live,
        ) {
            1nat
        } else {
            0nat
        })
    }
}

/// The files that an orphan sweep keeps, in file order.
pub open spec fn retained_files(files: Seq<FileEntry>, marker: Seq<char>, live: Seq<u32>) -> Seq<
    FileEntry,
>
    decreases files.len(),
{
    if files.len() == 0 {
        Seq::empty()
    } else {
        retained_files(files.drop_last(), marker, live) + (if is_orphan(
            files.last().content@,
            marker,
            live,
        ) {
            Seq::empty()
        } else {
            seq![files.last()]
        })
    }
}

/// The retained files keep unique names, denote exactly the swept map, and
/// account for the files the sweep removed.
proof fn lemma_retained_files(files: Seq<FileEntry>, marker: Seq<char>, live: Seq<u32>)
    requires
        unique_names(files),
    ensures
        unique_names(retained_files(files, marker, live)),
        files_map(retained_files(files, marker, live)) == after_cleanup(
            files_map(files),
            marker,
            live,
        ),
        retained_files(files, marker, live).len() + orphan_count(files, marker, live)
            == files.len(),
        forall|i: int|
            0 <= i < retained_files(files, marker, live).len() ==> exists|j: int|
                0 <= j < files.len() && files[j] == #[trigger] retained_files(
                    files,
                    marker,
                    live,
                )[i],
    decreases files.len(),
{
    if files.len() == 0 {
        assert(files_map(retained_files(files, marker, live)) =~= after_cleanup(
            files_map(files),
            marker,
            live,
        ));
    } else {
        let pre = files.drop_last();
        let last = files.last();
        assert(unique_names(pre));
        lemma_retained_files(pre, marker, live);
        let rpre = retained_files(pre, marker, live);
        lemma_files_map_contains(pre, last.name@);
        assert(forall|i: int| 0 <= i < pre.len() ==> pre[i] == files[i]);
        assert(!files_map(pre).contains_key(last.name@)) by {
            if files_map(pre).contains_key(last.name@) {
                let j = choose|j: int|
                    0 <= j < pre.len() && (#[trigger] pre[j].name)@ == last.name@;
                assert(files[j].name@ == files[files.len() - 1].name@);
            }
        }
        if is_orphan(last.content@, marker, live) {
            assert(retained_files(files, marker, live) =~= rpre);
            assert(files_map(rpre) =~= after_cleanup(files_map(files), marker, live)) by {
                assert(after_cleanup(files_map(pre), marker, live) =~= after_cleanup(
                    files_map(files),
                    marker,
                    live,
                ));
            }
        } else {
            let r = retained_files(files, marker, live);
            assert(r =~= rpre.push(last));
            assert(unique_names(r)) by {
                assert(forall|i: int| 0 <= i < rpre.len() ==> rpre[i] == r[i]);
                assert(forall|i: int|
                    0 <= i < rpre.len() ==> exists|j: int|
                        0 <= j < pre.len() && pre[j] == #[trigger] rpre[i]);
                assert forall|i: int| 0 <= i < rpre.len() implies (#[trigger] r[i].name)@
                    != last.name@ by {
                    let j = choose|j: int| 0 <= j < pre.len() && pre[j] == rpre[i];
                    assert(files[j].name@ != files[files.len() - 1].name@);
                }
            }
            assert(r.drop_last() =~= rpre);
            assert(files_map(r) == files_map(rpre).insert(last.name@, last.content@));
            assert(files_map(r) =~= after_cleanup(files_map(files), marker, live));
        }
    }
}

impl FileResolver {
    /// Writes the entry file for `config` as a transient entry tagged with
    /// the creating process's `pid`, creating or replacing it unconditionally
    /// (so a second identical call leaves the state unchanged).
    pub fn register(&self, dir: &mut DirState, config: &ResolverConfig, pid: u32) -> (r: Result<
        (),
        ResolverError,
    >)
        requires
            old(dir).wf(),
        ensures
            final(dir).wf(),
            final(dir)@ == after_register(old(dir)@, self@.marker, pid, config@),
            r is Ok,
    {
        let content = self.render_transient(config, pid);
        upsert(&mut dir.files, config.domain.clone(), content);
        Ok(())
    }

    /// Writes the entry file for `config` as a permanent entry (no PID), so
    /// that orphan cleanup never sweeps it. Same overwrite semantics as
    /// [`register`](Self::register).
    pub fn register_permanent(&self, dir: &mut DirState, config: &ResolverConfig) -> (r: Result<
        (),
        ResolverError,
    >)
        requires
            old(dir).wf(),
        ensures
            final(dir).wf(),
            final(dir)@ == after_register_permanent(old(dir)@, self@.marker, config@),
            r is Ok,
    {
        let content = self.render_permanent(config);
        upsert(&mut dir.files, config.domain.clone(), content);
        Ok(())
    }

    /// Removes the entry file for `domain` if it is owned. A missing file is
    /// a no-op success; an unowned file is left untouched and reported as not
    /// managed.
    pub fn unregister(&self, dir: &mut DirState, domain: &str) -> (r: Result<(), ResolverError>)
        requires
            old(dir).wf(),
        ensures
            final(dir).wf(),
            final(dir)@ == after_unregister(old(dir)@, self@.marker, domain@),
            r is Ok <==> unregister_allowed(old(dir)@, self@.marker, domain@),
            r matches Err(e) ==> e matches ResolverError::NotManaged { domain: d } && d@
                == domain@,
    {
        let found = find_entry(&dir.files, domain);
        match found {
            None => {
                proof {
                    lemma_files_map_contains(dir.files@, domain@);
                }
                Ok(())
            },
            Some(i) => {
                proof {
                    lemma_files_map_at(dir.files@, i as int);
                }
                if self.is_managed(dir.files[i].content.as_str()) {
                    proof {
                        lemma_files_map_remove(dir.files@, i as int);
                    }
                    dir.files.remove(i);
                    Ok(())
                } else {
                    Err(ResolverError::NotManaged { domain: domain.to_owned() })
                }
            },
        }
    }

    /// Returns the domains of all owned entry files. An empty (or absent)
    /// directory gives an empty list; order follows the snapshot.
    pub fn list(&self, dir: &DirState) -> (r: Result<Vec<String>, ResolverError>)
        requires
            dir.wf(),
        ensures
            match r {
                Ok(v) => v.deep_view() == managed_names(dir.files@, self@.marker),
                Err(_) => false,
            },
    {
        let mut out: Vec<String> = Vec::new();
        let mut i: usize = 0;
        while i < dir.files.len()
            invariant
                i <= dir.files@.len(),
                out.deep_view() == managed_names(dir.files@.take(i as int), self@.marker),
            decreases dir.files@.len() - i,
        {
            proof {
                assert(dir.files@.take(i + 1).drop_last() =~= dir.files@.take(i as int));
            }
            if self.is_managed(dir.files[i].content.as_str()) {
                out.push(dir.files[i].name.clone());
            }
            proof {
                assert(out.deep_view() =~= managed_names(dir.files@.take(i + 1), self@.marker));
            }
            i = i + 1;
        }
        proof {
            assert(dir.files@.take(dir.files@.len() as int) =~= dir.files@);
        }
        Ok(out)
    }

    /// Whether `domain` has an owned entry file in the snapshot. A missing
    /// file and an unowned file both answer `false`.
    pub fn is_registered(&self, dir: &DirState, domain: &str) -> (r: bool)
        requires
            dir.wf(),
        ensures
            r == registered(dir@, self@.marker, domain@),
    {
        let found = find_entry(&dir.files, domain);
        match found {
            None => {
                proof {
                    lemma_files_map_contains(dir.files@, domain@);
                }
                false
            },
            Some(i) => {
                proof {
                    lemma_files_map_at(dir.files@, i as int);
                }
                self.is_managed(dir.files[i].content.as_str())
            },
        }
    }

    /// Sweeps orphaned entries: removes every owned, transient file whose
    /// creator PID is not in `live`, and returns how many it removed.
    /// Permanent and unowned files are never touched.
    pub fn cleanup_orphaned(&self, dir: &mut DirState, live: &Vec<u32>) -> (r: Result<
        usize,
        ResolverError,
    >)
        requires
            old(dir).wf(),
        ensures
            final(dir).wf(),
            final(dir)@ == after_cleanup(old(dir)@, self@.marker, live@),
            match r {
                Ok(n) => n == orphan_count(old(dir).files@, self@.marker, live@),
                Err(_) => false,
            },
    {
        let ghost all = dir.files@;
        let mut kept: Vec<FileEntry> = Vec::new();
        let mut removed: usize = 0;
        let mut i: usize = 0;
        while i < dir.files.len()
            invariant
                i <= dir.files@.len(),
                dir.files@ == all,
                kept@ == retained_files(all.take(i as int), self@.marker, live@),
                removed == orphan_count(all.take(i as int), self@.marker, live@),
                removed <= i,
            decreases all.len() - i,
        {
            proof {
                assert(all.take(i + 1).drop_last() =~= all.take(i as int));
            }
            let entry_orphan = match self.cleanup_pid(dir.files[i].content.as_str()) {
                Some(p) => !contains_u32(live, p),
                None => false,
            };
            if entry_orphan {
                removed = removed + 1;
            } else {
                let e = FileEntry {
                    name: dir.files[i].name.clone(),
                    content: dir.files[i].content.clone(),
                };
                assert(e == all[i as int]);
                kept.push(e);
            }
            proof {
                if !entry_orphan {
                    assert(kept@ =~= retained_files(all.take(i + 1), self@.marker, live@));
                }
            }
            i = i + 1;
        }
        proof {
            assert(all.take(all.len() as int) =~= all);
            lemma_retained_files(all, self@.marker, live@);
        }
        dir.files = kept;
        Ok(removed)
    }
}

/// Whether `v` holds `x`.
fn contains_u32(v: &Vec<u32>, x: u32) -> (r: bool)
    ensures
        r == v@.contains(x),
{
    let mut i: usize = 0;
    while i < v.len()
        invariant
            i <= v@.len(),
            forall|j: int| 0 <= j < i ==> v@[j] != x,
        decreases v@.len() - i,
    {
        if v[i] == x {
            return true;
        }
        i = i + 1;
    }
    false
}

} // verus!
