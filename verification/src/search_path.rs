//! The ordered collection of directory entries and its operations.

use vstd::prelude::*;

use crate::entry_list::dedup_spec;
use crate::entry_list::lemma_dedup_same_members;
use crate::entry_list::remove_all_spec;
use crate::fs_probe::probe_exists;
use crate::fs_probe::probe_is_dir;
use crate::fs_probe::probe_is_file;
use crate::path_text::current_dir_marker;
use crate::path_text::has_dir_component;
use crate::path_text::has_dir_component_exec;
use crate::path_text::join_entries;
use crate::path_text::join_entry_with_name;
use crate::path_text::join_path;
use crate::path_text::parse_text;
use crate::path_text::split_text;
use crate::path_text::PATH_DELIMITER;

verus! {

/// An ordered list of directory paths used to resolve file or directory
/// names, in order of priority. Duplicates are permitted until [`dedup`]
/// is called explicitly.
///
/// [`dedup`]: SearchPath::dedup
#[derive(Clone, Debug, PartialEq)]
pub struct SearchPath {
    paths: Vec<String>,
}

/// The kind of filesystem entity a lookup accepts.
enum FindKind {
    Any,
    File,
    Directory,
}

/// The candidate paths that a lookup over the entries `dirs` for `name`
/// probes, in scan order: each entry joined with the name.
pub open spec fn candidate_list(dirs: Seq<Seq<char>>, name: Seq<char>) -> Seq<Seq<char>> {
    dirs.map_values(|d: Seq<char>| join_path(d, name))
}

/// The candidates whose probe succeeded, in scan order: `cands[i]` is kept
/// exactly when `hits[i]` is true.
pub open spec fn selected_spec(cands: Seq<Seq<char>>, hits: Seq<bool>) -> Seq<Seq<char>>
    decreases cands.len(),
{
    if cands.len() == 0 || hits.len() == 0 {
        Seq::<Seq<char>>::empty()
    } else {
        let rest = selected_spec(cands.drop_last(), hits.drop_last());
        if hits.last() {
            rest.push(cands.last())
        } else {
            rest
        }
    }
}

/// Every selected candidate is one of the candidates, and no more
/// candidates are selected than were probed.
proof fn lemma_selected_from_candidates(cands: Seq<Seq<char>>, hits: Seq<bool>)
    requires
        cands.len() == hits.len(),
    ensures
        selected_spec(cands, hits).len() <= cands.len(),
        forall|k: int| #![trigger selected_spec(cands, hits)[k]]
            0 <= k < selected_spec(cands, hits).len() ==> cands.contains(
                selected_spec(cands, hits)[k],
            ),
    decreases cands.len(),
{
    if cands.len() > 0 {
        lemma_selected_from_candidates(cands.drop_last(), hits.drop_last());
        let rest = selected_spec(cands.drop_last(), hits.drop_last());
        assert forall|k: int| #![trigger selected_spec(cands, hits)[k]]
            0 <= k < selected_spec(cands, hits).len() implies cands.contains(
            selected_spec(cands, hits)[k],
        ) by {
            if k < rest.len() {
                assert(cands.drop_last().contains(rest[k]));
                let i = choose|i: int|
                    0 <= i < cands.drop_last().len() && cands.drop_last()[i] == rest[k];
                assert(cands[i] == rest[k]);
                assert(selected_spec(cands, hits)[k] == cands[i]);
            } else {
                assert(selected_spec(cands, hits)[k] == cands[cands.len() - 1]);
            }
        }
    }
}

impl View for SearchPath {
    type V = Seq<Seq<char>>;

    closed spec fn view(&self) -> Seq<Seq<char>> {
        self.paths.deep_view()
    }
}

impl SearchPath {
    /// Construct a search path holding exactly the one given entry.
    pub fn from_path(path: String) -> (r: Self)
        ensures
            r@ == seq![path@],
    {
        let paths = vec![path];
        let r = SearchPath { paths };
        proof {
            assert(r@ =~= seq![r.paths@[0]@]);
        }
        r
    }

    /// Construct a search path from an explicit ordered list of entries,
    /// used verbatim: nothing is split and nothing is filtered.
    pub fn from_sequence(paths: Vec<String>) -> (r: Self)
        ensures
            r@ == paths.deep_view(),
    {
        SearchPath { paths }
    }

    /// Construct a search path by splitting a delimited text, such as the
    /// value of an environment variable, on the platform path delimiter.
    /// Each non-blank segment becomes one entry, in order; blank segments,
    /// including the empty ones around leading, trailing or consecutive
    /// delimiters, are dropped.
    pub fn from_text(text: &str) -> (r: Self)
        ensures
            r@ == parse_text(text@),
    {
        SearchPath { paths: split_text(text) }
    }

    /// Serialize the search path back to its textual form: the entries in
    /// current order, separated by the platform path delimiter.
    pub fn to_string(&self) -> (r: String)
        ensures
            r@ == join_entries(self@),
    {
        let mut out = String::new();
        let mut i: usize = 0;
        while i < self.paths.len()
            invariant
                0 <= i <= self@.len(),
                self@.len() == self.paths@.len(),
                out@ == join_entries(self@.take(i as int)),
            decreases self@.len() - i,
        {
            proof {
                assert(self@.take(i as int + 1).drop_last() =~= self@.take(i as int));
                assert(self@.take(i as int + 1).last() == self@[i as int]);
            }
            if i > 0 {
                out.append(":");
                proof {
                    reveal_strlit(":");
                    assert(":"@ =~= seq![PATH_DELIMITER]);
                }
            } else {
                proof {
                    assert(join_entries(self@.take(1)) == self@[0]);
                }
            }
            out.append(self.paths[i].as_str());
            i += 1;
        }
        proof {
            assert(self@.take(self@.len() as int) =~= self@);
        }
        out
    }

    /// Construct a search path from the value of an environment variable,
    /// when the read of the variable succeeded, and from the given default
    /// otherwise. The value, when present, is parsed as a delimited text;
    /// this constructor never fails.
    pub fn new_or(env_value: Option<String>, default: SearchPath) -> (r: Self)
        ensures
            match env_value {
                Option::Some(text) => r@ == parse_text(text@),
                Option::None => r@ == default@,
            },
    {
        match env_value {
            Option::Some(text) => Self::from_text(text.as_str()),
            Option::None => default,
        }
    }

    /// Construct a search path from the value of an environment variable,
    /// when the read of the variable succeeded, and empty otherwise; this
    /// constructor never fails.
    pub fn new_or_default(env_value: Option<String>) -> (r: Self)
        ensures
            match env_value {
                Option::Some(text) => r@ == parse_text(text@),
                Option::None => r@ == Seq::<Seq<char>>::empty(),
            },
    {
        Self::new_or(env_value, SearchPath::default())
    }

    /// The candidate paths a lookup for `file_name` would probe: each
    /// entry joined with the name, in scan order.
    pub fn candidate_paths(&self, file_name: &str) -> (r: Vec<String>)
        ensures
            r.deep_view() == candidate_list(self@, file_name@),
    {
        let mut out: Vec<String> = Vec::new();
        let mut i: usize = 0;
        while i < self.paths.len()
            invariant
                0 <= i <= self.paths@.len(),
                self@.len() == self.paths@.len(),
                out.deep_view().len() == i,
                forall|j: int| 0 <= j < i ==> out.deep_view()[j] == join_path(self@[j], file_name@),
            decreases self.paths@.len() - i,
        {
            let ghost old_out = out.deep_view();
            let candidate = join_entry_with_name(&self.paths[i], file_name);
            let ghost c = candidate@;
            out.push(candidate);
            proof {
                assert(out.deep_view() =~= old_out.push(c));
            }
            i += 1;
        }
        proof {
            assert(out.deep_view() =~= candidate_list(self@, file_name@));
        }
        out
    }

    /// Return the first entity of any kind, file or directory, found in
    /// the search path: the first candidate at which a probe of the
    /// filesystem succeeds, scanning the entries in order. `None` when no
    /// candidate exists, in particular when the collection is empty.
    pub fn find(&self, file_name: &str) -> (r: Option<String>)
        ensures
            match r {
                Option::Some(found) => exists|i: int|
                    0 <= i < self@.len() && found@ == join_path(self@[i], file_name@),
                Option::None => true,
            },
            self@.len() == 0 ==> r is None,
    {
        self.find_something(file_name, FindKind::Any)
    }

    /// Return the first candidate that is a regular file, or `None`; a
    /// directory or other entity at a candidate path does not match.
    pub fn find_file(&self, file_name: &str) -> (r: Option<String>)
        ensures
            match r {
                Option::Some(found) => exists|i: int|
                    0 <= i < self@.len() && found@ == join_path(self@[i], file_name@),
                Option::None => true,
            },
            self@.len() == 0 ==> r is None,
    {
        self.find_something(file_name, FindKind::File)
    }

    /// Return the first candidate that is a directory, or `None`; a file
    /// at a candidate path does not match.
    pub fn find_directory(&self, file_name: &str) -> (r: Option<String>)
        ensures
            match r {
                Option::Some(found) => exists|i: int|
                    0 <= i < self@.len() && found@ == join_path(self@[i], file_name@),
                Option::None => true,
            },
            self@.len() == 0 ==> r is None,
    {
        self.find_something(file_name, FindKind::Directory)
    }

    /// Return every candidate at which a probe of the filesystem succeeds,
    /// in scan order: unlike [`find`], the scan does not stop at the first
    /// match.
    ///
    /// [`find`]: SearchPath::find
    pub fn find_all(&self, file_name: &str) -> (r: Vec<String>)
        ensures
            exists|hits: Seq<bool>|
                hits.len() == self@.len() && r.deep_view() == selected_spec(
                    candidate_list(self@, file_name@),
                    hits,
                ),
            forall|k: int| #![trigger r.deep_view()[k]]
                0 <= k < r.deep_view().len() ==> candidate_list(self@, file_name@).contains(
                    r.deep_view()[k],
                ),
            r.deep_view().len() <= self@.len(),
    {
        let cands = self.candidate_paths(file_name);
        let mut hits: Vec<bool> = Vec::new();
        while hits.len() < cands.len()
            invariant
                hits@.len() <= cands@.len(),
                cands.deep_view() == candidate_list(self@, file_name@),
                cands.deep_view().len() == cands@.len(),
            decreases cands@.len() - hits@.len(),
        {
            let h = probe_exists(&cands[hits.len()]);
            hits.push(h);
        }
        let r = all_hits(&cands, &hits);
        proof {
            let ghost cl = candidate_list(self@, file_name@);
            assert(cl.len() == self@.len());
            assert(hits@.len() == self@.len() && r.deep_view() == selected_spec(cl, hits@));
            lemma_selected_from_candidates(cl, hits@);
            assert forall|k: int| #![trigger r.deep_view()[k]]
                0 <= k < r.deep_view().len() implies cl.contains(r.deep_view()[k]) by {
                assert(r.deep_view()[k] == selected_spec(cl, hits@)[k]);
            }
        }
        r
    }

    /// Return the first entity found as [`find`] does, but only when
    /// `file_name` is a bare name: a name with any directory component is
    /// refused outright, with `None`, and the filesystem is not consulted.
    ///
    /// [`find`]: SearchPath::find
    pub fn find_if_name_only(&self, file_name: &str) -> (r: Option<String>)
        ensures
            has_dir_component(file_name@) ==> r is None,
            match r {
                Option::Some(found) => exists|i: int|
                    0 <= i < self@.len() && found@ == join_path(self@[i], file_name@),
                Option::None => true,
            },
            self@.len() == 0 ==> r is None,
    {
        if has_dir_component_exec(file_name) {
            None
        } else {
            self.find(file_name)
        }
    }

    /// Scan the candidates in order, probing each for the wanted kind of
    /// entity, and stop at the first success: later candidates are not
    /// probed. What each probe answers depends on the filesystem at call
    /// time, so the result is pinned down as a function of the probe
    /// outcomes by [`first_hit`], to which the selection is delegated.
    fn find_something(&self, file_name: &str, kind: FindKind) -> (r: Option<String>)
        ensures
            match r {
                Option::Some(found) => exists|i: int|
                    0 <= i < self@.len() && found@ == join_path(self@[i], file_name@),
                Option::None => true,
            },
            self@.len() == 0 ==> r is None,
    {
        let cands = self.candidate_paths(file_name);
        let mut hits: Vec<bool> = Vec::new();
        while hits.len() < cands.len()
            invariant
                hits@.len() <= cands@.len(),
                cands.deep_view() == candidate_list(self@, file_name@),
                cands.deep_view().len() == cands@.len(),
                forall|j: int| 0 <= j < hits@.len() ==> !hits@[j],
            decreases cands@.len() - hits@.len(),
        {
            let h = match kind {
                FindKind::Any => probe_exists(&cands[hits.len()]),
                FindKind::File => probe_is_file(&cands[hits.len()]),
                FindKind::Directory => probe_is_dir(&cands[hits.len()]),
            };
            hits.push(h);
            if h {
                let r = first_hit(&cands, &hits);
                proof {
                    if r is Some {
                        let found = r->Some_0;
                        let i = choose|i: int|
                            0 <= i < hits@.len() && hits@[i] && found@ == cands.deep_view()[i];
                        assert(found@ == join_path(self@[i], file_name@));
                    }
                }
                return r;
            }
        }
        let r = first_hit(&cands, &hits);
        proof {
            if r is Some {
                let found = r->Some_0;
                let i = choose|i: int|
                    0 <= i < hits@.len() && hits@[i] && found@ == cands.deep_view()[i];
                assert(found@ == join_path(self@[i], file_name@));
            }
        }
        r
    }

    /// Return the current number of entries.
    pub fn len(&self) -> (r: usize)
        ensures
            r == self@.len(),
    {
        self.paths.len()
    }

    /// Return `true` if there are no entries to search.
    pub fn is_empty(&self) -> (r: bool)
        ensures
            r == (self@.len() == 0),
    {
        self.paths.is_empty()
    }

    /// Return `true` if the list of entries contains `path`, comparing the
    /// stored values exactly: nothing is normalized and the filesystem is
    /// not consulted.
    pub fn contains(&self, path: &String) -> (r: bool)
        ensures
            r == self@.contains(path@),
    {
        vec_contains_string(&self.paths, path)
    }

    /// Return `true` if the list of entries contains the current-directory
    /// entry, `"."`.
    pub fn contains_cwd(&self) -> (r: bool)
        ensures
            r == self@.contains(current_dir_marker()),
    {
        let dot = current_dir_entry();
        self.contains(&dot)
    }

    /// Return the entries in current order, for read-only iteration.
    pub fn iter(&self) -> (r: &Vec<String>)
        ensures
            r.deep_view() == self@,
    {
        &self.paths
    }

    /// Transfer the entries out of the collection, preserving their order.
    pub fn into_vec(self) -> (r: Vec<String>)
        ensures
            r.deep_view() == self@,
    {
        self.paths
    }

    /// Append `path` at the end of the list of entries; every other entry
    /// keeps its place. Duplicates are not checked: see [`dedup`].
    ///
    /// [`dedup`]: SearchPath::dedup
    pub fn append(&mut self, path: String)
        ensures
            final(self)@ == old(self)@.push(path@),
    {
        let ghost old_view = self@;
        self.paths.push(path);
        proof {
            assert(self@ =~= old_view.push(self.paths@.last()@));
        }
    }

    /// Append the current-directory entry, `"."`, at the end of the list.
    pub fn append_cwd(&mut self)
        ensures
            final(self)@ == old(self)@.push(current_dir_marker()),
    {
        self.append(current_dir_entry());
    }

    /// Prepend `path` at the start of the list of entries; every other
    /// entry keeps its place. Duplicates are not checked: see [`dedup`].
    ///
    /// [`dedup`]: SearchPath::dedup
    pub fn prepend(&mut self, path: String)
        ensures
            final(self)@ == seq![path@] + old(self)@,
    {
        let ghost old_view = self@;
        let ghost p = path@;
        self.paths.insert(0, path);
        proof {
            assert(self@ =~= seq![p] + old_view);
        }
    }

    /// Prepend the current-directory entry, `"."`, at the start of the
    /// list.
    pub fn prepend_cwd(&mut self)
        ensures
            final(self)@ == seq![current_dir_marker()] + old(self)@,
    {
        self.prepend(current_dir_entry());
    }

    /// Remove every entry exactly equal to `path`; the other entries keep
    /// their order. Absent entries are no error: nothing changes.
    pub fn remove(&mut self, path: &String)
        ensures
            final(self)@ == remove_all_spec(old(self)@, path@),
    {
        let ghost whole = self@;
        let mut kept: Vec<String> = Vec::new();
        let mut i: usize = 0;
        proof {
            assert(remove_all_spec(whole.take(0), path@) =~= kept.deep_view());
        }
        while i < self.paths.len()
            invariant
                0 <= i <= self.paths@.len(),
                self@ == whole,
                self@.len() == self.paths@.len(),
                kept.deep_view() == remove_all_spec(whole.take(i as int), path@),
            decreases self.paths@.len() - i,
        {
            proof {
                assert(whole.take(i as int + 1).drop_last() =~= whole.take(i as int));
                assert(whole.take(i as int + 1).last() == whole[i as int]);
            }
            let entry = &self.paths[i];
            if !(*entry == *path) {
                let ghost old_kept = kept.deep_view();
                kept.push(entry.clone());
                proof {
                    assert(kept.deep_view() =~= old_kept.push(whole[i as int]));
                }
            }
            i += 1;
        }
        proof {
            assert(whole.take(whole.len() as int) =~= whole);
        }
        self.paths = kept;
    }

    /// Keep only the first occurrence of each distinct entry, in one pass
    /// from the front: later duplicates are dropped and the retained
    /// entries keep their relative order.
    pub fn dedup(&mut self)
        ensures
            final(self)@ == dedup_spec(old(self)@),
    {
        let ghost whole = self@;
        let mut kept: Vec<String> = Vec::new();
        let mut i: usize = 0;
        proof {
            assert(dedup_spec(whole.take(0)) =~= kept.deep_view());
        }
        while i < self.paths.len()
            invariant
                0 <= i <= self.paths@.len(),
                self@ == whole,
                self@.len() == self.paths@.len(),
                kept.deep_view() == dedup_spec(whole.take(i as int)),
            decreases self.paths@.len() - i,
        {
            proof {
                assert(whole.take(i as int + 1).drop_last() =~= whole.take(i as int));
                assert(whole.take(i as int + 1).last() == whole[i as int]);
                lemma_dedup_same_members(whole.take(i as int));
            }
            let entry = &self.paths[i];
            let present = vec_contains_string(&kept, entry);
            if !present {
                let ghost old_kept = kept.deep_view();
                kept.push(entry.clone());
                proof {
                    assert(kept.deep_view() =~= old_kept.push(whole[i as int]));
                }
            }
            i += 1;
        }
        proof {
            assert(whole.take(whole.len() as int) =~= whole);
        }
        self.paths = kept;
    }
}

impl Default for SearchPath {
    /// The empty search path: no entries at all.
    fn default() -> (r: Self)
        ensures
            r@ == Seq::<Seq<char>>::empty(),
    {
        let r = SearchPath { paths: Vec::new() };
        proof {
            assert(r@ =~= Seq::<Seq<char>>::empty());
        }
        r
    }
}

/// The selection rule of a scan that stops at the first match: given the
/// candidates of a lookup and the outcome of the probe for each of the
/// first `hits.len()` of them, return the candidate of the first
/// successful probe, or `None` when every probe failed.
pub fn first_hit(candidates: &Vec<String>, hits: &Vec<bool>) -> (r: Option<String>)
    requires
        hits@.len() <= candidates@.len(),
    ensures
        match r {
            Option::Some(found) => exists|i: int|
                0 <= i < hits@.len() && hits@[i] && found@ == candidates.deep_view()[i] && (forall|
                    j: int,
                |
                    0 <= j < i ==> !hits@[j]),
            Option::None => forall|i: int| 0 <= i < hits@.len() ==> !hits@[i],
        },
{
    let mut i: usize = 0;
    while i < hits.len()
        invariant
            0 <= i <= hits@.len() <= candidates@.len(),
            candidates.deep_view().len() == candidates@.len(),
            forall|j: int| 0 <= j < i ==> !hits@[j],
        decreases hits@.len() - i,
    {
        if hits[i] {
            let found = candidates[i].clone();
            proof {
                assert(hits@[i as int] && found@ == candidates.deep_view()[i as int]);
            }
            return Some(found);
        }
        i += 1;
    }
    None
}

/// The selection rule of a scan that collects every match: given the
/// candidates of a lookup and the outcome of the probe for each, return
/// the candidates whose probe succeeded, in scan order.
pub fn all_hits(candidates: &Vec<String>, hits: &Vec<bool>) -> (r: Vec<String>)
    requires
        hits@.len() == candidates@.len(),
    ensures
        r.deep_view() == selected_spec(candidates.deep_view(), hits@),
{
    let mut out: Vec<String> = Vec::new();
    let mut i: usize = 0;
    proof {
        assert(selected_spec(candidates.deep_view().take(0), hits@.take(0)) =~= out.deep_view());
    }
    while i < hits.len()
        invariant
            0 <= i <= hits@.len() == candidates@.len(),
            candidates.deep_view().len() == candidates@.len(),
            out.deep_view() == selected_spec(
                candidates.deep_view().take(i as int),
                hits@.take(i as int),
            ),
        decreases hits@.len() - i,
    {
        proof {
            assert(candidates.deep_view().take(i as int + 1).drop_last() =~= candidates.deep_view()
                .take(i as int));
            assert(hits@.take(i as int + 1).drop_last() =~= hits@.take(i as int));
            assert(candidates.deep_view().take(i as int + 1).last() == candidates.deep_view()[i as int]);
            assert(hits@.take(i as int + 1).last() == hits@[i as int]);
        }
        if hits[i] {
            let ghost old_out = out.deep_view();
            out.push(candidates[i].clone());
            proof {
                assert(out.deep_view() =~= old_out.push(candidates.deep_view()[i as int]));
            }
        }
        i += 1;
    }
    proof {
        assert(candidates.deep_view().take(candidates@.len() as int) =~= candidates.deep_view());
        assert(hits@.take(hits@.len() as int) =~= hits@);
    }
    out
}

/// The current-directory entry as an owned value.
fn current_dir_entry() -> (r: String)
    ensures
        r@ == current_dir_marker(),
{
    let dot = String::from_str(".");
    proof {
        reveal_strlit(".");
        assert(dot@ =~= current_dir_marker());
    }
    dot
}

/// Whether one of the strings in `v` has exactly the view `x@`.
fn vec_contains_string(v: &Vec<String>, x: &String) -> (r: bool)
    ensures
        r == v.deep_view().contains(x@),
{
    let mut i: usize = 0;
    while i < v.len()
        invariant
            0 <= i <= v@.len(),
            forall|j: int| 0 <= j < i ==> v.deep_view()[j] != x@,
        decreases v@.len() - i,
    {
        if *(&v[i]) == *x {
            assert(v.deep_view()[i as int] == x@);
            return true;
        }
        i += 1;
    }
    proof {
        if v.deep_view().contains(x@) {
            let j = choose|j: int| 0 <= j < v.deep_view().len() && v.deep_view()[j] == x@;
            assert(v.deep_view()[j] != x@);
        }
    }
    false
}

} // verus!
