//! The note store: its typed errors, the directory model that is its
//! state, the create / read / delete transitions, and an in-memory store
//! that carries that state through its verified operations.
//!
//! The directory model is a sequence of `(file name, contents)` pairs in
//! directory order, with pairwise-distinct file names.  A store that
//! keeps its notes on disk goes through the same transitions: the free
//! functions here and in [`crate::text`] make every decision, and the
//! caller performs the file operations.

use vstd::prelude::*;
use crate::text::{
    collect_titles, note_file_name, note_file_name_spec, titles_spec, trim, trim_spec,
};

verus! {

/// Why a store operation failed.
#[derive(Clone, Copy, Debug, PartialEq, Eq, Structural)]
pub enum StoreError {
    /// The target note was absent where it had to be present.
    NotFound,
    /// A note with this title already exists.
    AlreadyExists,
    /// The underlying file operation failed.
    IoFailure,
    /// The title or the contents were empty after trimming.
    InvalidInput,
}

/// The state of the notes directory: its entries as `(file name,
/// contents)` pairs, in directory order.
pub type Dir = Seq<(Seq<char>, Seq<char>)>;

/// Whether the directory's file names are pairwise distinct, as a real
/// directory's are.
pub open spec fn dir_wf(dir: Dir) -> bool {
    forall|i: int, j: int| 0 <= i < j < dir.len() ==> (#[trigger] dir[i]).0 != (#[trigger] dir[j]).0
}

/// The contents of the entry named `name`, or nothing when no entry
/// carries that name.
pub open spec fn dir_read(dir: Dir, name: Seq<char>) -> Option<Seq<char>>
    decreases dir.len(),
{
    if dir.len() == 0 {
        None
    } else if dir[0].0 == name {
        Some(dir[0].1)
    } else {
        dir_read(dir.drop_first(), name)
    }
}

/// `dir` without its first entry named `name`; `dir` itself when no
/// entry carries that name.
pub open spec fn dir_remove(dir: Dir, name: Seq<char>) -> Dir
    decreases dir.len(),
{
    if dir.len() == 0 {
        dir
    } else if dir[0].0 == name {
        dir.drop_first()
    } else {
        seq![dir[0]] + dir_remove(dir.drop_first(), name)
    }
}

/// The entry names of the directory, in order.
pub open spec fn dir_names(dir: Dir) -> Seq<Seq<char>> {
    dir.map_values(|e: (Seq<char>, Seq<char>)| e.0)
}

/// The create transition.  Creating a note fails with `InvalidInput`
/// when the title or the contents are empty after trimming, and with
/// `AlreadyExists` when the title's file name is taken; otherwise it
/// appends an entry holding the trimmed contents under the title's file
/// name.
pub open spec fn create_result(dir: Dir, title: Seq<char>, contents: Seq<char>) -> Result<
    Dir,
    StoreError,
> {
    if trim_spec(title).len() == 0 || trim_spec(contents).len() == 0 {
        Err(StoreError::InvalidInput)
    } else if dir_read(dir, note_file_name_spec(title)) is Some {
        Err(StoreError::AlreadyExists)
    } else {
        Ok(dir.push((note_file_name_spec(title), trim_spec(contents))))
    }
}

/// The read operation: the contents stored under the title's file name,
/// or `NotFound` when that file is absent.
pub open spec fn read_result(dir: Dir, title: Seq<char>) -> Result<Seq<char>, StoreError> {
    match dir_read(dir, note_file_name_spec(title)) {
        Some(contents) => Ok(contents),
        None => Err(StoreError::NotFound),
    }
}

/// The delete transition: removes the entry under the title's file name,
/// and fails with `NotFound` when that file is absent.
pub open spec fn delete_result(dir: Dir, title: Seq<char>) -> Result<Dir, StoreError> {
    if dir_read(dir, note_file_name_spec(title)) is Some {
        Ok(dir_remove(dir, note_file_name_spec(title)))
    } else {
        Err(StoreError::NotFound)
    }
}

/// An entry's absence is the same as no index carrying its name.
pub proof fn lemma_dir_read_none(dir: Dir, name: Seq<char>)
    ensures
        dir_read(dir, name) is None <==> (forall|i: int|
            0 <= i < dir.len() ==> (#[trigger] dir[i]).0 != name),
    decreases dir.len(),
{
    if dir.len() > 0 {
        lemma_dir_read_none(dir.drop_first(), name);
        if dir_read(dir, name) is None {
            assert forall|i: int| 0 <= i < dir.len() implies (#[trigger] dir[i]).0 != name by {
                if i >= 1 {
                    assert(dir.drop_first()[i - 1] == dir[i]);
                }
            }
        }
        if forall|i: int| 0 <= i < dir.len() ==> (#[trigger] dir[i]).0 != name {
            assert forall|k: int|
                0 <= k < dir.drop_first().len() implies (#[trigger] dir.drop_first()[k]).0
                != name by {
                assert(dir.drop_first()[k] == dir[k + 1]);
            }
        }
    }
}

/// Reading past a prefix that does not carry the name reads the rest.
proof fn lemma_dir_read_skip(dir: Dir, name: Seq<char>, i: int)
    requires
        0 <= i <= dir.len(),
        forall|j: int| 0 <= j < i ==> (#[trigger] dir[j]).0 != name,
    ensures
        dir_read(dir, name) == dir_read(dir.skip(i), name),
    decreases i,
{
    if i == 0 {
        assert(dir.skip(0) =~= dir);
    } else {
        lemma_dir_read_skip(dir.drop_first(), name, i - 1);
        assert(dir.drop_first().skip(i - 1) =~= dir.skip(i));
    }
}

/// Removing the name whose first occurrence is at `i` removes exactly
/// the entry at `i`.
pub proof fn lemma_dir_remove_at(dir: Dir, name: Seq<char>, i: int)
    requires
        0 <= i < dir.len(),
        forall|j: int| 0 <= j < i ==> (#[trigger] dir[j]).0 != name,
        dir[i].0 == name,
    ensures
        dir_remove(dir, name) == dir.remove(i),
    decreases i,
{
    if i == 0 {
        assert(dir.drop_first() =~= dir.remove(0));
    } else {
        lemma_dir_remove_at(dir.drop_first(), name, i - 1);
        assert(seq![dir[0]] + dir.drop_first().remove(i - 1) =~= dir.remove(i));
    }
}

/// Reading a just-pushed entry finds it, and pushing cannot hide an
/// entry that was already present.
pub proof fn lemma_dir_read_push(dir: Dir, name: Seq<char>, e: (Seq<char>, Seq<char>))
    ensures
        dir_read(dir.push(e), name) == (if dir_read(dir, name) is Some {
            dir_read(dir, name)
        } else if e.0 == name {
            Some(e.1)
        } else {
            None
        }),
    decreases dir.len(),
{
    if dir.len() == 0 {
        assert(dir.push(e)[0] == e);
        assert(dir.push(e).drop_first() =~= Seq::<(Seq<char>, Seq<char>)>::empty());
    } else {
        assert(dir.push(e)[0] == dir[0]);
        assert(dir.push(e).drop_first() =~= dir.drop_first().push(e));
        lemma_dir_read_push(dir.drop_first(), name, e);
    }
}

/// Distinct names stay distinct when an entry is removed.
proof fn lemma_dir_wf_remove(dir: Dir, i: int)
    requires
        dir_wf(dir),
        0 <= i < dir.len(),
    ensures
        dir_wf(dir.remove(i)),
{
    let r = dir.remove(i);
    assert forall|p: int, q: int| 0 <= p < q < r.len() implies (#[trigger] r[p]).0 != (
    #[trigger] r[q]).0 by {
        let pp = if p < i { p } else { p + 1 };
        let qq = if q < i { q } else { q + 1 };
        assert(r[p] == dir[pp]);
        assert(r[q] == dir[qq]);
    }
}

/// One note file of the store: its file name and its contents.
struct NoteFile {
    name: String,
    data: String,
}

/// The note store over an in-memory directory.  Its view is the
/// directory model; every operation is specified by the transition
/// functions of this module.
pub struct NoteStore {
    files: Vec<NoteFile>,
}

impl View for NoteStore {
    type V = Dir;

    closed spec fn view(&self) -> Dir {
        self.files@.map_values(|f: NoteFile| (f.name@, f.data@))
    }
}

impl NoteStore {
    /// Whether the store is well formed: no two entries share a file
    /// name.
    pub open spec fn wf(&self) -> bool {
        dir_wf(self@)
    }

    /// An empty store.
    pub fn new() -> (s: NoteStore)
        ensures
            s.wf(),
            s@ == Seq::<(Seq<char>, Seq<char>)>::empty(),
    {
        let s = NoteStore { files: Vec::new() };
        proof {
            assert(s@ =~= Seq::<(Seq<char>, Seq<char>)>::empty());
        }
        s
    }

    /// The index of the entry named `name`, when there is one.
    fn find(&self, name: &String) -> (r: Option<usize>)
        ensures
            match r {
                Some(i) => i < self@.len() && self@[i as int].0 == name@ && forall|j: int|
                    0 <= j < i ==> (#[trigger] self@[j]).0 != name@,
                None => dir_read(self@, name@) is None,
            },
    {
        let mut i: usize = 0;
        while i < self.files.len()
            invariant
                i <= self.files.len(),
                self@.len() == self.files.len(),
                forall|j: int| 0 <= j < i ==> (#[trigger] self@[j]).0 != name@,
            decreases self.files.len() - i,
        {
            proof {
                assert(self@[i as int] == (self.files@[i as int].name@, self.files@[i as int].data@));
            }
            if self.files[i].name.eq(name) {
                return Some(i);
            }
            i = i + 1;
        }
        proof {
            lemma_dir_read_none(self@, name@);
        }
        None
    }

    /// Creates a note, as [`create_result`] describes: the trimmed
    /// contents are stored under the title's file name.  On failure the
    /// store is unchanged.
    pub fn create(&mut self, title: &str, contents: &str) -> (r: Result<(), StoreError>)
        requires
            old(self).wf(),
        ensures
            final(self).wf(),
            match create_result(old(self)@, title@, contents@) {
                Ok(dir) => r == Ok::<(), StoreError>(()) && final(self)@ == dir,
                Err(e) => r == Err::<(), StoreError>(e) && final(self)@ == old(self)@,
            },
    {
        let trimmed_title = trim(title);
        let data = trim(contents);
        if trimmed_title.as_str().is_empty() || data.as_str().is_empty() {
            return Err(StoreError::InvalidInput);
        }
        let name = note_file_name(title);
        match self.find(&name) {
            Some(_) => {
                proof {
                    lemma_dir_read_none(self@, name@);
                }
                Err(StoreError::AlreadyExists)
            },
            None => {
                let ghost old_dir = self@;
                let ghost e = (name@, data@);
                self.files.push(NoteFile { name, data });
                proof {
                    assert(self@ =~= old_dir.push(e));
                    lemma_dir_read_none(old_dir, e.0);
                    assert forall|i: int, j: int| 0 <= i < j < self@.len() implies (
                    #[trigger] self@[i]).0 != (#[trigger] self@[j]).0 by {
                        if j < self@.len() - 1 {
                            assert(self@[i] == old_dir[i]);
                            assert(self@[j] == old_dir[j]);
                        } else {
                            assert(self@[i] == old_dir[i]);
                        }
                    }
                }
                Ok(())
            },
        }
    }

    /// Reads a note's contents, as [`read_result`] describes.
    pub fn read(&self, title: &str) -> (r: Result<String, StoreError>)
        ensures
            match read_result(self@, title@) {
                Ok(contents) => r is Ok && r->Ok_0@ == contents,
                Err(e) => r == Err::<String, StoreError>(e),
            },
    {
        let name = note_file_name(title);
        match self.find(&name) {
            Some(i) => {
                proof {
                    lemma_dir_read_skip(self@, name@, i as int);
                    assert(self@.skip(i as int)[0] == self@[i as int]);
                }
                Ok(self.files[i].data.clone())
            },
            None => Err(StoreError::NotFound),
        }
    }

    /// Reads a note's contents for display: the stored text, or the
    /// fixed sentinel text when the note cannot be read.
    pub fn read_display(&self, title: &str) -> (r: String)
        ensures
            match read_result(self@, title@) {
                Ok(contents) => r@ == contents,
                Err(_) => r@ == read_failure_sentinel(),
            },
    {
        match self.read(title) {
            Ok(contents) => contents,
            Err(_) => read_failure_text(),
        }
    }

    /// Deletes a note, as [`delete_result`] describes.  On failure the
    /// store is unchanged.
    pub fn delete(&mut self, title: &str) -> (r: Result<(), StoreError>)
        requires
            old(self).wf(),
        ensures
            final(self).wf(),
            match delete_result(old(self)@, title@) {
                Ok(dir) => r == Ok::<(), StoreError>(()) && final(self)@ == dir,
                Err(e) => r == Err::<(), StoreError>(e) && final(self)@ == old(self)@,
            },
    {
        let name = note_file_name(title);
        match self.find(&name) {
            Some(i) => {
                proof {
                    lemma_dir_read_skip(self@, name@, i as int);
                    assert(self@.skip(i as int)[0] == self@[i as int]);
                    lemma_dir_remove_at(self@, name@, i as int);
                    lemma_dir_wf_remove(self@, i as int);
                }
                let ghost old_dir = self@;
                self.files.remove(i);
                proof {
                    assert(self@ =~= old_dir.remove(i as int));
                }
                Ok(())
            },
            None => Err(StoreError::NotFound),
        }
    }

    /// The titles that enumerating the store reports, as
    /// [`crate::text::titles_spec`] describes over the store's entry
    /// names: titles in directory order, capped at
    /// [`crate::text::MAX_NOTES`].
    pub fn list_titles(&self) -> (titles: Vec<String>)
        ensures
            titles.deep_view() == titles_spec(dir_names(self@)),
    {
        let mut names: Vec<String> = Vec::new();
        let mut i: usize = 0;
        proof {
            assert(names.deep_view() =~= dir_names(self@).take(0));
        }
        while i < self.files.len()
            invariant
                i <= self.files.len(),
                self@.len() == self.files.len(),
                names.deep_view() == dir_names(self@).take(i as int),
            decreases self.files.len() - i,
        {
            let ghost before = names.deep_view();
            names.push(self.files[i].name.clone());
            i = i + 1;
            proof {
                assert(names.deep_view() =~= before.push(self@[i - 1].0));
                assert(names.deep_view() =~= dir_names(self@).take(i as int));
            }
        }
        proof {
            assert(dir_names(self@).take(self@.len() as int) =~= dir_names(self@));
        }
        collect_titles(&names)
    }
}

/// The fixed sentinel text that stands in for contents that could not be
/// read.
pub open spec fn read_failure_sentinel() -> Seq<char> {
    "<ERROR: Could not read note content>"@
}

/// The sentinel text of [`read_failure_sentinel`], for display in place
/// of unreadable contents.
pub fn read_failure_text() -> (r: String)
    ensures
        r@ == read_failure_sentinel(),
{
    "<ERROR: Could not read note content>".to_owned()
}

/// Decides a create request for a store whose notes are kept elsewhere,
/// such as on disk: on valid input, the file name to create and the
/// trimmed contents to write into it; on empty-after-trimming input, the
/// `InvalidInput` failure.  The caller must still refuse the creation
/// when the file already exists, as [`create_result`] describes.
pub fn plan_create(title: &str, contents: &str) -> (r: Result<(String, String), StoreError>)
    ensures
        match r {
            Ok(p) => trim_spec(title@).len() > 0 && trim_spec(contents@).len() > 0 && p.0@
                == note_file_name_spec(title@) && p.1@ == trim_spec(contents@),
            Err(e) => e == StoreError::InvalidInput && (trim_spec(title@).len() == 0 || trim_spec(
                contents@,
            ).len() == 0),
        },
{
    let trimmed_title = trim(title);
    let data = trim(contents);
    if trimmed_title.as_str().is_empty() || data.as_str().is_empty() {
        return Err(StoreError::InvalidInput);
    }
    Ok((note_file_name(title), data))
}

} // verus!
