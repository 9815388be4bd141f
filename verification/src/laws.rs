//! Laws of the note store, each proved over the directory model and the
//! transition functions of [`crate::store`] and the enumeration
//! functions of [`crate::text`].

use vstd::prelude::*;
use crate::store::{
    Dir, StoreError, create_result, delete_result, dir_names, dir_read, lemma_dir_read_none,
    lemma_dir_read_push, lemma_dir_remove_at, read_result,
};
use crate::text::{
    MAX_NOTES, entry_title_spec, note_file_name_spec, titles_rec, titles_spec, trim_spec,
};

verus! {

/// How many of the entry names carry the note suffix.
pub open spec fn valid_count(names: Seq<Seq<char>>) -> nat
    decreases names.len(),
{
    if names.len() == 0 {
        0
    } else {
        (if entry_title_spec(names[0]) is Some {
            1nat
        } else {
            0nat
        }) + valid_count(names.drop_first())
    }
}

/// The titles of all note-suffixed entries, in order, without a cap.
pub open spec fn valid_titles(names: Seq<Seq<char>>) -> Seq<Seq<char>>
    decreases names.len(),
{
    if names.len() == 0 {
        Seq::empty()
    } else {
        match entry_title_spec(names[0]) {
            Some(t) => seq![t] + valid_titles(names.drop_first()),
            None => valid_titles(names.drop_first()),
        }
    }
}

proof fn lemma_valid_titles_len(names: Seq<Seq<char>>)
    ensures
        valid_titles(names).len() == valid_count(names),
    decreases names.len(),
{
    if names.len() > 0 {
        lemma_valid_titles_len(names.drop_first());
    }
}

/// What one enumeration pass reports: the titles of the note-suffixed
/// entries, in order, truncated to the room it has left.
proof fn lemma_titles_rec_take(names: Seq<Seq<char>>, room: nat)
    ensures
        titles_rec(names, room) == valid_titles(names).take(
            if valid_count(names) <= room {
                valid_count(names) as int
            } else {
                room as int
            },
        ),
    decreases names.len(),
{
    lemma_valid_titles_len(names);
    if names.len() == 0 || room == 0 {
        assert(titles_rec(names, room) =~= valid_titles(names).take(0));
    } else {
        let rest = names.drop_first();
        match entry_title_spec(names[0]) {
            Some(t) => {
                lemma_titles_rec_take(rest, (room - 1) as nat);
                let m = if valid_count(rest) <= room - 1 {
                    valid_count(rest) as int
                } else {
                    room - 1
                };
                assert((seq![t] + valid_titles(rest)).take(1 + m) =~= seq![t] + valid_titles(
                    rest,
                ).take(m));
            },
            None => {
                lemma_titles_rec_take(rest, room);
            },
        }
    }
}

/// Every enumerated title comes from some entry of the listing.
proof fn lemma_title_has_source(names: Seq<Seq<char>>, room: nat, t: Seq<char>)
    requires
        titles_rec(names, room).contains(t),
    ensures
        exists|i: int| 0 <= i < names.len() && entry_title_spec(#[trigger] names[i]) == Some(t),
    decreases names.len(),
{
    let rest = names.drop_first();
    match entry_title_spec(names[0]) {
        Some(t0) => {
            if t0 == t {
                assert(entry_title_spec(names[0]) == Some(t));
            } else {
                let s = titles_rec(names, room);
                let tail = titles_rec(rest, (room - 1) as nat);
                let k = choose|k: int| 0 <= k < s.len() && s[k] == t;
                assert(tail[k - 1] == t);
                assert(tail.contains(t));
                lemma_title_has_source(rest, (room - 1) as nat, t);
                let i = choose|i: int|
                    0 <= i < rest.len() && entry_title_spec(#[trigger] rest[i]) == Some(t);
                assert(names[i + 1] == rest[i]);
            }
        },
        None => {
            lemma_title_has_source(rest, room, t);
            let i = choose|i: int|
                0 <= i < rest.len() && entry_title_spec(#[trigger] rest[i]) == Some(t);
            assert(names[i + 1] == rest[i]);
        },
    }
}

/// Round trip: creating a note with a fresh title and non-empty trimmed
/// title and contents succeeds, and reading that title from the
/// resulting store returns exactly the trimmed contents.
pub proof fn lemma_create_then_read(dir: Dir, title: Seq<char>, contents: Seq<char>)
    requires
        trim_spec(title).len() > 0,
        trim_spec(contents).len() > 0,
        dir_read(dir, note_file_name_spec(title)) is None,
    ensures
        create_result(dir, title, contents) is Ok,
        read_result(create_result(dir, title, contents)->Ok_0, title) == Ok::<
            Seq<char>,
            StoreError,
        >(trim_spec(contents)),
{
    let name = note_file_name_spec(title);
    lemma_dir_read_push(dir, name, (name, trim_spec(contents)));
}

/// Uniqueness: once a note is created under a title, creating again
/// under the same title fails with `AlreadyExists`, and the stored
/// contents remain those of the first creation.
pub proof fn lemma_create_is_exclusive(dir: Dir, title: Seq<char>, first: Seq<char>, second: Seq<
    char,
>)
    requires
        trim_spec(title).len() > 0,
        trim_spec(first).len() > 0,
        trim_spec(second).len() > 0,
        dir_read(dir, note_file_name_spec(title)) is None,
    ensures
        create_result(dir, title, first) is Ok,
        create_result(create_result(dir, title, first)->Ok_0, title, second) == Err::<
            Dir,
            StoreError,
        >(StoreError::AlreadyExists),
        read_result(create_result(dir, title, first)->Ok_0, title) == Ok::<
            Seq<char>,
            StoreError,
        >(trim_spec(first)),
{
    let name = note_file_name_spec(title);
    lemma_dir_read_push(dir, name, (name, trim_spec(first)));
}

/// Deletion removes: deleting a freshly created note undoes the
/// creation exactly, so reading the title afterwards fails with
/// `NotFound`, and the title is absent from the enumeration — provided
/// no other entry of the directory enumerates as that title.
pub proof fn lemma_delete_removes(dir: Dir, title: Seq<char>, contents: Seq<char>)
    requires
        trim_spec(title).len() > 0,
        trim_spec(contents).len() > 0,
        dir_read(dir, note_file_name_spec(title)) is None,
        forall|i: int|
            0 <= i < dir.len() ==> entry_title_spec((#[trigger] dir[i]).0) != Some(
                trim_spec(title),
            ),
    ensures
        create_result(dir, title, contents) is Ok,
        delete_result(create_result(dir, title, contents)->Ok_0, title) == Ok::<Dir, StoreError>(
            dir,
        ),
        read_result(dir, title) == Err::<Seq<char>, StoreError>(StoreError::NotFound),
        !titles_spec(dir_names(dir)).contains(trim_spec(title)),
{
    let name = note_file_name_spec(title);
    let entry = (name, trim_spec(contents));
    let grown = dir.push(entry);
    lemma_dir_read_push(dir, name, entry);
    lemma_dir_read_none(dir, name);
    assert forall|j: int| 0 <= j < dir.len() implies (#[trigger] grown[j]).0 != name by {
        assert(grown[j] == dir[j]);
    }
    lemma_dir_remove_at(grown, name, dir.len() as int);
    assert(grown.remove(dir.len() as int) =~= dir);
    if titles_spec(dir_names(dir)).contains(trim_spec(title)) {
        lemma_title_has_source(dir_names(dir), MAX_NOTES as nat, trim_spec(title));
        let i = choose|i: int|
            0 <= i < dir_names(dir).len() && entry_title_spec(#[trigger] dir_names(dir)[i])
                == Some(trim_spec(title));
        assert(dir_names(dir)[i] == dir[i].0);
    }
}

/// Enumeration cap: an enumeration reports as many titles as there are
/// note-suffixed entries, but never more than `MAX_NOTES`.
pub proof fn lemma_enumeration_cap(names: Seq<Seq<char>>)
    ensures
        titles_spec(names).len() == (if valid_count(names) <= MAX_NOTES {
            valid_count(names)
        } else {
            MAX_NOTES as nat
        }),
{
    lemma_valid_titles_len(names);
    lemma_titles_rec_take(names, MAX_NOTES as nat);
    let m = if valid_count(names) <= MAX_NOTES {
        valid_count(names) as int
    } else {
        MAX_NOTES as int
    };
    assert(valid_titles(names).take(m).len() == m);
}

/// Bad entries are skipped, not fatal: an enumeration reports exactly
/// the titles of the note-suffixed entries, in order — truncated to the
/// cap — whatever other entries the listing holds.
pub proof fn lemma_enumeration_skips_invalid(names: Seq<Seq<char>>)
    ensures
        titles_spec(names) == valid_titles(names).take(
            if valid_count(names) <= MAX_NOTES {
                valid_count(names) as int
            } else {
                MAX_NOTES as int
            },
        ),
        valid_count(names) <= MAX_NOTES ==> titles_spec(names) == valid_titles(names),
{
    lemma_valid_titles_len(names);
    lemma_titles_rec_take(names, MAX_NOTES as nat);
    if valid_count(names) <= MAX_NOTES {
        assert(valid_titles(names).take(valid_count(names) as int) =~= valid_titles(names));
    }
}

/// Deleting an absent note fails cleanly: the deletion reports
/// `NotFound`, and by the delete operation's contract the store is left
/// unchanged.
pub proof fn lemma_delete_absent_fails(dir: Dir, title: Seq<char>)
    requires
        dir_read(dir, note_file_name_spec(title)) is None,
    ensures
        delete_result(dir, title) == Err::<Dir, StoreError>(StoreError::NotFound),
{
}

/// Empty input is rejected: a create whose title or contents trim to
/// nothing fails with `InvalidInput`, whatever the store holds, and by
/// the create operation's contract the store is left unchanged.
pub proof fn lemma_create_rejects_empty(dir: Dir, title: Seq<char>, contents: Seq<char>)
    requires
        trim_spec(title).len() == 0 || trim_spec(contents).len() == 0,
    ensures
        create_result(dir, title, contents) == Err::<Dir, StoreError>(StoreError::InvalidInput),
{
}

} // verus!
