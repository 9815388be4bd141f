//! Text rules of the note store: white-space trimming, the note file-name
//! convention, and the capped enumeration of note titles from a directory
//! listing.

use vstd::prelude::*;
use vstd::string::*;

verus! {

/// Greatest number of note titles that one enumeration reports.
pub const MAX_NOTES: usize = 5;

/// The file-name suffix that marks an entry as a note file.
pub open spec fn note_suffix() -> Seq<char> {
    seq!['.', 't', 'x', 't']
}

/// Whether `c` is a white-space character, by the Unicode `White_Space`
/// property: these are the characters stripped from the ends of titles
/// and contents.
pub open spec fn is_space(c: char) -> bool {
    ||| c == ' '
    ||| c == '\t'
    ||| c == '\n'
    ||| c == '\u{b}'
    ||| c == '\u{c}'
    ||| c == '\r'
    ||| c == '\u{85}'
    ||| c == '\u{a0}'
    ||| c == '\u{1680}'
    ||| ('\u{2000}' <= c && c <= '\u{200a}')
    ||| c == '\u{2028}'
    ||| c == '\u{2029}'
    ||| c == '\u{202f}'
    ||| c == '\u{205f}'
    ||| c == '\u{3000}'
}

fn is_space_char(c: char) -> (r: bool)
    ensures
        r == is_space(c),
{
    c == ' ' || c == '\t' || c == '\n' || c == '\u{b}' || c == '\u{c}' || c == '\r'
        || c == '\u{85}' || c == '\u{a0}' || c == '\u{1680}'
        || ('\u{2000}' <= c && c <= '\u{200a}') || c == '\u{2028}' || c == '\u{2029}'
        || c == '\u{202f}' || c == '\u{205f}' || c == '\u{3000}'
}

/// `s` without its leading white space.
pub open spec fn trim_front(s: Seq<char>) -> Seq<char>
    decreases s.len(),
{
    if s.len() > 0 && is_space(s[0]) {
        trim_front(s.drop_first())
    } else {
        s
    }
}

/// `s` without its trailing white space.
pub open spec fn trim_back(s: Seq<char>) -> Seq<char>
    decreases s.len(),
{
    if s.len() > 0 && is_space(s.last()) {
        trim_back(s.drop_last())
    } else {
        s
    }
}

/// `s` without leading and trailing white space.
pub open spec fn trim_spec(s: Seq<char>) -> Seq<char> {
    trim_back(trim_front(s))
}

proof fn lemma_trim_front_is_subrange(s: Seq<char>, k: int)
    requires
        0 <= k <= s.len(),
        forall|j: int| 0 <= j < k ==> is_space(#[trigger] s[j]),
        k < s.len() ==> !is_space(s[k]),
    ensures
        trim_front(s) == s.subrange(k, s.len() as int),
    decreases k,
{
    if k == 0 {
        assert(s.subrange(0, s.len() as int) =~= s);
    } else {
        let t = s.drop_first();
        lemma_trim_front_is_subrange(t, k - 1);
        assert(t.subrange(k - 1, t.len() as int) =~= s.subrange(k, s.len() as int));
    }
}

proof fn lemma_trim_back_is_subrange(s: Seq<char>, k: int)
    requires
        0 <= k <= s.len(),
        forall|j: int| k <= j < s.len() ==> is_space(#[trigger] s[j]),
        k > 0 ==> !is_space(s[k - 1]),
    ensures
        trim_back(s) == s.subrange(0, k),
    decreases s.len() - k,
{
    if k == s.len() {
        assert(s.subrange(0, k) =~= s);
    } else {
        let t = s.drop_last();
        lemma_trim_back_is_subrange(t, k);
        assert(t.subrange(0, k) =~= s.subrange(0, k));
    }
}

/// `s` with surrounding white space removed, as [`trim_spec`] describes.
pub fn trim(s: &str) -> (r: String)
    ensures
        r@ == trim_spec(s@),
{
    let n = s.unicode_len();
    let mut start: usize = 0;
    while start < n && is_space_char(s.get_char(start))
        invariant
            start <= n,
            n == s@.len(),
            forall|j: int| 0 <= j < start ==> is_space(#[trigger] s@[j]),
        decreases n - start,
    {
        start = start + 1;
    }
    let mut end: usize = n;
    while end > start && is_space_char(s.get_char(end - 1))
        invariant
            start <= end <= n,
            n == s@.len(),
            forall|j: int| end <= j < n ==> is_space(#[trigger] s@[j]),
        decreases end,
    {
        end = end - 1;
    }
    let t = s.substring_char(start, end);
    proof {
        lemma_trim_front_is_subrange(s@, start as int);
        let u = s@.subrange(start as int, n as int);
        lemma_trim_back_is_subrange(u, end - start);
        assert(u.subrange(0, end - start) =~= s@.subrange(start as int, end as int));
    }
    t.to_owned()
}

/// The file name under which a note with this title is stored:
/// the title followed by the note suffix.
pub open spec fn note_file_name_spec(title: Seq<char>) -> Seq<char> {
    title + note_suffix()
}

/// The file name for a note titled `title`, as [`note_file_name_spec`]
/// describes.
pub fn note_file_name(title: &str) -> (r: String)
    ensures
        r@ == note_file_name_spec(title@),
{
    let mut r = title.to_owned();
    r.append(".txt");
    proof {
        reveal_strlit(".txt");
        assert(".txt"@ =~= note_suffix());
    }
    r
}

/// The note title that a directory entry named `name` stands for:
/// the name without its suffix, trimmed — or nothing, when the name
/// does not carry the note suffix.
pub open spec fn entry_title_spec(name: Seq<char>) -> Option<Seq<char>> {
    if name.len() >= 4 && name.skip(name.len() - 4) == note_suffix() {
        Some(trim_spec(name.take(name.len() - 4)))
    } else {
        None
    }
}

/// The title a directory entry stands for, as [`entry_title_spec`]
/// describes.
pub fn entry_title(name: &str) -> (r: Option<String>)
    ensures
        match r {
            Some(t) => entry_title_spec(name@) == Some(t@),
            None => entry_title_spec(name@) is None,
        },
{
    let n = name.unicode_len();
    if n < 4 {
        return None;
    }
    if name.get_char(n - 4) == '.' && name.get_char(n - 3) == 't'
        && name.get_char(n - 2) == 'x' && name.get_char(n - 1) == 't' {
        proof {
            assert(name@.skip(n - 4) =~= note_suffix());
        }
        let stem = name.substring_char(0, n - 4);
        proof {
            assert(stem@ =~= name@.take(n - 4));
        }
        Some(trim(stem))
    } else {
        proof {
            let tail = name@.skip(n - 4);
            if tail == note_suffix() {
                assert(name@[n - 4] == tail[0]);
                assert(name@[n - 3] == tail[1]);
                assert(name@[n - 2] == tail[2]);
                assert(name@[n - 1] == tail[3]);
            }
        }
        None
    }
}

/// The titles that an enumeration reports from the entry names `names`,
/// with at most `room` of them still to be collected: entries that do not
/// carry the note suffix are skipped, and collection stops once `room`
/// titles are gathered.
pub open spec fn titles_rec(names: Seq<Seq<char>>, room: nat) -> Seq<Seq<char>>
    decreases names.len(),
{
    if names.len() == 0 || room == 0 {
        Seq::empty()
    } else {
        match entry_title_spec(names[0]) {
            Some(t) => seq![t] + titles_rec(names.drop_first(), (room - 1) as nat),
            None => titles_rec(names.drop_first(), room),
        }
    }
}

/// The titles that an enumeration of the entry names `names` reports:
/// the titles of the note-suffixed entries, in order, capped at
/// [`MAX_NOTES`].
pub open spec fn titles_spec(names: Seq<Seq<char>>) -> Seq<Seq<char>> {
    titles_rec(names, MAX_NOTES as nat)
}

/// Collects note titles from the directory entry names `names`, as
/// [`titles_spec`] describes: entries without the note suffix are
/// skipped, and at most [`MAX_NOTES`] titles are returned.
pub fn collect_titles(names: &Vec<String>) -> (titles: Vec<String>)
    ensures
        titles.deep_view() == titles_spec(names.deep_view()),
{
    let ghost all = names.deep_view();
    let mut titles: Vec<String> = Vec::new();
    let mut i: usize = 0;
    proof {
        assert(all.skip(0) =~= all);
        assert(titles.deep_view() =~= Seq::<Seq<char>>::empty());
        assert(Seq::<Seq<char>>::empty() + titles_rec(all, MAX_NOTES as nat)
            =~= titles_rec(all, MAX_NOTES as nat));
    }
    while i < names.len() && titles.len() < MAX_NOTES
        invariant
            i <= names.len(),
            all == names.deep_view(),
            titles.len() <= MAX_NOTES,
            titles_spec(all) == titles.deep_view()
                + titles_rec(all.skip(i as int), (MAX_NOTES - titles.len()) as nat),
        decreases names.len() - i,
    {
        let ghost titles_before = titles.deep_view();
        let ghost rest = all.skip(i as int);
        match entry_title(&names[i]) {
            Some(t) => {
                let ghost tv = t@;
                titles.push(t);
                proof {
                    assert(titles.deep_view() =~= titles_before.push(tv));
                }
            },
            None => {},
        }
        i = i + 1;
        proof {
            assert(rest[0] == all[i - 1]);
            assert(rest.drop_first() =~= all.skip(i as int));
            assert(titles_spec(all) =~= titles.deep_view()
                + titles_rec(all.skip(i as int), (MAX_NOTES - titles.len()) as nat));
        }
    }
    proof {
        if i == names.len() {
            assert(all.skip(i as int) =~= Seq::<Seq<char>>::empty());
        }
        assert(titles_rec(all.skip(i as int), (MAX_NOTES - titles.len()) as nat)
            =~= Seq::<Seq<char>>::empty());
        assert(titles.deep_view() + Seq::<Seq<char>>::empty() =~= titles.deep_view());
    }
    titles
}

} // verus!
