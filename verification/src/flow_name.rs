//! The mapping between hierarchical flow names and paths below the flows
//! directory.
//!
//! A flow name is a list of segments joined by `/`. All segments but the last
//! name nested directories; the last one, with the flow extension appended,
//! names the file. A path is held as the list of its components below the
//! flows directory.

use crate::error::{Invalid, StoreError};
use crate::text::{
    is_space, is_whitespace, join, lemma_join_split, lemma_split_join, lemma_split_nonempty,
    same_text, split, split_text, texts, trim, trimmed,
};
use vstd::prelude::*;

verus! {

/// The extension of a flow document file, without the dot.
pub open spec fn flow_extension() -> Seq<char> {
    seq!['j', 's', 'o', 'n']
}

/// The flows directory, as components below the home directory of the user.
pub open spec fn flows_dir() -> Seq<Seq<char>> {
    seq![".askit"@, "flows"@]
}

/// A segment of a flow name is valid when it is not empty and neither starts
/// nor ends with white space.
pub open spec fn valid_segment(seg: Seq<char>) -> bool {
    seg.len() > 0 && !is_space(seg.first()) && !is_space(seg.last())
}

/// The segments of a flow name.
pub open spec fn segments(name: Seq<char>) -> Seq<Seq<char>> {
    split(name, '/')
}

/// A flow name is valid when each of its segments is.
pub open spec fn valid_flow_name(name: Seq<char>) -> bool {
    forall|i: int| 0 <= i < segments(name).len() ==> valid_segment(#[trigger] segments(name)[i])
}

/// The name of the file that holds the flow whose last segment is `seg`.
pub open spec fn file_name_of(seg: Seq<char>) -> Seq<char> {
    seg + seq!['.'] + flow_extension()
}

/// The path of a flow, as components below the flows directory.
pub open spec fn path_of(name: Seq<char>) -> Seq<Seq<char>> {
    segments(name).drop_last().push(file_name_of(segments(name).last()))
}

/// The name prefix under which a walk of the flows directory finds the file
/// of the flow `name`: its directory segments joined by `/`.
pub open spec fn prefix_of(name: Seq<char>) -> Seq<char> {
    join(segments(name).drop_last(), seq!['/'])
}

/// The position of the last dot in `file`, or -1 where it has none.
pub open spec fn last_dot(file: Seq<char>) -> int
    decreases file.len(),
{
    if file.len() == 0 {
        -1
    } else if file.last() == '.' {
        file.len() - 1
    } else {
        last_dot(file.drop_last())
    }
}

/// The file name without its extension. A dot that begins the name starts no
/// extension.
pub open spec fn file_stem(file: Seq<char>) -> Seq<char> {
    if last_dot(file) <= 0 {
        file
    } else {
        file.subrange(0, last_dot(file))
    }
}

/// What follows the last dot of the file name, where that dot does not begin
/// the name.
pub open spec fn file_extension(file: Seq<char>) -> Option<Seq<char>> {
    if last_dot(file) <= 0 {
        None
    } else {
        Some(file.subrange(last_dot(file) + 1, file.len() as int))
    }
}

/// Whether the file name carries the flow extension.
pub open spec fn is_flow_file_name(file: Seq<char>) -> bool {
    file_extension(file) == Some(flow_extension())
}

/// The base name that a file gives its flow: its stem, trimmed.
pub open spec fn base_name_of(file: Seq<char>) -> Seq<char> {
    trimmed(file_stem(file))
}

/// The name of the flow held by `file`, found under the name prefix `prefix`.
pub open spec fn name_of(file: Seq<char>, prefix: Seq<char>) -> Seq<char> {
    if prefix.len() == 0 {
        base_name_of(file)
    } else {
        prefix + seq!['/'] + base_name_of(file)
    }
}

/// The bounds of `last_dot`, and what stands at it.
pub proof fn lemma_last_dot(file: Seq<char>)
    ensures
        -1 <= last_dot(file) < file.len(),
        last_dot(file) >= 0 ==> file[last_dot(file)] == '.',
        forall|j: int| last_dot(file) < j < file.len() ==> #[trigger] file[j] != '.',
    decreases file.len(),
{
    if file.len() > 0 && file.last() != '.' {
        let head = file.drop_last();
        lemma_last_dot(head);
        assert forall|j: int| last_dot(file) < j < file.len() implies #[trigger] file[j] != '.' by {
            if j < head.len() {
                assert(head[j] == file[j]);
            }
        }
    }
}

/// A dot followed only by other characters is the last dot.
pub proof fn lemma_last_dot_at(file: Seq<char>, d: int)
    requires
        0 <= d < file.len(),
        file[d] == '.',
        forall|j: int| d < j < file.len() ==> #[trigger] file[j] != '.',
    ensures
        last_dot(file) == d,
    decreases file.len(),
{
    if file.last() != '.' {
        lemma_last_dot_at(file.drop_last(), d);
    }
}

/// A valid segment is its own trimmed form.
pub proof fn lemma_valid_segment_trimmed(seg: Seq<char>)
    requires
        valid_segment(seg),
    ensures
        trimmed(seg) == seg,
{
    assert(seg.subrange(0, seg.len() as int) =~= seg);
}

/// The file of a non-empty segment has that segment as its stem and carries
/// the flow extension.
pub proof fn lemma_file_name_of(seg: Seq<char>)
    requires
        seg.len() > 0,
    ensures
        file_stem(file_name_of(seg)) == seg,
        is_flow_file_name(file_name_of(seg)),
{
    let file = file_name_of(seg);
    let d = seg.len() as int;
    assert(file.len() == d + 5);
    assert(file[d] == '.');
    assert(file[d + 1] == 'j' && file[d + 2] == 's' && file[d + 3] == 'o' && file[d + 4] == 'n');
    lemma_last_dot_at(file, d);
    assert(file.subrange(0, d) =~= seg);
    assert(file.subrange(d + 1, file.len() as int) =~= flow_extension());
}

/// The path of a valid flow name leads back to the name: the file is a flow
/// file, and `name_of` with the prefix of the file's directory is the name.
pub proof fn lemma_name_round_trip(name: Seq<char>)
    requires
        valid_flow_name(name),
    ensures
        path_of(name).len() == segments(name).len(),
        is_flow_file_name(path_of(name).last()),
        join(path_of(name).drop_last(), seq!['/']) == prefix_of(name),
        name_of(path_of(name).last(), prefix_of(name)) == name,
{
    let segs = segments(name);
    let glue = seq!['/'];
    lemma_split_nonempty(name, '/');
    lemma_join_split(name, '/');
    let last = segs.last();
    assert(valid_segment(last));
    lemma_file_name_of(last);
    lemma_valid_segment_trimmed(last);
    assert(path_of(name).drop_last() =~= segs.drop_last());
    if segs.len() == 1 {
        assert(join(segs, glue) == segs[0]);
        assert(prefix_of(name).len() == 0);
    } else {
        let front = segs.drop_last();
        assert(valid_segment(segs[0]));
        assert(front[0] == segs[0]);
        lemma_join_starts(front, glue);
        assert(join(segs, glue) == join(front, glue) + glue + last);
    }
}

/// A text that holds no `/`.
pub open spec fn plain(seg: Seq<char>) -> bool {
    forall|j: int| 0 <= j < seg.len() ==> seg[j] != '/'
}

/// A path of valid segments leads back to itself: the name that `name_of`
/// gives the file of `base`, found under the directories `dirs`, is a valid
/// flow name, and its path is that file under those directories.
pub proof fn lemma_path_round_trip(dirs: Seq<Seq<char>>, base: Seq<char>)
    requires
        forall|i: int| 0 <= i < dirs.len() ==> valid_segment(#[trigger] dirs[i]) && plain(dirs[i]),
        valid_segment(base),
        plain(base),
    ensures
        valid_flow_name(name_of(file_name_of(base), join(dirs, seq!['/']))),
        path_of(name_of(file_name_of(base), join(dirs, seq!['/']))) == dirs.push(file_name_of(base)),
{
    let glue = seq!['/'];
    let file = file_name_of(base);
    let name = name_of(file, join(dirs, glue));
    let segs = dirs.push(base);
    lemma_file_name_of(base);
    lemma_valid_segment_trimmed(base);
    assert(segs.drop_last() =~= dirs);
    if dirs.len() > 0 {
        lemma_join_starts(dirs, glue);
        assert(valid_segment(dirs[0]));
    }
    assert(name == join(segs, glue));
    assert forall|i: int, j: int| 0 <= i < segs.len() && 0 <= j < segs[i].len() implies #[trigger] segs[i][j]
        != '/' by {
        if i < dirs.len() {
            assert(plain(dirs[i]));
        }
    }
    lemma_split_join(segs, '/');
    assert forall|i: int| 0 <= i < segments(name).len() implies valid_segment(
        #[trigger] segments(name)[i],
    ) by {
        if i < dirs.len() {
            assert(valid_segment(dirs[i]));
        }
    }
}

/// A join is at least as long as its first piece.
pub proof fn lemma_join_starts(parts: Seq<Seq<char>>, sep: Seq<char>)
    requires
        parts.len() >= 1,
    ensures
        join(parts, sep).len() >= parts[0].len(),
    decreases parts.len(),
{
    if parts.len() > 1 {
        lemma_join_starts(parts.drop_last(), sep);
        assert(parts.drop_last()[0] == parts[0]);
    }
}

/// The flows directory, as components below the home directory of the user.
pub fn flows_dir_path() -> (r: Vec<String>)
    ensures
        texts(r@) == flows_dir(),
{
    let mut path: Vec<String> = Vec::new();
    path.push(String::from_str(".askit"));
    path.push(String::from_str("flows"));
    assert(texts(path@) =~= flows_dir());
    path
}

/// Whether `seg` can stand as a segment of a flow name.
pub fn is_valid_segment(seg: &str) -> (r: bool)
    ensures
        r == valid_segment(seg@),
{
    let n = seg.unicode_len();
    if n == 0 {
        return false;
    }
    !is_whitespace(seg.get_char(0)) && !is_whitespace(seg.get_char(n - 1))
}

/// The path of the flow `name` below the flows directory: one component for
/// each segment, the last with the flow extension appended.
///
/// Fails with a validation error exactly when a segment of `name` is empty,
/// or starts or ends with white space.
pub fn path_for(name: &str) -> (r: Result<Vec<String>, StoreError>)
    ensures
        valid_flow_name(name@) ==> r is Ok && texts(r->Ok_0@) == path_of(name@),
        !valid_flow_name(name@) ==> r == Err::<Vec<String>, StoreError>(
            StoreError::Validation(Invalid::MalformedSegment),
        ),
{
    let mut parts = split_text(name, '/');
    proof {
        lemma_split_nonempty(name@, '/');
    }
    let n = parts.len();
    let mut i: usize = 0;
    while i < n
        invariant
            i <= n,
            n == parts@.len(),
            texts(parts@) == segments(name@),
            forall|j: int| 0 <= j < i ==> valid_segment(#[trigger] segments(name@)[j]),
        decreases n - i,
    {
        assert(texts(parts@)[i as int] == parts@[i as int]@);
        if !is_valid_segment(parts[i].as_str()) {
            assert(!valid_segment(segments(name@)[i as int]));
            return Err(StoreError::Validation(Invalid::MalformedSegment));
        }
        i += 1;
    }
    let ghost before = texts(parts@);
    let mut last = parts.pop().unwrap();
    assert(last@ == before.last());
    last.append(".json");
    proof {
        reveal_strlit(".json");
        assert(".json"@ =~= seq!['.'] + flow_extension());
        assert(last@ =~= file_name_of(before.last()));
    }
    assert(texts(parts@) =~= before.drop_last());
    let ghost front = texts(parts@);
    parts.push(last);
    assert(texts(parts@) =~= front.push(last@));
    Ok(parts)
}

/// The position of the last dot in `file`.
fn find_last_dot(file: &str) -> (r: Option<usize>)
    ensures
        match r {
            Some(d) => d == last_dot(file@),
            None => last_dot(file@) == -1,
        },
{
    let n = file.unicode_len();
    let mut found: Option<usize> = None;
    let mut i: usize = 0;
    for c in it: file.chars()
        invariant
            it.seq() == file@,
            i == it.index(),
            n == file@.len(),
            match found {
                Some(d) => d == last_dot(file@.take(i as int)),
                None => last_dot(file@.take(i as int)) == -1,
            },
    {
        proof {
            assert(file@.take(i + 1).last() == c);
            assert(file@.take(i + 1).drop_last() =~= file@.take(i as int));
        }
        if c == '.' {
            found = Some(i);
        }
        i = i + 1;
    }
    proof {
        assert(file@.take(n as int) =~= file@);
    }
    found
}

/// The file name without its extension.
pub fn stem_of(file: &str) -> (r: &str)
    ensures
        r@ == file_stem(file@),
{
    proof {
        lemma_last_dot(file@);
    }
    match find_last_dot(file) {
        Some(d) => {
            if d == 0 {
                file
            } else {
                file.substring_char(0, d)
            }
        },
        None => file,
    }
}

/// Whether the file name carries the flow extension.
pub fn is_flow_file(file: &str) -> (r: bool)
    ensures
        r == is_flow_file_name(file@),
{
    proof {
        lemma_last_dot(file@);
        reveal_strlit("json");
        assert("json"@ =~= flow_extension());
    }
    match find_last_dot(file) {
        Some(d) => {
            if d == 0 {
                false
            } else {
                let n = file.unicode_len();
                same_text(file.substring_char(d + 1, n), "json")
            }
        },
        None => false,
    }
}

/// The name of the flow that the file `file_name` holds, where a walk of the
/// flows directory found it under the name prefix `prefix`: the prefix and
/// the file's trimmed stem joined by `/`, or the trimmed stem alone under an
/// empty prefix.
///
/// Fails with a validation error exactly when the trimmed stem is empty.
pub fn name_for(file_name: &str, prefix: &str) -> (r: Result<String, StoreError>)
    ensures
        base_name_of(file_name@).len() > 0 ==> r is Ok && r->Ok_0@ == name_of(file_name@, prefix@),
        base_name_of(file_name@).len() == 0 ==> r == Err::<String, StoreError>(
            StoreError::Validation(Invalid::EmptyName),
        ),
{
    let base = trim(stem_of(file_name));
    if base.unicode_len() == 0 {
        return Err(StoreError::Validation(Invalid::EmptyName));
    }
    if prefix.unicode_len() == 0 {
        Ok(String::from_str(base))
    } else {
        let mut name = String::from_str(prefix);
        name.append("/");
        name.append(base);
        proof {
            reveal_strlit("/");
            assert("/"@ =~= seq!['/']);
        }
        Ok(name)
    }
}

} // verus!
