//! Text primitives on which the rest of the library is built: whitespace,
//! trimming, splitting at a separator and joining again.
//!
//! Every executable function here is specified over `Seq<char>`, the view of
//! `str` and `String`.

use vstd::prelude::*;

verus! {

/// The views of a list of strings, in order.
pub open spec fn texts(v: Seq<String>) -> Seq<Seq<char>> {
    Seq::new(v.len(), |i: int| v[i]@)
}

/// Whether `c` is a white-space character (the Unicode `White_Space` property).
pub open spec fn is_space(c: char) -> bool {
    ||| '\u{9}' <= c <= '\u{d}'
    ||| c == ' '
    ||| c == '\u{85}'
    ||| c == '\u{a0}'
    ||| c == '\u{1680}'
    ||| '\u{2000}' <= c <= '\u{200a}'
    ||| c == '\u{2028}'
    ||| c == '\u{2029}'
    ||| c == '\u{202f}'
    ||| c == '\u{205f}'
    ||| c == '\u{3000}'
}

/// How many white-space characters `s` starts with.
pub open spec fn leading_spaces(s: Seq<char>) -> nat
    decreases s.len(),
{
    if s.len() > 0 && is_space(s.first()) {
        1 + leading_spaces(s.drop_first())
    } else {
        0
    }
}

/// How many white-space characters `s` ends with.
pub open spec fn trailing_spaces(s: Seq<char>) -> nat
    decreases s.len(),
{
    if s.len() > 0 && is_space(s.last()) {
        1 + trailing_spaces(s.drop_last())
    } else {
        0
    }
}

/// `s` without its leading and trailing white space.
pub open spec fn trimmed(s: Seq<char>) -> Seq<char> {
    if leading_spaces(s) >= s.len() {
        Seq::empty()
    } else {
        s.subrange(leading_spaces(s) as int, s.len() - trailing_spaces(s))
    }
}

/// The pieces of `s` between occurrences of `sep`. There is always at least
/// one piece; `n` separators give `n + 1` pieces, some of which may be empty.
pub open spec fn split(s: Seq<char>, sep: char) -> Seq<Seq<char>>
    decreases s.len(),
{
    if s.len() == 0 {
        seq![Seq::empty()]
    } else {
        let before = split(s.drop_last(), sep);
        if s.last() == sep {
            before.push(Seq::empty())
        } else {
            before.drop_last().push(before.last().push(s.last()))
        }
    }
}

/// The pieces of `parts` written one after the other with `sep` between
/// neighbours.
pub open spec fn join(parts: Seq<Seq<char>>, sep: Seq<char>) -> Seq<char>
    decreases parts.len(),
{
    if parts.len() == 0 {
        Seq::empty()
    } else if parts.len() == 1 {
        parts[0]
    } else {
        join(parts.drop_last(), sep) + sep + parts.last()
    }
}

/// The first `k` characters of `s` being white space, and the next one not,
/// fixes `leading_spaces(s)`.
pub proof fn lemma_leading_spaces(s: Seq<char>, k: int)
    requires
        0 <= k <= s.len(),
        forall|j: int| 0 <= j < k ==> is_space(#[trigger] s[j]),
        k < s.len() ==> !is_space(s[k]),
    ensures
        leading_spaces(s) == k,
    decreases k,
{
    if k > 0 {
        let rest = s.drop_first();
        assert forall|j: int| 0 <= j < k - 1 implies is_space(#[trigger] rest[j]) by {
            assert(rest[j] == s[j + 1]);
        }
        lemma_leading_spaces(rest, k - 1);
    }
}

/// Leading and trailing white space do not overlap unless the text is
/// white space only.
pub proof fn lemma_trailing_bound(s: Seq<char>)
    ensures
        trailing_spaces(s) <= s.len(),
        leading_spaces(s) <= s.len(),
        leading_spaces(s) < s.len() ==> leading_spaces(s) + trailing_spaces(s) < s.len(),
    decreases s.len(),
{
    if s.len() > 0 {
        lemma_trailing_bound(s.drop_last());
        lemma_trailing_bound(s.drop_first());
        if is_space(s.last()) && leading_spaces(s) < s.len() {
            lemma_leading_drop_last(s);
        }
    }
}

/// Removing a trailing white-space character from a text that is not all
/// white space leaves its leading white space as it was.
pub proof fn lemma_leading_drop_last(s: Seq<char>)
    requires
        s.len() > 0,
        leading_spaces(s) < s.len(),
    ensures
        leading_spaces(s.drop_last()) == leading_spaces(s),
    decreases s.len(),
{
    if is_space(s.first()) {
        let rest = s.drop_first();
        assert(leading_spaces(rest) < rest.len());
        lemma_leading_drop_last(rest);
        assert(rest.drop_last() =~= s.drop_last().drop_first());
        assert(s.drop_last().first() == s.first());
    } else {
        if s.len() > 1 {
            assert(s.drop_last().first() == s.first());
        }
    }
}

/// `split` never returns an empty list.
pub proof fn lemma_split_nonempty(s: Seq<char>, sep: char)
    ensures
        split(s, sep).len() >= 1,
    decreases s.len(),
{
    if s.len() > 0 {
        lemma_split_nonempty(s.drop_last(), sep);
    }
}

/// Joining the pieces of a split with the separator gives the text back.
pub proof fn lemma_join_split(s: Seq<char>, sep: char)
    ensures
        join(split(s, sep), seq![sep]) == s,
    decreases s.len(),
{
    let glue = seq![sep];
    if s.len() == 0 {
        assert(split(s, sep) =~= seq![Seq::<char>::empty()]);
        assert(join(split(s, sep), glue) =~= s);
    } else {
        let head = s.drop_last();
        let before = split(head, sep);
        lemma_join_split(head, sep);
        lemma_split_nonempty(head, sep);
        if s.last() == sep {
            let pieces = before.push(Seq::empty());
            assert(pieces.drop_last() =~= before);
            assert(join(pieces, glue) =~= head + glue + Seq::<char>::empty());
            assert(head + glue + Seq::<char>::empty() =~= s);
        } else {
            let grown = before.last().push(s.last());
            let pieces = before.drop_last().push(grown);
            if before.len() == 1 {
                assert(join(before, glue) == before[0]);
                assert(pieces =~= seq![grown]);
                assert(join(pieces, glue) == grown);
                assert(grown =~= s);
            } else {
                assert(pieces.drop_last() =~= before.drop_last());
                assert(join(before, glue) == join(before.drop_last(), glue) + glue + before.last());
                assert(join(pieces, glue) == join(before.drop_last(), glue) + glue + grown);
                assert(join(before.drop_last(), glue) + glue + grown =~= (join(
                    before.drop_last(),
                    glue,
                ) + glue + before.last()).push(s.last()));
                assert(head.push(s.last()) =~= s);
            }
        }
    }
}

/// Appending text that holds no separator extends the last piece of a split.
pub proof fn lemma_split_append_plain(a: Seq<char>, b: Seq<char>, sep: char)
    requires
        forall|j: int| 0 <= j < b.len() ==> b[j] != sep,
    ensures
        split(a + b, sep).len() == split(a, sep).len(),
        split(a + b, sep) == split(a, sep).drop_last().push(split(a, sep).last() + b),
    decreases b.len(),
{
    lemma_split_nonempty(a, sep);
    if b.len() == 0 {
        assert(a + b =~= a);
        assert(split(a, sep).last() + b =~= split(a, sep).last());
        assert(split(a, sep).drop_last().push(split(a, sep).last()) =~= split(a, sep));
    } else {
        let b0 = b.drop_last();
        lemma_split_append_plain(a, b0, sep);
        assert((a + b).drop_last() =~= a + b0);
        assert((a + b).last() == b.last());
        let before = split(a + b0, sep);
        assert(before.drop_last() =~= split(a, sep).drop_last());
        assert(before.last().push(b.last()) =~= split(a, sep).last() + b);
    }
}

/// Splitting a join of separator-free pieces gives the pieces back.
pub proof fn lemma_split_join(parts: Seq<Seq<char>>, sep: char)
    requires
        parts.len() >= 1,
        forall|i: int, j: int|
            0 <= i < parts.len() && 0 <= j < parts[i].len() ==> #[trigger] parts[i][j] != sep,
    ensures
        split(join(parts, seq![sep]), sep) == parts,
    decreases parts.len(),
{
    let glue = seq![sep];
    if parts.len() == 1 {
        let empty = Seq::<char>::empty();
        assert(split(empty, sep) =~= seq![empty]);
        lemma_split_append_plain(empty, parts[0], sep);
        assert(empty + parts[0] =~= parts[0]);
        assert(seq![empty].drop_last().push(empty + parts[0]) =~= parts);
    } else {
        let front = parts.drop_last();
        lemma_split_join(front, sep);
        let head = join(front, glue);
        let cut = head + glue;
        assert(cut.drop_last() =~= head);
        assert(cut.last() == sep);
        assert(split(cut, sep) == front.push(Seq::empty()));
        lemma_split_append_plain(cut, parts.last(), sep);
        assert(front.push(Seq::<char>::empty()).drop_last() =~= front);
        assert(Seq::<char>::empty() + parts.last() =~= parts.last());
        assert(front.push(parts.last()) =~= parts);
    }
}

/// A text that is not all white space has a character that is none right
/// after its leading white space, and one right before its trailing white
/// space.
pub proof fn lemma_space_ends(s: Seq<char>)
    ensures
        leading_spaces(s) <= s.len(),
        trailing_spaces(s) <= s.len(),
        leading_spaces(s) < s.len() ==> !is_space(s[leading_spaces(s) as int]),
        trailing_spaces(s) < s.len() ==> !is_space(s[s.len() - 1 - trailing_spaces(s)]),
    decreases s.len(),
{
    if s.len() > 0 {
        lemma_space_ends(s.drop_first());
        lemma_space_ends(s.drop_last());
        if is_space(s.first()) {
            let rest = s.drop_first();
            if leading_spaces(rest) < rest.len() {
                assert(rest[leading_spaces(rest) as int] == s[leading_spaces(s) as int]);
            }
        }
        if is_space(s.last()) {
            let rest = s.drop_last();
            if trailing_spaces(rest) < rest.len() {
                assert(rest[rest.len() - 1 - trailing_spaces(rest)] == s[s.len() - 1
                    - trailing_spaces(s)]);
            }
        }
    }
}

/// A trimmed text neither starts nor ends with white space.
pub proof fn lemma_trimmed_ends(s: Seq<char>)
    ensures
        trimmed(s).len() > 0 ==> !is_space(trimmed(s).first()) && !is_space(trimmed(s).last()),
{
    lemma_space_ends(s);
    lemma_trailing_bound(s);
}

/// Trimming a trimmed text changes nothing.
pub proof fn lemma_trimmed_twice(s: Seq<char>)
    ensures
        trimmed(trimmed(s)) == trimmed(s),
{
    let t = trimmed(s);
    lemma_trimmed_ends(s);
    if t.len() > 0 {
        assert(t.subrange(0, t.len() as int) =~= t);
    }
}

/// Whether `c` is a white-space character.
pub fn is_whitespace(c: char) -> (r: bool)
    ensures
        r == is_space(c),
{
    ('\u{9}' <= c && c <= '\u{d}') || c == ' ' || c == '\u{85}' || c == '\u{a0}' || c == '\u{1680}'
        || ('\u{2000}' <= c && c <= '\u{200a}') || c == '\u{2028}' || c == '\u{2029}' || c
        == '\u{202f}' || c == '\u{205f}' || c == '\u{3000}'
}

/// Whether two strings hold the same characters.
pub fn same_text(a: &str, b: &str) -> (r: bool)
    ensures
        r == (a@ == b@),
{
    let x = a.as_bytes();
    let y = b.as_bytes();
    proof {
        vstd::utf8::encode_utf8_decode_utf8(a@);
        vstd::utf8::encode_utf8_decode_utf8(b@);
    }
    if x.len() != y.len() {
        return false;
    }
    let n = x.len();
    let mut i: usize = 0;
    while i < n
        invariant
            i <= n,
            n == x@.len(),
            n == y@.len(),
            x@ == vstd::utf8::encode_utf8(a@),
            y@ == vstd::utf8::encode_utf8(b@),
            forall|j: int| 0 <= j < i ==> x@[j] == y@[j],
        decreases n - i,
    {
        if x[i] != y[i] {
            assert(x@[i as int] != y@[i as int]);
            return false;
        }
        i += 1;
    }
    assert(x@ =~= y@);
    true
}

/// `s` without its leading and trailing white space.
pub fn trim(s: &str) -> (r: &str)
    ensures
        r@ == trimmed(s@),
{
    let n = s.unicode_len();
    let mut start: usize = 0;
    let mut end: usize = 0;
    let mut i: usize = 0;
    for c in it: s.chars()
        invariant
            it.seq() == s@,
            i == it.index(),
            n == s@.len(),
            start <= i,
            end <= i,
            forall|j: int| 0 <= j < start ==> is_space(#[trigger] s@[j]),
            start < i ==> !is_space(s@[start as int]),
            i - end == trailing_spaces(s@.take(i as int)),
    {
        let blank = is_whitespace(c);
        proof {
            assert(s@.take(i + 1).last() == c);
            assert(s@.take(i + 1).drop_last() =~= s@.take(i as int));
        }
        if blank {
            if start == i {
                start = i + 1;
            }
        } else {
            end = i + 1;
        }
        i = i + 1;
    }
    proof {
        assert(s@.take(n as int) =~= s@);
        lemma_leading_spaces(s@, start as int);
    }
    if start >= n {
        s.substring_char(0, 0)
    } else {
        proof {
            lemma_trailing_bound(s@);
        }
        s.substring_char(start, end)
    }
}

/// The pieces of `s` between occurrences of `sep`.
pub fn split_text(s: &str, sep: char) -> (r: Vec<String>)
    ensures
        texts(r@) == split(s@, sep),
{
    let n = s.unicode_len();
    let mut pieces: Vec<String> = Vec::new();
    let mut start: usize = 0;
    let mut i: usize = 0;
    proof {
        assert(split(s@.take(0), sep) =~= seq![Seq::<char>::empty()]);
        assert(texts(pieces@).push(s@.subrange(0, 0)) =~~= seq![Seq::<char>::empty()]);
    }
    for c in it: s.chars()
        invariant
            it.seq() == s@,
            i == it.index(),
            n == s@.len(),
            start <= i,
            split(s@.take(i as int), sep) == texts(pieces@).push(s@.subrange(start as int, i as int)),
    {
        proof {
            assert(s@.take(i + 1).last() == c);
            assert(s@.take(i + 1).drop_last() =~= s@.take(i as int));
        }
        let ghost done = texts(pieces@);
        let ghost open = s@.subrange(start as int, i as int);
        if c == sep {
            let piece = s.substring_char(start, i);
            pieces.push(String::from_str(piece));
            start = i + 1;
            proof {
                assert(texts(pieces@) =~= done.push(open));
                assert(s@.subrange(start as int, i + 1) =~= Seq::<char>::empty());
            }
        } else {
            proof {
                assert(done.push(open).drop_last() =~= done);
                assert(s@.subrange(start as int, i + 1) =~= open.push(c));
            }
        }
        i = i + 1;
    }
    let piece = s.substring_char(start, n);
    let ghost done = texts(pieces@);
    pieces.push(String::from_str(piece));
    proof {
        assert(s@.take(n as int) =~= s@);
        assert(texts(pieces@) =~= done.push(s@.subrange(start as int, n as int)));
    }
    pieces
}

/// The strings of `parts` written one after the other with `sep` between
/// neighbours.
pub fn join_text(parts: &Vec<String>, sep: &str) -> (r: String)
    ensures
        r@ == join(texts(parts@), sep@),
{
    let mut out = String::new();
    let n = parts.len();
    let mut i: usize = 0;
    proof {
        assert(texts(parts@).take(0) =~= Seq::<Seq<char>>::empty());
    }
    while i < n
        invariant
            i <= n,
            n == parts@.len(),
            out@ == join(texts(parts@).take(i as int), sep@),
        decreases n - i,
    {
        proof {
            let upto = texts(parts@).take(i + 1);
            assert(upto.drop_last() =~= texts(parts@).take(i as int));
            assert(upto.last() == parts@[i as int]@);
            if i == 0 {
                assert(upto[0] == parts@[0]@);
                assert(Seq::<char>::empty() + parts@[0]@ =~= parts@[0]@);
            }
        }
        if i > 0 {
            out.append(sep);
        }
        out.append(parts[i].as_str());
        i += 1;
    }
    proof {
        assert(texts(parts@).take(n as int) =~= texts(parts@));
    }
    out
}

} // verus!
