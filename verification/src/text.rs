//! Character and string primitives: whitespace, trimming, splitting and
//! comparison, each specified over the sequence of characters of a string.

use vstd::prelude::*;
use vstd::string::StrSliceExecFns;

verus! {

/// Whether `c` has the Unicode `White_Space` property.
pub open spec fn is_whitespace(c: char) -> bool {
    ||| '\u{9}' <= c <= '\u{d}'
    ||| c == ' '
    ||| c == '\u{85}'
    ||| c == '\u{a0}'
    ||| c == '\u{1680}'
    ||| '\u{2000}' <= c <= '\u{200a}'
    ||| c == '\u{2028}'
    ||| c == '\u{2029}'
    ||| c == '\u{202f}'
    ||| c == '\u{205f}'
    ||| c == '\u{3000}'
}

/// `s` without its leading whitespace.
pub open spec fn trimmed_start(s: Seq<char>) -> Seq<char>
    decreases s.len(),
{
    if s.len() > 0 && is_whitespace(s.first()) {
        trimmed_start(s.drop_first())
    } else {
        s
    }
}

/// `s` without its trailing whitespace.
pub open spec fn trimmed_end(s: Seq<char>) -> Seq<char>
    decreases s.len(),
{
    if s.len() > 0 && is_whitespace(s.last()) {
        trimmed_end(s.drop_last())
    } else {
        s
    }
}

/// `s` without its leading and trailing whitespace.
pub open spec fn trimmed(s: Seq<char>) -> Seq<char> {
    trimmed_end(trimmed_start(s))
}

/// Whether `s` neither begins nor ends with whitespace.
pub open spec fn is_trimmed(s: Seq<char>) -> bool {
    s.len() > 0 ==> !is_whitespace(s.first()) && !is_whitespace(s.last())
}

/// The segments of `s` between occurrences of `sep`, in order. There is
/// always at least one segment, and a separator at either end or next to
/// another one gives an empty segment. The segments are the one list of
/// texts without `sep` that [`joined`] gives `s` back from:
/// [`lemma_pieces_rejoin`], [`lemma_pieces_of_joined`].
pub open spec fn pieces(s: Seq<char>, sep: char) -> Seq<Seq<char>>
    decreases s.len(),
{
    if s.len() == 0 {
        seq![Seq::empty()]
    } else {
        let before = pieces(s.drop_last(), sep);
        if s.last() == sep {
            before.push(Seq::empty())
        } else {
            before.drop_last().push(before.last().push(s.last()))
        }
    }
}

/// The texts of `parts` in a row, with `sep` between each two.
pub open spec fn joined(parts: Seq<Seq<char>>, sep: char) -> Seq<char>
    decreases parts.len(),
{
    if parts.len() == 0 {
        Seq::empty()
    } else if parts.len() == 1 {
        parts[0]
    } else {
        joined(parts.drop_last(), sep).push(sep) + parts.last()
    }
}

/// The lower-case form of an ASCII upper-case letter; any other character
/// unchanged.
pub open spec fn ascii_lower(c: char) -> char {
    if 'A' <= c <= 'Z' {
        ((c as u32) + 32) as char
    } else {
        c
    }
}

/// `s` with every ASCII upper-case letter replaced by its lower-case form.
pub open spec fn lowered(s: Seq<char>) -> Seq<char> {
    Seq::new(s.len(), |i: int| ascii_lower(s[i]))
}

/// The number of bytes that the UTF-8 encoding of `c` takes.
pub open spec fn utf8_width(c: char) -> nat {
    if (c as u32) < 0x80 {
        1
    } else if (c as u32) < 0x800 {
        2
    } else if (c as u32) < 0x1_0000 {
        3
    } else {
        4
    }
}

/// The number of bytes that the UTF-8 encoding of `s` takes.
pub open spec fn utf8_len(s: Seq<char>) -> nat
    decreases s.len(),
{
    if s.len() == 0 {
        0
    } else {
        utf8_len(s.drop_last()) + utf8_width(s.last())
    }
}

/// The views of the items of a sequence: of strings, their texts.
pub open spec fn views<T: View>(items: Seq<T>) -> Seq<T::V> {
    Seq::new(items.len(), |i: int| items[i]@)
}

/// Trimming takes whitespace from the two ends of a text and nothing else:
/// what is left is a stretch of the text that neither begins nor ends with
/// whitespace, and all that comes before and after it is whitespace.
pub proof fn lemma_trimmed_is_trimmed(s: Seq<char>)
    ensures
        is_trimmed(trimmed(s)),
        ({
            let start = s.len() - trimmed_start(s).len();
            let end = start + trimmed(s).len();
            &&& 0 <= start <= end <= s.len()
            &&& trimmed(s) == s.subrange(start, end)
            &&& forall|i: int| 0 <= i < start || end <= i < s.len() ==> is_whitespace(s[i])
        }),
{
    let tail = trimmed_start(s);
    lemma_trimmed_start(s);
    lemma_trimmed_end(tail);
    let start = s.len() - tail.len();
    let end = start + trimmed(s).len();
    assert(tail.subrange(0, trimmed(s).len() as int) == s.subrange(start, end));
    assert forall|i: int| 0 <= i < start || end <= i < s.len() implies is_whitespace(s[i]) by {
        if end <= i {
            assert(s[i] == tail[i - start]);
        }
    }
    if trimmed(s).len() > 0 {
        assert(trimmed(s).first() == tail.first());
    }
}

/// What [`trimmed_start`] leaves is the end of the text, begins with no
/// whitespace, and only whitespace comes before it.
proof fn lemma_trimmed_start(s: Seq<char>)
    ensures
        trimmed_start(s).len() <= s.len(),
        trimmed_start(s) == s.subrange(s.len() - trimmed_start(s).len(), s.len() as int),
        trimmed_start(s).len() > 0 ==> !is_whitespace(trimmed_start(s).first()),
        forall|i: int| 0 <= i < s.len() - trimmed_start(s).len() ==> is_whitespace(s[i]),
    decreases s.len(),
{
    if s.len() > 0 && is_whitespace(s.first()) {
        let rest = s.drop_first();
        lemma_trimmed_start(rest);
        let kept = trimmed_start(rest).len();
        assert(rest.subrange(rest.len() - kept, rest.len() as int) == s.subrange(
            s.len() - kept,
            s.len() as int,
        ));
        assert forall|i: int| 0 <= i < s.len() - kept implies is_whitespace(s[i]) by {
            if i > 0 {
                assert(s[i] == rest[i - 1]);
            }
        }
    } else {
        assert(s.subrange(0, s.len() as int) == s);
    }
}

/// What [`trimmed_end`] leaves is the start of the text, ends with no
/// whitespace, and only whitespace comes after it.
proof fn lemma_trimmed_end(s: Seq<char>)
    ensures
        trimmed_end(s).len() <= s.len(),
        trimmed_end(s) == s.subrange(0, trimmed_end(s).len() as int),
        trimmed_end(s).len() > 0 ==> !is_whitespace(trimmed_end(s).last()),
        forall|i: int| trimmed_end(s).len() <= i < s.len() ==> is_whitespace(s[i]),
    decreases s.len(),
{
    if s.len() > 0 && is_whitespace(s.last()) {
        let rest = s.drop_last();
        lemma_trimmed_end(rest);
        let kept = trimmed_end(rest).len() as int;
        assert(rest.subrange(0, kept) == s.subrange(0, kept));
        assert forall|i: int| kept <= i < s.len() implies is_whitespace(s[i]) by {
            if i < s.len() - 1 {
                assert(s[i] == rest[i]);
            }
        }
    } else {
        assert(s.subrange(0, s.len() as int) == s);
    }
}

/// Only the empty text takes no bytes, and a text takes one byte exactly
/// when it is a single ASCII character.
pub proof fn lemma_utf8_len_of_short_text(s: Seq<char>)
    ensures
        utf8_len(s) == 0 <==> s.len() == 0,
        utf8_len(s) == 1 <==> s.len() == 1 && (s[0] as u32) < 0x80,
{
    lemma_utf8_len_counts_each_char(s);
    if s.len() > 0 {
        lemma_utf8_len_counts_each_char(s.drop_last());
    }
}

/// A text takes at least one byte for each of its characters.
proof fn lemma_utf8_len_counts_each_char(s: Seq<char>)
    ensures
        utf8_len(s) >= s.len(),
    decreases s.len(),
{
    if s.len() > 0 {
        lemma_utf8_len_counts_each_char(s.drop_last());
    }
}

/// Splitting loses nothing and cuts at every separator: there is at least
/// one segment, no segment holds the separator, and the segments joined
/// by the separator are the text again.
pub proof fn lemma_pieces_rejoin(s: Seq<char>, sep: char)
    ensures
        pieces(s, sep).len() >= 1,
        forall|i: int|
            0 <= i < pieces(s, sep).len() ==> !(#[trigger] pieces(s, sep)[i]).contains(sep),
        joined(pieces(s, sep), sep) == s,
    decreases s.len(),
{
    if s.len() > 0 {
        let before = pieces(s.drop_last(), sep);
        lemma_pieces_rejoin(s.drop_last(), sep);
        let after = pieces(s, sep);
        if s.last() == sep {
            assert(after.drop_last() == before);
            assert(joined(after, sep) == s.drop_last().push(sep) + Seq::<char>::empty());
            assert(s.drop_last().push(sep) == s);
        } else {
            let grown = before.last().push(s.last());
            assert forall|i: int| 0 <= i < after.len() implies !(#[trigger] after[i]).contains(
                sep,
            ) by {
                if i < after.len() - 1 {
                    assert(after[i] == before[i]);
                } else {
                    assert(!before.last().contains(sep));
                    if grown.contains(sep) {
                        let k = choose|k: int| 0 <= k < grown.len() && grown[k] == sep;
                        assert(before.last()[k] == sep);
                    }
                }
            }
            if before.len() == 1 {
                assert(joined(after, sep) == grown);
                assert(joined(before, sep) == before.last());
            } else {
                assert(after.drop_last() == before.drop_last());
                assert(joined(after, sep) == (joined(before.drop_last(), sep).push(sep)
                    + before.last()).push(s.last()));
            }
            assert(s.drop_last().push(s.last()) == s);
        }
    } else {
        assert(joined(pieces(s, sep), sep) == s);
    }
}

/// Text without the separator, put after a text, lengthens the last
/// segment of that text and adds none.
proof fn lemma_pieces_of_longer_text(s: Seq<char>, more: Seq<char>, sep: char)
    requires
        !more.contains(sep),
    ensures
        pieces(s, sep).len() >= 1,
        pieces(s + more, sep) == pieces(s, sep).drop_last().push(pieces(s, sep).last() + more),
    decreases more.len(),
{
    lemma_pieces_rejoin(s, sep);
    if more.len() == 0 {
        assert(s + more == s);
        assert(pieces(s, sep).last() + more == pieces(s, sep).last());
        assert(pieces(s, sep).drop_last().push(pieces(s, sep).last()) == pieces(s, sep));
    } else {
        let shorter = more.drop_last();
        assert(!shorter.contains(sep)) by {
            if shorter.contains(sep) {
                let k = choose|k: int| 0 <= k < shorter.len() && shorter[k] == sep;
                assert(more[k] == sep);
            }
        }
        assert(more.last() != sep) by {
            assert(more[more.len() - 1] == more.last());
        }
        lemma_pieces_of_longer_text(s, shorter, sep);
        assert((s + more).drop_last() == s + shorter);
        assert((pieces(s, sep).last() + shorter).push(more.last()) == pieces(s, sep).last()
            + more);
        let before = pieces(s + shorter, sep);
        assert(before.drop_last() == pieces(s, sep).drop_last());
    }
}

/// Splitting undoes joining: texts that do not hold the separator, at
/// least one of them, are the segments of what they are joined to.
pub proof fn lemma_pieces_of_joined(parts: Seq<Seq<char>>, sep: char)
    requires
        parts.len() >= 1,
        forall|i: int| 0 <= i < parts.len() ==> !(#[trigger] parts[i]).contains(sep),
    ensures
        pieces(joined(parts, sep), sep) == parts,
    decreases parts.len(),
{
    let empty = Seq::<char>::empty();
    if parts.len() == 1 {
        lemma_pieces_of_longer_text(empty, parts[0], sep);
        assert(empty + parts[0] == parts[0]);
        assert(pieces(empty, sep) == seq![empty]);
        assert(seq![empty].drop_last().push(empty + parts[0]) == parts);
    } else {
        let first = parts.drop_last();
        lemma_pieces_of_joined(first, sep);
        let cut = joined(first, sep).push(sep);
        assert(cut.drop_last() == joined(first, sep));
        assert(pieces(cut, sep) == first.push(empty));
        lemma_pieces_of_longer_text(cut, parts.last(), sep);
        assert(empty + parts.last() == parts.last());
        assert(first.push(empty).drop_last().push(parts.last()) == parts);
    }
}

/// Decides [`is_whitespace`].
pub fn char_is_whitespace(c: char) -> (b: bool)
    ensures
        b == is_whitespace(c),
{
    ('\u{9}' <= c && c <= '\u{d}') || c == ' ' || c == '\u{85}' || c == '\u{a0}' || c
        == '\u{1680}' || ('\u{2000}' <= c && c <= '\u{200a}') || c == '\u{2028}' || c
        == '\u{2029}' || c == '\u{202f}' || c == '\u{205f}' || c == '\u{3000}'
}

/// Whether the lower-case form of `c` is `d`.
pub fn char_lowers_to(c: char, d: char) -> (b: bool)
    ensures
        b == (ascii_lower(c) == d),
{
    if 'A' <= c && c <= 'Z' {
        c as u32 + 32 == d as u32
    } else {
        c == d
    }
}

/// The characters of `s`, in a vector.
pub fn chars_of(s: &str) -> (chars: Vec<char>)
    ensures
        chars@ == s@,
{
    let mut chars: Vec<char> = Vec::new();
    for c in it: s.chars()
        invariant
            it.seq() == s@,
            chars@ == it.seq().take(it.index() as int),
    {
        chars.push(c);
    }
    chars
}

/// The index at which the leading whitespace of `chars` ends.
fn text_start(chars: &Vec<char>) -> (start: usize)
    ensures
        start <= chars.len(),
        chars@.subrange(start as int, chars.len() as int) == trimmed_start(chars@),
{
    let mut start: usize = 0;
    assert(chars@.subrange(0, chars.len() as int) == chars@);
    while start < chars.len() && char_is_whitespace(chars[start])
        invariant
            start <= chars.len(),
            trimmed_start(chars@.subrange(start as int, chars.len() as int)) == trimmed_start(
                chars@,
            ),
        decreases chars.len() - start,
    {
        assert(chars@.subrange(start as int, chars.len() as int).drop_first() == chars@.subrange(
            start + 1,
            chars.len() as int,
        ));
        start += 1;
    }
    start
}

/// The index at which the trailing whitespace of `chars` begins, looking
/// no further back than `from`.
fn text_end(chars: &Vec<char>, from: usize) -> (end: usize)
    requires
        from <= chars.len(),
    ensures
        from <= end <= chars.len(),
        chars@.subrange(from as int, end as int) == trimmed_end(
            chars@.subrange(from as int, chars.len() as int),
        ),
{
    let mut end: usize = chars.len();
    while end > from && char_is_whitespace(chars[end - 1])
        invariant
            from <= end <= chars.len(),
            trimmed_end(chars@.subrange(from as int, end as int)) == trimmed_end(
                chars@.subrange(from as int, chars.len() as int),
            ),
        decreases end,
    {
        assert(chars@.subrange(from as int, end as int).drop_last() == chars@.subrange(
            from as int,
            end - 1,
        ));
        end -= 1;
    }
    end
}

/// `s` without its leading and trailing whitespace.
pub fn trim<'a>(s: &'a str) -> (r: &'a str)
    ensures
        r@ == trimmed(s@),
{
    let chars = chars_of(s);
    let start = text_start(&chars);
    let end = text_end(&chars, start);
    s.substring_char(start, end)
}

/// `s` without its trailing whitespace.
pub fn trim_end<'a>(s: &'a str) -> (r: &'a str)
    ensures
        r@ == trimmed_end(s@),
{
    let chars = chars_of(s);
    let end = text_end(&chars, 0);
    assert(chars@.subrange(0, chars.len() as int) == chars@);
    s.substring_char(0, end)
}

/// Splits `s` at every occurrence of `sep`.
pub fn split<'a>(s: &'a str, sep: char) -> (parts: Vec<&'a str>)
    ensures
        views(parts@) == pieces(s@, sep),
{
    let chars = chars_of(s);
    let mut parts: Vec<&'a str> = Vec::new();
    let mut start: usize = 0;
    let mut i: usize = 0;
    proof {
        assert(s@.take(0) == Seq::<char>::empty());
        assert(views(parts@).push(s@.subrange(0, 0)) == seq![Seq::<char>::empty()]);
    }
    while i < chars.len()
        invariant
            start <= i <= chars.len(),
            chars@ == s@,
            pieces(s@.take(i as int), sep) == views(parts@).push(
                s@.subrange(start as int, i as int),
            ),
        decreases chars.len() - i,
    {
        proof {
            let prefix = s@.take(i + 1);
            assert(prefix.drop_last() == s@.take(i as int));
            assert(prefix.last() == chars@[i as int]);
        }
        if chars[i] == sep {
            let part = s.substring_char(start, i);
            proof {
                assert(views(parts@.push(part)) == views(parts@).push(part@));
            }
            parts.push(part);
            start = i + 1;
            assert(s@.subrange(start as int, i + 1) == Seq::<char>::empty());
        } else {
            assert(s@.subrange(start as int, i as int).push(chars@[i as int]) == s@.subrange(
                start as int,
                i + 1,
            ));
            assert(views(parts@).push(s@.subrange(start as int, i as int)).drop_last() == views(
                parts@,
            ));
        }
        i += 1;
    }
    let part = s.substring_char(start, i);
    proof {
        assert(views(parts@.push(part)) == views(parts@).push(part@));
        assert(s@.take(i as int) == s@);
    }
    parts.push(part);
    parts
}

/// Whether `a` and `b` hold the same characters.
pub fn same_text(a: &str, b: &str) -> (same: bool)
    ensures
        same == (a@ == b@),
{
    let x = chars_of(a);
    let y = chars_of(b);
    if x.len() != y.len() {
        return false;
    }
    let mut i: usize = 0;
    while i < x.len()
        invariant
            i <= x.len(),
            x.len() == y.len(),
            x@ == a@,
            y@ == b@,
            forall|k: int| 0 <= k < i ==> x@[k] == y@[k],
        decreases x.len() - i,
    {
        if x[i] != y[i] {
            return false;
        }
        i += 1;
    }
    assert(a@ =~= b@);
    true
}

/// Whether `a`, with its ASCII upper-case letters lowered, reads `word`.
pub fn lowered_reads(a: &str, word: &str) -> (same: bool)
    ensures
        same == (lowered(a@) == word@),
{
    let x = chars_of(a);
    let y = chars_of(word);
    if x.len() != y.len() {
        return false;
    }
    let mut i: usize = 0;
    while i < x.len()
        invariant
            i <= x.len(),
            x.len() == y.len(),
            x@ == a@,
            y@ == word@,
            forall|k: int| 0 <= k < i ==> ascii_lower(#[trigger] x@[k]) == y@[k],
        decreases x.len() - i,
    {
        if !char_lowers_to(x[i], y[i]) {
            assert(lowered(a@)[i as int] != word@[i as int]);
            return false;
        }
        i += 1;
    }
    assert(lowered(a@) =~= word@);
    true
}

} // verus!
