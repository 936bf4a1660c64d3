//! Strings as sequences of characters.
use vstd::prelude::*;

verus! {

/// `String::push` of std appends one character at the end.
pub assume_specification[ String::push ](s: &mut String, c: char)
    ensures
        final(s)@ == old(s)@.push(c),
;

/// Whether two texts hold the same characters.
pub fn text_eq(a: &str, b: &str) -> (same: bool)
    ensures
        same == (a@ == b@),
{
    a.to_owned() == b.to_owned()
}

/// The characters of a text.
pub fn chars_of(s: &str) -> (chars: Vec<char>)
    ensures
        chars@ == s@,
{
    let mut chars: Vec<char> = Vec::new();
    for c in it: s.chars()
        invariant
            chars@ == it.seq().take(it.index() as int),
            it.seq() == s@,
    {
        chars.push(c);
        assert(it.seq().take(it.index() + 1) =~= it.seq().take(it.index() as int).push(c));
    }
    assert(s@.take(s@.len() as int) =~= s@);
    chars
}

/// The text made of the given characters.
pub fn string_of(chars: &[char]) -> (s: String)
    ensures
        s@ == chars@,
{
    let mut s = String::new();
    let mut i: usize = 0;
    while i < chars.len()
        invariant
            i <= chars.len(),
            s@ == chars@.take(i as int),
        decreases chars.len() - i,
    {
        s.push(chars[i]);
        i += 1;
        assert(chars@.take(i as int) =~= chars@.take(i - 1).push(chars@[i - 1]));
    }
    assert(chars@.take(chars.len() as int) =~= chars@);
    s
}

/// The text `a` followed by the text `b`.
pub fn join2(a: &str, b: &str) -> (s: String)
    ensures
        s@ == a@ + b@,
{
    let mut s = a.to_owned();
    s.append(b);
    s
}

/// Three texts one after the other.
pub fn join3(a: &str, b: &str, c: &str) -> (s: String)
    ensures
        s@ == a@ + b@ + c@,
{
    let mut s = join2(a, b);
    s.append(c);
    s
}

/// The parts of a text between separators.
pub open spec fn split(s: Seq<char>, separator: char) -> Seq<Seq<char>>
    decreases s.len(),
{
    if s.len() == 0 {
        seq![Seq::empty()]
    } else {
        let before = split(s.drop_last(), separator);
        if s.last() == separator {
            before.push(Seq::empty())
        } else {
            before.drop_last().push(before.last().push(s.last()))
        }
    }
}

/// The texts as sequences of characters.
pub open spec fn views(texts: Seq<String>) -> Seq<Seq<char>> {
    texts.map_values(|t: String| t@)
}

/// A separator between two texts separates their parts.
pub proof fn lemma_split_between(a: Seq<char>, b: Seq<char>, separator: char)
    ensures
        split(a.push(separator) + b, separator) == split(a, separator) + split(b, separator),
        split(b, separator).len() > 0,
    decreases b.len(),
{
    let whole = a.push(separator) + b;
    if b.len() == 0 {
        assert(whole =~= a.push(separator));
        assert(whole.drop_last() =~= a);
        assert(split(whole, separator) =~= split(a, separator) + split(b, separator));
    } else {
        lemma_split_between(a, b.drop_last(), separator);
        assert(whole.drop_last() =~= a.push(separator) + b.drop_last());
        assert(whole.last() == b.last());
        let parts = split(whole.drop_last(), separator);
        let end = split(b.drop_last(), separator);
        assert(parts == split(a, separator) + end);
        assert(split(whole, separator) =~= split(a, separator) + split(b, separator));
    }
}

/// A text that splits into one part is that part.
pub proof fn lemma_split_single(s: Seq<char>, separator: char)
    ensures
        split(s, separator).len() >= 1,
        split(s, separator).len() == 1 ==> split(s, separator) == seq![s],
        !s.contains(separator) ==> split(s, separator).len() == 1,
    decreases s.len(),
{
    if s.len() == 0 {
        assert(s =~= Seq::empty());
    } else {
        let before = s.drop_last();
        lemma_split_single(before, separator);
        if s.last() != separator {
            if split(s, separator).len() == 1 {
                assert(split(s, separator) =~= seq![s]) by {
                    assert(before.push(s.last()) =~= s);
                }
            }
        } else {
            assert(s[s.len() - 1] == separator);
        }
        if !s.contains(separator) {
            assert(!before.contains(separator)) by {
                if before.contains(separator) {
                    let i = choose|i: int| 0 <= i < before.len() && before[i] == separator;
                    assert(s[i] == separator);
                }
            }
            assert(s.last() != separator) by {
                assert(s[s.len() - 1] == s.last());
            }
        }
    }
}

/// Whether a character is missing from a text from `i` on.
pub open spec fn lacks(s: Seq<char>, c: char, i: int) -> bool
    decreases s.len() - i,
{
    i >= s.len() || (s[i] != c && lacks(s, c, i + 1))
}

/// A character that is missing from every place is not in the text.
pub proof fn lemma_lacks(s: Seq<char>, c: char, i: int)
    requires
        lacks(s, c, i),
        0 <= i <= s.len(),
    ensures
        forall|j: int| i <= j < s.len() ==> s[j] != c,
    decreases s.len() - i,
{
    if i < s.len() {
        lemma_lacks(s, c, i + 1);
    }
}

/// Splits a text at each separator.
pub fn split_at_each(chars: &[char], separator: char) -> (parts: Vec<String>)
    ensures
        views(parts@) == split(chars@, separator),
        parts@.len() > 0,
{
    let mut parts: Vec<String> = Vec::new();
    let mut part = String::new();
    let mut i: usize = 0;
    assert(chars@.take(0) =~= Seq::empty());
    assert(views(parts@).push(part@) =~= split(Seq::empty(), separator));
    while i < chars.len()
        invariant
            i <= chars@.len(),
            views(parts@).push(part@) == split(chars@.take(i as int), separator),
        decreases chars.len() - i,
    {
        let ghost before = views(parts@).push(part@);
        assert(chars@.take(i + 1).drop_last() =~= chars@.take(i as int));
        if chars[i] == separator {
            parts.push(part);
            part = String::new();
            assert(views(parts@) =~= before);
            assert(part@ =~= Seq::empty());
        } else {
            part.push(chars[i]);
            assert(before.drop_last() =~= views(parts@));
        }
        i += 1;
    }
    assert(chars@.take(i as int) =~= chars@);
    parts.push(part);
    assert(views(parts@) =~= split(chars@, separator));
    parts
}

/// Whether a text ends with another.
pub open spec fn ends_with(s: Seq<char>, end: Seq<char>) -> bool {
    s.len() >= end.len() && s.skip(s.len() - end.len()) == end
}

/// Whether a text starts with another.
pub open spec fn starts_with(s: Seq<char>, start: Seq<char>) -> bool {
    s.len() >= start.len() && s.take(start.len() as int) == start
}

/// The characters from `from` up to `to`.
pub fn chars_between(chars: &[char], from: usize, to: usize) -> (out: Vec<char>)
    requires
        from <= to <= chars@.len(),
    ensures
        out@ == chars@.subrange(from as int, to as int),
{
    let mut out: Vec<char> = Vec::new();
    let mut i: usize = from;
    while i < to
        invariant
            from <= i <= to <= chars@.len(),
            out@ == chars@.subrange(from as int, i as int),
        decreases to - i,
    {
        out.push(chars[i]);
        i += 1;
        assert(chars@.subrange(from as int, i as int) =~= chars@.subrange(
            from as int,
            i - 1,
        ).push(chars@[i - 1]));
    }
    out
}

/// Whether a text ends with another.
pub fn has_end(chars: &[char], end: &[char]) -> (found: bool)
    ensures
        found == ends_with(chars@, end@),
{
    if chars.len() < end.len() {
        return false;
    }
    let tail = chars_between(chars, chars.len() - end.len(), chars.len());
    assert(tail@ =~= chars@.skip(chars.len() - end.len()));
    matches!(text_order(&tail, end), TextOrder::Same)
}

/// Whether a text starts with another.
pub fn has_start(chars: &[char], start: &[char]) -> (found: bool)
    ensures
        found == starts_with(chars@, start@),
{
    if chars.len() < start.len() {
        return false;
    }
    let head = chars_between(chars, 0, start.len());
    assert(head@ =~= chars@.take(start.len() as int));
    matches!(text_order(&head, start), TextOrder::Same)
}

/// Whether `a` stands before `b` in the order of their characters.
pub open spec fn text_less(a: Seq<char>, b: Seq<char>) -> bool
    decreases a.len(),
{
    if b.len() == 0 {
        false
    } else if a.len() == 0 {
        true
    } else if a[0] != b[0] {
        a[0] < b[0]
    } else {
        text_less(a.skip(1), b.skip(1))
    }
}

/// Nothing stands before itself.
pub proof fn lemma_text_less_irreflexive(a: Seq<char>)
    ensures
        !text_less(a, a),
    decreases a.len(),
{
    if a.len() > 0 {
        lemma_text_less_irreflexive(a.skip(1));
    }
}

/// The order of texts is transitive.
pub proof fn lemma_text_less_transitive(a: Seq<char>, b: Seq<char>, c: Seq<char>)
    requires
        text_less(a, b),
        text_less(b, c),
    ensures
        text_less(a, c),
    decreases a.len(),
{
    if a.len() > 0 && a[0] == b[0] && b[0] == c[0] {
        lemma_text_less_transitive(a.skip(1), b.skip(1), c.skip(1));
    }
}

/// How two texts stand to each other.
#[derive(Debug, Clone, Copy, PartialEq, Eq, Structural)]
pub enum TextOrder {
    Less,
    Same,
    Greater,
}

/// Compares two texts.
pub fn text_order(a: &[char], b: &[char]) -> (order: TextOrder)
    ensures
        match order {
            TextOrder::Less => text_less(a@, b@) && a@ != b@,
            TextOrder::Same => a@ == b@,
            TextOrder::Greater => text_less(b@, a@) && a@ != b@,
        },
{
    proof {
        lemma_text_less_irreflexive(a@);
    }
    let mut i: usize = 0;
    assert(a@.skip(0) =~= a@ && b@.skip(0) =~= b@);
    while i < a.len() && i < b.len()
        invariant
            i <= a.len(),
            i <= b.len(),
            a@.take(i as int) =~= b@.take(i as int),
            text_less(a@, b@) == text_less(a@.skip(i as int), b@.skip(i as int)),
            text_less(b@, a@) == text_less(b@.skip(i as int), a@.skip(i as int)),
        decreases a.len() - i,
    {
        if a[i] < b[i] {
            return TextOrder::Less;
        }
        if b[i] < a[i] {
            return TextOrder::Greater;
        }
        assert(a@.skip(i as int).skip(1) =~= a@.skip(i + 1));
        assert(b@.skip(i as int).skip(1) =~= b@.skip(i + 1));
        i += 1;
        assert(a@.take(i as int) =~= a@.take(i - 1).push(a@[i - 1]));
        assert(b@.take(i as int) =~= b@.take(i - 1).push(b@[i - 1]));
    }
    if i < b.len() {
        TextOrder::Less
    } else if i < a.len() {
        TextOrder::Greater
    } else {
        assert(a@.take(i as int) =~= a@);
        assert(b@.take(i as int) =~= b@);
        TextOrder::Same
    }
}

/// The parts with a separator between each two.
pub open spec fn joined(parts: Seq<Seq<char>>, separator: char) -> Seq<char>
    decreases parts.len(),
{
    if parts.len() == 0 {
        Seq::empty()
    } else if parts.len() == 1 {
        parts[0]
    } else {
        joined(parts.drop_last(), separator).push(separator) + parts.last()
    }
}

/// The parts of a text hold no separator, and with separators between them they make up the text.
pub proof fn law_parts_make_up_the_text(s: Seq<char>, separator: char)
    ensures
        split(s, separator).len() > 0,
        joined(split(s, separator), separator) == s,
        forall|i: int|
            0 <= i < split(s, separator).len() ==> !(#[trigger] split(s, separator)[i]).contains(
                separator,
            ),
    decreases s.len(),
{
    let parts = split(s, separator);
    if s.len() == 0 {
        assert(joined(parts, separator) =~= s);
    } else {
        let head = s.drop_last();
        let before = split(head, separator);
        law_parts_make_up_the_text(head, separator);
        assert(head.push(s.last()) =~= s);
        if s.last() == separator {
            assert(parts.drop_last() =~= before);
            assert(joined(parts, separator) =~= s);
            assert forall|i: int| 0 <= i < parts.len() implies !(#[trigger] parts[i]).contains(
                separator,
            ) by {
                if i < before.len() {
                    assert(parts[i] == before[i]);
                }
            }
        } else {
            assert(parts.drop_last() =~= before.drop_last());
            assert(joined(parts, separator) =~= joined(before, separator).push(s.last()));
            assert forall|i: int| 0 <= i < parts.len() implies !(#[trigger] parts[i]).contains(
                separator,
            ) by {
                if i < before.len() - 1 {
                    assert(parts[i] == before[i]);
                } else {
                    let part = before[before.len() - 1];
                    assert(!part.contains(separator));
                    if parts[i].contains(separator) {
                        let j = choose|j: int| 0 <= j < parts[i].len() && parts[i][j] == separator;
                        assert(part[j] == separator);
                    }
                }
            }
        }
    }
}

/// A text stands before another if and only if it is a part of it from the start, or has the smaller
/// character at the first place where they differ.
pub proof fn law_texts_are_ordered_by_their_first_difference(a: Seq<char>, b: Seq<char>, n: int)
    requires
        0 <= n <= a.len(),
        n <= b.len(),
        a.take(n) == b.take(n),
    ensures
        n < a.len() && n < b.len() && a[n] < b[n] ==> text_less(a, b) && !text_less(b, a),
        n == a.len() && n < b.len() ==> text_less(a, b) && !text_less(b, a),
        n == a.len() && n == b.len() ==> a == b && !text_less(a, b),
    decreases n,
{
    if n > 0 {
        assert(a[0] == a.take(n)[0] && b[0] == b.take(n)[0]);
        assert(n < a.len() ==> a.skip(1)[n - 1] == a[n]);
        assert(n < b.len() ==> b.skip(1)[n - 1] == b[n]);
        assert(a.skip(1).take(n - 1) =~= a.take(n).skip(1));
        assert(b.skip(1).take(n - 1) =~= b.take(n).skip(1));
        law_texts_are_ordered_by_their_first_difference(a.skip(1), b.skip(1), n - 1);
    }
    if n == a.len() && n == b.len() {
        assert(a =~= a.take(n));
        assert(b =~= b.take(n));
        lemma_text_less_irreflexive(a);
    }
}

/// A text ends, or starts, with another if and only if it is something before, or behind, the other.
pub proof fn law_ends_and_starts(s: Seq<char>, rest: Seq<char>)
    ensures
        ends_with(rest + s, s),
        starts_with(s + rest, s),
        ends_with(s, rest) ==> s == s.take(s.len() - rest.len()) + rest,
        starts_with(s, rest) ==> s == rest + s.skip(rest.len() as int),
{
    assert((rest + s).skip(rest.len() as int) =~= s);
    assert((s + rest).take(s.len() as int) =~= s);
    if ends_with(s, rest) {
        let n = s.len() - rest.len();
        assert(s =~= s.take(n) + s.skip(n));
    }
    if starts_with(s, rest) {
        let n = rest.len() as int;
        assert(s =~= s.take(n) + s.skip(n));
    }
}

} // verus!
