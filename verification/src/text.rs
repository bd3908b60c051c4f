//! Text as sequences of characters: cutting a string at a separator and putting the pieces
//! back together.

use vstd::prelude::*;
use vstd::string::*;
use vstd::std_specs::iter::IteratorSpec;

verus! {

/// `String::push` of the standard library: the character is appended, and nothing else of the
/// string changes.
pub assume_specification[ String::push ](s: &mut String, c: char)
    ensures
        final(s)@ == old(s)@.push(c),
;

/// The views of the items of `items`, in the same order.
pub open spec fn views<T: View>(items: Seq<T>) -> Seq<T::V> {
    items.map_values(|item: T| item@)
}

/// The pieces of `text` between occurrences of `sep`. There is always one piece more than
/// there are separators, so the empty text has one empty piece.
pub open spec fn pieces(text: Seq<char>, sep: char) -> Seq<Seq<char>>
    decreases text.len(),
{
    if text.len() == 0 {
        seq![Seq::<char>::empty()]
    } else {
        let before = pieces(text.drop_last(), sep);
        if text.last() == sep {
            before.push(Seq::<char>::empty())
        } else {
            before.drop_last().push(before.last().push(text.last()))
        }
    }
}

/// `parts` written one after another with `sep` between neighbours.
pub open spec fn joined(parts: Seq<Seq<char>>, sep: char) -> Seq<char>
    decreases parts.len(),
{
    if parts.len() == 0 {
        Seq::<char>::empty()
    } else if parts.len() == 1 {
        parts[0]
    } else {
        joined(parts.drop_last(), sep) + seq![sep] + parts.last()
    }
}

/// Cutting never yields an empty list of pieces.
pub proof fn lemma_pieces_nonempty(text: Seq<char>, sep: char)
    ensures
        pieces(text, sep).len() >= 1,
    decreases text.len(),
{
    if text.len() > 0 {
        lemma_pieces_nonempty(text.drop_last(), sep);
    }
}

/// No piece contains the separator.
pub proof fn lemma_pieces_hold_no_separator(text: Seq<char>, sep: char)
    ensures
        forall|i: int, j: int|
            0 <= i < pieces(text, sep).len() && 0 <= j < pieces(text, sep)[i].len()
                ==> pieces(text, sep)[i][j] != sep,
    decreases text.len(),
{
    if text.len() > 0 {
        lemma_pieces_nonempty(text.drop_last(), sep);
        lemma_pieces_hold_no_separator(text.drop_last(), sep);
    }
}

/// Joining the pieces of a text with the separator gives the text back.
pub proof fn lemma_joined_pieces(text: Seq<char>, sep: char)
    ensures
        joined(pieces(text, sep), sep) == text,
    decreases text.len(),
{
    if text.len() > 0 {
        let shorter = text.drop_last();
        let before = pieces(shorter, sep);
        lemma_pieces_nonempty(shorter, sep);
        lemma_joined_pieces(shorter, sep);
        assert(text == shorter.push(text.last()));
        if text.last() == sep {
            let all = before.push(Seq::<char>::empty());
            assert(all.drop_last() == before);
            if before.len() == 1 {
                assert(joined(before, sep) == before[0]);
            }
            assert(joined(all, sep) == joined(before, sep) + seq![sep] + Seq::<char>::empty());
            assert(joined(all, sep) == text);
        } else {
            let grown = before.last().push(text.last());
            let all = before.drop_last().push(grown);
            if before.len() == 1 {
                assert(all[0] == grown);
                assert(joined(before, sep) == before[0]);
                assert(joined(all, sep) == text);
            } else {
                assert(all.drop_last() == before.drop_last());
                assert(joined(before, sep) == joined(before.drop_last(), sep) + seq![sep]
                    + before.last());
                assert(joined(all, sep) == joined(before.drop_last(), sep) + seq![sep] + grown);
                assert(joined(all, sep) == text);
            }
        }
    }
}

/// Text without a separator, written after a text, lengthens the last piece of that text.
pub proof fn lemma_pieces_append(text: Seq<char>, more: Seq<char>, sep: char)
    requires
        !more.contains(sep),
    ensures
        pieces(text, sep).len() >= 1,
        pieces(text + more, sep) == pieces(text, sep).drop_last().push(
            pieces(text, sep).last() + more,
        ),
    decreases more.len(),
{
    lemma_pieces_nonempty(text, sep);
    let before = pieces(text, sep);
    if more.len() == 0 {
        assert(text + more == text);
        assert(before.last() + more == before.last());
        assert(before.drop_last().push(before.last()) == before);
    } else {
        let shorter = more.drop_last();
        assert(!shorter.contains(sep)) by {
            if shorter.contains(sep) {
                let k = choose|k: int| 0 <= k < shorter.len() && shorter[k] == sep;
                assert(more[k] == sep);
            }
        }
        lemma_pieces_append(text, shorter, sep);
        let whole = text + more;
        assert(whole.drop_last() == text + shorter);
        assert(whole.last() == more.last());
        assert(more.last() != sep) by {
            assert(more[more.len() - 1] == more.last());
        }
        let so_far = pieces(text + shorter, sep);
        assert(so_far.last() == before.last() + shorter);
        assert(so_far.drop_last() == before.drop_last());
        assert((before.last() + shorter).push(more.last()) == before.last() + more) by {
            assert(shorter.push(more.last()) == more);
        }
    }
}

/// Cutting what was joined gives the parts back, provided that there is a part and that no
/// part holds the separator.
pub proof fn lemma_pieces_of_joined(parts: Seq<Seq<char>>, sep: char)
    requires
        parts.len() >= 1,
        forall|i: int| 0 <= i < parts.len() ==> !(#[trigger] parts[i]).contains(sep),
    ensures
        pieces(joined(parts, sep), sep) == parts,
    decreases parts.len(),
{
    let empty = Seq::<char>::empty();
    if parts.len() == 1 {
        lemma_pieces_append(empty, parts[0], sep);
        assert(empty + parts[0] == parts[0]);
        assert(pieces(empty, sep) == seq![empty]);
        assert(seq![empty].drop_last().push(empty + parts[0]) == parts);
    } else {
        let init = parts.drop_last();
        assert forall|i: int| 0 <= i < init.len() implies !(#[trigger] init[i]).contains(sep) by {
            assert(init[i] == parts[i]);
        }
        lemma_pieces_of_joined(init, sep);
        let head = joined(init, sep) + seq![sep];
        assert(head.drop_last() == joined(init, sep));
        assert(pieces(head, sep) == init.push(empty));
        lemma_pieces_append(head, parts.last(), sep);
        assert(init.push(empty).drop_last() == init);
        assert(empty + parts.last() == parts.last());
        assert(init.push(parts.last()) == parts);
    }
}

/// Every character of every piece of a text is a character of the text.
pub proof fn lemma_pieces_hold_only_given(text: Seq<char>, sep: char)
    ensures
        forall|i: int, j: int|
            0 <= i < pieces(text, sep).len() && 0 <= j < pieces(text, sep)[i].len() ==> text.contains(
                #[trigger] pieces(text, sep)[i][j],
            ),
    decreases text.len(),
{
    if text.len() > 0 {
        let shorter = text.drop_last();
        let before = pieces(shorter, sep);
        lemma_pieces_nonempty(shorter, sep);
        lemma_pieces_hold_only_given(shorter, sep);
        let all = pieces(text, sep);
        assert forall|i: int, j: int| 0 <= i < all.len() && 0 <= j < all[i].len() implies text.contains(
            #[trigger] all[i][j],
        ) by {
            if text.last() != sep && i == all.len() - 1 && j == all[i].len() - 1 {
                assert(text[text.len() - 1] == all[i][j]);
            } else {
                assert(shorter.contains(before[i][j]));
                let k = choose|k: int| 0 <= k < shorter.len() && shorter[k] == before[i][j];
                assert(text[k] == all[i][j]);
            }
        }
    }
}

/// A character that a text does not hold is in none of its pieces.
pub proof fn lemma_pieces_avoid(text: Seq<char>, sep: char, c: char)
    requires
        !text.contains(c),
    ensures
        forall|i: int| 0 <= i < pieces(text, sep).len() ==> !(#[trigger] pieces(text, sep)[i]).contains(c),
{
    lemma_pieces_hold_only_given(text, sep);
    let all = pieces(text, sep);
    assert forall|i: int| 0 <= i < all.len() implies !(#[trigger] all[i]).contains(c) by {
        if all[i].contains(c) {
            let j = choose|j: int| 0 <= j < all[i].len() && all[i][j] == c;
            assert(text.contains(all[i][j]));
        }
    }
}

/// A character that is in none of the parts, and is not the separator, is not in what they
/// are joined to.
pub proof fn lemma_joined_avoids(parts: Seq<Seq<char>>, sep: char, c: char)
    requires
        c != sep,
        forall|i: int| 0 <= i < parts.len() ==> !(#[trigger] parts[i]).contains(c),
    ensures
        !joined(parts, sep).contains(c),
    decreases parts.len(),
{
    if parts.len() == 1 {
        assert(!parts[0].contains(c));
    } else if parts.len() >= 2 {
        let init = parts.drop_last();
        assert forall|i: int| 0 <= i < init.len() implies !(#[trigger] init[i]).contains(c) by {
            assert(init[i] == parts[i]);
        }
        lemma_joined_avoids(init, sep, c);
        let whole = joined(parts, sep);
        let head = joined(init, sep);
        assert(!parts[parts.len() - 1].contains(c));
        if whole.contains(c) {
            let k = choose|k: int| 0 <= k < whole.len() && whole[k] == c;
            if k < head.len() {
                assert(head[k] == c);
            } else if k > head.len() {
                assert(parts.last()[k - head.len() - 1] == c);
            }
        }
    }
}

/// The characters of `s`, one by one.
pub fn to_chars(s: &str) -> (chars: Vec<char>)
    ensures
        chars@ == s@,
{
    broadcast use vstd::string::group_string_axioms;

    let mut chars: Vec<char> = Vec::new();
    let source = s.chars();
    for c in it: source
        invariant
            it.seq() == s@,
            chars@ == s@.take(it.index()),
    {
        chars.push(c);
    }
    chars
}

/// Whether `a` and `b` hold the same characters.
pub fn same(a: &str, b: &str) -> (r: bool)
    ensures
        r == (a@ == b@),
{
    broadcast use vstd::string::group_string_axioms;

    let mut left = a.chars();
    let mut right = b.chars();
    let ghost mut k: int = 0;
    loop
        invariant
            0 <= k <= a@.len(),
            k <= b@.len(),
            left.obeys_prophetic_iter_laws(),
            right.obeys_prophetic_iter_laws(),
            left.decrease() is Some,
            left.remaining() == a@.skip(k),
            right.remaining() == b@.skip(k),
            a@.take(k) == b@.take(k),
        decreases left.decrease()->0,
    {
        let x = left.next();
        let y = right.next();
        match (x, y) {
            (Some(c), Some(d)) => {
                if c != d {
                    assert(a@[k] != b@[k]);
                    return false;
                }
                proof {
                    assert(a@.skip(k).drop_first() == a@.skip(k + 1));
                    assert(b@.skip(k).drop_first() == b@.skip(k + 1));
                    assert(a@.take(k + 1) == a@.take(k).push(c));
                    assert(b@.take(k + 1) == b@.take(k).push(d));
                    k = k + 1;
                }
            },
            (None, None) => {
                proof {
                    assert(a@.take(k) == a@);
                    assert(b@.take(k) == b@);
                }
                return true;
            },
            _ => {
                assert(a@.len() != b@.len());
                return false;
            },
        }
    }
}

/// The string made of the characters `chars[from..to]`.
pub(crate) fn from_chars(chars: &Vec<char>, from: usize, to: usize) -> (s: String)
    requires
        from <= to <= chars.len(),
    ensures
        s@ == chars@.subrange(from as int, to as int),
{
    let mut s = String::new();
    let mut i: usize = from;
    while i < to
        invariant
            from <= i <= to <= chars.len(),
            s@ == chars@.subrange(from as int, i as int),
        decreases to - i,
    {
        s.push(chars[i]);
        i += 1;
    }
    s
}

/// Cuts `chars[from..]` at every `sep`.
pub(crate) fn split_chars(chars: &Vec<char>, from: usize, sep: char) -> (parts: Vec<String>)
    requires
        from <= chars.len(),
    ensures
        views(parts@) == pieces(chars@.skip(from as int), sep),
{
    let ghost text = chars@.skip(from as int);
    let mut parts: Vec<String> = Vec::new();
    let mut current = String::new();
    let mut i: usize = from;
    while i < chars.len()
        invariant
            from <= i <= chars.len(),
            text == chars@.skip(from as int),
            views(parts@).push(current@) == pieces(text.take(i - from), sep),
        decreases chars.len() - i,
    {
        let c = chars[i];
        proof {
            let seen = text.take(i - from + 1);
            assert(seen.drop_last() == text.take(i - from));
            assert(seen.last() == c);
        }
        if c == sep {
            let ghost before = views(parts@);
            parts.push(current);
            assert(views(parts@) == before.push(current@));
            current = String::new();
        } else {
            let ghost before = views(parts@).push(current@);
            current.push(c);
            assert(views(parts@).push(current@) == before.drop_last().push(before.last().push(c)));
        }
        i += 1;
    }
    proof {
        assert(text.take(i - from) == text);
    }
    let ghost before = views(parts@);
    parts.push(current);
    assert(views(parts@) == before.push(current@));
    parts
}

/// Cuts `text` at every `sep`.
pub fn split(text: &str, sep: char) -> (parts: Vec<String>)
    ensures
        views(parts@) == pieces(text@, sep),
{
    let chars = to_chars(text);
    assert(chars@.skip(0) == chars@);
    split_chars(&chars, 0, sep)
}

/// Writes `parts[from..]` one after another with `sep` between neighbours.
pub(crate) fn join_from(parts: &Vec<String>, from: usize, sep: char) -> (text: String)
    requires
        from <= parts.len(),
    ensures
        text@ == joined(views(parts@).skip(from as int), sep),
{
    let mut text = String::new();
    let mut i: usize = from;
    while i < parts.len()
        invariant
            from <= i <= parts.len(),
            text@ == joined(views(parts@).subrange(from as int, i as int), sep),
        decreases parts.len() - i,
    {
        let ghost done = views(parts@).subrange(from as int, i as int);
        let ghost next = views(parts@).subrange(from as int, i + 1);
        proof {
            assert(next.drop_last() == done);
            assert(next.last() == parts@[i as int]@);
        }
        if i > from {
            text.push(sep);
        }
        text.append(parts[i].as_str());
        i += 1;
    }
    proof {
        assert(views(parts@).subrange(from as int, parts.len() as int) == views(parts@).skip(
            from as int,
        ));
    }
    text
}

/// Writes `parts` one after another with `sep` between neighbours.
pub fn join(parts: &Vec<String>, sep: char) -> (text: String)
    ensures
        text@ == joined(views(parts@), sep),
{
    assert(views(parts@).skip(0) == views(parts@));
    join_from(parts, 0, sep)
}

} // verus!
