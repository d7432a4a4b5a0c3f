//! Texts without regard to ASCII case, and the pieces of texts.

use vstd::prelude::*;

use crate::text::{self, chars_of, push_char, same_text, text_of};

verus! {

// ===== ASCII case =====

/// A character with its ASCII case taken away.
pub open spec fn fold_char(c: char) -> char {
    if 'A' as int <= c as int <= 'Z' as int {
        (c as int + 32) as char
    } else {
        c
    }
}

/// A text with its ASCII case taken away.
pub open spec fn fold(text: Seq<char>) -> Seq<char> {
    text.map_values(|c: char| fold_char(c))
}

/// Whether two texts are the same without regard to ASCII case.
pub open spec fn same_fold(a: Seq<char>, b: Seq<char>) -> bool {
    fold(a) == fold(b)
}

/// A character with its ASCII case taken away.
fn folded_char(c: char) -> (folded: char)
    ensures
        folded == fold_char(c),
{
    if c >= 'A' && c <= 'Z' {
        ((c as u8) + 32u8) as char
    } else {
        c
    }
}

/// A text with its ASCII case taken away.
pub fn folded(text: &str) -> (lower: String)
    ensures
        lower@ == fold(text@),
{
    let chars = chars_of(text);
    let mut lower = String::new();
    assert(lower@ =~= fold(chars@.take(0)));
    for i in 0..chars.len()
        invariant
            lower@ == fold(chars@.take(i as int)),
    {
        push_char(&mut lower, folded_char(chars[i]));
        assert(lower@ =~= fold(chars@.take(i + 1)));
    }
    assert(chars@.take(chars.len() as int) =~= chars@);
    lower
}

/// Whether two texts are the same without regard to ASCII case.
pub fn same_folded(a: &str, b: &str) -> (same: bool)
    ensures
        same == same_fold(a@, b@),
{
    let a = folded(a);
    let b = folded(b);
    same_text(&a, &b)
}

// ===== Pieces =====

/// The pieces of a text between the occurrences of a character.
pub open spec fn split(text: Seq<char>, mark: char) -> Seq<Seq<char>>
    decreases text.len(),
{
    if text.len() == 0 {
        seq![Seq::empty()]
    } else {
        let before = split(text.drop_last(), mark);
        if text.last() == mark {
            before.push(Seq::empty())
        } else {
            before.drop_last().push(before.last().push(text.last()))
        }
    }
}

/// There is always a piece.
pub proof fn lemma_split(text: Seq<char>, mark: char)
    ensures
        split(text, mark).len() >= 1,
    decreases text.len(),
{
    if text.len() > 0 {
        lemma_split(text.drop_last(), mark);
    }
}

/// The pieces of a text between the occurrences of a character.
pub fn split_at(text: &str, mark: char) -> (pieces: Vec<String>)
    ensures
        text::texts(pieces@) == split(text@, mark),
{
    let chars = chars_of(text);
    let mut pieces: Vec<String> = Vec::new();
    let mut piece = String::new();
    assert(text::texts(pieces@).push(piece@) =~= split(chars@.take(0), mark));
    for i in 0..chars.len()
        invariant
            text::texts(pieces@).push(piece@) == split(chars@.take(i as int), mark),
    {
        let c = chars[i];
        let ghost so_far = chars@.take(i + 1);
        assert(so_far.drop_last() =~= chars@.take(i as int));
        let ghost before = text::texts(pieces@);
        assert(before.push(piece@).drop_last() =~= before);
        if c == mark {
            let ghost last = piece@;
            pieces.push(piece);
            assert(text::texts(pieces@) =~= before.push(last));
            piece = String::new();
            assert(piece@ =~= Seq::empty());
        } else {
            push_char(&mut piece, c);
        }
    }
    assert(chars@.take(chars.len() as int) =~= chars@);
    let ghost before = text::texts(pieces@);
    let ghost last = piece@;
    pieces.push(piece);
    assert(text::texts(pieces@) =~= before.push(last));
    pieces
}

/// What precedes the first occurrence of a character: the whole text, if there is
/// none.
pub fn before_mark(text: &str, mark: char) -> (start: String)
    ensures
        start@ == split(text@, mark)[0],
{
    let mut pieces = split_at(text, mark);
    proof {
        lemma_split(text@, mark);
    }
    assert(text::texts(pieces@)[0] == pieces@[0]@);
    pieces.remove(0)
}

/// Whether a text starts with another.
pub open spec fn has_prefix(text: Seq<char>, prefix: Seq<char>) -> bool {
    prefix.len() <= text.len() && text.take(prefix.len() as int) == prefix
}

/// What follows a prefix, if the text has it.
pub open spec fn after_prefix(text: Seq<char>, prefix: Seq<char>) -> Option<Seq<char>> {
    if has_prefix(text, prefix) {
        Some(text.skip(prefix.len() as int))
    } else {
        None
    }
}

/// Whether the characters of `part` stand in `whole` from `at` on.
fn stands_at(whole: &Vec<char>, part: &Vec<char>, at: usize) -> (found: bool)
    requires
        at + part.len() <= whole.len(),
    ensures
        found == (whole@.subrange(at as int, at + part.len()) == part@),
{
    for i in 0..part.len()
        invariant
            at + part.len() <= whole.len(),
            forall|k: int| 0 <= k < i ==> whole@[at + k] == part@[k],
    {
        if whole[at + i] != part[i] {
            assert(whole@.subrange(at as int, at + part.len())[i as int] == whole@[at + i]);
            return false;
        }
    }
    assert(whole@.subrange(at as int, at + part.len()) =~= part@);
    true
}

/// What follows a prefix, if the text has it.
pub fn strip_prefix(text: &str, prefix: &str) -> (rest: Option<String>)
    ensures
        text::opt_text(rest) == after_prefix(text@, prefix@),
{
    let chars = chars_of(text);
    let start = chars_of(prefix);
    if start.len() <= chars.len() {
        assert(chars@.subrange(0, start@.len() as int) =~= chars@.take(start@.len() as int));
        if stands_at(&chars, &start, 0) {
            let rest = text_of(&chars, start.len(), chars.len());
            assert(rest@ =~= text@.skip(prefix@.len() as int));
            return Some(rest);
        }
    }
    None
}

/// Whether a part stands in a text at a place.
pub open spec fn occurs_at(text: Seq<char>, part: Seq<char>, at: int) -> bool {
    0 <= at && at + part.len() <= text.len() && text.subrange(at, at + part.len()) == part
}

/// Whether a part stands in a text.
pub open spec fn occurs(text: Seq<char>, part: Seq<char>) -> bool {
    exists|at: int| occurs_at(text, part, at)
}

/// Whether a part stands in a text.
pub fn contains_text(text: &str, part: &str) -> (found: bool)
    ensures
        found == occurs(text@, part@),
{
    let whole = chars_of(text);
    let part_chars = chars_of(part);
    if part_chars.len() > whole.len() {
        return false;
    }
    let last: usize = whole.len() - part_chars.len();
    let mut at: usize = 0;
    while at <= last
        invariant
            at <= last + 1,
            last == whole.len() - part_chars.len(),
            whole@ == text@,
            part_chars@ == part@,
            forall|k: int| 0 <= k < at ==> !#[trigger] occurs_at(text@, part@, k),
        decreases last + 1 - at,
    {
        if stands_at(&whole, &part_chars, at) {
            assert(occurs_at(text@, part@, at as int));
            return true;
        }
        if at == last {
            assert forall|k: int| !occurs_at(text@, part@, k) by {}
            return false;
        }
        at = at + 1;
    }
    false
}

// ===== Lines =====

/// A line without the carriage return before its end.
pub open spec fn without_return(line: Seq<char>) -> Seq<char> {
    if line.len() > 0 && line.last() == '\r' {
        line.drop_last()
    } else {
        line
    }
}

/// The lines of a text, as `str::lines` has them: each ends with a line feed, or a
/// carriage return and a line feed. The last need not end.
pub open spec fn lines(text: Seq<char>) -> Seq<Seq<char>> {
    let pieces = split(text, '\n');
    let ended = pieces.drop_last().map_values(|line: Seq<char>| without_return(line));
    if pieces.last().len() == 0 {
        ended
    } else {
        ended.push(pieces.last())
    }
}

/// A line without the carriage return before its end.
fn cut_return(line: &str) -> (cut: String)
    ensures
        cut@ == without_return(line@),
{
    let chars = chars_of(line);
    let count: usize = chars.len();
    if count > 0 && chars[count - 1] == '\r' {
        let cut = text_of(&chars, 0, count - 1);
        assert(cut@ =~= line@.drop_last());
        cut
    } else {
        line.to_owned()
    }
}

/// The lines of a text.
pub fn lines_of(text: &str) -> (found: Vec<String>)
    ensures
        text::texts(found@) == lines(text@),
{
    let pieces = split_at(text, '\n');
    let ghost all = text::texts(pieces@);
    proof {
        lemma_split(text@, '\n');
    }
    let last: usize = pieces.len() - 1;
    let mut found: Vec<String> = Vec::new();
    assert(text::texts(found@) =~= all.take(0).map_values(|line: Seq<char>| without_return(line)));
    for i in 0..last
        invariant
            all == text::texts(pieces@),
            last == pieces.len() - 1,
            text::texts(found@) == all.take(i as int).map_values(
                |line: Seq<char>| without_return(line),
            ),
    {
        let ghost before = text::texts(found@);
        assert(all[i as int] == pieces@[i as int]@);
        found.push(cut_return(&pieces[i]));
        assert(text::texts(found@) =~= before.push(without_return(all[i as int])));
        assert(text::texts(found@) =~= all.take(i + 1).map_values(
            |line: Seq<char>| without_return(line),
        ));
    }
    assert(all.take(last as int) =~= all.drop_last());
    assert(all.last() == pieces@[last as int]@);
    if !text::is_empty_text(&pieces[last]) {
        let ghost before = text::texts(found@);
        found.push(pieces[last].clone());
        assert(text::texts(found@) =~= before.push(all.last()));
    }
    found
}

/// Texts with another between them.
pub open spec fn joined(pieces: Seq<Seq<char>>, between: Seq<char>) -> Seq<char>
    decreases pieces.len(),
{
    if pieces.len() == 0 {
        Seq::empty()
    } else if pieces.len() == 1 {
        pieces[0]
    } else {
        joined(pieces.drop_last(), between) + between + pieces.last()
    }
}

/// The first `count` texts of a list with another between them.
pub fn join_texts(pieces: &Vec<String>, count: usize, between: &str) -> (whole: String)
    requires
        count <= pieces.len(),
    ensures
        whole@ == joined(text::texts(pieces@).take(count as int), between@),
{
    let ghost all = text::texts(pieces@);
    let mut whole = String::new();
    assert(whole@ =~= Seq::empty());
    for i in 0..count
        invariant
            count <= pieces.len(),
            all == text::texts(pieces@),
            whole@ == joined(all.take(i as int), between@),
    {
        assert(all.take(i + 1).drop_last() =~= all.take(i as int));
        assert(all.take(i + 1).last() == pieces@[i as int]@);
        if i > 0 {
            whole.append(between);
        }
        whole.append(&pieces[i]);
        if i == 0 {
            assert(whole@ =~= pieces@[0]@);
        }
    }
    whole
}

} // verus!
