//! Paths into the published state.
//!
//! A path is a list of keys. It is written with dots between the keys; a key that is
//! no identifier is written in quotation marks within brackets, without a dot before
//! them.

use vstd::prelude::*;

use crate::text::{self, chars_of, is_empty_text, push_char, trim};
use crate::words::{self, same_folded};

verus! {

/// Whether a character can start an identifier.
pub open spec fn starts_name(c: char) -> bool {
    ||| 'a' as int <= c as int <= 'z' as int
    ||| 'A' as int <= c as int <= 'Z' as int
    ||| c == '_'
}

/// Whether a character can stand in an identifier.
pub open spec fn in_name(c: char) -> bool {
    starts_name(c) || '0' as int <= c as int <= '9' as int
}

/// Whether a text is an identifier.
pub open spec fn is_name(text: Seq<char>) -> bool {
    &&& text.len() > 0
    &&& starts_name(text[0])
    &&& forall|i: int| 0 <= i < text.len() ==> #[trigger] in_name(text[i])
}

/// Whether a character can stand in an identifier.
fn name_char(c: char) -> (r: bool)
    ensures
        r == in_name(c),
{
    (c >= 'a' && c <= 'z') || (c >= 'A' && c <= 'Z') || c == '_' || (c >= '0' && c <= '9')
}

/// Whether a text is an identifier.
pub fn is_identifier(text: &str) -> (r: bool)
    ensures
        r == is_name(text@),
{
    let chars = chars_of(text);
    if chars.len() == 0 || !name_char(chars[0]) || (chars[0] >= '0' && chars[0] <= '9') {
        return false;
    }
    for i in 0..chars.len()
        invariant
            chars@ == text@,
            forall|k: int| 0 <= k < i ==> #[trigger] in_name(chars@[k]),
    {
        if !name_char(chars[i]) {
            assert(!in_name(text@[i as int]));
            return false;
        }
    }
    true
}

/// How many characters of an identifier a text starts with.
pub open spec fn name_length(text: Seq<char>) -> nat
    decreases text.len(),
{
    if text.len() > 0 && in_name(text[0]) {
        1 + name_length(text.skip(1))
    } else {
        0
    }
}

/// The quoted characters up to the closing mark, and what follows it. A backslash
/// stands before a mark or a backslash within.
pub open spec fn unquoted(text: Seq<char>) -> Option<(Seq<char>, Seq<char>)>
    decreases text.len(),
{
    if text.len() == 0 {
        None
    } else if text[0] == '"' {
        Some((Seq::empty(), text.skip(1)))
    } else if text[0] == '\\' {
        if text.len() > 1 && (text[1] == '"' || text[1] == '\\') {
            match unquoted(text.skip(2)) {
                Some((key, rest)) => Some((seq![text[1]] + key, rest)),
                None => None,
            }
        } else {
            None
        }
    } else {
        match unquoted(text.skip(1)) {
            Some((key, rest)) => Some((seq![text[0]] + key, rest)),
            None => None,
        }
    }
}

/// The key a text starts with, and what follows it.
pub open spec fn first_key(text: Seq<char>) -> Option<(Seq<char>, Seq<char>)> {
    if text.len() > 0 && text[0] == '[' {
        if text.len() > 1 && text[1] == '"' {
            match unquoted(text.skip(2)) {
                Some((key, rest)) => if key.len() > 0 && rest.len() > 0 && rest[0] == ']' {
                    Some((key, rest.skip(1)))
                } else {
                    None
                },
                None => None,
            }
        } else {
            None
        }
    } else {
        let length = name_length(text) as int;
        if is_name(text.take(length)) {
            Some((text.take(length), text.skip(length)))
        } else {
            None
        }
    }
}

/// The keys of a text after the first: each follows a dot or is in brackets.
pub open spec fn later_keys(text: Seq<char>) -> Option<Seq<Seq<char>>>
    decreases text.len(), 1int,
{
    if text.len() == 0 {
        Some(Seq::empty())
    } else if text[0] == '.' && text.len() > 1 && text[1] != '[' {
        keys(text.skip(1))
    } else if text[0] == '[' {
        keys(text)
    } else {
        None
    }
}

/// The keys of a text that is not empty.
pub open spec fn keys(text: Seq<char>) -> Option<Seq<Seq<char>>>
    decreases text.len(), 0int,
{
    match first_key(text) {
        Some((key, rest)) => if rest.len() < text.len() {
            match later_keys(rest) {
                Some(more) => Some(seq![key] + more),
                None => None,
            }
        } else {
            None
        },
        None => None,
    }
}

/// The keys that a text spells: none for the empty text.
pub open spec fn path_of(text: Seq<char>) -> Option<Seq<Seq<char>>> {
    if text.len() == 0 {
        Some(Seq::empty())
    } else {
        keys(text)
    }
}

/// A key as it stands in quotation marks.
pub open spec fn escaped(key: Seq<char>) -> Seq<char>
    decreases key.len(),
{
    if key.len() == 0 {
        Seq::empty()
    } else if key[0] == '"' || key[0] == '\\' {
        seq!['\\', key[0]] + escaped(key.skip(1))
    } else {
        seq![key[0]] + escaped(key.skip(1))
    }
}

/// A key as it is written.
pub open spec fn spelled_key(key: Seq<char>) -> Seq<char> {
    if is_name(key) {
        key
    } else {
        seq!['[', '"'] + escaped(key) + seq!['"', ']']
    }
}

/// Keys after the first as they are written.
pub open spec fn spelled_later(path: Seq<Seq<char>>) -> Seq<char>
    decreases path.len(),
{
    if path.len() == 0 {
        Seq::empty()
    } else if is_name(path[0]) {
        seq!['.'] + path[0] + spelled_later(path.skip(1))
    } else {
        spelled_key(path[0]) + spelled_later(path.skip(1))
    }
}

/// A path as it is written.
pub open spec fn spelled(path: Seq<Seq<char>>) -> Seq<char> {
    if path.len() == 0 {
        Seq::empty()
    } else {
        spelled_key(path[0]) + spelled_later(path.skip(1))
    }
}

/// A path into the published state.
pub struct StorePath {
    pub segments: Vec<String>,
}

impl View for StorePath {
    type V = Seq<Seq<char>>;

    open spec fn view(&self) -> Seq<Seq<char>> {
        text::texts(self.segments@)
    }
}

/// The view of an optional path.
pub open spec fn opt_path(path: Option<StorePath>) -> Option<Seq<Seq<char>>> {
    match path {
        Some(path) => Some(path@),
        None => None,
    }
}

/// The quoted characters from a place on, and the place after the closing mark.
fn read_quoted(chars: &Vec<char>, from: usize) -> (found: Option<(String, usize)>)
    requires
        from <= chars.len(),
    ensures
        match found {
            Some((key, next)) => from < next <= chars.len() && unquoted(chars@.skip(from as int))
                == Some((key@, chars@.skip(next as int))),
            None => unquoted(chars@.skip(from as int)) is None,
        },
{
    let ghost whole = chars@.skip(from as int);
    let mut key = String::new();
    let mut i: usize = from;
    assert(unquoted(chars@.skip(i as int)) == (match unquoted(chars@.skip(i as int)) {
        Some((more, rest)) => Some((key@ + more, rest)),
        None => None,
    })) by {
        if let Some((more, rest)) = unquoted(chars@.skip(i as int)) {
            assert(key@ + more =~= more);
        }
    }
    while i < chars.len()
        invariant
            from <= i <= chars.len(),
            whole == chars@.skip(from as int),
            unquoted(whole) == (match unquoted(chars@.skip(i as int)) {
                Some((more, rest)) => Some((key@ + more, rest)),
                None => None,
            }),
        decreases chars.len() - i,
    {
        let ghost here = chars@.skip(i as int);
        assert(here[0] == chars@[i as int]);
        assert(here.skip(1) =~= chars@.skip(i + 1));
        if chars[i] == '"' {
            assert(key@ + Seq::<char>::empty() =~= key@);
            return Some((key, i + 1));
        }
        let ghost before = key@;
        if chars[i] == '\\' {
            if i + 1 < chars.len() && (chars[i + 1] == '"' || chars[i + 1] == '\\') {
                assert(here[1] == chars@[i + 1]);
                assert(here.skip(2) =~= chars@.skip(i + 2));
                push_char(&mut key, chars[i + 1]);
                proof {
                    if let Some((more, rest)) = unquoted(chars@.skip(i + 2)) {
                        assert(before + (seq![here[1]] + more) =~= key@ + more);
                    }
                }
                i = i + 2;
            } else {
                return None;
            }
        } else {
            push_char(&mut key, chars[i]);
            proof {
                if let Some((more, rest)) = unquoted(chars@.skip(i + 1)) {
                    assert(before + (seq![here[0]] + more) =~= key@ + more);
                }
            }
            i = i + 1;
        }
    }
    None
}

/// How many characters of an identifier stand from a place on.
fn read_name(chars: &Vec<char>, from: usize) -> (to: usize)
    requires
        from <= chars.len(),
    ensures
        from <= to <= chars.len(),
        to - from == name_length(chars@.skip(from as int)),
    decreases chars.len() - from,
{
    let ghost here = chars@.skip(from as int);
    if from < chars.len() && name_char(chars[from]) {
        assert(here[0] == chars@[from as int]);
        assert(here.skip(1) =~= chars@.skip(from + 1));
        read_name(chars, from + 1)
    } else {
        assert(from < chars.len() ==> here[0] == chars@[from as int]);
        from
    }
}

/// The key from a place on, and the place after it.
fn read_key(chars: &Vec<char>, from: usize) -> (found: Option<(String, usize)>)
    requires
        from <= chars.len(),
    ensures
        match found {
            Some((key, next)) => from < next <= chars.len() && first_key(chars@.skip(from as int))
                == Some((key@, chars@.skip(next as int))),
            None => first_key(chars@.skip(from as int)) is None,
        },
{
    let ghost here = chars@.skip(from as int);
    assert(from < chars.len() ==> here[0] == chars@[from as int]);
    assert(from + 1 < chars.len() ==> here[1] == chars@[from + 1]);
    if from < chars.len() && chars[from] == '[' {
        if from + 1 < chars.len() && chars[from + 1] == '"' {
            assert(here.skip(2) =~= chars@.skip(from + 2));
            match read_quoted(chars, from + 2) {
                Some((key, next)) => {
                    assert(next < chars.len() ==> chars@.skip(next as int)[0]
                        == chars@[next as int]);
                    assert(next < chars.len() ==> chars@.skip(next as int).skip(1) =~= chars@.skip(
                        next + 1,
                    ));
                    if !is_empty_text(&key) && next < chars.len() && chars[next] == ']' {
                        Some((key, next + 1))
                    } else {
                        None
                    }
                },
                None => None,
            }
        } else {
            None
        }
    } else {
        let to = read_name(chars, from);
        let key = text::text_of(chars, from, to);
        assert(key@ =~= here.take(to - from));
        assert(here.skip(to - from) =~= chars@.skip(to as int));
        if is_identifier(&key) {
            Some((key, to))
        } else {
            None
        }
    }
}

/// The keys from a place on.
fn read_keys(chars: &Vec<char>, from: usize) -> (found: Option<Vec<String>>)
    requires
        from <= chars.len(),
    ensures
        match found {
            Some(found) => keys(chars@.skip(from as int)) == Some(text::texts(found@)),
            None => keys(chars@.skip(from as int)) is None,
        },
    decreases chars.len() - from,
{
    match read_key(chars, from) {
        None => None,
        Some((key, next)) => {
            let ghost rest = chars@.skip(next as int);
            assert(next < chars.len() ==> rest[0] == chars@[next as int]);
            assert(next + 1 < chars.len() ==> rest[1] == chars@[next + 1]);
            let ghost first = key@;
            if next == chars.len() {
                let mut found: Vec<String> = Vec::new();
                found.push(key);
                assert(text::texts(found@) =~= seq![first] + Seq::empty());
                return Some(found);
            }
            let start: usize = if chars[next] == '[' {
                next
            } else if chars[next] == '.' && next + 1 < chars.len() && chars[next + 1] != '[' {
                assert(rest.skip(1) =~= chars@.skip(next + 1));
                next + 1
            } else {
                return None;
            };
            match read_keys(chars, start) {
                None => None,
                Some(more) => {
                    let mut found: Vec<String> = Vec::new();
                    found.push(key);
                    let mut more = more;
                    let ghost later = more@;
                    found.append(&mut more);
                    assert(text::texts(found@) =~= seq![first] + text::texts(later));
                    Some(found)
                },
            }
        },
    }
}

/// Appends a key as it stands in quotation marks.
fn push_escaped(out: &mut String, key: &str)
    ensures
        final(out)@ == old(out)@ + escaped(key@),
{
    let chars = chars_of(key);
    let ghost before = out@;
    assert(chars@.skip(0) =~= chars@);
    for i in 0..chars.len()
        invariant
            before + escaped(chars@) == out@ + escaped(chars@.skip(i as int)),
    {
        let ghost here = chars@.skip(i as int);
        let ghost so_far = out@;
        assert(here[0] == chars@[i as int]);
        assert(here.skip(1) =~= chars@.skip(i + 1));
        if chars[i] == '"' || chars[i] == '\\' {
            push_char(out, '\\');
        }
        push_char(out, chars[i]);
        assert(so_far + escaped(here) =~= out@ + escaped(chars@.skip(i + 1)));
    }
    assert(out@ + escaped(chars@.skip(chars.len() as int)) =~= out@);
}

/// Appends a key as it is written.
fn push_key(out: &mut String, key: &str)
    ensures
        final(out)@ == old(out)@ + spelled_key(key@),
{
    let ghost before = out@;
    if is_identifier(key) {
        out.append(key);
    } else {
        push_char(out, '[');
        push_char(out, '"');
        assert(out@ =~= before + seq!['[', '"']);
        push_escaped(out, key);
        push_char(out, '"');
        push_char(out, ']');
        assert(out@ =~= before + spelled_key(key@));
    }
}

impl StorePath {
    /// The path that a text spells.
    pub fn parse(path: &str) -> (found: Option<StorePath>)
        ensures
            opt_path(found) == path_of(path@),
    {
        let chars = chars_of(path);
        if chars.len() == 0 {
            let found = StorePath { segments: Vec::new() };
            assert(found@ =~= Seq::empty());
            return Some(found);
        }
        assert(chars@.skip(0) =~= chars@);
        match read_keys(&chars, 0) {
            Some(segments) => Some(StorePath { segments }),
            None => None,
        }
    }

    /// The path with the given keys. No path has an empty key.
    pub fn from_segments(segments: &Vec<String>) -> (path: Option<StorePath>)
        ensures
            opt_path(path) == if has_empty(text::texts(segments@)) {
                None
            } else {
                Some(text::texts(segments@))
            },
    {
        let ghost given = text::texts(segments@);
        let mut copied: Vec<String> = Vec::new();
        assert(text::texts(copied@) =~= given.take(0));
        for i in 0..segments.len()
            invariant
                given == text::texts(segments@),
                text::texts(copied@) == given.take(i as int),
                forall|k: int| 0 <= k < i ==> #[trigger] given[k].len() > 0,
        {
            assert(given[i as int] == segments@[i as int]@);
            if is_empty_text(&segments[i]) {
                return None;
            }
            let ghost before = text::texts(copied@);
            copied.push(segments[i].clone());
            assert(text::texts(copied@) =~= before.push(given[i as int]));
            assert(given.take(i + 1) =~= given.take(i as int).push(given[i as int]));
        }
        assert(given.take(segments.len() as int) =~= given);
        Some(StorePath { segments: copied })
    }

    /// The path as it is written.
    pub fn spell(&self) -> (spelling: String)
        ensures
            spelling@ == spelled(self@),
    {
        let mut out = String::new();
        let ghost path = self@;
        if self.segments.len() == 0 {
            assert(out@ =~= Seq::empty());
            return out;
        }
        assert(path[0] == self.segments@[0]@);
        push_key(&mut out, &self.segments[0]);
        assert(out@ + spelled_later(path.skip(1)) =~= spelled(path));
        for i in 1..self.segments.len()
            invariant
                self.segments.len() >= 1,
                path == self@,
                out@ + spelled_later(path.skip(i as int)) == spelled(path),
        {
            let ghost here = path.skip(i as int);
            let ghost before = out@;
            assert(here[0] == self.segments@[i as int]@);
            assert(here.skip(1) =~= path.skip(i + 1));
            if is_identifier(&self.segments[i]) {
                push_char(&mut out, '.');
            }
            push_key(&mut out, &self.segments[i]);
            assert(before + spelled_later(here) =~= out@ + spelled_later(path.skip(i + 1)));
        }
        assert(out@ + spelled_later(path.skip(path.len() as int)) =~= out@);
        out
    }
}

/// Whether a path has an empty key.
pub open spec fn has_empty(path: Seq<Seq<char>>) -> bool {
    exists|i: int| 0 <= i < path.len() && (#[trigger] path[i]).len() == 0
}

/// Whether two paths have the same keys without regard to ASCII case.
pub open spec fn same_keys(a: Seq<Seq<char>>, b: Seq<Seq<char>>) -> bool {
    &&& a.len() == b.len()
    &&& forall|i: int| 0 <= i < a.len() ==> words::same_fold(#[trigger] a[i], b[i])
}

/// Whether two texts spell the same path: where both are paths, their keys are the
/// same without regard to case; else they are the same text, without regard to case.
pub open spec fn same_path(a: Seq<char>, b: Seq<char>) -> bool {
    match (path_of(a), path_of(b)) {
        (Some(a), Some(b)) => same_keys(a, b),
        _ => words::same_fold(text::trimmed(a), text::trimmed(b)),
    }
}

/// Whether two lists have the same keys without regard to ASCII case.
fn keys_equal(a: &Vec<String>, b: &Vec<String>) -> (same: bool)
    ensures
        same == same_keys(text::texts(a@), text::texts(b@)),
{
    let ghost keys_a = text::texts(a@);
    let ghost keys_b = text::texts(b@);
    if a.len() != b.len() {
        return false;
    }
    for i in 0..a.len()
        invariant
            a.len() == b.len(),
            keys_a == text::texts(a@),
            keys_b == text::texts(b@),
            forall|k: int| 0 <= k < i ==> words::same_fold(#[trigger] keys_a[k], keys_b[k]),
    {
        assert(keys_a[i as int] == a@[i as int]@ && keys_b[i as int] == b@[i as int]@);
        if !same_folded(&a[i], &b[i]) {
            return false;
        }
    }
    true
}

/// Whether two texts spell the same path.
pub fn paths_equal(a: &str, b: &str) -> (same: bool)
    ensures
        same == same_path(a@, b@),
{
    match (StorePath::parse(a), StorePath::parse(b)) {
        (Some(a), Some(b)) => keys_equal(&a.segments, &b.segments),
        _ => {
            let a = trim(a);
            let b = trim(b);
            same_folded(&a, &b)
        },
    }
}

// ===== Laws =====

/// Escaped characters followed by a mark are read back.
proof fn lemma_escaped(key: Seq<char>, rest: Seq<char>)
    ensures
        unquoted(escaped(key) + seq!['"'] + rest) == Some((key, rest)),
    decreases key.len(),
{
    let text = escaped(key) + seq!['"'] + rest;
    if key.len() == 0 {
        assert(text[0] == '"');
        assert(text.skip(1) =~= rest);
        assert(key =~= Seq::empty());
    } else {
        let later = escaped(key.skip(1)) + seq!['"'] + rest;
        lemma_escaped(key.skip(1), rest);
        assert(seq![key[0]] + key.skip(1) =~= key);
        if key[0] == '"' || key[0] == '\\' {
            assert(text =~= seq!['\\', key[0]] + later);
            assert(text.skip(2) =~= later);
        } else {
            assert(text =~= seq![key[0]] + later);
            assert(text.skip(1) =~= later);
        }
    }
}

/// An identifier before a text that starts with none is as long as it is.
proof fn lemma_name_ends(name: Seq<char>, rest: Seq<char>)
    requires
        forall|i: int| 0 <= i < name.len() ==> #[trigger] in_name(name[i]),
        rest.len() > 0 ==> !in_name(rest[0]),
    ensures
        name_length(name + rest) == name.len(),
    decreases name.len(),
{
    let text = name + rest;
    if name.len() == 0 {
        assert(text =~= rest);
    } else {
        assert(text[0] == name[0]);
        assert(in_name(name[0]));
        assert(text.skip(1) =~= name.skip(1) + rest);
        assert forall|i: int| 0 <= i < name.skip(1).len() implies #[trigger] in_name(
            name.skip(1)[i],
        ) by {
            assert(name.skip(1)[i] == name[i + 1]);
            assert(in_name(name[i + 1]));
        }
        lemma_name_ends(name.skip(1), rest);
    }
}

/// What is written after a key starts with a dot or a bracket.
proof fn lemma_later_start(path: Seq<Seq<char>>)
    ensures
        path.len() == 0 ==> spelled_later(path) == Seq::<char>::empty(),
        path.len() > 0 ==> spelled_later(path).len() > 0 && (spelled_later(path)[0] == '.'
            || spelled_later(path)[0] == '['),
{
}

/// A key that is written is read back.
proof fn lemma_key_back(key: Seq<char>, path: Seq<Seq<char>>)
    requires
        key.len() > 0,
    ensures
        first_key(spelled_key(key) + spelled_later(path)) == Some((key, spelled_later(path))),
{
    let rest = spelled_later(path);
    let text = spelled_key(key) + rest;
    lemma_later_start(path);
    if is_name(key) {
        lemma_name_ends(key, rest);
        assert(text.take(key.len() as int) =~= key);
        assert(text.skip(key.len() as int) =~= rest);
        assert(text[0] == key[0]);
    } else {
        assert(text[0] == '[' && text[1] == '"');
        assert(text.skip(2) =~= escaped(key) + seq!['"'] + (seq![']'] + rest));
        lemma_escaped(key, seq![']'] + rest);
        assert((seq![']'] + rest).skip(1) =~= rest);
    }
}

/// Keys that are written are read back.
proof fn lemma_keys_back(path: Seq<Seq<char>>)
    requires
        path.len() > 0,
        !has_empty(path),
    ensures
        keys(spelled(path)) == Some(path),
    decreases path.len(),
{
    let more = path.skip(1);
    assert(path[0].len() > 0);
    lemma_key_back(path[0], more);
    let rest = spelled_later(more);
    assert(seq![path[0]] + more =~= path);
    assert(rest.len() < spelled(path).len()) by {
        assert(spelled_key(path[0]).len() > 0);
    }
    if more.len() > 0 {
        assert(!has_empty(more)) by {
            if has_empty(more) {
                let i = choose|i: int| 0 <= i < more.len() && (#[trigger] more[i]).len() == 0;
                assert(path[i + 1].len() == 0);
            }
        }
        lemma_keys_back(more);
        if is_name(more[0]) {
            assert(rest =~= seq!['.'] + spelled(more));
            assert(rest.skip(1) =~= spelled(more));
            assert(spelled(more)[0] == more[0][0]);
        } else {
            assert(rest =~= spelled(more));
        }
    } else {
        assert(rest =~= Seq::empty());
        assert(more =~= Seq::empty());
    }
}

/// A path that is written is read back as it was.
pub proof fn law_a_spelling_leads_back(path: Seq<Seq<char>>)
    requires
        !has_empty(path),
    ensures
        path_of(spelled(path)) == Some(path),
{
    if path.len() == 0 {
        assert(path =~= Seq::empty());
    } else {
        assert(path[0].len() > 0);
        assert(spelled_key(path[0]).len() > 0);
        assert(spelled(path).len() > 0);
        lemma_keys_back(path);
    }
}

/// No text spells a path with an empty key.
pub proof fn law_no_key_is_empty(text: Seq<char>)
    ensures
        path_of(text) matches Some(path) ==> !has_empty(path),
{
    if text.len() > 0 {
        lemma_keys_full(text);
    }
}

/// No key is empty.
proof fn lemma_keys_full(text: Seq<char>)
    ensures
        keys(text) matches Some(path) ==> !has_empty(path),
    decreases text.len(),
{
    if let Some((key, rest)) = first_key(text) {
        assert(key.len() > 0);
        if rest.len() < text.len() && later_keys(rest) is Some {
            let more = later_keys(rest)->0;
            let path = seq![key] + more;
            if rest.len() > 0 {
                if rest[0] == '.' {
                    lemma_keys_full(rest.skip(1));
                } else {
                    lemma_keys_full(rest);
                }
            }
            assert(!has_empty(path)) by {
                if has_empty(path) {
                    let i = choose|i: int| 0 <= i < path.len() && (#[trigger] path[i]).len() == 0;
                    if i > 0 {
                        assert(more[i - 1] == path[i]);
                        assert(has_empty(more));
                    }
                }
            }
        }
    }
}

/// A path is the same as itself, the same in both directions, and the same as what
/// is the same as it.
pub proof fn law_same_path_is_an_equivalence(a: Seq<Seq<char>>, b: Seq<Seq<char>>, c: Seq<Seq<char>>)
    ensures
        same_keys(a, a),
        same_keys(a, b) ==> same_keys(b, a),
        same_keys(a, b) && same_keys(b, c) ==> same_keys(a, c),
{
    if same_keys(a, b) {
        assert forall|i: int| 0 <= i < b.len() implies words::same_fold(#[trigger] b[i], a[i]) by {
            assert(words::same_fold(a[i], b[i]));
        }
    }
    if same_keys(a, b) && same_keys(b, c) {
        assert forall|i: int| 0 <= i < a.len() implies words::same_fold(#[trigger] a[i], c[i]) by {
            assert(words::same_fold(b[i], c[i]));
        }
    }
}

} // verus!
