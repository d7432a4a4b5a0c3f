//! Text as sequences of characters: what a `String` held by a record says,
//! decimal numerals, and the order of strings.

use vstd::prelude::*;

verus! {

/// The characters of an optional text.
pub open spec fn opt_text(text: Option<String>) -> Option<Seq<char>> {
    match text {
        Some(text) => Some(text@),
        None => None,
    }
}

/// The characters of an optional text inside an update, where `Some(None)`
/// clears the field.
pub open spec fn opt_opt_text(text: Option<Option<String>>) -> Option<Option<Seq<char>>> {
    match text {
        Some(text) => Some(opt_text(text)),
        None => None,
    }
}

/// The characters of every text of a list.
pub open spec fn texts(list: Seq<String>) -> Seq<Seq<char>> {
    list.map_values(|text: String| text@)
}

/// A copy of an optional text.
pub fn clone_opt(text: &Option<String>) -> (r: Option<String>)
    ensures
        r == *text,
        opt_text(r) == opt_text(*text),
{
    match text {
        Some(text) => Some(text.clone()),
        None => None,
    }
}

/// A copy of an optional text inside an update.
pub fn clone_opt_opt(text: &Option<Option<String>>) -> (r: Option<Option<String>>)
    ensures
        r == *text,
        opt_opt_text(r) == opt_opt_text(*text),
{
    match text {
        Some(text) => Some(clone_opt(text)),
        None => None,
    }
}

/// The optional text, or the empty text.
pub open spec fn or_empty(text: Option<Seq<char>>) -> Seq<char> {
    match text {
        Some(text) => text,
        None => Seq::empty(),
    }
}

/// A copy of the optional text, or the empty text.
pub fn clone_or_empty(text: &Option<String>) -> (r: String)
    ensures
        r@ == or_empty(opt_text(*text)),
{
    match text {
        Some(text) => text.clone(),
        None => String::new(),
    }
}

/// The decimal digit with the given value.
pub open spec fn digit(value: int) -> char {
    ('0' as int + value) as char
}

/// The shortest decimal numeral of a natural number.
pub open spec fn decimal(n: nat) -> Seq<char>
    decreases n,
{
    if n < 10 {
        seq![digit(n as int)]
    } else {
        decimal(n / 10).push(digit((n % 10) as int))
    }
}

/// The shortest decimal numeral of an integer, with `-` before negative ones.
pub open spec fn signed_decimal(n: int) -> Seq<char> {
    if n < 0 {
        seq!['-'] + decimal((-n) as nat)
    } else {
        decimal(n as nat)
    }
}

/// Appends one character.
///
/// Calls `String::push`, which appends the character to the end of the string.
#[verifier::external_body]
pub(crate) fn push_char(text: &mut String, c: char)
    ensures
        final(text)@ == old(text)@.push(c),
{
    text.push(c)
}

/// The digit character of a value below ten.
fn digit_char(value: u64) -> (c: char)
    requires
        value < 10,
    ensures
        c == digit(value as int),
{
    (48u8 + value as u8) as char
}

/// The decimal numeral of `n`.
pub fn decimal_text(n: u64) -> (text: String)
    ensures
        text@ == decimal(n as nat),
    decreases n,
{
    if n < 10 {
        let mut text = String::new();
        push_char(&mut text, digit_char(n));
        assert(text@ =~= seq![digit(n as int)]);
        text
    } else {
        let mut text = decimal_text(n / 10);
        push_char(&mut text, digit_char(n % 10));
        text
    }
}

/// The decimal numeral of `n`, with its sign when negative.
pub fn signed_decimal_text(n: i64) -> (text: String)
    ensures
        text@ == signed_decimal(n as int),
{
    if n < 0 {
        let mut text = String::new();
        push_char(&mut text, '-');
        let magnitude: u64 = (0 - n as i128) as u64;
        let digits = decimal_text(magnitude);
        text.append(digits.as_str());
        assert(text@ =~= seq!['-'] + decimal(magnitude as nat));
        text
    } else {
        decimal_text(n as u64)
    }
}

/// Two texts joined.
pub fn join2(a: &str, b: &str) -> (text: String)
    ensures
        text@ == a@ + b@,
{
    let mut text = a.to_owned();
    text.append(b);
    text
}

/// Three texts joined.
pub fn join3(a: &str, b: &str, c: &str) -> (text: String)
    ensures
        text@ == a@ + b@ + c@,
{
    let mut text = join2(a, b);
    text.append(c);
    text
}

/// The characters of a text.
pub fn chars_of(text: &str) -> (chars: Vec<char>)
    ensures
        chars@ == text@,
{
    let mut chars: Vec<char> = Vec::new();
    for c in iter: text.chars()
        invariant
            chars@ == iter.seq().take(iter.index() as int),
            iter.seq() == text@,
    {
        chars.push(c);
        assert(iter.seq().take(iter.index() + 1) =~= iter.seq().take(iter.index() as int).push(c));
    }
    assert(text@.take(text@.len() as int) =~= text@);
    chars
}

/// Whether a text is empty.
pub fn is_empty_text(text: &str) -> (empty: bool)
    ensures
        empty == (text@.len() == 0),
{
    let chars = chars_of(text);
    chars.len() == 0
}

/// Whether two texts are the same.
pub fn same_text(a: &str, b: &str) -> (same: bool)
    ensures
        same == (a@ == b@),
{
    a.to_owned() == b.to_owned()
}

/// Whether `a` comes before `b` in the order of strings: by the first
/// character in which they differ, a proper prefix first.
pub open spec fn text_less(a: Seq<char>, b: Seq<char>) -> bool
    decreases a.len(),
{
    if b.len() == 0 {
        false
    } else if a.len() == 0 {
        true
    } else if a[0] != b[0] {
        (a[0] as int) < (b[0] as int)
    } else {
        text_less(a.drop_first(), b.drop_first())
    }
}

/// Whether the characters from `i` on put `a` before `b`.
fn chars_before(a: &Vec<char>, b: &Vec<char>, i: usize) -> (before: bool)
    requires
        i <= a.len(),
        i <= b.len(),
    ensures
        before == text_less(a@.skip(i as int), b@.skip(i as int)),
    decreases a.len() - i,
{
    if i == b.len() {
        false
    } else if i == a.len() {
        true
    } else if a[i] != b[i] {
        a[i] < b[i]
    } else {
        assert(a@.skip(i as int).drop_first() =~= a@.skip(i + 1));
        assert(b@.skip(i as int).drop_first() =~= b@.skip(i + 1));
        chars_before(a, b, i + 1)
    }
}

/// Whether `a` comes before `b` in the order of strings.
pub fn text_before(a: &str, b: &str) -> (before: bool)
    ensures
        before == text_less(a@, b@),
{
    let a = chars_of(a);
    let b = chars_of(b);
    assert(a@.skip(0) =~= a@);
    assert(b@.skip(0) =~= b@);
    chars_before(&a, &b, 0)
}

/// The order of strings is irreflexive, total on different strings, and
/// transitive.
pub proof fn lemma_text_less(a: Seq<char>, b: Seq<char>, c: Seq<char>)
    ensures
        !text_less(a, a),
        text_less(a, b) ==> !text_less(b, a),
        a != b ==> text_less(a, b) || text_less(b, a),
        text_less(a, b) && text_less(b, c) ==> text_less(a, c),
    decreases a.len(),
{
    if a.len() > 0 && b.len() > 0 && c.len() > 0 {
        lemma_text_less(a.drop_first(), b.drop_first(), c.drop_first());
        if a[0] == b[0] && a.drop_first() == b.drop_first() {
            assert(a =~= seq![a[0]] + a.drop_first());
            assert(b =~= seq![b[0]] + b.drop_first());
        }
    } else if a.len() > 0 && b.len() > 0 {
        lemma_text_less(a.drop_first(), b.drop_first(), c);
        if a[0] == b[0] && a.drop_first() == b.drop_first() {
            assert(a =~= seq![a[0]] + a.drop_first());
            assert(b =~= seq![b[0]] + b.drop_first());
        }
    } else if a.len() > 0 {
        lemma_text_less(a.drop_first(), b, c);
    } else if b.len() == 0 {
        assert(a =~= b);
    }
}

// ===== Reading numbers =====

/// Whether a character is a decimal digit.
pub open spec fn is_digit(c: char) -> bool {
    '0' <= c <= '9'
}

/// Whether a text is one or more decimal digits.
pub open spec fn is_numeral(digits: Seq<char>) -> bool {
    &&& digits.len() > 0
    &&& forall|i: int| 0 <= i < digits.len() ==> is_digit(#[trigger] digits[i])
}

/// The value of a numeral.
pub open spec fn digits_value(digits: Seq<char>) -> nat
    decreases digits.len(),
{
    if digits.len() == 0 {
        0
    } else {
        digits_value(digits.drop_last()) * 10 + (digits.last() as int - '0' as int) as nat
    }
}

/// The number that decimal digits with an optional sign spell, when it fits
/// between `low` and `high`.
pub open spec fn read_number(text: Seq<char>, low: int, high: int) -> Option<int> {
    let signed = text.len() > 0 && (text[0] == '-' || text[0] == '+');
    let digits = if signed {
        text.skip(1)
    } else {
        text
    };
    if !is_numeral(digits) {
        None
    } else {
        let value: int = if signed && text[0] == '-' {
            -(digits_value(digits) as int)
        } else {
            digits_value(digits) as int
        };
        if low <= value <= high {
            Some(value)
        } else {
            None
        }
    }
}

/// The value of the numeral that a list of characters holds from `from` on;
/// `None` when it is no numeral or its value exceeds `bound`.
fn read_digits(chars: &Vec<char>, from: usize, bound: u64) -> (value: Option<u64>)
    requires
        from <= chars.len(),
        bound <= 0x1_0000_0000,
    ensures
        match value {
            Some(value) => {
                &&& is_numeral(chars@.skip(from as int))
                &&& value == digits_value(chars@.skip(from as int))
                &&& value <= bound
            },
            None => {
                ||| !is_numeral(chars@.skip(from as int))
                ||| digits_value(chars@.skip(from as int)) > bound
            },
        },
{
    let ghost digits = chars@.skip(from as int);
    if from >= chars.len() {
        return None;
    }
    let mut value: u64 = 0;
    let mut over: bool = false;
    let mut i: usize = from;
    assert(digits.take(0) =~= Seq::empty());
    while i < chars.len()
        invariant
            from <= i <= chars.len(),
            bound <= 0x1_0000_0000,
            digits == chars@.skip(from as int),
            forall|k: int| 0 <= k < i - from ==> is_digit(#[trigger] digits[k]),
            over == (digits_value(digits.take(i - from)) > bound),
            !over ==> value == digits_value(digits.take(i - from)),
        decreases chars.len() - i,
    {
        let c = chars[i];
        assert(digits[i - from] == c);
        if !('0' <= c && c <= '9') {
            return None;
        }
        proof {
            assert(digits.take(i - from + 1).drop_last() =~= digits.take(i - from));
        }
        if !over {
            value = value * 10 + (c as u64 - 48);
            over = value > bound;
        }
        i = i + 1;
    }
    assert(digits.take(chars.len() - from) =~= digits);
    if over {
        None
    } else {
        Some(value)
    }
}

/// The number that decimal digits with an optional sign spell, as
/// `str::parse::<i32>` reads it.
pub fn read_i32(text: &str) -> (number: Option<i32>)
    ensures
        match number {
            Some(number) => read_number(text@, i32::MIN as int, i32::MAX as int) == Some(
                number as int,
            ),
            None => read_number(text@, i32::MIN as int, i32::MAX as int) is None,
        },
{
    let chars = chars_of(text);
    if chars.len() > 0 && chars[0] == '-' {
        match read_digits(&chars, 1, 0x8000_0000) {
            Some(value) => Some((0 - value as i64) as i32),
            None => None,
        }
    } else {
        let from: usize = if chars.len() > 0 && chars[0] == '+' {
            1
        } else {
            0
        };
        assert(from == 0 ==> chars@.skip(0) =~= chars@);
        match read_digits(&chars, from, 0x7fff_ffff) {
            Some(value) => Some(value as i32),
            None => None,
        }
    }
}

// ===== Whitespace =====

/// Whether a character is whitespace: has the Unicode property `White_Space`, as
/// `char::is_whitespace` tells it.
pub open spec fn is_whitespace(c: char) -> bool {
    let code = c as u32;
    ||| 0x9 <= code <= 0xd
    ||| code == 0x20
    ||| code == 0x85
    ||| code == 0xa0
    ||| code == 0x1680
    ||| 0x2000 <= code <= 0x200a
    ||| code == 0x2028
    ||| code == 0x2029
    ||| code == 0x202f
    ||| code == 0x205f
    ||| code == 0x3000
}

/// Whether a character is whitespace.
fn whitespace(c: char) -> (white: bool)
    ensures
        white == is_whitespace(c),
{
    match c as u32 {
        0x9..=0xd | 0x20 | 0x85 | 0xa0 | 0x1680 => true,
        0x2000..=0x200a | 0x2028 | 0x2029 | 0x202f | 0x205f | 0x3000 => true,
        _ => false,
    }
}

/// A text without the whitespace it starts with.
pub open spec fn trimmed_start(text: Seq<char>) -> Seq<char>
    decreases text.len(),
{
    if text.len() > 0 && is_whitespace(text[0]) {
        trimmed_start(text.skip(1))
    } else {
        text
    }
}

/// A text without the whitespace it ends with.
pub open spec fn trimmed_end(text: Seq<char>) -> Seq<char>
    decreases text.len(),
{
    if text.len() > 0 && is_whitespace(text.last()) {
        trimmed_end(text.drop_last())
    } else {
        text
    }
}

/// A text without the whitespace around it.
pub open spec fn trimmed(text: Seq<char>) -> Seq<char> {
    trimmed_end(trimmed_start(text))
}

/// The characters of a list between two places.
pub(crate) fn text_of(chars: &Vec<char>, from: usize, to: usize) -> (text: String)
    requires
        from <= to <= chars.len(),
    ensures
        text@ == chars@.subrange(from as int, to as int),
{
    let mut text = String::new();
    assert(text@ =~= chars@.subrange(from as int, from as int));
    for i in from..to
        invariant
            from <= to <= chars.len(),
            text@ == chars@.subrange(from as int, i as int),
    {
        push_char(&mut text, chars[i]);
        assert(chars@.subrange(from as int, i + 1) =~= chars@.subrange(from as int, i as int).push(
            chars@[i as int],
        ));
    }
    text
}

/// A text without the whitespace around it, as `str::trim` has it.
pub fn trim(text: &str) -> (shorter: String)
    ensures
        shorter@ == trimmed(text@),
{
    let chars = chars_of(text);
    let mut from: usize = 0;
    assert(chars@.skip(0) =~= chars@);
    while from < chars.len() && whitespace(chars[from])
        invariant
            from <= chars.len(),
            trimmed_start(chars@.skip(from as int)) == trimmed_start(chars@),
        ensures
            from <= chars.len(),
            trimmed_start(chars@.skip(from as int)) == trimmed_start(chars@),
            from < chars.len() ==> !is_whitespace(chars@[from as int]),
        decreases chars.len() - from,
    {
        assert(chars@.skip(from as int).skip(1) =~= chars@.skip(from + 1));
        from = from + 1;
    }
    let ghost start = chars@.skip(from as int);
    let mut to: usize = chars.len();
    assert(chars@.subrange(from as int, to as int) =~= start);
    while to > from && whitespace(chars[to - 1])
        invariant
            from <= to <= chars.len(),
            trimmed_end(chars@.subrange(from as int, to as int)) == trimmed_end(start),
        ensures
            from <= to <= chars.len(),
            trimmed_end(chars@.subrange(from as int, to as int)) == trimmed_end(start),
            to > from ==> !is_whitespace(chars@[to - 1]),
        decreases to,
    {
        assert(chars@.subrange(from as int, to as int).drop_last() =~= chars@.subrange(
            from as int,
            to - 1,
        ));
        to = to - 1;
    }
    text_of(&chars, from, to)
}

// ===== Case =====

/// A text in lower case, as `str::to_lowercase` has it: by the Unicode property
/// `Lowercase` and the mappings that go with it.
pub uninterp spec fn lowercase(text: Seq<char>) -> Seq<char>;

/// A text in lower case.
///
/// Calls `str::to_lowercase`, whose result depends on the text alone.
#[verifier::external_body]
pub(crate) fn to_lowercase(text: &str) -> (lower: String)
    ensures
        lower@ == lowercase(text@),
{
    text.to_lowercase()
}

} // verus!
