//! Text as sequences of characters: the string operations the rest of the library is stated over.

use vstd::prelude::*;
#[allow(unused_imports)]
use vstd::utf8::{decode_utf8, encode_utf8, valid_utf8};

verus! {

/// `String::push` appends one character to the end of the string.
pub assume_specification[ String::push ](s: &mut String, c: char)
    ensures
        final(s)@ == old(s)@.push(c),
;

/// `String::push_str` appends a string slice to the end of the string.
pub assume_specification[ String::push_str ](s: &mut String, other: &str)
    ensures
        final(s)@ == old(s)@ + other@,
;

/// `str::from_utf8` reads bytes as text: it succeeds exactly on valid UTF-8, and the text is then
/// the one that the bytes encode.
#[verifier::external_body]
pub(crate) fn utf8_text(bytes: &[u8]) -> (r: Option<String>)
    ensures
        match r {
            Some(s) => valid_utf8(bytes@) && s@ == decode_utf8(bytes@),
            None => !valid_utf8(bytes@),
        },
{
    match std::str::from_utf8(bytes) {
        Ok(s) => Some(s.to_owned()),
        Err(_) => None,
    }
}

/// The texts held by a sequence of strings.
pub open spec fn texts(parts: Seq<String>) -> Seq<Seq<char>> {
    Seq::new(parts.len(), |i: int| parts[i]@)
}

/// An optional text, as what it holds.
pub open spec fn text_option(value: Option<String>) -> Option<Seq<char>> {
    match value {
        Some(text) => Some(text@),
        None => None,
    }
}

/// A copy of an optional text.
pub fn copy_text_option(value: &Option<String>) -> (r: Option<String>)
    ensures
        text_option(r) == text_option(*value),
{
    match value {
        Some(text) => Some(text.clone()),
        None => None,
    }
}

/// The characters of `s`, in order.
pub fn chars_of(s: &str) -> (chars: Vec<char>)
    ensures
        chars@ == s@,
{
    let mut chars: Vec<char> = Vec::new();
    for c in it: s.chars()
        invariant
            chars@ == s@.take(it.index() as int),
            it.seq() == s@,
    {
        chars.push(c);
        assert(s@.take(it.index() + 1) =~= s@.take(it.index() as int).push(c));
    }
    assert(s@.take(s@.len() as int) =~= s@);
    chars
}

/// The string made of `chars[from..to]`.
pub fn substring(chars: &Vec<char>, from: usize, to: usize) -> (s: String)
    requires
        from <= to <= chars@.len(),
    ensures
        s@ == chars@.subrange(from as int, to as int),
{
    let mut s = String::new();
    let mut i: usize = from;
    while i < to
        invariant
            from <= i <= to <= chars@.len(),
            s@ == chars@.subrange(from as int, i as int),
        decreases to - i,
    {
        s.push(chars[i]);
        assert(chars@.subrange(from as int, i + 1) =~= chars@.subrange(from as int, i as int).push(
            chars@[i as int],
        ));
        i += 1;
    }
    s
}

/// Whether two strings hold the same characters.
pub fn same_text(a: &str, b: &str) -> (r: bool)
    ensures
        r == (a@ == b@),
{
    a.to_owned() == b.to_owned()
}


// ---------------------------------------------------------------------------
// Characters
// ---------------------------------------------------------------------------

/// The Unicode `White_Space` property.
pub open spec fn white(c: char) -> bool {
    let n = c as u32;
    ||| 0x9 <= n <= 0xd
    ||| n == 0x20
    ||| n == 0x85
    ||| n == 0xa0
    ||| n == 0x1680
    ||| 0x2000 <= n <= 0x200a
    ||| n == 0x2028
    ||| n == 0x2029
    ||| n == 0x202f
    ||| n == 0x205f
    ||| n == 0x3000
}

pub fn is_whitespace(c: char) -> (r: bool)
    ensures
        r == white(c),
{
    let n: u32 = c as u32;
    (0x9 <= n && n <= 0xd) || n == 0x20 || n == 0x85 || n == 0xa0 || n == 0x1680 || (0x2000 <= n
        && n <= 0x200a) || n == 0x2028 || n == 0x2029 || n == 0x202f || n == 0x205f || n == 0x3000
}

/// The Unicode `Cc` category: the control characters.
pub open spec fn control(c: char) -> bool {
    let n = c as u32;
    n <= 0x1f || 0x7f <= n <= 0x9f
}

pub fn is_control(c: char) -> (r: bool)
    ensures
        r == control(c),
{
    let n: u32 = c as u32;
    n <= 0x1f || (0x7f <= n && n <= 0x9f)
}

pub open spec fn ascii_digit(c: char) -> bool {
    '0' <= c <= '9'
}

pub open spec fn ascii_letter(c: char) -> bool {
    'a' <= c <= 'z' || 'A' <= c <= 'Z'
}

pub open spec fn ascii_alphanumeric(c: char) -> bool {
    ascii_digit(c) || ascii_letter(c)
}

pub fn is_ascii_digit(c: char) -> (r: bool)
    ensures
        r == ascii_digit(c),
{
    '0' <= c && c <= '9'
}

pub fn is_ascii_alphanumeric(c: char) -> (r: bool)
    ensures
        r == ascii_alphanumeric(c),
{
    is_ascii_digit(c) || ('a' <= c && c <= 'z') || ('A' <= c && c <= 'Z')
}

/// The upper-case form of an ASCII letter; any other character unchanged.
pub open spec fn upper(c: char) -> char {
    if 'a' <= c <= 'z' {
        ((c as u8) - 32) as char
    } else {
        c
    }
}

/// The lower-case form of an ASCII letter; any other character unchanged.
pub open spec fn lower(c: char) -> char {
    if 'A' <= c <= 'Z' {
        ((c as u8) + 32) as char
    } else {
        c
    }
}

pub fn to_upper(c: char) -> (r: char)
    ensures
        r == upper(c),
{
    if 'a' <= c && c <= 'z' {
        ((c as u8) - 32) as char
    } else {
        c
    }
}

pub fn to_lower(c: char) -> (r: char)
    ensures
        r == lower(c),
{
    if 'A' <= c && c <= 'Z' {
        ((c as u8) + 32) as char
    } else {
        c
    }
}

pub open spec fn upper_text(s: Seq<char>) -> Seq<char> {
    Seq::new(s.len(), |i: int| upper(s[i]))
}

pub open spec fn lower_text(s: Seq<char>) -> Seq<char> {
    Seq::new(s.len(), |i: int| lower(s[i]))
}

/// `s` with its ASCII letters in upper case.
pub fn ascii_upper(s: &str) -> (r: String)
    ensures
        r@ == upper_text(s@),
{
    let chars = chars_of(s);
    let mut r = String::new();
    let mut i: usize = 0;
    while i < chars.len()
        invariant
            i <= chars@.len(),
            chars@ == s@,
            r@ == upper_text(s@).take(i as int),
        decreases chars@.len() - i,
    {
        r.push(to_upper(chars[i]));
        assert(upper_text(s@).take(i + 1) =~= upper_text(s@).take(i as int).push(
            upper(s@[i as int]),
        ));
        i += 1;
    }
    assert(upper_text(s@).take(s@.len() as int) =~= upper_text(s@));
    r
}

/// `s` with its ASCII letters in lower case.
pub fn ascii_lower(s: &str) -> (r: String)
    ensures
        r@ == lower_text(s@),
{
    let chars = chars_of(s);
    let mut r = String::new();
    let mut i: usize = 0;
    while i < chars.len()
        invariant
            i <= chars@.len(),
            chars@ == s@,
            r@ == lower_text(s@).take(i as int),
        decreases chars@.len() - i,
    {
        r.push(to_lower(chars[i]));
        assert(lower_text(s@).take(i + 1) =~= lower_text(s@).take(i as int).push(
            lower(s@[i as int]),
        ));
        i += 1;
    }
    assert(lower_text(s@).take(s@.len() as int) =~= lower_text(s@));
    r
}

// ---------------------------------------------------------------------------
// Trimming
// ---------------------------------------------------------------------------

/// `s` without its leading white space.
pub open spec fn trim_start(s: Seq<char>) -> Seq<char>
    decreases s.len(),
{
    if s.len() > 0 && white(s[0]) {
        trim_start(s.skip(1))
    } else {
        s
    }
}

/// `s` without its trailing white space.
pub open spec fn trim_end(s: Seq<char>) -> Seq<char>
    decreases s.len(),
{
    if s.len() > 0 && white(s.last()) {
        trim_end(s.drop_last())
    } else {
        s
    }
}

/// `s` without the white space at either end.
pub open spec fn trim(s: Seq<char>) -> Seq<char> {
    trim_end(trim_start(s))
}

/// Whether `s` is empty once trimmed.
pub open spec fn blank(s: Seq<char>) -> bool {
    trim(s).len() == 0
}

/// Text that neither begins nor ends with white space is left as it is.
pub proof fn lemma_trim_solid(s: Seq<char>)
    requires
        s.len() > 0,
        !white(s[0]),
        !white(s.last()),
    ensures
        trim(s) == s,
        !blank(s),
{
}

/// The text of `s` without white space at either end.
pub fn trimmed(s: &str) -> (r: String)
    ensures
        r@ == trim(s@),
{
    let chars = chars_of(s);
    let mut from: usize = 0;
    assert(chars@.skip(0) =~= s@);
    while from < chars.len() && is_whitespace(chars[from])
        invariant
            from <= chars@.len(),
            chars@ == s@,
            trim_start(s@) == trim_start(chars@.skip(from as int)),
        decreases chars@.len() - from,
    {
        assert(chars@.skip(from as int).skip(1) =~= chars@.skip(from + 1));
        from += 1;
    }
    let mut to: usize = chars.len();
    let ghost body = trim_start(s@);
    assert(body == chars@.skip(from as int));
    assert(chars@.subrange(from as int, to as int) =~= body);
    while from < to && is_whitespace(chars[to - 1])
        invariant
            from <= to <= chars@.len(),
            trim_end(body) == trim_end(chars@.subrange(from as int, to as int)),
        decreases to,
    {
        assert(chars@.subrange(from as int, to as int).drop_last() =~= chars@.subrange(
            from as int,
            to - 1,
        ));
        assert(chars@.subrange(from as int, to as int).last() == chars@[to - 1]);
        to -= 1;
    }
    substring(&chars, from, to)
}

/// Whether `s` holds nothing but white space.
pub fn is_blank(s: &str) -> (r: bool)
    ensures
        r == blank(s@),
{
    trimmed(s).as_str().is_empty()
}

// ---------------------------------------------------------------------------
// Splitting
// ---------------------------------------------------------------------------

/// The index of the first `c` in `s`, or the length of `s` when there is none.
pub open spec fn find_char(s: Seq<char>, c: char) -> int
    decreases s.len(),
{
    if s.len() == 0 || s[0] == c {
        0
    } else {
        1 + find_char(s.skip(1), c)
    }
}

pub proof fn lemma_find_char(s: Seq<char>, c: char)
    ensures
        0 <= find_char(s, c) <= s.len(),
        find_char(s, c) < s.len() ==> s[find_char(s, c)] == c,
        forall|j: int| 0 <= j < find_char(s, c) ==> s[j] != c,
    decreases s.len(),
{
    if s.len() == 0 || s[0] == c {
    } else {
        lemma_find_char(s.skip(1), c);
        assert forall|j: int| 0 <= j < find_char(s, c) implies s[j] != c by {
            if j > 0 {
                assert(s[j] == s.skip(1)[j - 1]);
            }
        }
    }
}

pub proof fn lemma_find_char_is(s: Seq<char>, c: char, i: int)
    requires
        0 <= i <= s.len(),
        i < s.len() ==> s[i] == c,
        forall|j: int| 0 <= j < i ==> s[j] != c,
    ensures
        find_char(s, c) == i,
{
    lemma_find_char(s, c);
    let f = find_char(s, c);
    if f < i {
        assert(s[f] != c);
    }
    if i < f {
        assert(s[i] != c);
    }
}

/// The index of the first `c` in `chars[from..]`, or the length when there is none.
pub fn find_from(chars: &Vec<char>, c: char, from: usize) -> (i: usize)
    requires
        from <= chars@.len(),
    ensures
        from <= i <= chars@.len(),
        i - from == find_char(chars@.skip(from as int), c),
{
    let mut i: usize = from;
    while i < chars.len() && chars[i] != c
        invariant
            from <= i <= chars@.len(),
            forall|j: int| from <= j < i ==> chars@[j] != c,
        decreases chars@.len() - i,
    {
        i += 1;
    }
    proof {
        lemma_find_char_is(chars@.skip(from as int), c, i - from);
    }
    i
}

/// The pieces of `s` between occurrences of `sep`; a text without `sep` is one piece.
pub open spec fn split_on(s: Seq<char>, sep: char) -> Seq<Seq<char>>
    decreases s.len(),
{
    let i = find_char(s, sep);
    if 0 <= i < s.len() {
        seq![s.take(i)] + split_on(s.skip(i + 1), sep)
    } else {
        seq![s]
    }
}

/// The pieces of `s` between occurrences of `sep`.
pub fn split(s: &str, sep: char) -> (r: Vec<String>)
    ensures
        texts(r@) == split_on(s@, sep),
{
    let chars = chars_of(s);
    let mut r: Vec<String> = Vec::new();
    let mut from: usize = 0;
    assert(chars@.skip(0) =~= s@);
    assert(texts(r@) + split_on(chars@.skip(0), sep) =~= split_on(s@, sep));
    loop
        invariant
            from <= chars@.len(),
            texts(r@) + split_on(chars@.skip(from as int), sep) == split_on(s@, sep),
        decreases chars@.len() - from,
    {
        let i = find_from(&chars, sep, from);
        let piece = substring(&chars, from, i);
        let ghost rest = chars@.skip(from as int);
        let ghost before = r@;
        r.push(piece);
        assert(piece@ =~= rest.take(i - from));
        assert(texts(r@) =~= texts(before).push(piece@));
        if i == chars.len() {
            assert(rest.take(i - from) =~= rest);
            assert(texts(r@) =~= texts(before) + seq![rest]);
            return r;
        }
        assert(rest.skip(i - from + 1) =~= chars@.skip(i + 1));
        assert(texts(r@) + split_on(chars@.skip(i + 1), sep) =~= texts(before) + (seq![piece@]
            + split_on(chars@.skip(i + 1), sep)));
        from = i + 1;
    }
}

/// What stands before and after the first `sep` of `s`.
pub fn split_once(s: &str, sep: char) -> (r: Option<(String, String)>)
    ensures
        match r {
            Some((left, right)) => {
                let i = find_char(s@, sep);
                &&& 0 <= i < s@.len()
                &&& left@ == s@.take(i)
                &&& right@ == s@.skip(i + 1)
            },
            None => find_char(s@, sep) == s@.len(),
        },
{
    let chars = chars_of(s);
    let i = find_from(&chars, sep, 0);
    assert(chars@.skip(0) =~= s@);
    if i == chars.len() {
        None
    } else {
        let left = substring(&chars, 0, i);
        let right = substring(&chars, i + 1, chars.len());
        assert(left@ =~= s@.take(i as int));
        assert(right@ =~= s@.skip(i + 1));
        Some((left, right))
    }
}

/// A line without the carriage return that ends it, if one does.
pub open spec fn without_return(line: Seq<char>) -> Seq<char> {
    if line.len() > 0 && line.last() == '\r' {
        line.drop_last()
    } else {
        line
    }
}

/// The lines of `s`: each ends at a line feed, and a final line need not have one.
pub open spec fn lines_of(s: Seq<char>) -> Seq<Seq<char>>
    decreases s.len(),
{
    if s.len() == 0 {
        Seq::empty()
    } else {
        let i = find_char(s, '\n');
        if 0 <= i < s.len() {
            seq![without_return(s.take(i))] + lines_of(s.skip(i + 1))
        } else {
            seq![s]
        }
    }
}

/// The lines of `s`, without their line ends.
pub fn lines(s: &str) -> (r: Vec<String>)
    ensures
        texts(r@) == lines_of(s@),
{
    let chars = chars_of(s);
    let mut r: Vec<String> = Vec::new();
    let mut from: usize = 0;
    assert(chars@.skip(0) =~= s@);
    assert(texts(r@) + lines_of(chars@.skip(0)) =~= lines_of(s@));
    while from < chars.len()
        invariant
            from <= chars@.len(),
            texts(r@) + lines_of(chars@.skip(from as int)) == lines_of(s@),
        decreases chars@.len() - from,
    {
        let i = find_from(&chars, '\n', from);
        let ghost rest = chars@.skip(from as int);
        let ghost before = r@;
        let mut end: usize = i;
        if i < chars.len() && i > from && chars[i - 1] == '\r' {
            end = i - 1;
        }
        let piece = substring(&chars, from, end);
        r.push(piece);
        assert(texts(r@) =~= texts(before).push(piece@));
        if i == chars.len() {
            assert(piece@ =~= rest);
            assert(texts(r@) =~= texts(before) + seq![rest]);
            from = i;
            assert(chars@.skip(from as int) =~= Seq::<char>::empty());
            assert(texts(r@) + lines_of(chars@.skip(from as int)) =~= texts(r@));
        } else {
            assert(piece@ =~= without_return(rest.take(i - from)));
            assert(rest.skip(i - from + 1) =~= chars@.skip(i + 1));
            assert(texts(r@) + lines_of(chars@.skip(i + 1)) =~= texts(before) + (seq![piece@]
                + lines_of(chars@.skip(i + 1))));
            from = i + 1;
        }
    }
    assert(chars@.skip(from as int) =~= Seq::<char>::empty());
    assert(texts(r@) + lines_of(chars@.skip(from as int)) =~= texts(r@));
    r
}

/// The number of characters before the first white space of `s`.
pub open spec fn word_length(s: Seq<char>) -> int
    decreases s.len(),
{
    if s.len() == 0 || white(s[0]) {
        0
    } else {
        1 + word_length(s.skip(1))
    }
}

pub proof fn lemma_word_length(s: Seq<char>)
    ensures
        0 <= word_length(s) <= s.len(),
        word_length(s) < s.len() ==> white(s[word_length(s)]),
        forall|j: int| 0 <= j < word_length(s) ==> !white(s[j]),
    decreases s.len(),
{
    if s.len() == 0 || white(s[0]) {
    } else {
        lemma_word_length(s.skip(1));
        assert forall|j: int| 0 <= j < word_length(s) implies !white(s[j]) by {
            if j > 0 {
                assert(s[j] == s.skip(1)[j - 1]);
            }
        }
    }
}

pub proof fn lemma_word_length_is(s: Seq<char>, i: int)
    requires
        0 <= i <= s.len(),
        i < s.len() ==> white(s[i]),
        forall|j: int| 0 <= j < i ==> !white(s[j]),
    ensures
        word_length(s) == i,
{
    lemma_word_length(s);
    let f = word_length(s);
    if f < i {
        assert(!white(s[f]));
    }
    if i < f {
        assert(!white(s[i]));
    }
}

/// The maximal runs of `s` that hold no white space.
pub open spec fn words_of(s: Seq<char>) -> Seq<Seq<char>>
    decreases s.len(),
{
    if s.len() == 0 {
        Seq::empty()
    } else if white(s[0]) {
        words_of(s.skip(1))
    } else {
        proof {
            lemma_word_length(s);
        }
        seq![s.take(word_length(s))] + words_of(s.skip(word_length(s)))
    }
}

/// The words of `s`: its maximal runs without white space.
pub fn words(s: &str) -> (r: Vec<String>)
    ensures
        texts(r@) == words_of(s@),
{
    let chars = chars_of(s);
    let mut r: Vec<String> = Vec::new();
    let mut from: usize = 0;
    assert(chars@.skip(0) =~= s@);
    assert(texts(r@) + words_of(chars@.skip(0)) =~= words_of(s@));
    while from < chars.len()
        invariant
            from <= chars@.len(),
            texts(r@) + words_of(chars@.skip(from as int)) == words_of(s@),
        decreases chars@.len() - from,
    {
        let ghost rest = chars@.skip(from as int);
        if is_whitespace(chars[from]) {
            assert(rest.skip(1) =~= chars@.skip(from + 1));
            from += 1;
        } else {
            let mut i: usize = from;
            while i < chars.len() && !is_whitespace(chars[i])
                invariant
                    from <= i <= chars@.len(),
                    forall|j: int| from <= j < i ==> !white(chars@[j]),
                decreases chars@.len() - i,
            {
                i += 1;
            }
            proof {
                lemma_word_length_is(rest, i - from);
            }
            let ghost before = r@;
            let piece = substring(&chars, from, i);
            r.push(piece);
            assert(piece@ =~= rest.take(i - from));
            assert(rest.skip(i - from) =~= chars@.skip(i as int));
            assert(texts(r@) =~= texts(before).push(piece@));
            assert(texts(r@) + words_of(chars@.skip(i as int)) =~= texts(before) + (seq![piece@]
                + words_of(chars@.skip(i as int))));
            assert(i > from);
            from = i;
        }
    }
    assert(chars@.skip(from as int) =~= Seq::<char>::empty());
    assert(texts(r@) + words_of(chars@.skip(from as int)) =~= texts(r@));
    r
}

// ---------------------------------------------------------------------------
// Joining
// ---------------------------------------------------------------------------

/// `parts` with `sep` between neighbours.
pub open spec fn joined(parts: Seq<Seq<char>>, sep: Seq<char>) -> Seq<char>
    decreases parts.len(),
{
    if parts.len() == 0 {
        Seq::empty()
    } else if parts.len() == 1 {
        parts[0]
    } else {
        joined(parts.drop_last(), sep) + sep + parts.last()
    }
}

/// The parts with `sep` between neighbours.
pub fn join(parts: &Vec<String>, sep: &str) -> (r: String)
    ensures
        r@ == joined(texts(parts@), sep@),
{
    let mut r = String::new();
    let mut i: usize = 0;
    let ghost all = texts(parts@);
    while i < parts.len()
        invariant
            i <= parts@.len(),
            all == texts(parts@),
            r@ == joined(all.take(i as int), sep@),
        decreases parts@.len() - i,
    {
        assert(all.take(i + 1).drop_last() =~= all.take(i as int));
        assert(all.take(i + 1).last() == parts@[i as int]@);
        if i > 0 {
            r.push_str(sep);
        } else {
            assert(all.take(0).len() == 0);
        }
        r.push_str(parts[i].as_str());
        proof {
            if i == 0 {
                assert(r@ =~= parts@[0]@);
            }
        }
        i += 1;
    }
    assert(all.take(all.len() as int) =~= all);
    r
}


// ---------------------------------------------------------------------------
// Searching
// ---------------------------------------------------------------------------

/// Whether `s` begins with `prefix`.
pub open spec fn begins(s: Seq<char>, prefix: Seq<char>) -> bool {
    prefix.len() <= s.len() && s.take(prefix.len() as int) == prefix
}

/// Whether `s` ends with `suffix`.
pub open spec fn ends(s: Seq<char>, suffix: Seq<char>) -> bool {
    suffix.len() <= s.len() && s.skip(s.len() - suffix.len()) == suffix
}

/// Whether `part` stands in `s` at index `i`.
pub open spec fn stands_at(s: Seq<char>, part: Seq<char>, i: int) -> bool {
    0 <= i && i + part.len() <= s.len() && s.subrange(i, i + part.len()) == part
}

/// The first index at or after `from` at which `part` stands in `s`, if there is one.
pub open spec fn find_text(s: Seq<char>, part: Seq<char>, from: int) -> Option<int>
    decreases s.len() + 1 - from,
{
    if from < 0 || from > s.len() {
        None
    } else if stands_at(s, part, from) {
        Some(from)
    } else {
        find_text(s, part, from + 1)
    }
}

/// Whether `part` stands somewhere in `s`.
pub open spec fn holds_text(s: Seq<char>, part: Seq<char>) -> bool {
    find_text(s, part, 0) is Some
}

/// A text that stands somewhere is found, and what is found stands there first.
pub proof fn lemma_find_text(s: Seq<char>, part: Seq<char>, from: int)
    requires
        0 <= from <= s.len(),
    ensures
        match find_text(s, part, from) {
            Some(i) => from <= i && stands_at(s, part, i) && forall|j: int|
                from <= j < i ==> !#[trigger] stands_at(s, part, j),
            None => forall|j: int| from <= j ==> !#[trigger] stands_at(s, part, j),
        },
    decreases s.len() - from,
{
    if !stands_at(s, part, from) {
        if from < s.len() {
            lemma_find_text(s, part, from + 1);
        } else {
            assert(find_text(s, part, from + 1) is None);
        }
    }
}

fn stands_here(s: &Vec<char>, part: &Vec<char>, i: usize) -> (r: bool)
    requires
        i <= s@.len(),
    ensures
        r == stands_at(s@, part@, i as int),
{
    if part.len() > s.len() - i {
        return false;
    }
    let n: usize = s.len();
    let mut k: usize = 0;
    while k < part.len()
        invariant
            k <= part@.len(),
            n == s@.len(),
            i + part@.len() <= n,
            s@.subrange(i as int, i + k) == part@.take(k as int),
        decreases part@.len() - k,
    {
        if s[i + k] != part[k] {
            assert(s@.subrange(i as int, i + part@.len())[k as int] != part@[k as int]);
            return false;
        }
        assert(s@.subrange(i as int, i + k + 1) =~= s@.subrange(i as int, i + k).push(
            s@[i + k],
        ));
        assert(part@.take(k + 1) =~= part@.take(k as int).push(part@[k as int]));
        k += 1;
    }
    assert(part@.take(part@.len() as int) =~= part@);
    true
}

/// The first index at or after `from` at which `part` stands in `s`.
pub fn find_part(s: &Vec<char>, part: &Vec<char>, from: usize) -> (r: Option<usize>)
    requires
        from <= s@.len(),
    ensures
        match r {
            Some(i) => find_text(s@, part@, from as int) == Some(i as int) && from <= i && i
                + part@.len() <= s@.len(),
            None => find_text(s@, part@, from as int) is None,
        },
{
    let mut i: usize = from;
    loop
        invariant
            from <= i <= s@.len(),
            find_text(s@, part@, from as int) == find_text(s@, part@, i as int),
        decreases s@.len() - i,
    {
        if stands_here(s, part, i) {
            return Some(i);
        }
        if i == s.len() {
            assert(find_text(s@, part@, i + 1) is None);
            return None;
        }
        i += 1;
    }
}

/// Whether `part` stands somewhere in `s`.
pub fn contains_text(s: &str, part: &str) -> (r: bool)
    ensures
        r == holds_text(s@, part@),
{
    find_part(&chars_of(s), &chars_of(part), 0).is_some()
}

/// Whether `s` begins with `prefix`.
pub fn starts_with(s: &str, prefix: &str) -> (r: bool)
    ensures
        r == begins(s@, prefix@),
{
    let chars = chars_of(s);
    assert(prefix@.len() <= s@.len() ==> s@.subrange(0, prefix@.len() as int) =~= s@.take(
        prefix@.len() as int,
    ));
    stands_here(&chars, &chars_of(prefix), 0)
}

/// Whether `s` ends with `suffix`.
pub fn ends_with(s: &str, suffix: &str) -> (r: bool)
    ensures
        r == ends(s@, suffix@),
{
    let chars = chars_of(s);
    let tail = chars_of(suffix);
    if tail.len() > chars.len() {
        return false;
    }
    let i: usize = chars.len() - tail.len();
    assert(s@.subrange(i as int, s@.len() as int) =~= s@.skip(i as int));
    stands_here(&chars, &tail, i)
}

/// Whether `c` occurs in `s`.
pub fn contains_char(s: &str, c: char) -> (r: bool)
    ensures
        r == !lacks(s@, c),
{
    let chars = chars_of(s);
    let i = find_from(&chars, c, 0);
    proof {
        assert(chars@.skip(0) =~= s@);
        lemma_find_char(s@, c);
        if i < chars@.len() {
            assert(s@[i as int] == c);
        }
    }
    i < chars.len()
}

/// What is left of `s` after `prefix`, if it begins with it.
pub fn strip_prefix(s: &str, prefix: &str) -> (r: Option<String>)
    ensures
        match r {
            Some(rest) => begins(s@, prefix@) && rest@ == s@.skip(prefix@.len() as int),
            None => !begins(s@, prefix@),
        },
{
    if starts_with(s, prefix) {
        let chars = chars_of(s);
        let n = chars_of(prefix).len();
        let rest = substring(&chars, n, chars.len());
        assert(rest@ =~= s@.skip(n as int));
        Some(rest)
    } else {
        None
    }
}

/// The number of characters of `s`.
pub fn char_count(s: &str) -> (r: usize)
    ensures
        r == s@.len(),
{
    chars_of(s).len()
}

/// The first `n` characters of `s`, or all of them when there are fewer.
pub open spec fn first_chars(s: Seq<char>, n: nat) -> Seq<char> {
    if s.len() <= n {
        s
    } else {
        s.take(n as int)
    }
}

/// The first `n` characters of `s`, or all of them when there are fewer.
pub fn take_chars(s: &str, n: usize) -> (r: String)
    ensures
        r@ == first_chars(s@, n as nat),
{
    let chars = chars_of(s);
    if chars.len() <= n {
        s.to_owned()
    } else {
        let r = substring(&chars, 0, n);
        assert(r@ =~= s@.take(n as int));
        r
    }
}

// ---------------------------------------------------------------------------
// Decimal numbers
// ---------------------------------------------------------------------------

/// The character of one decimal digit.
pub open spec fn digit(d: int) -> char {
    ('0' as u8 + d) as char
}

/// A natural number in decimal.
pub open spec fn decimal(n: nat) -> Seq<char>
    decreases n,
{
    if n < 10 {
        seq![digit(n as int)]
    } else {
        decimal(n / 10).push(digit((n % 10) as int))
    }
}

/// An integer in decimal, with a minus sign when it is negative.
pub open spec fn signed_decimal(i: int) -> Seq<char> {
    if i < 0 {
        seq!['-'] + decimal((-i) as nat)
    } else {
        decimal(i as nat)
    }
}

fn digit_char(d: u8) -> (c: char)
    requires
        d < 10,
    ensures
        c == digit(d as int),
{
    (48u8 + d) as char
}

/// `n` in decimal.
pub fn decimal_text(n: u64) -> (r: String)
    ensures
        r@ == decimal(n as nat),
    decreases n,
{
    if n < 10 {
        let mut r = String::new();
        r.push(digit_char(n as u8));
        assert(r@ =~= seq![digit(n as int)]);
        r
    } else {
        let mut r = decimal_text(n / 10);
        r.push(digit_char((n % 10) as u8));
        r
    }
}

/// `n` in decimal.
pub fn size_text(n: usize) -> (r: String)
    ensures
        r@ == decimal(n as nat),
{
    decimal_text(n as u64)
}

/// `i` in decimal, with a minus sign when it is negative.
pub fn signed_text(i: i64) -> (r: String)
    ensures
        r@ == signed_decimal(i as int),
{
    if i < 0 {
        let magnitude: u64 = if i == i64::MIN {
            0x8000_0000_0000_0000
        } else {
            (-i) as u64
        };
        let mut r = String::new();
        r.push('-');
        r.push_str(decimal_text(magnitude).as_str());
        assert(r@ =~= seq!['-'] + decimal(magnitude as nat));
        r
    } else {
        decimal_text(i as u64)
    }
}

/// `n` zeros.
pub open spec fn zeros(n: nat) -> Seq<char> {
    Seq::new(n, |i: int| '0')
}

/// `n` in decimal, with leading zeros up to a width of `width`.
pub open spec fn padded(n: nat, width: nat) -> Seq<char> {
    let d = decimal(n);
    if d.len() < width {
        zeros((width - d.len()) as nat) + d
    } else {
        d
    }
}

/// `n` in decimal, with leading zeros up to a width of `width`.
pub fn padded_text(n: u64, width: usize) -> (r: String)
    ensures
        r@ == padded(n as nat, width as nat),
{
    let digits = decimal_text(n);
    let count = chars_of(digits.as_str()).len();
    let mut r = String::new();
    let mut i: usize = count;
    while i < width
        invariant
            count <= i,
            count < width ==> i <= width,
            count >= width ==> i == count,
            r@ == zeros((i - count) as nat),
        decreases width - i,
    {
        r.push('0');
        i += 1;
        assert(r@ =~= zeros((i - count) as nat));
    }
    r.push_str(digits.as_str());
    assert(r@ =~= padded(n as nat, width as nat));
    r
}

/// Whether every character of `s` is a decimal digit.
pub open spec fn all_digits(s: Seq<char>) -> bool {
    forall|i: int| 0 <= i < s.len() ==> ascii_digit(#[trigger] s[i])
}

/// The number that the digits of `s` denote.
pub open spec fn digits_value(s: Seq<char>) -> nat
    decreases s.len(),
{
    if s.len() == 0 {
        0
    } else {
        digits_value(s.drop_last()) * 10 + (s.last() as u8 - '0' as u8) as nat
    }
}

/// A non-empty run of digits that denotes a number of at most `max`.
pub open spec fn parse_digits(s: Seq<char>, max: nat) -> Option<nat> {
    if s.len() > 0 && all_digits(s) && digits_value(s) <= max {
        Some(digits_value(s))
    } else {
        None
    }
}

/// An unsigned decimal number of at most `max`; one leading plus sign may stand before it.
pub open spec fn parse_natural(s: Seq<char>, max: nat) -> Option<nat> {
    if s.len() > 0 && s[0] == '+' {
        parse_digits(s.skip(1), max)
    } else {
        parse_digits(s, max)
    }
}

/// A signed 32-bit decimal number; one leading plus or minus sign may stand before it.
pub open spec fn parse_integer(s: Seq<char>) -> Option<int> {
    if s.len() > 0 && s[0] == '-' {
        match parse_digits(s.skip(1), 0x8000_0000) {
            Some(n) => Some(-(n as int)),
            None => None,
        }
    } else {
        match parse_natural(s, 0x7fff_ffff) {
            Some(n) => Some(n as int),
            None => None,
        }
    }
}

proof fn lemma_digits_value_prefix(s: Seq<char>, i: int)
    requires
        0 <= i <= s.len(),
        all_digits(s),
    ensures
        digits_value(s.take(i)) <= digits_value(s),
    decreases s.len(),
{
    if i == s.len() {
        assert(s.take(i) =~= s);
    } else {
        lemma_digits_value_prefix(s.drop_last(), i);
        assert(s.drop_last().take(i) =~= s.take(i));
        assert(ascii_digit(s.last()));
    }
}

fn parse_digits_from(chars: &Vec<char>, from: usize, max: u64) -> (r: Option<u64>)
    requires
        from <= chars@.len(),
    ensures
        match r {
            Some(n) => parse_digits(chars@.skip(from as int), max as nat) == Some(n as nat),
            None => parse_digits(chars@.skip(from as int), max as nat) is None,
        },
{
    let ghost s = chars@.skip(from as int);
    if from == chars.len() {
        return None;
    }
    let mut i: usize = from;
    let mut value: u64 = 0;
    assert(s.take(0) =~= Seq::<char>::empty());
    while i < chars.len()
        invariant
            from <= i <= chars@.len(),
            from < chars@.len(),
            s == chars@.skip(from as int),
            value <= max,
            forall|j: int| 0 <= j < i - from ==> ascii_digit(#[trigger] s[j]),
            value == digits_value(s.take(i - from)),
        decreases chars@.len() - i,
    {
        let c = chars[i];
        assert(c == s[i - from]);
        if !is_ascii_digit(c) {
            assert(!all_digits(s));
            return None;
        }
        let d: u64 = ((c as u8) - 48u8) as u64;
        assert(s.take(i - from + 1).drop_last() =~= s.take(i - from));
        assert(s.take(i - from + 1).last() == c);
        assert(digits_value(s.take(i - from + 1)) == value * 10 + d);
        if value > max / 10 || (value == max / 10 && d > max % 10) {
            proof {
                if all_digits(s) {
                    lemma_digits_value_prefix(s, i - from + 1);
                }
                assert(value * 10 + d > max);
            }
            return None;
        }
        assert(value * 10 + d <= max);
        value = value * 10 + d;
        i += 1;
    }
    assert(s.take(s.len() as int) =~= s);
    Some(value)
}

/// The unsigned decimal number of at most `max` that `s` denotes, if it denotes one.
pub fn parse_u64(s: &str, max: u64) -> (r: Option<u64>)
    ensures
        match r {
            Some(n) => parse_natural(s@, max as nat) == Some(n as nat),
            None => parse_natural(s@, max as nat) is None,
        },
{
    let chars = chars_of(s);
    if chars.len() > 0 && chars[0] == '+' {
        parse_digits_from(&chars, 1, max)
    } else {
        assert(chars@.skip(0) =~= s@);
        parse_digits_from(&chars, 0, max)
    }
}

/// The number that `s` denotes, when it denotes one that fits a `usize`.
pub fn parse_usize(s: &str) -> (r: Option<usize>)
    ensures
        match r {
            Some(n) => parse_natural(s@, usize::MAX as nat) == Some(n as nat),
            None => parse_natural(s@, usize::MAX as nat) is None,
        },
{
    match parse_u64(s, usize::MAX as u64) {
        Some(n) => Some(n as usize),
        None => None,
    }
}

/// The number that `s` denotes, when it denotes one that fits an `i32`.
pub fn parse_i32(s: &str) -> (r: Option<i32>)
    ensures
        match r {
            Some(n) => parse_integer(s@) == Some(n as int),
            None => parse_integer(s@) is None,
        },
{
    let chars = chars_of(s);
    if chars.len() > 0 && chars[0] == '-' {
        match parse_digits_from(&chars, 1, 0x8000_0000) {
            Some(n) => Some((-(n as i64)) as i32),
            None => None,
        }
    } else {
        match parse_u64(s, 0x7fff_ffff) {
            Some(n) => Some(n as i32),
            None => None,
        }
    }
}

pub proof fn lemma_decimal_digits(n: nat)
    ensures
        decimal(n).len() > 0,
        all_digits(decimal(n)),
        digits_value(decimal(n)) == n,
    decreases n,
{
    if n < 10 {
        let s = decimal(n);
        assert(s.drop_last() =~= Seq::<char>::empty());
        assert(digits_value(s.drop_last()) == 0);
    } else {
        lemma_decimal_digits(n / 10);
        let s = decimal(n);
        assert(s.drop_last() =~= decimal(n / 10));
        assert forall|i: int| 0 <= i < s.len() implies ascii_digit(#[trigger] s[i]) by {
            if i < s.len() - 1 {
                assert(s[i] == decimal(n / 10)[i]);
            }
        }
    }
}

/// A natural number within the bound is read back from its decimal text.
pub proof fn law_decimal_reads_back(n: nat, max: nat)
    requires
        n <= max,
    ensures
        parse_natural(decimal(n), max) == Some(n),
{
    lemma_decimal_digits(n);
    assert(ascii_digit(decimal(n)[0]));
}

/// A 32-bit integer is read back from its decimal text.
pub proof fn law_signed_decimal_reads_back(i: int)
    requires
        i32::MIN <= i <= i32::MAX,
    ensures
        parse_integer(signed_decimal(i)) == Some(i),
{
    if i < 0 {
        lemma_decimal_digits((-i) as nat);
        let s = signed_decimal(i);
        assert(s.skip(1) =~= decimal((-i) as nat));
    } else {
        lemma_decimal_digits(i as nat);
        assert(ascii_digit(decimal(i as nat)[0]));
        law_decimal_reads_back(i as nat, 0x7fff_ffff);
    }
}


/// A number stands on one line.
pub proof fn lemma_numbers_on_one_line(i: int)
    ensures
        lacks(signed_decimal(i), '\n'),
        i >= 0 ==> lacks(decimal(i as nat), '\n'),
{
    let s = signed_decimal(i);
    if i < 0 {
        lemma_decimal_digits((-i) as nat);
        assert forall|j: int| 0 <= j < s.len() implies #[trigger] s[j] != '\n' by {
            if j > 0 {
                assert(ascii_digit(decimal((-i) as nat)[j - 1]));
            }
        }
    } else {
        lemma_decimal_digits(i as nat);
        assert forall|j: int| 0 <= j < s.len() implies #[trigger] s[j] != '\n' by {
            assert(ascii_digit(decimal(i as nat)[j]));
        }
    }
}

// ---------------------------------------------------------------------------
// How splitting and joining relate
// ---------------------------------------------------------------------------

pub proof fn lemma_find_char_append(x: Seq<char>, y: Seq<char>, c: char)
    ensures
        find_char(x + y, c) == if find_char(x, c) < x.len() {
            find_char(x, c)
        } else {
            x.len() + find_char(y, c)
        },
{
    lemma_find_char(x, c);
    lemma_find_char(y, c);
    let i = if find_char(x, c) < x.len() {
        find_char(x, c)
    } else {
        x.len() + find_char(y, c)
    };
    assert forall|j: int| 0 <= j < i implies (x + y)[j] != c by {
        if j < x.len() {
            assert((x + y)[j] == x[j]);
        } else {
            assert((x + y)[j] == y[j - x.len()]);
        }
    }
    lemma_find_char_is(x + y, c, i);
}

/// Splitting two texts with a separator between them splits each of them.
pub proof fn lemma_split_append(x: Seq<char>, y: Seq<char>, sep: char)
    ensures
        split_on(x + seq![sep] + y, sep) == split_on(x, sep) + split_on(y, sep),
    decreases x.len(),
{
    lemma_find_char(x, sep);
    let i = find_char(x, sep);
    let whole = x + seq![sep] + y;
    assert(whole =~= x + (seq![sep] + y));
    lemma_find_char_append(x, seq![sep] + y, sep);
    assert((seq![sep] + y)[0] == sep);
    if i < x.len() {
        assert(whole.take(i) =~= x.take(i));
        assert(whole.skip(i + 1) =~= x.skip(i + 1) + seq![sep] + y);
        lemma_split_append(x.skip(i + 1), y, sep);
        assert(split_on(whole, sep) =~= seq![x.take(i)] + (split_on(x.skip(i + 1), sep) + split_on(
            y,
            sep,
        )));
        assert(split_on(x, sep) + split_on(y, sep) =~= seq![x.take(i)] + (split_on(
            x.skip(i + 1),
            sep,
        ) + split_on(y, sep)));
    } else {
        assert(whole.take(x.len() as int) =~= x);
        assert(whole.skip(x.len() as int + 1) =~= y);
    }
}

/// Whether `c` occurs nowhere in `s`.
pub open spec fn lacks(s: Seq<char>, c: char) -> bool {
    forall|i: int| 0 <= i < s.len() ==> #[trigger] s[i] != c
}

/// Texts without the separator are recovered by splitting what joining them gives.
pub proof fn law_split_undoes_join(parts: Seq<Seq<char>>, sep: char)
    requires
        parts.len() > 0,
        forall|i: int| 0 <= i < parts.len() ==> lacks(#[trigger] parts[i], sep),
    ensures
        split_on(joined(parts, seq![sep]), sep) == parts,
    decreases parts.len(),
{
    let last = parts.last();
    assert(lacks(parts[parts.len() - 1], sep));
    lemma_find_char_is(last, sep, last.len() as int);
    assert(split_on(last, sep) == seq![last]);
    if parts.len() == 1 {
        assert(parts =~= seq![last]);
    } else {
        let rest = parts.drop_last();
        assert forall|i: int| 0 <= i < rest.len() implies lacks(#[trigger] rest[i], sep) by {
            assert(rest[i] == parts[i]);
        }
        law_split_undoes_join(rest, sep);
        lemma_split_append(joined(rest, seq![sep]), last, sep);
        assert(parts =~= rest + seq![last]);
    }
}

proof fn lemma_lines_are_split(s: Seq<char>)
    requires
        s.len() > 0,
        s.last() != '\n',
        lacks(s, '\r'),
    ensures
        lines_of(s) == split_on(s, '\n'),
    decreases s.len(),
{
    lemma_find_char(s, '\n');
    let i = find_char(s, '\n');
    if i < s.len() {
        let rest = s.skip(i + 1);
        assert(rest.last() == s.last());
        assert forall|j: int| 0 <= j < rest.len() implies #[trigger] rest[j] != '\r' by {
            assert(rest[j] == s[i + 1 + j]);
        }
        lemma_lines_are_split(rest);
        if i > 0 {
            assert(s.take(i).last() == s[i - 1]);
        }
        assert(without_return(s.take(i)) == s.take(i));
    }
}

/// Joined texts hold no character that neither they nor what joins them holds.
pub proof fn lemma_join_lacks(parts: Seq<Seq<char>>, sep: Seq<char>, c: char)
    requires
        lacks(sep, c),
        forall|i: int| 0 <= i < parts.len() ==> lacks(#[trigger] parts[i], c),
    ensures
        lacks(joined(parts, sep), c),
    decreases parts.len(),
{
    if parts.len() == 1 {
        assert(lacks(parts[0], c));
    } else if parts.len() > 1 {
        let rest = parts.drop_last();
        assert forall|i: int| 0 <= i < rest.len() implies lacks(#[trigger] rest[i], c) by {
            assert(rest[i] == parts[i]);
        }
        lemma_join_lacks(rest, sep, c);
        let start = joined(rest, sep) + sep;
        let whole = start + parts.last();
        assert(lacks(parts[parts.len() - 1], c));
        assert forall|i: int| 0 <= i < whole.len() implies #[trigger] whole[i] != c by {
            if i < joined(rest, sep).len() {
                assert(whole[i] == joined(rest, sep)[i]);
            } else if i < start.len() {
                assert(whole[i] == sep[i - joined(rest, sep).len()]);
            } else {
                assert(whole[i] == parts.last()[i - start.len()]);
            }
        }
    }
}

/// Texts that are not empty and hold no line end are the lines of what joining them gives.
pub proof fn law_lines_undo_join(parts: Seq<Seq<char>>)
    requires
        parts.len() > 0,
        forall|i: int|
            0 <= i < parts.len() ==> (#[trigger] parts[i]).len() > 0 && lacks(parts[i], '\n')
                && lacks(parts[i], '\r'),
    ensures
        lines_of(joined(parts, seq!['\n'])) == parts,
{
    let whole = joined(parts, seq!['\n']);
    law_split_undoes_join(parts, '\n');
    lemma_join_lacks(parts, seq!['\n'], '\r');
    let last = parts[parts.len() - 1];
    assert(last.last() != '\n');
    assert(whole.last() == last.last());
    lemma_lines_are_split(whole);
}

/// Text without white space is a word.
pub proof fn lemma_one_word(word: Seq<char>)
    requires
        word.len() > 0,
        forall|i: int| 0 <= i < word.len() ==> !white(#[trigger] word[i]),
    ensures
        words_of(word) == seq![word],
{
    lemma_word_length_is(word, word.len() as int);
    assert(word.take(word.len() as int) =~= word);
    assert(word.skip(word.len() as int) =~= Seq::<char>::empty());
    assert(words_of(Seq::<char>::empty()) =~= Seq::<Seq<char>>::empty());
    assert(!white(word[0]));
    assert(words_of(word) =~= seq![word]);
}

/// Whether a text is white space throughout.
pub open spec fn all_white(s: Seq<char>) -> bool {
    forall|i: int| 0 <= i < s.len() ==> white(#[trigger] s[i])
}

/// Whether a text is a word: it is not empty and holds no white space.
pub open spec fn is_word(s: Seq<char>) -> bool {
    s.len() > 0 && forall|i: int| 0 <= i < s.len() ==> !white(#[trigger] s[i])
}

proof fn lemma_trim_start_padded(before: Seq<char>, rest: Seq<char>)
    requires
        all_white(before),
        rest.len() > 0 ==> !white(rest[0]),
    ensures
        trim_start(before + rest) == rest,
    decreases before.len(),
{
    if before.len() == 0 {
        assert(before + rest =~= rest);
    } else {
        assert(white(before[0]));
        assert((before + rest).skip(1) =~= before.skip(1) + rest);
        assert forall|i: int| 0 <= i < before.skip(1).len() implies white(
            #[trigger] before.skip(1)[i],
        ) by {
            assert(white(before[i + 1]));
        }
        lemma_trim_start_padded(before.skip(1), rest);
    }
}

proof fn lemma_trim_end_padded(rest: Seq<char>, after: Seq<char>)
    requires
        all_white(after),
        rest.len() > 0 ==> !white(rest.last()),
    ensures
        trim_end(rest + after) == rest,
    decreases after.len(),
{
    if after.len() == 0 {
        assert(rest + after =~= rest);
    } else {
        assert(white(after[after.len() - 1]));
        assert((rest + after).drop_last() =~= rest + after.drop_last());
        assert forall|i: int| 0 <= i < after.drop_last().len() implies white(
            #[trigger] after.drop_last()[i],
        ) by {
            assert(white(after[i]));
        }
        lemma_trim_end_padded(rest, after.drop_last());
    }
}

/// White space around a text is what trimming takes away.
pub proof fn lemma_trim_padded(before: Seq<char>, body: Seq<char>, after: Seq<char>)
    requires
        all_white(before),
        all_white(after),
        body.len() > 0,
        !white(body[0]),
        !white(body.last()),
    ensures
        trim(before + body + after) == body,
{
    assert(before + body + after =~= before + (body + after));
    lemma_trim_start_padded(before, body + after);
    lemma_trim_end_padded(body, after);
}

proof fn lemma_trim_start_parts(s: Seq<char>) -> (before: Seq<char>)
    ensures
        s == before + trim_start(s),
        all_white(before),
        trim_start(s).len() > 0 ==> !white(trim_start(s)[0]),
    decreases s.len(),
{
    if s.len() > 0 && white(s[0]) {
        let rest = lemma_trim_start_parts(s.skip(1));
        let before = seq![s[0]] + rest;
        assert(s =~= before + trim_start(s)) by {
            assert(s =~= seq![s[0]] + s.skip(1));
        }
        before
    } else {
        assert(Seq::<char>::empty() + s =~= s);
        Seq::empty()
    }
}

proof fn lemma_trim_end_parts(s: Seq<char>) -> (after: Seq<char>)
    ensures
        s == trim_end(s) + after,
        all_white(after),
        trim_end(s).len() > 0 ==> !white(trim_end(s).last()) && trim_end(s)[0] == s[0],
    decreases s.len(),
{
    if s.len() > 0 && white(s.last()) {
        let rest = lemma_trim_end_parts(s.drop_last());
        let after = rest.push(s.last());
        assert(s =~= trim_end(s) + after) by {
            assert(s =~= s.drop_last().push(s.last()));
        }
        after
    } else {
        assert(s + Seq::<char>::empty() =~= s);
        Seq::empty()
    }
}

/// What trimming takes away is white space around the text.
pub proof fn lemma_trim_parts(s: Seq<char>) -> (parts: (Seq<char>, Seq<char>))
    ensures
        s == parts.0 + trim(s) + parts.1,
        all_white(parts.0),
        all_white(parts.1),
        trim(s).len() > 0 ==> !white(trim(s)[0]) && !white(trim(s).last()),
{
    let before = lemma_trim_start_parts(s);
    let after = lemma_trim_end_parts(trim_start(s));
    assert(s =~= before + trim(s) + after);
    (before, after)
}

proof fn lemma_no_words(s: Seq<char>)
    requires
        words_of(s).len() == 0,
    ensures
        all_white(s),
    decreases s.len(),
{
    if s.len() > 0 {
        assert(white(s[0]));
        lemma_no_words(s.skip(1));
        assert forall|i: int| 0 <= i < s.len() implies white(#[trigger] s[i]) by {
            if i > 0 {
                assert(s[i] == s.skip(1)[i - 1]);
            }
        }
    }
}

/// A trimmed text with one word is that word.
pub proof fn lemma_only_word(s: Seq<char>)
    requires
        s.len() > 0,
        !white(s[0]),
        !white(s.last()),
        words_of(s).len() == 1,
    ensures
        is_word(s),
{
    lemma_word_length(s);
    let n = word_length(s);
    assert(words_of(s) == seq![s.take(n)] + words_of(s.skip(n)));
    lemma_no_words(s.skip(n));
    if n < s.len() {
        assert(s.last() == s.skip(n)[s.len() - n - 1]);
    }
}

/// Two words with a space between them are two words.
pub proof fn lemma_two_words(first: Seq<char>, second: Seq<char>)
    requires
        first.len() > 0,
        second.len() > 0,
        forall|i: int| 0 <= i < first.len() ==> !white(#[trigger] first[i]),
        forall|i: int| 0 <= i < second.len() ==> !white(#[trigger] second[i]),
    ensures
        words_of(first + seq![' '] + second) == seq![first, second],
{
    let whole = first + seq![' '] + second;
    let n = first.len() as int;
    assert(whole[n] == ' ');
    assert forall|j: int| 0 <= j < n implies !white(whole[j]) by {
        assert(whole[j] == first[j]);
    }
    assert(whole[0] == first[0]);
    lemma_word_length_is(whole, n);
    assert(whole.take(n) =~= first);
    let rest = whole.skip(n);
    assert(rest[0] == ' ');
    assert(rest.skip(1) =~= second);
    lemma_one_word(second);
    assert(words_of(rest) == seq![second]);
    assert(words_of(whole) =~= seq![first, second]);
}

/// The pieces of a split hold only characters of the text, and never the separator.
pub proof fn lemma_split_pieces(s: Seq<char>, sep: char)
    ensures
        split_on(s, sep).len() > 0,
        forall|k: int, c: char|
            0 <= k < split_on(s, sep).len() && (c == sep || lacks(s, c)) ==> #[trigger] lacks(
                split_on(s, sep)[k],
                c,
            ),
    decreases s.len(),
{
    lemma_find_char(s, sep);
    let i = find_char(s, sep);
    if i < s.len() {
        let rest = s.skip(i + 1);
        lemma_split_pieces(rest, sep);
        assert forall|k: int, c: char|
            0 <= k < split_on(s, sep).len() && (c == sep || lacks(s, c)) implies #[trigger] lacks(
            split_on(s, sep)[k],
            c,
        ) by {
            if k == 0 {
                assert(split_on(s, sep)[0] == s.take(i));
            } else {
                assert(split_on(s, sep)[k] == split_on(rest, sep)[k - 1]);
                if lacks(s, c) {
                    assert forall|j: int| 0 <= j < rest.len() implies #[trigger] rest[j] != c by {
                        assert(rest[j] == s[j + i + 1]);
                    }
                }
            }
        }
    }
}

// ---------------------------------------------------------------------------
// Sizes
// ---------------------------------------------------------------------------

/// The number of bytes of a text.
pub open spec fn byte_len(s: Seq<char>) -> nat {
    encode_utf8(s).len()
}

/// A text has at least as many bytes as characters.
pub proof fn lemma_chars_within_bytes(s: Seq<char>)
    ensures
        s.len() <= byte_len(s),
    decreases s.len(),
{
    if s.len() > 0 {
        lemma_chars_within_bytes(s.drop_first());
        vstd::utf8::encode_utf8_first_scalar(s);
    }
}

/// Two texts in a row have the bytes of both.
pub proof fn lemma_bytes_add_up(x: Seq<char>, y: Seq<char>)
    ensures
        byte_len(x + y) == byte_len(x) + byte_len(y),
    decreases x.len(),
{
    if x.len() == 0 {
        assert(x + y =~= y);
    } else {
        assert((x + y).drop_first() =~= x.drop_first() + y);
        lemma_bytes_add_up(x.drop_first(), y);
    }
}

/// The number of bytes of a text.
pub fn byte_count(s: &str) -> (r: usize)
    ensures
        r == byte_len(s@),
{
    s.as_bytes().len()
}

/// A text has at most as many lines as characters.
pub proof fn lemma_lines_within_chars(s: Seq<char>)
    ensures
        lines_of(s).len() <= s.len(),
    decreases s.len(),
{
    if s.len() > 0 {
        let i = find_char(s, '\n');
        lemma_find_char(s, '\n');
        if i < s.len() {
            lemma_lines_within_chars(s.skip(i + 1));
        }
    }
}

// ---------------------------------------------------------------------------
// Replacing
// ---------------------------------------------------------------------------

/// `s` with every occurrence of `part`, found from the left, replaced.
pub open spec fn replaced(s: Seq<char>, part: Seq<char>, with: Seq<char>) -> Seq<char>
    decreases s.len(),
{
    match find_text(s, part, 0) {
        Some(i) => if part.len() > 0 && 0 <= i && i + part.len() <= s.len() {
            s.take(i) + with + replaced(s.skip(i + part.len()), part, with)
        } else {
            s
        },
        None => s,
    }
}

proof fn lemma_find_text_skip(s: Seq<char>, part: Seq<char>, from: int, cut: int)
    requires
        0 <= cut <= from <= s.len(),
    ensures
        match find_text(s, part, from) {
            Some(i) => find_text(s.skip(cut), part, from - cut) == Some(i - cut),
            None => find_text(s.skip(cut), part, from - cut) is None,
        },
    decreases s.len() + 1 - from,
{
    let rest = s.skip(cut);
    if from + part.len() <= s.len() {
        assert(rest.subrange(from - cut, from - cut + part.len()) =~= s.subrange(
            from,
            from + part.len(),
        ));
        if !stands_at(s, part, from) && from < s.len() {
            lemma_find_text_skip(s, part, from + 1, cut);
        }
    } else if from < s.len() {
        lemma_find_text_skip(s, part, from + 1, cut);
    }
}

/// `s` with every occurrence of `part`, found from the left, replaced.
pub fn replace_text(s: &str, part: &str, with: &str) -> (r: String)
    requires
        part@.len() > 0,
    ensures
        r@ == replaced(s@, part@, with@),
{
    let chars = chars_of(s);
    let wanted = chars_of(part);
    let n: usize = chars.len();
    let mut r = String::new();
    let mut from: usize = 0;
    assert(s@.skip(0) =~= s@);
    assert(r@ + replaced(s@, part@, with@) =~= replaced(s@, part@, with@));
    loop
        invariant
            from <= n,
            n == chars@.len(),
            chars@ == s@,
            wanted@ == part@,
            part@.len() > 0,
            r@ + replaced(s@.skip(from as int), part@, with@) == replaced(s@, part@, with@),
        decreases chars@.len() - from,
    {
        let ghost rest = s@.skip(from as int);
        proof {
            lemma_find_text_skip(s@, part@, from as int, from as int);
        }
        match find_part(&chars, &wanted, from) {
            None => {
                let tail = substring(&chars, from, chars.len());
                assert(tail@ =~= rest);
                r.push_str(tail.as_str());
                return r;
            },
            Some(i) => {
                let head = substring(&chars, from, i);
                assert(head@ =~= rest.take(i - from));
                let ghost before = r@;
                r.push_str(head.as_str());
                r.push_str(with);
                let next: usize = i + wanted.len();
                assert(rest.skip(i - from + part@.len()) =~= s@.skip(next as int));
                assert(r@ + replaced(s@.skip(next as int), part@, with@) =~= before + replaced(
                    rest,
                    part@,
                    with@,
                ));
                from = next;
            },
        }
    }
}

/// The index of the last `c` in `s`.
pub open spec fn find_last(s: Seq<char>, c: char) -> Option<int>
    decreases s.len(),
{
    if s.len() == 0 {
        None
    } else if s.last() == c {
        Some(s.len() - 1)
    } else {
        find_last(s.drop_last(), c)
    }
}

/// What stands behind the last `c` in `s`.
pub fn after_last(s: &str, c: char) -> (r: Option<String>)
    ensures
        match r {
            Some(tail) => find_last(s@, c) matches Some(i) && 0 <= i < s@.len() && tail@
                == s@.skip(i + 1),
            None => find_last(s@, c) is None,
        },
{
    let chars = chars_of(s);
    let n: usize = chars.len();
    let mut i: usize = n;
    assert(s@.take(n as int) =~= s@);
    while i > 0
        invariant
            i <= n,
            n == chars@.len(),
            chars@ == s@,
            find_last(s@, c) == find_last(s@.take(i as int), c),
        decreases i,
    {
        assert(s@.take(i as int).drop_last() =~= s@.take(i - 1));
        assert(s@.take(i as int).last() == s@[i - 1]);
        if chars[i - 1] == c {
            let tail = substring(&chars, i, n);
            assert(tail@ =~= s@.skip(i as int));
            return Some(tail);
        }
        i -= 1;
    }
    None
}

/// `s` without the white space at its end.
pub fn trimmed_end(s: &str) -> (r: String)
    ensures
        r@ == trim_end(s@),
{
    let chars = chars_of(s);
    let mut to: usize = chars.len();
    assert(s@.take(to as int) =~= s@);
    while to > 0 && is_whitespace(chars[to - 1])
        invariant
            to <= chars@.len(),
            chars@ == s@,
            trim_end(s@) == trim_end(s@.take(to as int)),
        decreases to,
    {
        assert(s@.take(to as int).drop_last() =~= s@.take(to - 1));
        assert(s@.take(to as int).last() == s@[to - 1]);
        to -= 1;
    }
    let r = substring(&chars, 0, to);
    assert(r@ =~= s@.take(to as int));
    r
}

/// `s` without the white space at its start.
pub fn trimmed_start(s: &str) -> (r: String)
    ensures
        r@ == trim_start(s@),
{
    let chars = chars_of(s);
    let mut from: usize = 0;
    assert(s@.skip(0) =~= s@);
    while from < chars.len() && is_whitespace(chars[from])
        invariant
            from <= chars@.len(),
            chars@ == s@,
            trim_start(s@) == trim_start(s@.skip(from as int)),
        decreases chars@.len() - from,
    {
        assert(s@.skip(from as int).skip(1) =~= s@.skip(from + 1));
        from += 1;
    }
    let r = substring(&chars, from, chars.len());
    assert(r@ =~= s@.skip(from as int));
    r
}

// ---------------------------------------------------------------------------
// Parts of texts
// ---------------------------------------------------------------------------

/// A text holds a part, begins with it or ends with it exactly where it is that part with something
/// or nothing around it, behind it or before it.
pub proof fn law_texts_hold_their_parts(s: Seq<char>, part: Seq<char>)
    ensures
        holds_text(s, part) <==> exists|a: Seq<char>, b: Seq<char>| s == #[trigger] (a + part + b),
        begins(s, part) <==> exists|b: Seq<char>| s == #[trigger] (part + b),
        ends(s, part) <==> exists|a: Seq<char>| s == #[trigger] (a + part),
{
    lemma_find_text(s, part, 0);
    let n = part.len() as int;
    if holds_text(s, part) {
        let i = find_text(s, part, 0)->0;
        assert(s =~= s.take(i) + part + s.skip(i + n));
    }
    if exists|a: Seq<char>, b: Seq<char>| s == #[trigger] (a + part + b) {
        let (a, b) = choose|a: Seq<char>, b: Seq<char>| s == #[trigger] (a + part + b);
        let i = a.len() as int;
        assert(s.subrange(i, i + n) =~= part);
        assert(stands_at(s, part, i));
    }
    if begins(s, part) {
        assert(s =~= part + s.skip(n));
    }
    if exists|b: Seq<char>| s == #[trigger] (part + b) {
        let b = choose|b: Seq<char>| s == #[trigger] (part + b);
        assert(s.take(n) =~= part);
    }
    if ends(s, part) {
        assert(s =~= s.take(s.len() - n) + part);
    }
    if exists|a: Seq<char>| s == #[trigger] (a + part) {
        let a = choose|a: Seq<char>| s == #[trigger] (a + part);
        assert(s.skip(s.len() - n) =~= part);
    }
}

/// A text is blank exactly where it is white space throughout: spaces, tabs and line ends are, and
/// the characters that show on a keyboard are not.
pub proof fn law_blank_texts_are_white(s: Seq<char>, c: char)
    ensures
        blank(s) <==> all_white(s),
        c == ' ' || c == '\t' || c == '\n' || c == '\r' ==> white(c),
        '!' <= c <= '~' ==> !white(c),
{
    let (before, after) = lemma_trim_parts(s);
    if blank(s) {
        assert(trim(s) =~= Seq::<char>::empty());
        assert(s =~= before + after);
    } else if all_white(s) {
        let i = before.len() as int;
        assert(s[i] == trim(s)[0]);
    }
}

/// The pieces of a text hold no separator, and give the text again with separators between them.
pub proof fn law_pieces_make_the_text(s: Seq<char>, sep: char)
    ensures
        joined(split_on(s, sep), seq![sep]) == s,
        split_on(s, sep).len() > 0,
        forall|i: int| 0 <= i < split_on(s, sep).len() ==> lacks(#[trigger] split_on(s, sep)[i], sep),
    decreases s.len(),
{
    lemma_find_char(s, sep);
    let i = find_char(s, sep);
    if i < s.len() {
        let rest = s.skip(i + 1);
        law_pieces_make_the_text(rest, sep);
        let first = s.take(i);
        lemma_joined_front(first, split_on(rest, sep), seq![sep]);
        assert(s =~= first + seq![sep] + rest);
        let all = split_on(s, sep);
        assert forall|k: int| 0 <= k < all.len() implies lacks(#[trigger] all[k], sep) by {
            if k > 0 {
                assert(all[k] == split_on(rest, sep)[k - 1]);
            }
        }
    }
}

proof fn lemma_joined_front(first: Seq<char>, rest: Seq<Seq<char>>, sep: Seq<char>)
    requires
        rest.len() > 0,
    ensures
        joined(seq![first] + rest, sep) == first + sep + joined(rest, sep),
    decreases rest.len(),
{
    let all = seq![first] + rest;
    if rest.len() == 1 {
        assert(all.drop_last() =~= seq![first]);
        assert(joined(all.drop_last(), sep) == first);
    } else {
        assert(all.drop_last() =~= seq![first] + rest.drop_last());
        lemma_joined_front(first, rest.drop_last(), sep);
        assert(joined(all, sep) =~= first + sep + (joined(rest.drop_last(), sep) + sep
            + rest.last()));
    }
}

/// The words of a text hold no white space and are not empty, stand in the text in their order, and
/// what stands between them is white space.
pub proof fn law_words_stand_between_white_space(s: Seq<char>, i: int)
    ensures
        0 <= i < words_of(s).len() ==> is_word(words_of(s)[i]),
        words_of(s).len() == 0 <==> all_white(s),
        words_of(s).len() > 0 ==> exists|a: Seq<char>, b: Seq<char>|
            s == #[trigger] (a + words_of(s)[0] + b) && all_white(a) && (b.len() > 0 ==> white(b[0]))
                && words_of(b) == words_of(s).skip(1),
    decreases s.len(),
{
    if s.len() == 0 {
    } else if white(s[0]) {
        law_words_stand_between_white_space(s.skip(1), i);
        if all_white(s.skip(1)) {
            assert forall|k: int| 0 <= k < s.len() implies white(#[trigger] s[k]) by {
                if k > 0 {
                    assert(s[k] == s.skip(1)[k - 1]);
                }
            }
        }
        if all_white(s) {
            assert forall|k: int| 0 <= k < s.skip(1).len() implies white(#[trigger] s.skip(1)[k]) by {
                assert(white(s[k + 1]));
            }
        }
        if words_of(s).len() > 0 {
            let (a, b) = choose|a: Seq<char>, b: Seq<char>|
                s.skip(1) == #[trigger] (a + words_of(s.skip(1))[0] + b) && all_white(a) && (b.len()
                    > 0 ==> white(b[0])) && words_of(b) == words_of(s.skip(1)).skip(1);
            let more = seq![s[0]] + a;
            let word = words_of(s)[0];
            assert(s =~= seq![s[0]] + s.skip(1));
            assert(seq![s[0]] + (a + word + b) =~= more + word + b);
        }
    } else {
        lemma_word_length(s);
        let n = word_length(s);
        let rest = s.skip(n);
        law_words_stand_between_white_space(rest, i - 1);
        assert(words_of(s) == seq![s.take(n)] + words_of(rest));
        assert(words_of(s)[0] =~= s.take(n));
        if i > 0 && i < words_of(s).len() {
            assert(words_of(s)[i] == words_of(rest)[i - 1]);
        }
        let none = Seq::<char>::empty();
        assert(s =~= none + words_of(s)[0] + rest);
        assert(words_of(rest) =~= words_of(s).skip(1));
        assert(!white(s[0]));
        assert(is_word(s.take(n)));
    }
}

/// A text in lower case has the small letter for each capital one of ASCII, and else the same
/// characters; in upper case it is the other way about.
pub proof fn law_letter_case(s: Seq<char>, i: int)
    requires
        0 <= i < s.len(),
    ensures
        lower_text(s).len() == s.len(),
        upper_text(s).len() == s.len(),
        'A' <= s[i] <= 'Z' ==> lower_text(s)[i] as int == s[i] as int + 32,
        !('A' <= s[i] <= 'Z') ==> lower_text(s)[i] == s[i],
        'a' <= s[i] <= 'z' ==> upper_text(s)[i] as int == s[i] as int - 32,
        !('a' <= s[i] <= 'z') ==> upper_text(s)[i] == s[i],
{
}

/// The last place of a character is the one behind which it does not stand again.
pub proof fn law_last_places(s: Seq<char>, c: char)
    ensures
        match find_last(s, c) {
            Some(i) => 0 <= i < s.len() && s[i] == c && lacks(s.skip(i + 1), c),
            None => lacks(s, c),
        },
    decreases s.len(),
{
    if s.len() > 0 && s.last() != c {
        let front = s.drop_last();
        law_last_places(front, c);
        match find_last(s, c) {
            Some(i) => {
                assert forall|k: int| 0 <= k < s.skip(i + 1).len() implies #[trigger] s.skip(i + 1)[k]
                    != c by {
                    if k < front.skip(i + 1).len() {
                        assert(front.skip(i + 1)[k] == s.skip(i + 1)[k]);
                    }
                }
            },
            None => {
                assert forall|k: int| 0 <= k < s.len() implies #[trigger] s[k] != c by {
                    if k < front.len() {
                        assert(front[k] == s[k]);
                    }
                }
            },
        }
    }
}

/// Numbers in decimal have no digit too many, and are padded with zeros before them.
pub proof fn law_padded_numbers(n: nat, width: nat)
    ensures
        padded(n, width).len() >= width,
        padded(n, width).len() == width || padded(n, width) == decimal(n),
        ends(padded(n, width), decimal(n)),
        forall|i: int|
            0 <= i < padded(n, width).len() - decimal(n).len() ==> #[trigger] padded(n, width)[i]
                == '0',
{
    let d = decimal(n);
    let p = padded(n, width);
    assert(p.skip(p.len() - d.len()) =~= d);
}

} // verus!
