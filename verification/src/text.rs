//! Text as sequences of characters: classes of characters, trimming,
//! searching and splitting.

use vstd::prelude::*;
use vstd::slice::slice_subrange;
use vstd::string::*;

verus! {

/// Whether `c` is white space: the code points with the Unicode property
/// `White_Space`.
pub open spec fn is_space(c: char) -> bool {
    let n = c as u32;
    (0x09 <= n <= 0x0d) || n == 0x20 || n == 0x85 || n == 0xa0 || n == 0x1680 || (0x2000 <= n
        <= 0x200a) || n == 0x2028 || n == 0x2029 || n == 0x202f || n == 0x205f || n == 0x3000
}

/// Whether `c` is white space.
pub fn is_whitespace(c: char) -> (r: bool)
    ensures
        r == is_space(c),
{
    let n = c as u32;
    (0x09 <= n && n <= 0x0d) || n == 0x20 || n == 0x85 || n == 0xa0 || n == 0x1680 || (0x2000 <= n
        && n <= 0x200a) || n == 0x2028 || n == 0x2029 || n == 0x202f || n == 0x205f || n == 0x3000
}

/// `s` without the white space at its start.
pub open spec fn trim_start(s: Seq<char>) -> Seq<char>
    decreases s.len(),
{
    if s.len() > 0 && is_space(s[0]) {
        trim_start(s.drop_first())
    } else {
        s
    }
}

/// `s` without the white space at its end.
pub open spec fn trim_end(s: Seq<char>) -> Seq<char>
    decreases s.len(),
{
    if s.len() > 0 && is_space(s.last()) {
        trim_end(s.drop_last())
    } else {
        s
    }
}

/// `s` without the white space at its start and at its end.
pub open spec fn trim(s: Seq<char>) -> Seq<char> {
    trim_end(trim_start(s))
}

/// The index of the first `c` in `s`, or the length of `s` where there is
/// none.
pub open spec fn find(s: Seq<char>, c: char) -> nat
    decreases s.len(),
{
    if s.len() == 0 || s[0] == c {
        0
    } else {
        1 + find(s.drop_first(), c)
    }
}

/// The index of the first white space in `s`, or the length of `s` where
/// there is none.
pub open spec fn find_space(s: Seq<char>) -> nat
    decreases s.len(),
{
    if s.len() == 0 || is_space(s[0]) {
        0
    } else {
        1 + find_space(s.drop_first())
    }
}

/// The pieces of `s` between the occurrences of `c`. There is always at
/// least one piece, and a piece may be empty.
pub open spec fn split(s: Seq<char>, c: char) -> Seq<Seq<char>>
    decreases s.len(),
{
    let i = find(s, c);
    if i >= s.len() {
        seq![s]
    } else {
        seq![s.take(i as int)] + split(s.skip(i as int + 1), c)
    }
}

/// `find` stays within `s`, finds `c` where it stops short of the end, and
/// passes over nothing that is `c`.
pub proof fn lemma_find(s: Seq<char>, c: char)
    ensures
        find(s, c) <= s.len(),
        find(s, c) < s.len() ==> s[find(s, c) as int] == c,
        forall|i: int| 0 <= i < find(s, c) ==> s[i] != c,
    decreases s.len(),
{
    if s.len() == 0 || s[0] == c {
    } else {
        lemma_find(s.drop_first(), c);
        assert forall|i: int| 0 <= i < find(s, c) implies s[i] != c by {
            if i > 0 {
                assert(s.drop_first()[i - 1] == s[i]);
            }
        }
    }
}

/// `find_space` stays within `s`, finds white space where it stops short of
/// the end, and passes over nothing that is white space.
pub proof fn lemma_find_space(s: Seq<char>)
    ensures
        find_space(s) <= s.len(),
        find_space(s) < s.len() ==> is_space(s[find_space(s) as int]),
        forall|i: int| 0 <= i < find_space(s) ==> !is_space(s[i]),
    decreases s.len(),
{
    if s.len() == 0 || is_space(s[0]) {
    } else {
        lemma_find_space(s.drop_first());
        assert forall|i: int| 0 <= i < find_space(s) implies !is_space(s[i]) by {
            if i > 0 {
                assert(s.drop_first()[i - 1] == s[i]);
            }
        }
    }
}

/// Trimming at the start leaves a piece at the end of `s` that does not
/// start with white space.
pub proof fn lemma_trim_start(s: Seq<char>)
    ensures
        trim_start(s).len() <= s.len(),
        trim_start(s) == s.skip(s.len() - trim_start(s).len()),
        trim_start(s).len() > 0 ==> !is_space(trim_start(s)[0]),
    decreases s.len(),
{
    if s.len() > 0 && is_space(s[0]) {
        lemma_trim_start(s.drop_first());
        let rest = s.drop_first();
        assert(rest.skip(rest.len() - trim_start(rest).len()) =~= s.skip(
            s.len() - trim_start(rest).len(),
        ));
    } else {
        assert(s.skip(0) =~= s);
    }
}

/// Trimming at the end leaves a piece at the start of `s` that does not end
/// with white space.
pub proof fn lemma_trim_end(s: Seq<char>)
    ensures
        trim_end(s).len() <= s.len(),
        trim_end(s) == s.take(trim_end(s).len() as int),
        trim_end(s).len() > 0 ==> !is_space(trim_end(s).last()),
    decreases s.len(),
{
    if s.len() > 0 && is_space(s.last()) {
        lemma_trim_end(s.drop_last());
        let rest = s.drop_last();
        assert(rest.take(trim_end(rest).len() as int) =~= s.take(trim_end(rest).len() as int));
    } else {
        assert(s.take(s.len() as int) =~= s);
    }
}

/// A trimmed text is a piece of the text that neither starts nor ends
/// with white space.
pub proof fn lemma_trim(s: Seq<char>)
    ensures
        trim(s).len() <= s.len(),
        trim(s).len() > 0 ==> !is_space(trim(s)[0]) && !is_space(trim(s).last()),
{
    lemma_trim_start(s);
    lemma_trim_end(trim_start(s));
}

/// The characters of `s`.
pub fn chars_of(s: &str) -> (v: Vec<char>)
    ensures
        v@ == s@,
{
    let mut v: Vec<char> = Vec::new();
    for c in it: s.chars()
        invariant
            it.seq() == s@,
            v@ =~= it.seq().take(it.index() as int),
    {
        v.push(c);
    }
    assert(v@ =~= s@);
    v
}

/// `String::push` appends one character to the text.
pub assume_specification[ String::push ](s: &mut String, ch: char)
    ensures
        final(s)@ == old(s)@.push(ch),
;

/// The text made of the characters `v`.
pub fn text_of(v: &[char]) -> (s: String)
    ensures
        s@ == v@,
{
    let mut s = String::new();
    let mut i: usize = 0;
    while i < v.len()
        invariant
            i <= v.len(),
            s@ == v@.take(i as int),
        decreases v.len() - i,
    {
        s.push(v[i]);
        i += 1;
        assert(s@ =~= v@.take(i as int));
    }
    assert(v@.take(i as int) =~= v@);
    s
}

/// `s` without the white space at its start and at its end.
pub fn trimmed(s: &[char]) -> (r: &[char])
    ensures
        r@ == trim(s@),
{
    let mut start: usize = 0;
    assert(s@.skip(0) =~= s@);
    while start < s.len() && is_whitespace(s[start])
        invariant
            start <= s.len(),
            trim_start(s@) == trim_start(s@.skip(start as int)),
        decreases s.len() - start,
    {
        assert(s@.skip(start as int).drop_first() =~= s@.skip(start + 1));
        start += 1;
    }
    assert(trim_start(s@) == s@.skip(start as int));
    let mut end: usize = s.len();
    while end > start && is_whitespace(s[end - 1])
        invariant
            start <= end <= s.len(),
            trim(s@) == trim_end(s@.subrange(start as int, end as int)),
        decreases end,
    {
        assert(s@.subrange(start as int, end as int).drop_last() =~= s@.subrange(
            start as int,
            end - 1,
        ));
        end -= 1;
    }
    slice_subrange(s, start, end)
}

/// The index of the first `c` in `s`, or the length of `s`.
pub fn position(s: &[char], c: char) -> (i: usize)
    ensures
        i == find(s@, c),
{
    let mut i: usize = 0;
    assert(s@.skip(0) =~= s@);
    while i < s.len() && s[i] != c
        invariant
            i <= s.len(),
            find(s@, c) == i + find(s@.skip(i as int), c),
        decreases s.len() - i,
    {
        assert(s@.skip(i as int).drop_first() =~= s@.skip(i + 1));
        i += 1;
    }
    i
}

/// The index of the first white space in `s`, or the length of `s`.
pub fn space_position(s: &[char]) -> (i: usize)
    ensures
        i == find_space(s@),
{
    let mut i: usize = 0;
    assert(s@.skip(0) =~= s@);
    while i < s.len() && !is_whitespace(s[i])
        invariant
            i <= s.len(),
            find_space(s@) == i + find_space(s@.skip(i as int)),
        decreases s.len() - i,
    {
        assert(s@.skip(i as int).drop_first() =~= s@.skip(i + 1));
        i += 1;
    }
    i
}

/// The texts of a sequence of pieces.
pub open spec fn piece_views(pieces: Seq<&[char]>) -> Seq<Seq<char>> {
    pieces.map_values(|piece: &[char]| piece@)
}

/// The pieces of `s` between the occurrences of `c`.
pub fn pieces<'a>(s: &'a [char], c: char) -> (r: Vec<&'a [char]>)
    ensures
        piece_views(r@) == split(s@, c),
{
    let mut r: Vec<&'a [char]> = Vec::new();
    let mut start: usize = 0;
    assert(s@.skip(0) =~= s@);
    assert(piece_views(r@) =~= Seq::<Seq<char>>::empty());
    loop
        invariant_except_break
            start <= s.len(),
            split(s@, c) == piece_views(r@) + split(s@.skip(start as int), c),
        ensures
            piece_views(r@) == split(s@, c),
        decreases s.len() - start,
    {
        let rest = slice_subrange(s, start, s.len());
        assert(rest@ =~= s@.skip(start as int));
        let ghost done = piece_views(r@);
        let i = position(rest, c);
        proof {
            lemma_find(rest@, c);
        }
        if i >= rest.len() {
            r.push(rest);
            assert(piece_views(r@) =~= done + seq![rest@]);
            break ;
        }
        let piece = slice_subrange(rest, 0, i);
        r.push(piece);
        assert(piece@ =~= rest@.take(i as int));
        assert(rest@.skip(i + 1) =~= s@.skip(start + i + 1));
        assert(piece_views(r@) =~= done + seq![piece@]);
        assert(done + (seq![piece@] + split(rest@.skip(i + 1), c)) =~= (done + seq![piece@])
            + split(rest@.skip(i + 1), c));
        start = start + i + 1;
    }
    r
}

/// Whether `s` is the text `word`.
pub fn same(s: &[char], word: &str) -> (r: bool)
    ensures
        r == (s@ == word@),
{
    let n = word.unicode_len();
    if s.len() != n {
        return false;
    }
    let mut i: usize = 0;
    while i < n
        invariant
            i <= n,
            n == s@.len(),
            n == word@.len(),
            s@.take(i as int) == word@.take(i as int),
        decreases n - i,
    {
        if s[i] != word.get_char(i) {
            return false;
        }
        i += 1;
        assert(s@.take(i as int) =~= s@.take(i - 1).push(s@[i - 1]));
        assert(word@.take(i as int) =~= word@.take(i - 1).push(word@[i - 1]));
    }
    assert(s@.take(n as int) =~= s@);
    assert(word@.take(n as int) =~= word@);
    true
}

/// Whether every character of `s` is an ASCII character.
pub open spec fn all_ascii(s: Seq<char>) -> bool {
    forall|i: int| 0 <= i < s.len() ==> (#[trigger] s[i] as u32) < 128
}

/// The upper-case form of an ASCII letter; any other character is its own.
pub open spec fn upper_char(c: char) -> char {
    if 'a' <= c <= 'z' {
        ((c as u8) - 32) as char
    } else {
        c
    }
}

/// `s` with every ASCII lower-case letter replaced by its upper-case form.
pub open spec fn upper_ascii(s: Seq<char>) -> Seq<char> {
    s.map_values(|c: char| upper_char(c))
}

/// What the standard library's upper-case conversion makes of a text.
pub uninterp spec fn unicode_upper(s: Seq<char>) -> Seq<char>;

/// `str::to_uppercase`: the upper-case form of a text by the rules of
/// Unicode, which for a given text is always the same text.
#[verifier::external_body]
fn to_unicode_upper(s: &str) -> (r: String)
    ensures
        r@ == unicode_upper(s@),
{
    s.to_uppercase()
}

/// The text that lexemes are matched against the vocabulary by: a text of
/// ASCII characters with its lower-case letters made upper case, any other
/// text in the upper-case form that Unicode defines.
pub open spec fn folded(s: Seq<char>) -> Seq<char> {
    if all_ascii(s) {
        upper_ascii(s)
    } else {
        unicode_upper(s)
    }
}

/// Whether every character of `s` is an ASCII character.
pub fn is_all_ascii(s: &[char]) -> (r: bool)
    ensures
        r == all_ascii(s@),
{
    let mut i: usize = 0;
    while i < s.len()
        invariant
            i <= s.len(),
            forall|j: int| 0 <= j < i ==> (#[trigger] s@[j] as u32) < 128,
        decreases s.len() - i,
    {
        if s[i] as u32 >= 128 {
            return false;
        }
        i += 1;
    }
    true
}

/// The upper-case form of an ASCII letter; any other character is its own.
pub fn to_upper_char(c: char) -> (r: char)
    ensures
        r == upper_char(c),
{
    if 'a' <= c && c <= 'z' {
        ((c as u8) - 32) as char
    } else {
        c
    }
}

/// `s` in the form that is matched against the vocabulary.
pub fn fold(s: &[char]) -> (r: Vec<char>)
    ensures
        r@ == folded(s@),
{
    if is_all_ascii(s) {
        let mut r: Vec<char> = Vec::new();
        let mut i: usize = 0;
        while i < s.len()
            invariant
                i <= s.len(),
                r@ == upper_ascii(s@.take(i as int)),
            decreases s.len() - i,
        {
            r.push(to_upper_char(s[i]));
            i += 1;
            assert(r@ =~= upper_ascii(s@.take(i as int)));
        }
        assert(s@.take(i as int) =~= s@);
        r
    } else {
        let text = text_of(s);
        let upper = to_unicode_upper(text.as_str());
        chars_of(upper.as_str())
    }
}

/// `s` without any occurrence of `c`.
pub open spec fn without(s: Seq<char>, c: char) -> Seq<char>
    decreases s.len(),
{
    if s.len() == 0 {
        s
    } else if s.last() == c {
        without(s.drop_last(), c)
    } else {
        without(s.drop_last(), c).push(s.last())
    }
}

/// Whether `c` after a backslash makes an escape sequence.
pub open spec fn is_escape(c: char) -> bool {
    c == 't' || c == 'n' || c == 'e'
}

/// The character that a backslash and `c` stand for: a tab for `t`, a line
/// feed for `n`, and the escape character for `e`.
pub open spec fn escaped(c: char) -> char {
    if c == 't' {
        '\t'
    } else if c == 'n' {
        '\n'
    } else {
        '\u{1b}'
    }
}

/// `s` with every escape sequence replaced by the character it stands for,
/// read from the left. A backslash before any other character stays.
pub open spec fn unescape(s: Seq<char>) -> Seq<char>
    decreases s.len(),
{
    if s.len() == 0 {
        s
    } else if s.len() >= 2 && s[0] == '\\' && is_escape(s[1]) {
        seq![escaped(s[1])] + unescape(s.skip(2))
    } else {
        seq![s[0]] + unescape(s.drop_first())
    }
}

/// The text of a string literal: the lexeme without its double quotes, with
/// the escape sequences decoded.
pub open spec fn literal_text(s: Seq<char>) -> Seq<char> {
    unescape(without(s, '"'))
}

/// `s` without any occurrence of `c`.
pub fn remove(s: &[char], c: char) -> (r: Vec<char>)
    ensures
        r@ == without(s@, c),
{
    let mut r: Vec<char> = Vec::new();
    let mut i: usize = 0;
    while i < s.len()
        invariant
            i <= s.len(),
            r@ == without(s@.take(i as int), c),
        decreases s.len() - i,
    {
        assert(s@.take(i + 1).drop_last() =~= s@.take(i as int));
        if s[i] != c {
            r.push(s[i]);
        }
        i += 1;
    }
    assert(s@.take(i as int) =~= s@);
    r
}

/// `s` with every escape sequence replaced by the character it stands for.
pub fn decode(s: &[char]) -> (r: String)
    ensures
        r@ == unescape(s@),
{
    let mut r = String::new();
    let mut i: usize = 0;
    assert(s@.skip(0) =~= s@);
    while i < s.len()
        invariant
            i <= s.len(),
            unescape(s@) == r@ + unescape(s@.skip(i as int)),
        decreases s.len() - i,
    {
        let ghost rest = s@.skip(i as int);
        let ghost done = r@;
        if s[i] == '\\' && i + 1 < s.len() && (s[i + 1] == 't' || s[i + 1] == 'n' || s[i + 1]
            == 'e') {
            let c = if s[i + 1] == 't' {
                '\t'
            } else if s[i + 1] == 'n' {
                '\n'
            } else {
                '\u{1b}'
            };
            r.push(c);
            assert(rest.skip(2) =~= s@.skip(i + 2));
            assert(done + (seq![c] + unescape(rest.skip(2))) =~= done.push(c) + unescape(
                rest.skip(2),
            ));
            i += 2;
        } else {
            r.push(s[i]);
            assert(rest.drop_first() =~= s@.skip(i + 1));
            assert(done + (seq![rest[0]] + unescape(rest.drop_first())) =~= done.push(rest[0])
                + unescape(rest.drop_first()));
            i += 1;
        }
    }
    assert(r@ + Seq::<char>::empty() =~= r@);
    r
}

} // verus!
