//! Character-level text operations: prefixes, suffixes, searching, words and
//! lines, and decimal numbers.

use vstd::prelude::*;
use vstd::string::*;
use vstd::utf8::*;

verus! {

/// `String::push` appends one character to the end of the string.
pub assume_specification[ String::push ](s: &mut String, ch: char)
    ensures
        final(s)@ == old(s)@.push(ch),
;

/// `std::str::from_utf8`: the text in `bytes`, where they are UTF-8.
#[verifier::external_body]
pub(crate) fn utf8_text(bytes: &[u8]) -> (r: Option<String>)
    ensures
        match r {
            Some(text) => valid_utf8(bytes@) && text@ == decode_utf8(bytes@),
            None => !valid_utf8(bytes@),
        },
{
    std::str::from_utf8(bytes).ok().map(String::from)
}

/// The text that stands for `bytes` where they need not be UTF-8.
pub uninterp spec fn lossy(bytes: Seq<u8>) -> Seq<char>;

/// `String::from_utf8_lossy`: UTF-8 is decoded as it is, and what is not UTF-8 in
/// `bytes` is replaced. The result depends on the bytes alone.
#[verifier::external_body]
pub(crate) fn lossy_text(bytes: &[u8]) -> (r: String)
    ensures
        r@ == lossy(bytes@),
        valid_utf8(bytes@) ==> r@ == decode_utf8(bytes@),
{
    String::from_utf8_lossy(bytes).into_owned()
}

/// Whether a character has the Unicode `Uppercase` property.
pub uninterp spec fn is_uppercase(c: char) -> bool;

/// `char::is_uppercase`: among the ASCII characters, the letters `A` to `Z`.
pub assume_specification[ char::is_uppercase ](c: char) -> (r: bool)
    ensures
        r == is_uppercase(c),
        c <= '\u{7f}' ==> r == ('A' <= c <= 'Z'),
;

/// The characters of a string, in order.
pub fn chars_of(s: &str) -> (r: Vec<char>)
    ensures
        r@ == s@,
{
    let mut out: Vec<char> = Vec::new();
    for c in it: s.chars()
        invariant
            it.seq() == s@,
            out@ == s@.take(it.index()),
    {
        out.push(c);
    }
    out
}

/// Whether two strings are equal.
pub fn same(a: &str, b: &str) -> (r: bool)
    ensures
        r == (a@ == b@),
{
    let x = chars_of(a);
    let y = chars_of(b);
    if x.len() != y.len() {
        return false;
    }
    let n: usize = x.len();
    for i in 0..n
        invariant
            x@ == a@,
            y@ == b@,
            n == x@.len(),
            n == y@.len(),
            forall|j: int| 0 <= j < i ==> x@[j] == y@[j],
    {
        if x[i] != y[i] {
            return false;
        }
    }
    assert(x@ =~= y@);
    true
}

/// Whether the characters of `part` stand in `whole` from position `at` on.
pub open spec fn found_at(whole: Seq<char>, part: Seq<char>, at: int) -> bool {
    &&& 0 <= at
    &&& at + part.len() <= whole.len()
    &&& whole.subrange(at, at + part.len()) == part
}

/// Whether `part` occurs somewhere in `whole`.
pub open spec fn holds(whole: Seq<char>, part: Seq<char>) -> bool {
    exists|at: int| found_at(whole, part, at)
}

pub(crate) fn matches_at(whole: &Vec<char>, part: &Vec<char>, at: usize) -> (r: bool)
    requires
        at <= whole@.len(),
    ensures
        r == found_at(whole@, part@, at as int),
{
    if part.len() > whole.len() - at {
        return false;
    }
    let n: usize = part.len();
    for i in 0..n
        invariant
            n == part@.len(),
            at + n <= whole.len(),
            forall|j: int| 0 <= j < i ==> whole@[at + j] == part@[j],
    {
        if whole[at + i] != part[i] {
            proof {
                assert(whole@.subrange(at as int, at + n)[i as int] != part@[i as int]);
            }
            return false;
        }
    }
    assert(whole@.subrange(at as int, at + n) =~= part@);
    true
}

/// Whether `s` begins with `prefix`.
pub fn starts_with(s: &str, prefix: &str) -> (r: bool)
    ensures
        r == prefix@.is_prefix_of(s@),
{
    let whole = chars_of(s);
    let part = chars_of(prefix);
    matches_at(&whole, &part, 0)
}

/// Whether `s` ends with `suffix`.
pub fn ends_with(s: &str, suffix: &str) -> (r: bool)
    ensures
        r == suffix@.is_suffix_of(s@),
{
    let whole = chars_of(s);
    let part = chars_of(suffix);
    if part.len() > whole.len() {
        return false;
    }
    let r = matches_at(&whole, &part, whole.len() - part.len());
    r
}

/// Whether `part` occurs in `s`.
pub fn contains(s: &str, part: &str) -> (r: bool)
    ensures
        r == holds(s@, part@),
{
    let whole = chars_of(s);
    let piece = chars_of(part);
    let n: usize = whole.len();
    let mut at: usize = 0;
    loop
        invariant
            n == whole@.len(),
            at <= n,
            whole@ == s@,
            piece@ == part@,
            forall|j: int| 0 <= j < at ==> !found_at(s@, part@, j),
        decreases n - at,
    {
        if matches_at(&whole, &piece, at) {
            return true;
        }
        if at == n {
            return false;
        }
        at = at + 1;
    }
}

/// Whether a character has the Unicode `White_Space` property.
pub open spec fn is_space(c: char) -> bool {
    ||| '\u{9}' <= c <= '\u{d}'
    ||| c == ' '
    ||| c == '\u{85}'
    ||| c == '\u{a0}'
    ||| c == '\u{1680}'
    ||| '\u{2000}' <= c <= '\u{200a}'
    ||| c == '\u{2028}'
    ||| c == '\u{2029}'
    ||| c == '\u{202f}'
    ||| c == '\u{205f}'
    ||| c == '\u{3000}'
}

/// Tests a character for the Unicode `White_Space` property.
pub(crate) fn space(c: char) -> (r: bool)
    ensures
        r == is_space(c),
{
    ('\u{9}' <= c && c <= '\u{d}') || c == ' ' || c == '\u{85}' || c == '\u{a0}'
        || c == '\u{1680}' || ('\u{2000}' <= c && c <= '\u{200a}') || c == '\u{2028}'
        || c == '\u{2029}' || c == '\u{202f}' || c == '\u{205f}' || c == '\u{3000}'
}

/// How many characters come before the first white-space character.
pub open spec fn word_len(line: Seq<char>) -> nat
    decreases line.len(),
{
    if line.len() == 0 || is_space(line[0]) {
        0
    } else {
        1 + word_len(line.skip(1))
    }
}

/// The maximal runs of characters that are not white space, from left to right.
pub open spec fn words(line: Seq<char>) -> Seq<Seq<char>>
    decreases line.len(),
    via words_decreases
{
    if line.len() == 0 {
        Seq::empty()
    } else if is_space(line[0]) {
        words(line.skip(1))
    } else {
        let n = word_len(line) as int;
        seq![line.take(n)] + words(line.skip(n))
    }
}

#[via_fn]
proof fn words_decreases(line: Seq<char>) {
    lemma_word_len(line);
}

proof fn lemma_word_len(line: Seq<char>)
    ensures
        word_len(line) <= line.len(),
        line.len() > 0 && !is_space(line[0]) ==> word_len(line) > 0,
    decreases line.len(),
{
    if line.len() > 0 && !is_space(line[0]) {
        lemma_word_len(line.skip(1));
    }
}

/// How many characters come before the first line feed.
pub open spec fn line_len(text: Seq<char>) -> nat
    decreases text.len(),
{
    if text.len() == 0 || text[0] == '\n' {
        0
    } else {
        1 + line_len(text.skip(1))
    }
}

/// The pieces of a text between its line feeds.
pub open spec fn lines(text: Seq<char>) -> Seq<Seq<char>>
    decreases text.len(),
{
    let n = line_len(text) as int;
    if n < text.len() {
        seq![text.take(n)] + lines(text.skip(n + 1))
    } else {
        seq![text]
    }
}

/// The words of each line of a text.
pub open spec fn rows(text: Seq<char>) -> Seq<Seq<Seq<char>>> {
    lines(text).map_values(|line: Seq<char>| words(line))
}

proof fn lemma_word_len_is(line: Seq<char>, n: int)
    requires
        0 <= n <= line.len(),
        forall|j: int| 0 <= j < n ==> !is_space(#[trigger] line[j]),
        n == line.len() || is_space(line[n]),
    ensures
        word_len(line) == n,
    decreases n,
{
    if n > 0 {
        assert(!is_space(line[0]));
        assert forall|j: int| 0 <= j < n - 1 implies !is_space(#[trigger] line.skip(1)[j]) by {
            assert(!is_space(line[j + 1]));
        }
        lemma_word_len_is(line.skip(1), n - 1);
    }
}

proof fn lemma_line_len_is(text: Seq<char>, n: int)
    requires
        0 <= n <= text.len(),
        forall|j: int| 0 <= j < n ==> #[trigger] text[j] != '\n',
        n == text.len() || text[n] == '\n',
    ensures
        line_len(text) == n,
    decreases n,
{
    if n > 0 {
        assert(text[0] != '\n');
        assert forall|j: int| 0 <= j < n - 1 implies #[trigger] text.skip(1)[j] != '\n' by {
            assert(text[j + 1] != '\n');
        }
        lemma_line_len_is(text.skip(1), n - 1);
    }
}

/// The string made of the characters of `text` from `from` up to `to`.
pub fn string_between(text: &Vec<char>, from: usize, to: usize) -> (r: String)
    requires
        from <= to <= text@.len(),
    ensures
        r@ == text@.subrange(from as int, to as int),
{
    let mut out = String::new();
    for i in from..to
        invariant
            from <= to <= text@.len(),
            out@ == text@.subrange(from as int, i as int),
    {
        out.push(text[i]);
    }
    out
}

fn words_between(text: &Vec<char>, from: usize, to: usize) -> (r: Vec<String>)
    requires
        from <= to <= text@.len(),
    ensures
        r.deep_view() == words(text@.subrange(from as int, to as int)),
{
    let ghost line = text@.subrange(from as int, to as int);
    let mut out: Vec<String> = Vec::new();
    let mut i: usize = from;
    assert(line.skip(0) =~= line);
    while i < to
        invariant
            from <= i <= to <= text@.len(),
            line == text@.subrange(from as int, to as int),
            words(line) =~= out.deep_view() + words(line.skip(i - from)),
        decreases to - i,
    {
        let ghost rest = line.skip(i - from);
        if space(text[i]) {
            i = i + 1;
            assert(rest.skip(1) =~= line.skip(i - from));
        } else {
            let start: usize = i;
            while i < to && !space(text[i])
                invariant
                    from <= start <= i <= to <= text@.len(),
                    forall|j: int| start <= j < i ==> !is_space(#[trigger] text@[j]),
                decreases to - i,
            {
                i = i + 1;
            }
            proof {
                let n = i - start;
                assert forall|j: int| 0 <= j < n implies !is_space(#[trigger] rest[j]) by {
                    assert(!is_space(text@[start + j]));
                }
                lemma_word_len_is(rest, n);
                assert(rest.take(n) =~= text@.subrange(start as int, i as int));
                assert(rest.skip(n) =~= line.skip(i - from));
            }
            let ghost before = out.deep_view();
            out.push(string_between(text, start, i));
            assert(out.deep_view() =~= before.push(rest.take(i - start)));
        }
    }
    assert(line.skip(i - from) =~= Seq::empty());
    out
}

/// Splits a text into lines and each line into words.
///
/// A carriage return counts as white space, so both line endings give the same words.
pub fn fields(text: &str) -> (r: Vec<Vec<String>>)
    ensures
        r.deep_view() == rows(text@),
{
    let all = chars_of(text);
    let n: usize = all.len();
    let mut out: Vec<Vec<String>> = Vec::new();
    let mut i: usize = 0;
    assert(all@.skip(0) =~= all@);
    loop
        invariant
            n == all@.len(),
            all@ == text@,
            i <= n,
            rows(text@) =~= out.deep_view() + rows(all@.skip(i as int)),
        decreases n - i,
    {
        let ghost rest = all@.skip(i as int);
        let start: usize = i;
        while i < n && all[i] != '\n'
            invariant
                start <= i <= n,
                n == all@.len(),
                forall|j: int| start <= j < i ==> #[trigger] all@[j] != '\n',
            decreases n - i,
        {
            i = i + 1;
        }
        let ghost before = out.deep_view();
        out.push(words_between(&all, start, i));
        proof {
            let k = i - start;
            assert forall|j: int| 0 <= j < k implies #[trigger] rest[j] != '\n' by {
                assert(all@[start + j] != '\n');
            }
            lemma_line_len_is(rest, k);
            assert(rest.take(k) =~= all@.subrange(start as int, i as int));
            assert(out.deep_view() =~= before.push(words(rest.take(k))));
        }
        if i == n {
            assert(rest.take(i - start) =~= rest);
            assert(rows(rest) =~= seq![words(rest)]);
            return out;
        }
        i = i + 1;
        assert(rest.skip(i - start) =~= all@.skip(i as int));
        assert(rows(rest) =~= seq![words(rest.take(i - start - 1))] + rows(rest.skip(i - start)));
    }
}

/// A text without the white space at its end.
pub open spec fn trimmed(text: Seq<char>) -> Seq<char>
    decreases text.len(),
{
    if text.len() > 0 && is_space(text.last()) {
        trimmed(text.drop_last())
    } else {
        text
    }
}

/// The number of characters of `text` that come before the white space at its
/// end.
pub(crate) fn trimmed_len(text: &Vec<char>) -> (r: usize)
    ensures
        r <= text.len(),
        text@.take(r as int) == trimmed(text@),
{
    let mut n: usize = text.len();
    assert(text@.take(n as int) =~= text@);
    while n > 0 && space(text[n - 1])
        invariant
            n <= text.len(),
            trimmed(text@.take(n as int)) == trimmed(text@),
        decreases n,
    {
        proof {
            assert(text@.take(n as int).drop_last() =~= text@.take(n - 1));
        }
        n = n - 1;
    }
    n
}

/// A text without the white space at its start.
pub open spec fn trimmed_start(text: Seq<char>) -> Seq<char>
    decreases text.len(),
{
    if text.len() > 0 && is_space(text[0]) {
        trimmed_start(text.skip(1))
    } else {
        text
    }
}

/// Takes the white space off both ends of a text.
pub fn trim(text: &str) -> (r: String)
    ensures
        r@ == trimmed_start(trimmed(text@)),
{
    let chars = chars_of(text);
    let end: usize = trimmed_len(&chars);
    let mut start: usize = 0;
    assert(chars@.subrange(0, end as int) =~= trimmed(text@));
    while start < end && space(chars[start])
        invariant
            start <= end <= chars.len(),
            trimmed_start(chars@.subrange(start as int, end as int)) == trimmed_start(
                trimmed(text@),
            ),
        decreases end - start,
    {
        assert(chars@.subrange(start as int, end as int).skip(1) =~= chars@.subrange(
            start + 1,
            end as int,
        ));
        start = start + 1;
    }
    string_between(&chars, start, end)
}

/// The character for one decimal digit.
pub open spec fn digit(d: int) -> char {
    ('0' as u32 + d) as char
}

/// The decimal text of a number, without leading zeros.
pub open spec fn decimal_text(n: nat) -> Seq<char>
    decreases n,
{
    if n < 10 {
        seq![digit(n as int)]
    } else {
        decimal_text(n / 10).push(digit((n % 10) as int))
    }
}

/// Writes a number in decimal.
pub fn decimal(n: u64) -> (r: String)
    ensures
        r@ == decimal_text(n as nat),
    decreases n,
{
    let c: char = (48u8 + (n % 10) as u8) as char;
    let mut out = if n < 10 {
        String::new()
    } else {
        decimal(n / 10)
    };
    out.push(c);
    out
}

/// Different numbers have different decimal texts.
pub proof fn lemma_decimal_injective(m: nat, n: nat)
    requires
        decimal_text(m) == decimal_text(n),
    ensures
        m == n,
    decreases m,
{
    let a = decimal_text(m);
    let b = decimal_text(n);
    lemma_decimal_nonempty(m / 10);
    lemma_decimal_nonempty(n / 10);
    assert(a.last() == digit((m % 10) as int));
    assert(b.last() == digit((n % 10) as int));
    if m >= 10 && n >= 10 {
        assert(a.drop_last() =~= decimal_text(m / 10));
        assert(b.drop_last() =~= decimal_text(n / 10));
        lemma_decimal_injective(m / 10, n / 10);
    }
}

proof fn lemma_decimal_nonempty(n: nat)
    ensures
        decimal_text(n).len() > 0,
{
}

/// The concatenation of two strings.
pub fn concat(a: &str, b: &str) -> (r: String)
    ensures
        r@ == a@ + b@,
{
    let mut out = a.to_owned();
    out.append(b);
    out
}

/// The pieces with `separator` between each two of them.
pub open spec fn joined(pieces: Seq<Seq<char>>, separator: Seq<char>) -> Seq<char>
    decreases pieces.len(),
{
    if pieces.len() == 0 {
        Seq::empty()
    } else if pieces.len() == 1 {
        pieces[0]
    } else {
        joined(pieces.drop_last(), separator) + separator + pieces.last()
    }
}

/// Joins the pieces, with `separator` between each two of them.
pub fn join(pieces: &Vec<String>, separator: &str) -> (r: String)
    ensures
        r@ == joined(pieces.deep_view(), separator@),
{
    let mut out = String::new();
    let n: usize = pieces.len();
    for i in 0..n
        invariant
            n == pieces@.len(),
            out@ == joined(pieces.deep_view().take(i as int), separator@),
    {
        let ghost seen = pieces.deep_view().take(i + 1);
        assert(seen.drop_last() =~= pieces.deep_view().take(i as int));
        if i > 0 {
            out.append(separator);
        }
        out.append(pieces[i].as_str());
        if i == 0 {
            assert(out@ =~= pieces@[0]@);
        }
    }
    assert(pieces.deep_view().take(n as int) =~= pieces.deep_view());
    out
}

/// A text holds another exactly where it is that text with something, or nothing,
/// on either side.
pub proof fn what_is_held_has_two_sides(whole: Seq<char>, part: Seq<char>)
    ensures
        holds(whole, part) <==> exists|before: Seq<char>, after: Seq<char>|
            whole == #[trigger] (before + part + after),
{
    if holds(whole, part) {
        let at = choose|at: int| found_at(whole, part, at);
        let before = whole.take(at);
        let after = whole.skip(at + part.len());
        assert(whole =~= before + whole.subrange(at, at + part.len()) + after);
        assert(whole == before + part + after);
    }
    if exists|before: Seq<char>, after: Seq<char>| whole == #[trigger] (before + part + after) {
        let (before, after) = choose|before: Seq<char>, after: Seq<char>|
            whole == #[trigger] (before + part + after);
        let at = before.len() as int;
        assert(whole.subrange(at, at + part.len()) =~= part);
        assert(found_at(whole, part, at));
    }
}

/// The white space among the characters, by their codes.
pub proof fn white_space_by_code(c: char)
    ensures
        is_space(c) <==> ({
            let code = c as u32;
            ||| 0x9 <= code <= 0xd
            ||| code == 0x20
            ||| code == 0x85
            ||| code == 0xa0
            ||| code == 0x1680
            ||| 0x2000 <= code <= 0x200a
            ||| 0x2028 <= code <= 0x2029
            ||| code == 0x202f
            ||| code == 0x205f
            ||| code == 0x3000
        }),
{
}

/// White space separates: the words on both sides of a white-space character are the
/// words of the line.
pub proof fn white_space_separates_words(a: Seq<char>, c: char, b: Seq<char>)
    requires
        is_space(c),
    ensures
        words(a.push(c) + b) == words(a) + words(b),
    decreases a.len(),
{
    let line = a.push(c) + b;
    if a.len() == 0 {
        assert(line.skip(1) =~= b);
        assert(words(a) + words(b) =~= words(b));
    } else if is_space(a[0]) {
        white_space_separates_words(a.skip(1), c, b);
        assert(line.skip(1) =~= a.skip(1).push(c) + b);
    } else {
        lemma_word_len(a);
        lemma_word_stops(a);
        let n = word_len(a) as int;
        assert forall|j: int| 0 <= j < n implies !is_space(#[trigger] line[j]) by {
            assert(line[j] == a[j]);
        }
        lemma_word_len_is(line, n);
        assert(line.take(n) =~= a.take(n));
        assert(line.skip(n) =~= a.skip(n).push(c) + b);
        white_space_separates_words(a.skip(n), c, b);
        assert(words(line) =~= words(a) + words(b));
    }
}

proof fn lemma_word_stops(line: Seq<char>)
    ensures
        word_len(line) <= line.len(),
        forall|j: int| 0 <= j < word_len(line) ==> !is_space(#[trigger] line[j]),
        word_len(line) == line.len() || is_space(line[word_len(line) as int]),
    decreases line.len(),
{
    if line.len() > 0 && !is_space(line[0]) {
        let rest = line.skip(1);
        lemma_word_stops(rest);
        assert forall|j: int| 0 <= j < word_len(line) implies !is_space(#[trigger] line[j]) by {
            if j > 0 {
                assert(!is_space(rest[j - 1]));
            }
        }
    }
}

/// What has no white space in it is one word, and nothing is no word.
pub proof fn an_unbroken_run_is_one_word(word: Seq<char>)
    requires
        forall|i: int| 0 <= i < word.len() ==> !is_space(#[trigger] word[i]),
    ensures
        words(word) == if word.len() > 0 {
            seq![word]
        } else {
            Seq::empty()
        },
{
    if word.len() > 0 {
        let n = word.len() as int;
        lemma_word_len_is(word, n);
        assert(word.take(n) =~= word);
        assert(words(word.skip(n)) =~= Seq::empty());
        assert(words(word) =~= seq![word]);
    }
}

/// A line feed separates: the lines on both sides of it are the lines of the text.
pub proof fn line_feeds_separate_lines(a: Seq<char>, b: Seq<char>)
    ensures
        lines(a.push('\n') + b) == lines(a) + lines(b),
    decreases a.len(),
{
    let text = a.push('\n') + b;
    lemma_line_stops(a);
    let n = line_len(a) as int;
    assert forall|j: int| 0 <= j < n implies #[trigger] text[j] != '\n' by {
        assert(text[j] == a[j]);
    }
    lemma_line_len_is(text, n);
    assert(text.take(n) =~= a.take(n));
    if n < a.len() {
        line_feeds_separate_lines(a.skip(n + 1), b);
        assert(text.skip(n + 1) =~= a.skip(n + 1).push('\n') + b);
        assert(lines(text) =~= lines(a) + lines(b));
    } else {
        assert(a.take(n) =~= a);
        assert(text.skip(n + 1) =~= b);
        assert(lines(text) =~= lines(a) + lines(b));
    }
}

proof fn lemma_line_stops(text: Seq<char>)
    ensures
        line_len(text) <= text.len(),
        forall|j: int| 0 <= j < line_len(text) ==> #[trigger] text[j] != '\n',
        line_len(text) == text.len() || text[line_len(text) as int] == '\n',
    decreases text.len(),
{
    if text.len() > 0 && text[0] != '\n' {
        let rest = text.skip(1);
        lemma_line_stops(rest);
        assert forall|j: int| 0 <= j < line_len(text) implies #[trigger] text[j] != '\n' by {
            if j > 0 {
                assert(rest[j - 1] != '\n');
            }
        }
    }
}

/// What has no line feed in it is one line.
pub proof fn an_unbroken_text_is_one_line(line: Seq<char>)
    requires
        forall|i: int| 0 <= i < line.len() ==> #[trigger] line[i] != '\n',
    ensures
        lines(line) == seq![line],
{
    lemma_line_len_is(line, line.len() as int);
}

/// The rows of a text are the words of its lines: a line feed separates rows, and a
/// text without one is a single row.
pub proof fn rows_are_the_words_of_the_lines(a: Seq<char>, b: Seq<char>)
    ensures
        rows(a.push('\n') + b) == rows(a) + rows(b),
        (forall|i: int| 0 <= i < a.len() ==> #[trigger] a[i] != '\n') ==> rows(a) == seq![words(a)],
{
    line_feeds_separate_lines(a, b);
    assert(rows(a.push('\n') + b) =~= rows(a) + rows(b));
    if forall|i: int| 0 <= i < a.len() ==> #[trigger] a[i] != '\n' {
        an_unbroken_text_is_one_line(a);
        assert(rows(a) =~= seq![words(a)]);
    }
}

/// A list of names that is written one to a line is read back as it was.
pub proof fn joined_lines_are_read_back(names: Seq<Seq<char>>)
    requires
        names.len() > 0,
        forall|i: int, j: int|
            0 <= i < names.len() && 0 <= j < names[i].len() ==> #[trigger] names[i][j] != '\n',
    ensures
        lines(joined(names, "\n"@)) == names,
    decreases names.len(),
{
    reveal_strlit("\n");
    let last = names.last();
    assert forall|j: int| 0 <= j < last.len() implies #[trigger] last[j] != '\n' by {
        assert(names[names.len() - 1][j] != '\n');
    }
    an_unbroken_text_is_one_line(last);
    if names.len() == 1 {
        assert(lines(joined(names, "\n"@)) =~= names);
    } else {
        let front = names.drop_last();
        assert forall|i: int, j: int|
            0 <= i < front.len() && 0 <= j < front[i].len() implies #[trigger] front[i][j]
            != '\n' by {
            assert(names[i][j] != '\n');
        }
        joined_lines_are_read_back(front);
        let text = joined(front, "\n"@);
        assert(joined(names, "\n"@) =~= text.push('\n') + last);
        line_feeds_separate_lines(text, last);
        assert(lines(joined(names, "\n"@)) =~= names);
    }
}

/// Joining puts the separator between two lists of pieces, and nothing anywhere else.
pub proof fn joining_separates(a: Seq<Seq<char>>, b: Seq<Seq<char>>, separator: Seq<char>)
    requires
        a.len() > 0,
        b.len() > 0,
    ensures
        joined(a + b, separator) == joined(a, separator) + separator + joined(b, separator),
        a.len() == 1 ==> joined(a, separator) == a[0],
        joined(Seq::empty(), separator) == Seq::<char>::empty(),
    decreases b.len(),
{
    let all = a + b;
    assert(all.last() == b.last());
    if b.len() == 1 {
        assert(all.drop_last() =~= a);
    } else {
        let front = b.drop_last();
        joining_separates(a, front, separator);
        assert(all.drop_last() =~= a + front);
        assert(joined(all, separator) =~= joined(a, separator) + separator + joined(b, separator));
    }
}

/// Trimming takes off white space at both ends, all of it and nothing else.
pub proof fn trimming_takes_off_the_white_space(text: Seq<char>) -> (sides: (Seq<char>, Seq<char>))
    ensures
        text == sides.0 + trimmed_start(trimmed(text)) + sides.1,
        forall|i: int| 0 <= i < sides.0.len() ==> is_space(#[trigger] sides.0[i]),
        forall|i: int| 0 <= i < sides.1.len() ==> is_space(#[trigger] sides.1[i]),
        trimmed_start(trimmed(text)).len() > 0 ==> !is_space(trimmed_start(trimmed(text))[0])
            && !is_space(trimmed_start(trimmed(text)).last()),
{
    let middle = trimmed(text);
    let after = lemma_trimmed(text);
    let before = lemma_trimmed_start(middle);
    let core = trimmed_start(middle);
    assert(text =~= before + core + after);
    if core.len() > 0 {
        assert(core.last() == middle.last());
    }
    (before, after)
}

proof fn lemma_trimmed(text: Seq<char>) -> (after: Seq<char>)
    ensures
        text == trimmed(text) + after,
        forall|i: int| 0 <= i < after.len() ==> is_space(#[trigger] after[i]),
        trimmed(text).len() > 0 ==> !is_space(trimmed(text).last()),
    decreases text.len(),
{
    if text.len() > 0 && is_space(text.last()) {
        let rest = lemma_trimmed(text.drop_last());
        let after = rest.push(text.last());
        assert(text =~= text.drop_last().push(text.last()));
        assert((trimmed(text) + rest).push(text.last()) =~= trimmed(text) + after);
        after
    } else {
        assert(text =~= text + Seq::<char>::empty());
        Seq::empty()
    }
}

proof fn lemma_trimmed_start(text: Seq<char>) -> (before: Seq<char>)
    ensures
        text == before + trimmed_start(text),
        forall|i: int| 0 <= i < before.len() ==> is_space(#[trigger] before[i]),
        trimmed_start(text).len() > 0 ==> !is_space(trimmed_start(text)[0]),
    decreases text.len(),
{
    if text.len() > 0 && is_space(text[0]) {
        let rest = lemma_trimmed_start(text.skip(1));
        let before = seq![text[0]] + rest;
        assert(text =~= seq![text[0]] + text.skip(1));
        assert(text =~= before + trimmed_start(text));
        before
    } else {
        assert(text =~= Seq::<char>::empty() + text);
        Seq::empty()
    }
}

/// Decimal notation: a digit behind a number multiplies it by ten and adds the digit.
pub proof fn a_digit_behind_a_number(n: nat, d: nat)
    requires
        d < 10,
    ensures
        decimal_text(d) == seq![(0x30 + d) as char],
        n > 0 ==> decimal_text((10 * n + d) as nat) == decimal_text(n).push((0x30 + d) as char),
{
    let m = (10 * n + d) as nat;
    if n > 0 {
        assert(m / 10 == n && m % 10 == d);
    }
}

} // verus!
