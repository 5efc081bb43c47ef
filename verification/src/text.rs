//! Text as sequences of characters.
//!
//! The specification functions here say what the usual text operations give, over `Seq<char>`; the
//! executable functions beside them compute the same on slices of characters.

use vstd::prelude::*;

verus! {

/// `String::push` puts one character behind the text.
pub assume_specification[ String::push ](s: &mut String, ch: char)
    ensures
        final(s)@ == old(s)@.push(ch),
;

// ---------------------------------------------------------------------------------------------
// Specification
// ---------------------------------------------------------------------------------------------

/// The characters of each text of a sequence.
pub open spec fn texts(strings: Seq<String>) -> Seq<Seq<char>> {
    strings.map_values(|s: String| s@)
}

/// The characters of each vector of a sequence.
pub open spec fn contents(parts: Seq<Vec<char>>) -> Seq<Seq<char>> {
    parts.map_values(|v: Vec<char>| v@)
}

/// The characters with the Unicode property `White_Space`.
pub open spec fn is_space(c: char) -> bool {
    ||| '\u{9}' <= c <= '\u{d}'
    ||| c == ' '
    ||| c == '\u{85}'
    ||| c == '\u{a0}'
    ||| c == '\u{1680}'
    ||| '\u{2000}' <= c <= '\u{200a}'
    ||| c == '\u{2028}'
    ||| c == '\u{2029}'
    ||| c == '\u{202f}'
    ||| c == '\u{205f}'
    ||| c == '\u{3000}'
}

/// The index of the first `c` in `s`, or the length of `s` where there is none.
pub open spec fn position(s: Seq<char>, c: char) -> nat
    decreases s.len(),
{
    if s.len() == 0 || s[0] == c {
        0
    } else {
        1 + position(s.skip(1), c)
    }
}

/// `s` without the carriage return at its end, if it has one.
pub open spec fn strip_return(s: Seq<char>) -> Seq<char> {
    if s.len() > 0 && s.last() == '\r' {
        s.drop_last()
    } else {
        s
    }
}

/// The lines of `s`. A line ends in a newline, or in a carriage return and a newline, which are not
/// part of it; the last line may lack its ending.
pub open spec fn lines(s: Seq<char>) -> Seq<Seq<char>>
    decreases s.len(),
{
    if s.len() == 0 {
        Seq::empty()
    } else {
        let n = position(s, '\n');
        if n < s.len() {
            seq![strip_return(s.take(n as int))] + lines(s.skip(n as int + 1))
        } else {
            seq![s]
        }
    }
}

/// `s` without the whitespace in front.
pub open spec fn trim_start(s: Seq<char>) -> Seq<char>
    decreases s.len(),
{
    if s.len() > 0 && is_space(s[0]) {
        trim_start(s.skip(1))
    } else {
        s
    }
}

/// `s` without the whitespace behind.
pub open spec fn trim_end(s: Seq<char>) -> Seq<char>
    decreases s.len(),
{
    if s.len() > 0 && is_space(s.last()) {
        trim_end(s.drop_last())
    } else {
        s
    }
}

/// `s` without the whitespace at either end.
pub open spec fn trim(s: Seq<char>) -> Seq<char> {
    trim_end(trim_start(s))
}

/// `s` without the copies of `c` behind.
pub open spec fn trim_end_matches(s: Seq<char>, c: char) -> Seq<char>
    decreases s.len(),
{
    if s.len() > 0 && s.last() == c {
        trim_end_matches(s.drop_last(), c)
    } else {
        s
    }
}

/// The number of characters in front of the first whitespace of `s`.
pub open spec fn word_len(s: Seq<char>) -> nat
    decreases s.len(),
{
    if s.len() == 0 || is_space(s[0]) {
        0
    } else {
        1 + word_len(s.skip(1))
    }
}

/// The maximal runs of characters of `s` that are not whitespace.
pub open spec fn words(s: Seq<char>) -> Seq<Seq<char>>
    decreases s.len(),
{
    if s.len() == 0 {
        Seq::empty()
    } else if is_space(s[0]) {
        words(s.skip(1))
    } else {
        proof {
            lemma_word_len(s);
        }
        seq![s.take(word_len(s) as int)] + words(s.skip(word_len(s) as int))
    }
}

/// The texts of `parts`, with one space between neighbours.
pub open spec fn join_spaced(parts: Seq<Seq<char>>) -> Seq<char>
    decreases parts.len(),
{
    if parts.len() == 0 {
        Seq::empty()
    } else if parts.len() == 1 {
        parts[0]
    } else {
        parts[0] + seq![' '] + join_spaced(parts.skip(1))
    }
}

/// What stands in front of the first `pattern` in `s`; all of `s` where there is none.
pub open spec fn before(s: Seq<char>, pattern: Seq<char>) -> Seq<char>
    decreases s.len(),
{
    if s.len() == 0 || pattern.is_prefix_of(s) {
        Seq::empty()
    } else {
        seq![s[0]] + before(s.skip(1), pattern)
    }
}

/// `s` with every `c` replaced by `with`.
pub open spec fn replace(s: Seq<char>, c: char, with: Seq<char>) -> Seq<char>
    decreases s.len(),
{
    if s.len() == 0 {
        Seq::empty()
    } else {
        (if s[0] == c {
            with
        } else {
            seq![s[0]]
        }) + replace(s.skip(1), c, with)
    }
}

/// The character of a decimal digit.
pub open spec fn digit(d: int) -> char {
    (('0' as u8) + d) as char
}

/// `n` in decimal digits, without leading zeros.
pub open spec fn decimal(n: nat) -> Seq<char>
    decreases n,
{
    if n < 10 {
        seq![digit(n as int)]
    } else {
        decimal(n / 10).push(digit((n % 10) as int))
    }
}

/// `i` in decimal digits, behind a minus sign where it is negative.
pub open spec fn signed_decimal(i: int) -> Seq<char> {
    if i < 0 {
        seq!['-'] + decimal((-i) as nat)
    } else {
        decimal(i as nat)
    }
}

// ---------------------------------------------------------------------------------------------
// Lemmas
// ---------------------------------------------------------------------------------------------

pub proof fn lemma_word_len(s: Seq<char>)
    ensures
        word_len(s) <= s.len(),
        forall|i: int| 0 <= i < word_len(s) ==> !is_space(#[trigger] s[i]),
        word_len(s) < s.len() ==> is_space(s[word_len(s) as int]),
        s.len() > 0 && !is_space(s[0]) ==> word_len(s) > 0,
    decreases s.len(),
{
    if s.len() > 0 && !is_space(s[0]) {
        lemma_word_len(s.skip(1));
        assert forall|i: int| 0 <= i < word_len(s) implies !is_space(#[trigger] s[i]) by {
            if i > 0 {
                assert(s[i] == s.skip(1)[i - 1]);
            }
        }
    }
}

/// `word_len` is the only count of characters with its properties.
pub proof fn lemma_word_len_is(s: Seq<char>, n: nat)
    requires
        n <= s.len(),
        forall|i: int| 0 <= i < n ==> !is_space(#[trigger] s[i]),
        n < s.len() ==> is_space(s[n as int]),
    ensures
        word_len(s) == n,
    decreases s.len(),
{
    if n > 0 {
        assert(!is_space(s[0]));
        assert forall|i: int| 0 <= i < n - 1 implies !is_space(#[trigger] s.skip(1)[i]) by {
            assert(s.skip(1)[i] == s[i + 1]);
        }
        lemma_word_len_is(s.skip(1), (n - 1) as nat);
    }
}

pub proof fn lemma_position(s: Seq<char>, c: char)
    ensures
        position(s, c) <= s.len(),
        forall|i: int| 0 <= i < position(s, c) ==> #[trigger] s[i] != c,
        position(s, c) < s.len() ==> s[position(s, c) as int] == c,
    decreases s.len(),
{
    if s.len() > 0 && s[0] != c {
        lemma_position(s.skip(1), c);
        assert forall|i: int| 0 <= i < position(s, c) implies #[trigger] s[i] != c by {
            if i > 0 {
                assert(s[i] == s.skip(1)[i - 1]);
            }
        }
    }
}

/// `position` is the only index with its properties.
pub proof fn lemma_position_is(s: Seq<char>, c: char, n: nat)
    requires
        n <= s.len(),
        forall|i: int| 0 <= i < n ==> #[trigger] s[i] != c,
        n < s.len() ==> s[n as int] == c,
    ensures
        position(s, c) == n,
    decreases s.len(),
{
    if n > 0 {
        assert(s[0] != c);
        assert forall|i: int| 0 <= i < n - 1 implies #[trigger] s.skip(1)[i] != c by {
            assert(s.skip(1)[i] == s[i + 1]);
        }
        lemma_position_is(s.skip(1), c, (n - 1) as nat);
    }
}

pub proof fn lemma_trim_end_matches(s: Seq<char>, c: char)
    ensures
        trim_end_matches(s, c).len() <= s.len(),
        trim_end_matches(s, c) == s.take(trim_end_matches(s, c).len() as int),
        trim_end_matches(s, c).len() > 0 ==> trim_end_matches(s, c).last() != c,
    decreases s.len(),
{
    if s.len() > 0 && s.last() == c {
        lemma_trim_end_matches(s.drop_last(), c);
        assert(s.drop_last().take(trim_end_matches(s, c).len() as int) =~= s.take(
            trim_end_matches(s, c).len() as int,
        ));
    } else {
        assert(s.take(s.len() as int) =~= s);
    }
}

/// One more part behind adds a space and the part.
pub proof fn lemma_join_push(parts: Seq<Seq<char>>, part: Seq<char>)
    requires
        parts.len() > 0,
    ensures
        join_spaced(parts.push(part)) == join_spaced(parts) + seq![' '] + part,
    decreases parts.len(),
{
    if parts.len() == 1 {
        assert(parts.push(part).skip(1) =~= seq![part]);
        assert(join_spaced(seq![part]) == part);
    } else {
        lemma_join_push(parts.skip(1), part);
        assert(parts.push(part).skip(1) =~= parts.skip(1).push(part));
        assert(join_spaced(parts.push(part)) =~= join_spaced(parts) + seq![' '] + part);
    }
}

/// Replacing goes part by part.
pub proof fn lemma_replace_concat(a: Seq<char>, b: Seq<char>, c: char, with: Seq<char>)
    ensures
        replace(a + b, c, with) == replace(a, c, with) + replace(b, c, with),
    decreases a.len(),
{
    if a.len() == 0 {
        assert(a + b =~= b);
        assert(replace(a, c, with) + replace(b, c, with) =~= replace(b, c, with));
    } else {
        lemma_replace_concat(a.skip(1), b, c, with);
        assert((a + b).skip(1) =~= a.skip(1) + b);
        assert(replace(a + b, c, with) =~= replace(a, c, with) + replace(b, c, with));
    }
}

/// Where there is nothing to replace, nothing changes.
pub proof fn lemma_replace_absent(s: Seq<char>, c: char, with: Seq<char>)
    requires
        forall|i: int| 0 <= i < s.len() ==> #[trigger] s[i] != c,
    ensures
        replace(s, c, with) == s,
    decreases s.len(),
{
    if s.len() > 0 {
        assert(s[0] != c);
        assert forall|i: int| 0 <= i < s.skip(1).len() implies #[trigger] s.skip(1)[i] != c by {
            assert(s.skip(1)[i] == s[i + 1]);
        }
        lemma_replace_absent(s.skip(1), c, with);
        assert(replace(s, c, with) =~= s);
    }
}

/// What replacing makes of a single character.
pub proof fn lemma_replace_one(x: char, c: char, with: Seq<char>)
    ensures
        replace(seq![x], c, with) == if x == c {
            with
        } else {
            seq![x]
        },
{
    assert(seq![x].skip(1) =~= Seq::<char>::empty());
    assert(replace(Seq::<char>::empty(), c, with) =~= Seq::<char>::empty());
    assert(replace(seq![x], c, with) =~= if x == c {
        with
    } else {
        seq![x]
    });
}

/// The lines of two texts, one behind the other, are those of the first and then those of the second,
/// if the first ends in a newline.
pub proof fn lemma_lines_concat(a: Seq<char>, b: Seq<char>)
    requires
        a.len() > 0 ==> a.last() == '\n',
    ensures
        lines(a + b) == lines(a) + lines(b),
    decreases a.len(),
{
    if a.len() == 0 {
        assert(a + b =~= b);
        assert(lines(a) + lines(b) =~= lines(b));
    } else {
        lemma_position(a, '\n');
        let n = position(a, '\n');
        assert(n < a.len()) by {
            assert(a[a.len() - 1] == '\n');
        }
        assert forall|i: int| 0 <= i < n implies #[trigger] (a + b)[i] != '\n' by {
            assert((a + b)[i] == a[i]);
        }
        lemma_position_is(a + b, '\n', n);
        let rest = a.skip(n as int + 1);
        assert((a + b).skip(n as int + 1) =~= rest + b);
        assert((a + b).take(n as int) =~= a.take(n as int));
        assert(rest.len() > 0 ==> rest.last() == a.last());
        lemma_lines_concat(rest, b);
        let first = seq![strip_return(a.take(n as int))];
        assert(first + (lines(rest) + lines(b)) =~= (first + lines(rest)) + lines(b));
    }
}

/// A text that ends in its only newline is one line.
pub proof fn lemma_one_line(line: Seq<char>)
    requires
        forall|i: int| 0 <= i < line.len() ==> #[trigger] line[i] != '\n',
    ensures
        lines(line.push('\n')) == seq![strip_return(line)],
{
    let s = line.push('\n');
    assert forall|i: int| 0 <= i < line.len() implies #[trigger] s[i] != '\n' by {
        assert(s[i] == line[i]);
    }
    lemma_position_is(s, '\n', line.len());
    assert(s.take(line.len() as int) =~= line);
    assert(s.skip(line.len() as int + 1) =~= Seq::<char>::empty());
    assert(lines(Seq::<char>::empty()) =~= Seq::<Seq<char>>::empty());
    assert(lines(s) =~= seq![strip_return(line)]);
}

/// A text that neither begins nor ends in whitespace loses nothing when trimmed.
pub proof fn lemma_trim_same(s: Seq<char>)
    requires
        s.len() > 0 ==> !is_space(s[0]) && !is_space(s.last()),
    ensures
        trim(s) == s,
{
}

/// A run of characters without whitespace.
pub open spec fn is_word(w: Seq<char>) -> bool {
    w.len() > 0 && forall|i: int| 0 <= i < w.len() ==> !is_space(#[trigger] w[i])
}

/// Every one of `parts` is a word.
pub open spec fn all_words(parts: Seq<Seq<char>>) -> bool {
    forall|i: int| 0 <= i < parts.len() ==> is_word(#[trigger] parts[i])
}

/// The words of a text are words.
pub proof fn lemma_words_are_words(s: Seq<char>)
    ensures
        all_words(words(s)),
    decreases s.len(),
{
    if s.len() > 0 {
        if is_space(s[0]) {
            lemma_words_are_words(s.skip(1));
        } else {
            lemma_word_len(s);
            let n = word_len(s) as int;
            lemma_words_are_words(s.skip(n));
            let all = words(s);
            assert forall|i: int| 0 <= i < all.len() implies is_word(#[trigger] all[i]) by {
                if i == 0 {
                    assert forall|j: int| 0 <= j < n implies !is_space(#[trigger] all[0][j]) by {
                        assert(all[0][j] == s[j]);
                    }
                } else {
                    assert(all[i] == words(s.skip(n))[i - 1]);
                }
            }
        }
    }
}

/// Whitespace behind a text adds no word.
pub proof fn lemma_words_push_space(s: Seq<char>, c: char)
    requires
        is_space(c),
    ensures
        words(s.push(c)) == words(s),
    decreases s.len(),
{
    let t = s.push(c);
    if s.len() == 0 {
        assert(t.skip(1) =~= s);
    } else if is_space(s[0]) {
        lemma_words_push_space(s.skip(1), c);
        assert(t.skip(1) =~= s.skip(1).push(c));
    } else {
        lemma_word_len(s);
        let n = word_len(s);
        assert forall|i: int| 0 <= i < n implies !is_space(#[trigger] t[i]) by {
            assert(t[i] == s[i]);
        }
        lemma_word_len_is(t, n);
        lemma_words_push_space(s.skip(n as int), c);
        assert(t.skip(n as int) =~= s.skip(n as int).push(c));
        assert(t.take(n as int) =~= s.take(n as int));
    }
}

/// Trimming keeps the words of a text. Where there is one, the trimmed text begins as the first does.
pub proof fn lemma_words_of_trim(s: Seq<char>)
    ensures
        words(trim(s)) == words(s),
        words(s).len() > 0 ==> trim(s).len() > 0 && trim(s)[0] == words(s)[0][0],
{
    lemma_words_of_trim_start(s);
    let t = trim_start(s);
    lemma_words_of_trim_end(t);
    if words(s).len() > 0 {
        lemma_word_len(t);
        assert(t.take(word_len(t) as int)[0] == t[0]);
    }
}

proof fn lemma_words_of_trim_start(s: Seq<char>)
    ensures
        words(trim_start(s)) == words(s),
        trim_start(s).len() > 0 ==> !is_space(trim_start(s)[0]),
    decreases s.len(),
{
    if s.len() > 0 && is_space(s[0]) {
        lemma_words_of_trim_start(s.skip(1));
    }
}

proof fn lemma_words_of_trim_end(s: Seq<char>)
    ensures
        words(trim_end(s)) == words(s),
        s.len() > 0 && !is_space(s[0]) ==> trim_end(s).len() > 0 && trim_end(s)[0] == s[0],
    decreases s.len(),
{
    if s.len() > 0 && is_space(s.last()) {
        lemma_words_of_trim_end(s.drop_last());
        lemma_words_push_space(s.drop_last(), s.last());
        assert(s.drop_last().push(s.last()) =~= s);
    }
}

/// Words with single spaces between them begin with the first word and end with the last.
pub proof fn lemma_join_ends(parts: Seq<Seq<char>>)
    requires
        all_words(parts),
        parts.len() > 0,
    ensures
        join_spaced(parts).len() >= parts[0].len(),
        join_spaced(parts).take(parts[0].len() as int) == parts[0],
        join_spaced(parts).len() > 0,
        join_spaced(parts)[0] == parts[0][0],
        !is_space(join_spaced(parts)[0]),
        !is_space(join_spaced(parts).last()),
        parts.len() > 1 ==> join_spaced(parts).len() > parts[0].len() && join_spaced(
            parts,
        )[parts[0].len() as int] == ' ',
    decreases parts.len(),
{
    assert(is_word(parts[0]));
    let joined = join_spaced(parts);
    if parts.len() == 1 {
        assert(joined.take(parts[0].len() as int) =~= parts[0]);
        assert(joined.last() == parts[0][parts[0].len() - 1]);
    } else {
        let rest = parts.skip(1);
        assert forall|i: int| 0 <= i < rest.len() implies is_word(#[trigger] rest[i]) by {
            assert(rest[i] == parts[i + 1]);
        }
        lemma_join_ends(rest);
        assert(joined.take(parts[0].len() as int) =~= parts[0]);
        assert(joined.last() == join_spaced(rest).last());
    }
    assert(joined[0] == parts[0][0]);
}

/// Joining goes part by part.
pub proof fn lemma_join_concat(a: Seq<Seq<char>>, b: Seq<Seq<char>>)
    requires
        a.len() > 0,
        b.len() > 0,
    ensures
        join_spaced(a + b) == join_spaced(a) + seq![' '] + join_spaced(b),
    decreases a.len(),
{
    assert((a + b).skip(1) =~= a.skip(1) + b);
    if a.len() == 1 {
        assert(a.skip(1) + b =~= b);
    } else {
        lemma_join_concat(a.skip(1), b);
        assert(join_spaced(a + b) =~= join_spaced(a) + seq![' '] + join_spaced(b));
    }
}

/// A pattern that begins with a space does not begin in text without spaces.
pub proof fn lemma_before_unspaced(s: Seq<char>, rest: Seq<char>, pattern: Seq<char>)
    requires
        pattern.len() > 0,
        pattern[0] == ' ',
        forall|i: int| 0 <= i < s.len() ==> #[trigger] s[i] != ' ',
    ensures
        before(s + rest, pattern) == s + before(rest, pattern),
    decreases s.len(),
{
    if s.len() == 0 {
        assert(s + rest =~= rest);
        assert(s + before(rest, pattern) =~= before(rest, pattern));
    } else {
        let all = s + rest;
        assert(s[0] != ' ');
        assert(all[0] == s[0]);
        assert(!pattern.is_prefix_of(all)) by {
            if pattern.is_prefix_of(all) {
                assert(all.subrange(0, pattern.len() as int)[0] == all[0]);
            }
        }
        assert forall|i: int| 0 <= i < s.skip(1).len() implies #[trigger] s.skip(1)[i] != ' ' by {
            assert(s.skip(1)[i] == s[i + 1]);
        }
        lemma_before_unspaced(s.skip(1), rest, pattern);
        assert(all.skip(1) =~= s.skip(1) + rest);
        assert(before(all, pattern) =~= s + before(rest, pattern));
    }
}

// ---------------------------------------------------------------------------------------------
// Executable functions
// ---------------------------------------------------------------------------------------------

/// The characters of a text.
pub fn chars_of(text: &str) -> (chars: Vec<char>)
    ensures
        chars@ == text@,
{
    let mut chars: Vec<char> = Vec::new();
    for c in it: text.chars()
        invariant
            it.seq() == text@,
            chars@ == text@.take(it.index() as int),
    {
        chars.push(c);
    }
    chars
}

/// The text made of the given characters.
pub fn text_of(chars: &[char]) -> (text: String)
    ensures
        text@ == chars@,
{
    let mut text = String::new();
    for i in 0..chars.len()
        invariant
            text@ == chars@.take(i as int),
    {
        text.push(chars[i]);
    }
    text
}

/// The characters from `from` up to `to`.
pub fn copy_range(chars: &[char], from: usize, to: usize) -> (part: Vec<char>)
    requires
        from <= to <= chars@.len(),
    ensures
        part@ == chars@.subrange(from as int, to as int),
{
    let mut part: Vec<char> = Vec::new();
    for i in from..to
        invariant
            to <= chars@.len(),
            from <= i <= to,
            part@ == chars@.subrange(from as int, i as int),
    {
        part.push(chars[i]);
    }
    part
}

/// Whether a character is whitespace.
pub fn is_whitespace(c: char) -> (b: bool)
    ensures
        b == is_space(c),
{
    ('\u{9}' <= c && c <= '\u{d}') || c == ' ' || c == '\u{85}' || c == '\u{a0}' || c == '\u{1680}'
        || ('\u{2000}' <= c && c <= '\u{200a}') || c == '\u{2028}' || c == '\u{2029}' || c
        == '\u{202f}' || c == '\u{205f}' || c == '\u{3000}'
}

/// Whether two runs of characters are the same.
pub fn same(a: &[char], b: &[char]) -> (eq: bool)
    ensures
        eq == (a@ == b@),
{
    if a.len() != b.len() {
        return false;
    }
    for i in 0..a.len()
        invariant
            a@.len() == b@.len(),
            forall|j: int| 0 <= j < i ==> a@[j] == b@[j],
    {
        if a[i] != b[i] {
            return false;
        }
    }
    assert(a@ =~= b@);
    true
}

/// Whether two texts are the same.
pub fn same_text(a: &str, b: &str) -> (eq: bool)
    ensures
        eq == (a@ == b@),
{
    same(chars_of(a).as_slice(), chars_of(b).as_slice())
}

/// Whether `pattern` stands in `chars` at `at`.
fn stands_at(chars: &[char], at: usize, pattern: &[char]) -> (b: bool)
    requires
        at <= chars@.len(),
    ensures
        b == pattern@.is_prefix_of(chars@.skip(at as int)),
{
    let total: usize = chars.len();
    if pattern.len() > total - at {
        return false;
    }
    for i in 0..pattern.len()
        invariant
            total == chars@.len(),
            at <= total,
            pattern@.len() <= total - at,
            forall|j: int| 0 <= j < i ==> pattern@[j] == chars@.skip(at as int)[j],
    {
        if chars[at + i] != pattern[i] {
            assert(pattern@[i as int] != chars@.skip(at as int).subrange(
                0,
                pattern@.len() as int,
            )[i as int]);
            return false;
        }
    }
    true
}

/// Whether `chars` begins with `prefix`.
pub fn starts_with(chars: &[char], prefix: &str) -> (b: bool)
    ensures
        b == prefix@.is_prefix_of(chars@),
{
    assert(chars@.skip(0) =~= chars@);
    stands_at(chars, 0, chars_of(prefix).as_slice())
}

/// What stands in front of the first `pattern`; everything where there is none.
pub fn take_before(chars: &[char], pattern: &str) -> (part: Vec<char>)
    ensures
        part@ == before(chars@, pattern@),
{
    let pattern = chars_of(pattern);
    let mut i: usize = 0;
    assert(chars@.skip(0) =~= chars@);
    while i < chars.len() && !stands_at(chars, i, pattern.as_slice())
        invariant
            i <= chars@.len(),
            before(chars@, pattern@) == chars@.take(i as int) + before(
                chars@.skip(i as int),
                pattern@,
            ),
        decreases chars@.len() - i,
    {
        assert(chars@.skip(i as int).skip(1) =~= chars@.skip(i + 1));
        assert(chars@.take(i + 1) =~= chars@.take(i as int).push(chars@[i as int]));
        i = i + 1;
    }
    assert(before(chars@.skip(i as int), pattern@) =~= Seq::<char>::empty());
    let part = copy_range(chars, 0, i);
    assert(part@ =~= chars@.take(i as int));
    part
}

/// The characters without the whitespace at either end.
pub fn trimmed(chars: &[char]) -> (part: Vec<char>)
    ensures
        part@ == trim(chars@),
{
    let mut from: usize = 0;
    assert(chars@.skip(0) =~= chars@);
    while from < chars.len() && is_whitespace(chars[from])
        invariant
            from <= chars@.len(),
            trim_start(chars@) == trim_start(chars@.skip(from as int)),
        decreases chars@.len() - from,
    {
        assert(chars@.skip(from as int).skip(1) =~= chars@.skip(from + 1));
        from = from + 1;
    }
    let ghost rest = chars@.skip(from as int);
    assert(trim_start(rest) == rest);
    let mut to: usize = chars.len();
    assert(chars@.subrange(from as int, to as int) =~= rest);
    while to > from && is_whitespace(chars[to - 1])
        invariant
            from <= to <= chars@.len(),
            trim_end(rest) == trim_end(chars@.subrange(from as int, to as int)),
        decreases to,
    {
        assert(chars@.subrange(from as int, to as int).drop_last() =~= chars@.subrange(
            from as int,
            to - 1,
        ));
        to = to - 1;
    }
    copy_range(chars, from, to)
}

/// The characters without the copies of `c` behind.
pub fn without_trailing(chars: &[char], c: char) -> (part: Vec<char>)
    ensures
        part@ == trim_end_matches(chars@, c),
{
    let mut to: usize = chars.len();
    assert(chars@.take(to as int) =~= chars@);
    while to > 0 && chars[to - 1] == c
        invariant
            to <= chars@.len(),
            trim_end_matches(chars@, c) == trim_end_matches(chars@.take(to as int), c),
        decreases to,
    {
        assert(chars@.take(to as int).drop_last() =~= chars@.take(to - 1));
        to = to - 1;
    }
    let part = copy_range(chars, 0, to);
    assert(part@ =~= chars@.take(to as int));
    part
}

/// The index of the first newline from `start` on, or the length where there is none.
fn find_newline(chars: &[char], start: usize) -> (end: usize)
    requires
        start <= chars@.len(),
    ensures
        start <= end <= chars@.len(),
        end - start == position(chars@.skip(start as int), '\n'),
        end < chars@.len() ==> chars@[end as int] == '\n',
{
    let mut end: usize = start;
    while end < chars.len() && chars[end] != '\n'
        invariant
            start <= end <= chars@.len(),
            forall|i: int| 0 <= i < end - start ==> #[trigger] chars@.skip(start as int)[i] != '\n',
        decreases chars@.len() - end,
    {
        end = end + 1;
    }
    proof {
        lemma_position_is(chars@.skip(start as int), '\n', (end - start) as nat);
    }
    end
}

/// The lines of a text.
pub fn split_lines(chars: &[char]) -> (parts: Vec<Vec<char>>)
    ensures
        contents(parts@) == lines(chars@),
{
    let mut parts: Vec<Vec<char>> = Vec::new();
    let mut start: usize = 0;
    assert(chars@.skip(0) =~= chars@);
    assert(lines(chars@) =~= contents(parts@) + lines(chars@.skip(0)));
    while start < chars.len()
        invariant
            start <= chars@.len(),
            lines(chars@) == contents(parts@) + lines(chars@.skip(start as int)),
        decreases chars@.len() - start,
    {
        let ghost rest = chars@.skip(start as int);
        let ghost done = contents(parts@);
        let end: usize = find_newline(chars, start);
        let ghost line = chars@.subrange(start as int, end as int);
        assert(line =~= rest.take(end - start));
        if end < chars.len() {
            let stop: usize = if end > start && chars[end - 1] == '\r' {
                end - 1
            } else {
                end
            };
            let part = copy_range(chars, start, stop);
            assert(part@ =~= strip_return(line));
            parts.push(part);
            assert(contents(parts@) =~= done.push(part@));
            assert(rest.skip(end - start + 1) =~= chars@.skip(end + 1));
            assert(done.push(part@) + lines(chars@.skip(end + 1)) =~= done + (seq![part@] + lines(
                chars@.skip(end + 1),
            )));
            start = end + 1;
        } else {
            let part = copy_range(chars, start, end);
            assert(part@ =~= rest);
            parts.push(part);
            assert(contents(parts@) =~= done.push(part@));
            assert(lines(chars@.skip(end as int)) =~= Seq::<Seq<char>>::empty());
            assert(done.push(part@) + Seq::<Seq<char>>::empty() =~= done + seq![part@]);
            start = end;
        }
    }
    assert(lines(chars@.skip(start as int)) =~= Seq::<Seq<char>>::empty());
    assert(contents(parts@) + Seq::<Seq<char>>::empty() =~= contents(parts@));
    parts
}

/// The index of the first whitespace from `start` on, or the length where there is none.
fn find_space(chars: &[char], start: usize) -> (end: usize)
    requires
        start <= chars@.len(),
    ensures
        start <= end <= chars@.len(),
        end - start == word_len(chars@.skip(start as int)),
{
    let mut end: usize = start;
    while end < chars.len() && !is_whitespace(chars[end])
        invariant
            start <= end <= chars@.len(),
            forall|i: int|
                0 <= i < end - start ==> !is_space(#[trigger] chars@.skip(start as int)[i]),
        decreases chars@.len() - end,
    {
        end = end + 1;
    }
    proof {
        lemma_word_len_is(chars@.skip(start as int), (end - start) as nat);
    }
    end
}

/// The words of a text.
pub fn split_words(chars: &[char]) -> (parts: Vec<Vec<char>>)
    ensures
        contents(parts@) == words(chars@),
{
    let mut parts: Vec<Vec<char>> = Vec::new();
    let mut start: usize = 0;
    assert(chars@.skip(0) =~= chars@);
    assert(words(chars@) =~= contents(parts@) + words(chars@.skip(0)));
    while start < chars.len()
        invariant
            start <= chars@.len(),
            words(chars@) == contents(parts@) + words(chars@.skip(start as int)),
        decreases chars@.len() - start,
    {
        let ghost rest = chars@.skip(start as int);
        let ghost done = contents(parts@);
        if is_whitespace(chars[start]) {
            assert(rest.skip(1) =~= chars@.skip(start + 1));
            start = start + 1;
        } else {
            let end: usize = find_space(chars, start);
            proof {
                lemma_word_len(rest);
            }
            let part = copy_range(chars, start, end);
            assert(part@ =~= rest.take(end - start));
            parts.push(part);
            assert(contents(parts@) =~= done.push(part@));
            assert(rest.skip(end - start) =~= chars@.skip(end as int));
            assert(done.push(part@) + words(chars@.skip(end as int)) =~= done + (seq![part@]
                + words(chars@.skip(end as int))));
            start = end;
        }
    }
    assert(words(chars@.skip(start as int)) =~= Seq::<Seq<char>>::empty());
    assert(contents(parts@) + Seq::<Seq<char>>::empty() =~= contents(parts@));
    parts
}

/// The parts from `from` on, with one space between neighbours.
pub fn join_from(parts: &Vec<Vec<char>>, from: usize) -> (joined: Vec<char>)
    requires
        from <= parts@.len(),
    ensures
        joined@ == join_spaced(contents(parts@).skip(from as int)),
{
    let mut joined: Vec<char> = Vec::new();
    let ghost all = contents(parts@).skip(from as int);
    for i in from..parts.len()
        invariant
            from <= i <= parts@.len(),
            all == contents(parts@).skip(from as int),
            joined@ == join_spaced(all.take(i - from)),
    {
        let ghost done = all.take(i - from);
        if i > from {
            joined.push(' ');
        }
        let ghost so_far = joined@;
        let part = &parts[i];
        assert(part@ == all[i - from]);
        for j in 0..part.len()
            invariant
                joined@ == so_far + part@.take(j as int),
        {
            joined.push(part[j]);
        }
        assert(part@.take(part@.len() as int) =~= part@);
        assert(all.take(i - from + 1) =~= done.push(part@));
        proof {
            if i > from {
                lemma_join_push(done, part@);
            } else {
                assert(done.push(part@) =~= seq![part@]);
                assert(joined@ =~= part@);
            }
        }
    }
    assert(all.take(all.len() as int) =~= all);
    joined
}

/// The characters with every `c` replaced by `with`.
pub fn replace_char(chars: &[char], c: char, with: &str) -> (replaced: Vec<char>)
    ensures
        replaced@ == replace(chars@, c, with@),
{
    let with = chars_of(with);
    let mut replaced: Vec<char> = Vec::new();
    assert(chars@.skip(0) =~= chars@);
    for i in 0..chars.len()
        invariant
            replace(chars@, c, with@) == replaced@ + replace(chars@.skip(i as int), c, with@),
    {
        let ghost so_far = replaced@;
        if chars[i] == c {
            for j in 0..with.len()
                invariant
                    replaced@ == so_far + with@.take(j as int),
            {
                replaced.push(with[j]);
            }
            assert(with@.take(with@.len() as int) =~= with@);
        } else {
            replaced.push(chars[i]);
        }
        assert(chars@.skip(i as int).skip(1) =~= chars@.skip(i + 1));
        assert(replace(chars@, c, with@) =~= replaced@ + replace(chars@.skip(i + 1), c, with@));
    }
    assert(replace(chars@.skip(chars@.len() as int), c, with@) =~= Seq::<char>::empty());
    replaced
}

/// Puts `n` behind a text, in decimal.
pub fn push_decimal(text: &mut String, n: u64)
    ensures
        final(text)@ == old(text)@ + decimal(n as nat),
    decreases n,
{
    if n < 10 {
        text.push((('0' as u8) + (n as u8)) as char);
    } else {
        push_decimal(text, n / 10);
        text.push((('0' as u8) + ((n % 10) as u8)) as char);
    }
}

/// Puts `i` behind a text, in decimal.
pub fn push_signed_decimal(text: &mut String, i: i32)
    ensures
        final(text)@ == old(text)@ + signed_decimal(i as int),
{
    if i < 0 {
        text.push('-');
        push_decimal(text, (-(i as i64)) as u64);
    } else {
        push_decimal(text, i as u64);
    }
}

/// Puts a text behind another.
pub fn push_text(text: &mut String, more: &str)
    ensures
        final(text)@ == old(text)@ + more@,
{
    let chars = chars_of(more);
    let ghost before = text@;
    for i in 0..chars.len()
        invariant
            text@ == before + chars@.take(i as int),
    {
        text.push(chars[i]);
    }
    assert(chars@.take(chars@.len() as int) =~= chars@);
}

/// The two texts one behind the other.
pub fn concat(first: &str, second: &str) -> (text: String)
    ensures
        text@ == first@ + second@,
{
    let mut text = String::new();
    push_text(&mut text, first);
    push_text(&mut text, second);
    text
}

/// Puts a copy of `text` behind a list of texts.
pub fn push_copy(list: &mut Vec<String>, text: &str)
    ensures
        texts(final(list)@) == texts(old(list)@).push(text@),
        final(list)@.len() == old(list)@.len() + 1,
{
    list.push(text.to_owned());
    assert(texts(list@) =~= texts(old(list)@).push(text@));
}

// ---------------------------------------------------------------------------------------------
// Laws
// ---------------------------------------------------------------------------------------------

/// Every text and every run of characters of a sequence is seen, in its place.
pub proof fn law_sequences_are_seen_one_by_one(strings: Seq<String>, parts: Seq<Vec<char>>, i: int)
    ensures
        texts(strings).len() == strings.len(),
        contents(parts).len() == parts.len(),
        0 <= i < strings.len() ==> texts(strings)[i] == strings[i]@,
        0 <= i < parts.len() ==> contents(parts)[i] == parts[i]@,
{
}

/// The whitespace characters by their code points: 25 of them, of which six are ASCII.
pub proof fn law_whitespace_by_code_point(c: char)
    ensures
        is_space(c) <==> ({
            let n = c as int;
            ||| 9 <= n <= 13
            ||| n == 32
            ||| n == 133
            ||| n == 160
            ||| n == 5760
            ||| 8192 <= n <= 8202
            ||| n == 8232
            ||| n == 8233
            ||| n == 8239
            ||| n == 8287
            ||| n == 12288
        }),
{
}

/// The number that decimal digits stand for.
pub open spec fn read_digits(s: Seq<char>) -> int
    decreases s.len(),
{
    if s.len() == 0 {
        0
    } else {
        10 * read_digits(s.drop_last()) + (s.last() as int - '0' as int)
    }
}

/// A number in decimal consists of digits, reads back as that number, and has no zero in front.
pub proof fn law_decimal_reads_back(n: nat)
    ensures
        read_digits(decimal(n)) == n,
        decimal(n).len() > 0,
        forall|i: int| 0 <= i < decimal(n).len() ==> '0' <= #[trigger] decimal(n)[i] <= '9',
        decimal(n).len() > 1 ==> decimal(n)[0] != '0',
    decreases n,
{
    let d = decimal(n);
    if n < 10 {
        assert(d.drop_last() =~= Seq::<char>::empty());
        assert(read_digits(Seq::<char>::empty()) == 0);
    } else {
        law_decimal_reads_back(n / 10);
        assert(d.drop_last() =~= decimal(n / 10));
        let front = decimal(n / 10);
        assert forall|i: int| 0 <= i < d.len() implies '0' <= #[trigger] d[i] <= '9' by {
            if i < front.len() {
                assert(d[i] == front[i]);
            }
        }
        assert(d[0] == front[0]);
        if front.len() == 1 {
            assert(front.drop_last() =~= Seq::<char>::empty());
            assert(read_digits(Seq::<char>::empty()) == 0);
        }
    }
}

/// Different numbers have different decimal forms.
pub proof fn law_decimal_is_injective(a: nat, b: nat)
    requires
        decimal(a) == decimal(b),
    ensures
        a == b,
{
    law_decimal_reads_back(a);
    law_decimal_reads_back(b);
}

/// A negative number is a minus sign and the digits of its amount; any other has digits alone.
pub proof fn law_signed_decimal_reads_back(i: int)
    ensures
        i >= 0 ==> signed_decimal(i) == decimal(i as nat) && read_digits(signed_decimal(i)) == i,
        i < 0 ==> signed_decimal(i)[0] == '-' && signed_decimal(i).skip(1) == decimal((-i) as nat)
            && read_digits(signed_decimal(i).skip(1)) == -i,
{
    if i < 0 {
        law_decimal_reads_back((-i) as nat);
        assert(signed_decimal(i).skip(1) =~= decimal((-i) as nat));
    } else {
        law_decimal_reads_back(i as nat);
    }
}

/// The first line of a text is what stands in front of its first newline, less one carriage return
/// there; the other lines are those of what follows the newline.
pub proof fn law_lines_go_one_by_one(line: Seq<char>, rest: Seq<char>)
    requires
        forall|i: int| 0 <= i < line.len() ==> #[trigger] line[i] != '\n',
    ensures
        ({
            let all = lines(line.push('\n') + rest);
            &&& all.len() == 1 + lines(rest).len()
            &&& all.skip(1) == lines(rest)
            &&& line.len() > 0 && line.last() == '\r' ==> all[0] == line.drop_last()
            &&& !(line.len() > 0 && line.last() == '\r') ==> all[0] == line
        }),
{
    lemma_one_line(line);
    lemma_lines_concat(line.push('\n'), rest);
    let all = lines(line.push('\n') + rest);
    assert(all.skip(1) =~= lines(rest));
}

/// A text without a newline is one line as it stands, and no line where it is empty.
pub proof fn law_last_line_stands_as_it_is(line: Seq<char>)
    requires
        forall|i: int| 0 <= i < line.len() ==> #[trigger] line[i] != '\n',
    ensures
        line.len() > 0 ==> lines(line) == seq![line],
        line.len() == 0 ==> lines(line).len() == 0,
{
    lemma_position_is(line, '\n', line.len());
}

/// `s` from `i` to `j` is `s` without the whitespace at either end.
pub open spec fn is_trimmed_range(s: Seq<char>, i: int, j: int) -> bool {
    &&& 0 <= i <= j <= s.len()
    &&& forall|k: int| 0 <= k < i ==> is_space(#[trigger] s[k])
    &&& forall|k: int| j <= k < s.len() ==> is_space(#[trigger] s[k])
    &&& i < j ==> !is_space(s[i]) && !is_space(s[j - 1])
}

proof fn lemma_trim_start_cuts(s: Seq<char>) -> (i: int)
    ensures
        0 <= i <= s.len(),
        trim_start(s) == s.skip(i),
        forall|k: int| 0 <= k < i ==> is_space(#[trigger] s[k]),
        i < s.len() ==> !is_space(s[i]),
    decreases s.len(),
{
    if s.len() > 0 && is_space(s[0]) {
        let i = lemma_trim_start_cuts(s.skip(1));
        assert(s.skip(1).skip(i) =~= s.skip(i + 1));
        assert forall|k: int| 0 <= k < i + 1 implies is_space(#[trigger] s[k]) by {
            if k > 0 {
                assert(s[k] == s.skip(1)[k - 1]);
            }
        }
        i + 1
    } else {
        assert(s.skip(0) =~= s);
        0
    }
}

proof fn lemma_trim_end_cuts(s: Seq<char>) -> (j: int)
    ensures
        0 <= j <= s.len(),
        trim_end(s) == s.take(j),
        forall|k: int| j <= k < s.len() ==> is_space(#[trigger] s[k]),
        j > 0 ==> !is_space(s[j - 1]),
    decreases s.len(),
{
    if s.len() > 0 && is_space(s.last()) {
        let j = lemma_trim_end_cuts(s.drop_last());
        assert(s.drop_last().take(j) =~= s.take(j));
        assert forall|k: int| j <= k < s.len() implies is_space(#[trigger] s[k]) by {
            if k < s.len() - 1 {
                assert(s[k] == s.drop_last()[k]);
            }
        }
        if j > 0 {
            assert(s[j - 1] == s.drop_last()[j - 1]);
        }
        j
    } else {
        assert(s.take(s.len() as int) =~= s);
        s.len() as int
    }
}

/// Trimming cuts off whitespace at either end, all of it, and nothing else.
pub proof fn law_trim_cuts_whitespace_only(s: Seq<char>)
    ensures
        exists|i: int, j: int| #[trigger] is_trimmed_range(s, i, j) && trim(s) == s.subrange(i, j),
{
    let i = lemma_trim_start_cuts(s);
    let t = s.skip(i);
    let n = lemma_trim_end_cuts(t);
    let j = i + n;
    assert forall|k: int| j <= k < s.len() implies is_space(#[trigger] s[k]) by {
        assert(s[k] == t[k - i]);
    }
    if n > 0 {
        assert(s[j - 1] == t[n - 1]);
    }
    assert(t.take(n) =~= s.subrange(i, j));
    assert(is_trimmed_range(s, i, j));
}

/// What is cut off behind is copies of `c`, all of them, and nothing else.
pub proof fn law_trailing_copies_are_cut(s: Seq<char>, c: char)
    ensures
        ({
            let rest = trim_end_matches(s, c);
            &&& rest.is_prefix_of(s)
            &&& rest.len() > 0 ==> rest.last() != c
            &&& forall|i: int| rest.len() <= i < s.len() ==> #[trigger] s[i] == c
        }),
    decreases s.len(),
{
    lemma_trim_end_matches(s, c);
    let rest = trim_end_matches(s, c);
    assert(rest =~= s.subrange(0, rest.len() as int));
    if s.len() > 0 && s.last() == c {
        law_trailing_copies_are_cut(s.drop_last(), c);
        assert forall|i: int| rest.len() <= i < s.len() implies #[trigger] s[i] == c by {
            if i < s.len() - 1 {
                assert(s[i] == s.drop_last()[i]);
            }
        }
    }
}

/// A word is its own only word, and nothing has no words.
pub proof fn law_one_word(w: Seq<char>)
    requires
        is_word(w),
    ensures
        words(w) == seq![w],
        words(Seq::<char>::empty()).len() == 0,
{
    lemma_word_len_is(w, w.len());
    assert(w.take(w.len() as int) =~= w);
    assert(w.skip(w.len() as int) =~= Seq::<char>::empty());
    assert(words(Seq::<char>::empty()) =~= Seq::<Seq<char>>::empty());
    assert(words(w) =~= seq![w]);
}

/// Whitespace parts words: those of two texts with a whitespace character between them are those of the
/// first and then those of the second.
pub proof fn law_whitespace_parts_words(a: Seq<char>, c: char, b: Seq<char>)
    requires
        is_space(c),
    ensures
        words(a.push(c) + b) == words(a) + words(b),
    decreases a.len(),
{
    let all = a.push(c) + b;
    if a.len() == 0 {
        assert(all.skip(1) =~= b);
        assert(words(a) + words(b) =~= words(b));
    } else if is_space(a[0]) {
        law_whitespace_parts_words(a.skip(1), c, b);
        assert(all.skip(1) =~= a.skip(1).push(c) + b);
    } else {
        lemma_word_len(a);
        let n = word_len(a);
        assert forall|i: int| 0 <= i < n implies !is_space(#[trigger] all[i]) by {
            assert(all[i] == a[i]);
        }
        assert(n < a.len() ==> all[n as int] == a[n as int]);
        lemma_word_len_is(all, n);
        law_whitespace_parts_words(a.skip(n as int), c, b);
        assert(all.skip(n as int) =~= a.skip(n as int).push(c) + b);
        assert(all.take(n as int) =~= a.take(n as int));
        let first = seq![a.take(n as int)];
        let rest = words(a.skip(n as int));
        assert(first + (rest + words(b)) =~= (first + rest) + words(b));
    }
}

/// Words that are joined can be told apart again.
pub proof fn law_joined_words_read_back(parts: Seq<Seq<char>>)
    requires
        all_words(parts),
    ensures
        words(join_spaced(parts)) == parts,
    decreases parts.len(),
{
    if parts.len() == 0 {
        assert(words(Seq::<char>::empty()) =~= parts);
    } else {
        assert(is_word(parts[0]));
        law_one_word(parts[0]);
        if parts.len() == 1 {
            assert(parts =~= seq![parts[0]]);
        } else {
            let rest = parts.skip(1);
            assert forall|i: int| 0 <= i < rest.len() implies is_word(#[trigger] rest[i]) by {
                assert(rest[i] == parts[i + 1]);
            }
            law_joined_words_read_back(rest);
            law_whitespace_parts_words(parts[0], ' ', join_spaced(rest));
            assert(parts[0].push(' ') + join_spaced(rest) =~= join_spaced(parts));
            assert(seq![parts[0]] + rest =~= parts);
        }
    }
}

/// Joining puts one space between neighbours and nothing else: parts that are joined in two goes are
/// as parts that are joined in one.
pub proof fn law_joining_adds_one_space(a: Seq<Seq<char>>, part: Seq<char>)
    ensures
        join_spaced(seq![part]) == part,
        a.len() > 0 ==> join_spaced(a.push(part)) == join_spaced(a).push(' ') + part,
        join_spaced(Seq::<Seq<char>>::empty()).len() == 0,
{
    if a.len() > 0 {
        lemma_join_push(a, part);
        assert(join_spaced(a) + seq![' '] + part =~= join_spaced(a).push(' ') + part);
    }
}

/// `s` is `front` with `back` right behind it: cutting it behind `front` gives both back.
pub open spec fn splits(s: Seq<char>, front: Seq<char>, back: Seq<char>) -> bool {
    &&& s.len() == front.len() + back.len()
    &&& s.take(front.len() as int) == front
    &&& s.skip(front.len() as int) == back
}

pub proof fn lemma_splits(front: Seq<char>, back: Seq<char>)
    ensures
        splits(front + back, front, back),
{
    assert((front + back).take(front.len() as int) =~= front);
    assert((front + back).skip(front.len() as int) =~= back);
}

/// `pattern` stands in `s` at `i`.
pub open spec fn occurs_at(s: Seq<char>, pattern: Seq<char>, i: int) -> bool {
    0 <= i && i + pattern.len() <= s.len() && s.subrange(i, i + pattern.len()) == pattern
}

/// What stands in front of a pattern ends where the pattern occurs first, or is everything where it
/// occurs nowhere.
pub proof fn law_before_ends_at_the_first(s: Seq<char>, pattern: Seq<char>)
    requires
        pattern.len() > 0,
    ensures
        ({
            let front = before(s, pattern);
            &&& front.is_prefix_of(s)
            &&& front.len() < s.len() ==> occurs_at(s, pattern, front.len() as int)
            &&& forall|i: int| 0 <= i < front.len() ==> !#[trigger] occurs_at(s, pattern, i)
        }),
    decreases s.len(),
{
    let front = before(s, pattern);
    if s.len() == 0 {
        assert(front =~= s.subrange(0, 0));
    } else if pattern.is_prefix_of(s) {
        assert(front =~= s.subrange(0, 0));
        assert(s.subrange(0, pattern.len() as int) == pattern);
    } else {
        law_before_ends_at_the_first(s.skip(1), pattern);
        let rest = before(s.skip(1), pattern);
        assert(rest =~= s.skip(1).subrange(0, rest.len() as int));
        assert(front =~= s.subrange(0, front.len() as int));
        let m = pattern.len() as int;
        if front.len() < s.len() {
            let n = rest.len() as int;
            assert(s.skip(1).subrange(n, n + m) =~= s.subrange(n + 1, n + 1 + m));
        }
        assert forall|i: int| 0 <= i < front.len() implies !#[trigger] occurs_at(s, pattern, i) by {
            if i > 0 {
                assert(!occurs_at(s.skip(1), pattern, i - 1));
                if occurs_at(s, pattern, i) {
                    assert(s.skip(1).subrange(i - 1, i - 1 + m) =~= s.subrange(i, i + m));
                }
            } else if occurs_at(s, pattern, 0) {
                assert(s.subrange(0, m) == pattern);
            }
        }
    }
}

/// Replacing goes character by character: each copy of `c` becomes `with`, and any other character
/// stays.
pub proof fn law_replace_goes_char_by_char(a: Seq<char>, x: char, b: Seq<char>, c: char, with: Seq<char>)
    ensures
        replace(Seq::<char>::empty(), c, with).len() == 0,
        x == c ==> replace(a.push(x) + b, c, with) == replace(a, c, with) + with + replace(
            b,
            c,
            with,
        ),
        x != c ==> replace(a.push(x) + b, c, with) == replace(a, c, with).push(x) + replace(
            b,
            c,
            with,
        ),
{
    lemma_replace_concat(a.push(x), b, c, with);
    assert(a.push(x) =~= a + seq![x]);
    lemma_replace_concat(a, seq![x], c, with);
    lemma_replace_one(x, c, with);
    assert(replace(a, c, with) + seq![x] =~= replace(a, c, with).push(x));
}

} // verus!
