//! Helpers on text: comparison and order, suffixes, words, and numbers in
//! decimal.

use vstd::prelude::*;

verus! {

/// Appends one character to a string, through `String::push` of the standard
/// library, which is documented to append the given `char` to the end.
#[verifier::external_body]
pub(crate) fn push_char(s: &mut String, c: char)
    ensures
        final(s)@ == old(s)@.push(c),
{
    s.push(c);
}

/// Whether two texts hold the same characters.
pub fn same_text(a: &str, b: &str) -> (r: bool)
    ensures
        r == (a@ == b@),
{
    let x = a.to_owned();
    let y = b.to_owned();
    x == y
}

/// `a` followed by `b`.
pub fn joined(a: &str, b: &str) -> (r: String)
    ensures
        r@ == a@ + b@,
{
    let mut r = a.to_owned();
    r.append(b);
    r
}

/// Whether `s` ends with `suffix`.
pub open spec fn ends_with(s: Seq<char>, suffix: Seq<char>) -> bool {
    s.len() >= suffix.len() && s.subrange(s.len() - suffix.len(), s.len() as int) == suffix
}

/// What is left of `s` once `suffix` is taken from its end; `None` where `s`
/// does not end with it.
pub fn strip_suffix(s: &str, suffix: &str) -> (r: Option<String>)
    ensures
        r is Some <==> ends_with(s@, suffix@),
        r matches Some(rest) ==> rest@ == s@.subrange(0, s@.len() - suffix@.len()),
{
    let n = s.unicode_len();
    let m = suffix.unicode_len();
    if m > n {
        return None;
    }
    let tail = s.substring_char(n - m, n);
    if same_text(tail, suffix) {
        Some(s.substring_char(0, n - m).to_owned())
    } else {
        None
    }
}

/// The character that stands for one decimal digit.
pub open spec fn digit_char(d: nat) -> char {
    if d == 0 {
        '0'
    } else if d == 1 {
        '1'
    } else if d == 2 {
        '2'
    } else if d == 3 {
        '3'
    } else if d == 4 {
        '4'
    } else if d == 5 {
        '5'
    } else if d == 6 {
        '6'
    } else if d == 7 {
        '7'
    } else if d == 8 {
        '8'
    } else {
        '9'
    }
}

/// A number written in decimal, without sign or leading zeros.
pub open spec fn decimal_text(n: nat) -> Seq<char>
    decreases n,
{
    if n < 10 {
        seq![digit_char(n)]
    } else {
        decimal_text(n / 10).push(digit_char(n % 10))
    }
}

fn digit(d: usize) -> (c: char)
    requires
        d < 10,
    ensures
        c == digit_char(d as nat),
{
    if d == 0 {
        '0'
    } else if d == 1 {
        '1'
    } else if d == 2 {
        '2'
    } else if d == 3 {
        '3'
    } else if d == 4 {
        '4'
    } else if d == 5 {
        '5'
    } else if d == 6 {
        '6'
    } else if d == 7 {
        '7'
    } else if d == 8 {
        '8'
    } else {
        '9'
    }
}

/// Writes a number in decimal.
pub fn decimal(n: usize) -> (r: String)
    ensures
        r@ == decimal_text(n as nat),
    decreases n,
{
    if n < 10 {
        let mut r = String::new();
        push_char(&mut r, digit(n));
        assert(r@ =~= seq![digit_char(n as nat)]);
        r
    } else {
        let mut r = decimal(n / 10);
        push_char(&mut r, digit(n % 10));
        r
    }
}

/// Whether `a` comes before `b` in the order of a dictionary, from place `k`
/// on, the characters taken by their numbers: the first place at which the
/// two differ decides, and a text comes before every longer text that it
/// starts.
pub open spec fn precedes_from(a: Seq<char>, b: Seq<char>, k: int) -> bool
    decreases a.len() - k,
{
    if k < 0 || k >= b.len() {
        false
    } else if k >= a.len() {
        true
    } else if a[k] != b[k] {
        a[k] < b[k]
    } else {
        precedes_from(a, b, k + 1)
    }
}

/// Whether `a` comes before `b` in the order of a dictionary.
pub open spec fn precedes(a: Seq<char>, b: Seq<char>) -> bool {
    precedes_from(a, b, 0)
}

/// Whether the texts stand in ascending order.
pub open spec fn ascending(texts: Seq<Seq<char>>) -> bool {
    forall|i: int, j: int| 0 <= i < j < texts.len() ==> !precedes(texts[j], texts[i])
}

/// What comes before a text that comes before a third, comes before the
/// third.
pub proof fn lemma_precedes_transitive(a: Seq<char>, b: Seq<char>, c: Seq<char>, k: int)
    requires
        0 <= k,
        precedes_from(a, b, k),
        precedes_from(b, c, k),
    ensures
        precedes_from(a, c, k),
    decreases a.len() - k,
{
    if k < a.len() && a[k] == b[k] && b[k] == c[k] {
        lemma_precedes_transitive(a, b, c, k + 1);
    }
}

/// No text comes before itself.
pub proof fn lemma_precedes_irreflexive(a: Seq<char>, k: int)
    requires
        0 <= k,
    ensures
        !precedes_from(a, a, k),
    decreases a.len() - k,
{
    if k < a.len() {
        lemma_precedes_irreflexive(a, k + 1);
    }
}

/// Of two texts that differ, one comes before the other.
pub proof fn lemma_precedes_total(a: Seq<char>, b: Seq<char>, k: int)
    requires
        0 <= k <= a.len(),
        k <= b.len(),
        a != b,
        forall|i: int| 0 <= i < k ==> a[i] == b[i],
    ensures
        precedes_from(a, b, k) || precedes_from(b, a, k),
    decreases a.len() - k,
{
    if k >= a.len() || k >= b.len() {
        if a.len() == b.len() {
            assert(a =~= b);
        }
    } else if a[k] == b[k] {
        lemma_precedes_total(a, b, k + 1);
    }
}

/// The order of a dictionary, taken as "comes no later than", is a total
/// order.
pub proof fn lemma_text_order_is_total()
    ensures
        vstd::relations::total_ordering(|a: Seq<char>, b: Seq<char>| !precedes(b, a)),
{
    let leq = |a: Seq<char>, b: Seq<char>| !precedes(b, a);
    assert forall|x: Seq<char>| #[trigger] leq(x, x) by {
        lemma_precedes_irreflexive(x, 0);
    }
    assert forall|x: Seq<char>, y: Seq<char>| #[trigger] leq(x, y) && #[trigger] leq(y, x) implies x
        == y by {
        if x != y {
            lemma_precedes_total(x, y, 0);
        }
    }
    assert forall|x: Seq<char>, y: Seq<char>, z: Seq<char>| #[trigger]
        leq(x, y) && #[trigger] leq(y, z) implies leq(x, z) by {
        if precedes(z, x) {
            if x == y {
            } else {
                lemma_precedes_total(x, y, 0);
                lemma_precedes_transitive(z, x, y, 0);
            }
        }
    }
    assert forall|x: Seq<char>, y: Seq<char>| #[trigger] leq(x, y) || #[trigger] leq(y, x) by {
        if precedes(y, x) && precedes(x, y) {
            lemma_precedes_transitive(x, y, x, 0);
            lemma_precedes_irreflexive(x, 0);
        }
    }
}

/// Whether `a` comes before `b` in the order of a dictionary.
pub fn comes_before(a: &str, b: &str) -> (r: bool)
    ensures
        r == precedes(a@, b@),
{
    let n = a.unicode_len();
    let m = b.unicode_len();
    let mut k: usize = 0;
    loop
        invariant
            n == a@.len(),
            m == b@.len(),
            k <= n,
            k <= m,
            precedes(a@, b@) == precedes_from(a@, b@, k as int),
        decreases n - k,
    {
        if k >= m {
            return false;
        }
        if k >= n {
            return true;
        }
        let x = a.get_char(k);
        let y = b.get_char(k);
        if x != y {
            return x < y;
        }
        k += 1;
    }
}

/// The same texts in ascending order.
pub fn sorted_texts(texts: Vec<String>) -> (sorted: Vec<String>)
    ensures
        ascending(sorted.deep_view()),
        sorted.deep_view().to_multiset() == texts.deep_view().to_multiset(),
{
    let mut texts = texts;
    let ghost all = texts.deep_view();
    let mut sorted: Vec<String> = Vec::new();
    assert(sorted.deep_view() =~= Seq::<Seq<char>>::empty());
    assert(all =~= sorted.deep_view() + texts.deep_view());
    while texts.len() > 0
        invariant
            ascending(sorted.deep_view()),
            (sorted.deep_view() + texts.deep_view()).to_multiset() == all.to_multiset(),
        decreases texts.len(),
    {
        let ghost left = texts.deep_view();
        let ghost done = sorted.deep_view();
        let text = texts.pop().unwrap();
        assert(texts.deep_view() =~= left.drop_last());
        assert(text@ == left.last());
        let mut at: usize = 0;
        while at < sorted.len() && !comes_before(text.as_str(), sorted[at].as_str())
            invariant
                at <= sorted@.len(),
                done == sorted.deep_view(),
                forall|i: int| 0 <= i < at ==> !precedes(text@, done[i]),
            decreases sorted.len() - at,
        {
            at += 1;
        }
        sorted.insert(at, text);
        let ghost now = sorted.deep_view();
        assert(now =~= done.insert(at as int, text@));
        assert(ascending(now)) by {
            assert forall|i: int, j: int| 0 <= i < j < now.len() implies !precedes(now[j], now[i]) by {
                if j == at {
                    assert(now[i] == done[i]);
                } else if i == at {
                    assert(now[j] == done[j - 1]);
                    if precedes(now[j], text@) {
                        assert(precedes(text@, done[at as int]));
                        lemma_precedes_transitive(now[j], text@, done[at as int], 0);
                        lemma_precedes_irreflexive(done[at as int], 0);
                        assert(!precedes(done[j - 1], done[at as int]));
                    }
                } else {
                    let i0 = if i < at { i } else { i - 1 };
                    let j0 = if j < at { j } else { j - 1 };
                    assert(now[i] == done[i0]);
                    assert(now[j] == done[j0]);
                }
            }
        }
        proof {
            vstd::seq_lib::to_multiset_insert(done, at as int, text@);
            vstd::seq_lib::lemma_multiset_commutative(done, left);
            vstd::seq_lib::lemma_multiset_commutative(now, left.drop_last());
            vstd::seq_lib::to_multiset_build(left.drop_last(), text@);
            assert(left =~= left.drop_last().push(text@));
        }
    }
    assert(sorted.deep_view() + texts.deep_view() =~= sorted.deep_view());
    sorted
}

/// Whether a character is white space: with `ascii_only`, a space, a tab, a
/// line feed, a form feed or a carriage return; else any character that
/// Unicode counts as white space.
pub open spec fn is_space(c: char, ascii_only: bool) -> bool {
    let n = c as u32;
    if ascii_only {
        n == 0x20 || n == 0x09 || n == 0x0A || n == 0x0C || n == 0x0D
    } else {
        (0x09 <= n <= 0x0D) || n == 0x20 || n == 0x85 || n == 0xA0 || n == 0x1680 || (0x2000 <= n
            <= 0x200A) || n == 0x2028 || n == 0x2029 || n == 0x202F || n == 0x205F || n == 0x3000
    }
}

/// Whether a character is white space.
pub fn space(c: char, ascii_only: bool) -> (r: bool)
    ensures
        r == is_space(c, ascii_only),
{
    let n = c as u32;
    if ascii_only {
        n == 0x20 || n == 0x09 || n == 0x0A || n == 0x0C || n == 0x0D
    } else {
        (0x09 <= n && n <= 0x0D) || n == 0x20 || n == 0x85 || n == 0xA0 || n == 0x1680 || (0x2000
            <= n && n <= 0x200A) || n == 0x2028 || n == 0x2029 || n == 0x202F || n == 0x205F || n
            == 0x3000
    }
}

/// The words of a text from place `k` on, where `word` holds the characters
/// of the word that is being read.
pub open spec fn words_from(text: Seq<char>, k: int, word: Seq<char>, ascii_only: bool) -> Seq<
    Seq<char>,
>
    decreases text.len() - k,
{
    let ended = if word.len() > 0 {
        seq![word]
    } else {
        Seq::empty()
    };
    if k < 0 || k >= text.len() {
        ended
    } else if is_space(text[k], ascii_only) {
        ended + words_from(text, k + 1, Seq::empty(), ascii_only)
    } else {
        words_from(text, k + 1, word.push(text[k]), ascii_only)
    }
}

/// The words of a text: its longest runs of characters that are not white
/// space, in their order.
pub open spec fn words(text: Seq<char>, ascii_only: bool) -> Seq<Seq<char>> {
    words_from(text, 0, Seq::empty(), ascii_only)
}

/// Whether a text is a word: it has a character at least, and none that is
/// white space.
pub open spec fn is_word(word: Seq<char>, ascii_only: bool) -> bool {
    word.len() > 0 && forall|j: int| 0 <= j < word.len() ==> !is_space(#[trigger] word[j], ascii_only)
}

/// What is read as the words of a text are words.
pub proof fn lemma_words_from_are_words(text: Seq<char>, k: int, word: Seq<char>, ascii_only: bool)
    requires
        0 <= k,
        forall|j: int| 0 <= j < word.len() ==> !is_space(#[trigger] word[j], ascii_only),
    ensures
        forall|i: int|
            0 <= i < words_from(text, k, word, ascii_only).len() ==> is_word(
                #[trigger] words_from(text, k, word, ascii_only)[i],
                ascii_only,
            ),
    decreases text.len() - k,
{
    let found = words_from(text, k, word, ascii_only);
    let ended = if word.len() > 0 {
        seq![word]
    } else {
        Seq::empty()
    };
    if k < text.len() {
        if is_space(text[k], ascii_only) {
            let rest = words_from(text, k + 1, Seq::empty(), ascii_only);
            lemma_words_from_are_words(text, k + 1, Seq::empty(), ascii_only);
            assert forall|i: int| 0 <= i < found.len() implies is_word(
                #[trigger] found[i],
                ascii_only,
            ) by {
                if i < ended.len() {
                    assert(found[i] == word);
                } else {
                    assert(found[i] == rest[i - ended.len()]);
                }
            }
        } else {
            let longer = word.push(text[k]);
            assert forall|j: int| 0 <= j < longer.len() implies !is_space(
                #[trigger] longer[j],
                ascii_only,
            ) by {
                if j < word.len() {
                    assert(longer[j] == word[j]);
                }
            }
            lemma_words_from_are_words(text, k + 1, longer, ascii_only);
            let rest = words_from(text, k + 1, longer, ascii_only);
            assert(found == rest);
            assert forall|i: int| 0 <= i < found.len() implies is_word(
                #[trigger] found[i],
                ascii_only,
            ) by {
                assert(found[i] == rest[i]);
            }
        }
    } else {
        assert forall|i: int| 0 <= i < found.len() implies is_word(
            #[trigger] found[i],
            ascii_only,
        ) by {
            assert(found[i] == word);
        }
    }
}

/// The words of a text are words: none is empty, and none holds white
/// space.
pub proof fn lemma_words_are_words(text: Seq<char>, ascii_only: bool)
    ensures
        forall|i: int|
            0 <= i < words(text, ascii_only).len() ==> is_word(
                #[trigger] words(text, ascii_only)[i],
                ascii_only,
            ),
{
    lemma_words_from_are_words(text, 0, Seq::empty(), ascii_only);
}

/// Splits a text into its words.
pub fn words_of(text: &str, ascii_only: bool) -> (found: Vec<String>)
    ensures
        found.deep_view() == words(text@, ascii_only),
{
    let n = text.unicode_len();
    let mut found: Vec<String> = Vec::new();
    let mut word = String::new();
    let mut k: usize = 0;
    assert(found.deep_view() =~= Seq::<Seq<char>>::empty());
    assert(Seq::<Seq<char>>::empty() + words(text@, ascii_only) =~= words(text@, ascii_only));
    while k < n
        invariant
            n == text@.len(),
            k <= n,
            words(text@, ascii_only) == found.deep_view() + words_from(
                text@,
                k as int,
                word@,
                ascii_only,
            ),
        decreases n - k,
    {
        let c = text.get_char(k);
        let ghost so_far = found.deep_view();
        let ghost rest = words_from(text@, k + 1, Seq::empty(), ascii_only);
        if space(c, ascii_only) {
            if word.unicode_len() > 0 {
                let ghost w = word@;
                found.push(word);
                word = String::new();
                assert(found.deep_view() =~= so_far.push(w));
                assert(so_far + (seq![w] + rest) =~= so_far.push(w) + rest);
            } else {
                assert(word@ =~= Seq::<char>::empty());
                assert(Seq::<Seq<char>>::empty() + rest =~= rest);
            }
        } else {
            push_char(&mut word, c);
        }
        k += 1;
    }
    if word.unicode_len() > 0 {
        let ghost so_far = found.deep_view();
        let ghost w = word@;
        found.push(word);
        assert(found.deep_view() =~= so_far + seq![w]);
    } else {
        assert(found.deep_view() + Seq::<Seq<char>>::empty() =~= found.deep_view());
    }
    found
}

/// A character in lower case, as far as it is one of the letters `A` to
/// `Z`; any other character stays as it is.
pub open spec fn ascii_lower(c: char) -> char {
    if 'A' <= c && c <= 'Z' {
        ((c as u8) + 32) as char
    } else {
        c
    }
}

/// A text with its letters `A` to `Z` in lower case.
pub open spec fn ascii_lowercase(text: Seq<char>) -> Seq<char> {
    Seq::new(text.len(), |i: int| ascii_lower(text[i]))
}

/// Puts the letters `A` to `Z` of a text into lower case.
pub fn lowercased(text: &str) -> (lower: String)
    ensures
        lower@ == ascii_lowercase(text@),
{
    let n = text.unicode_len();
    let mut lower = String::new();
    let mut k: usize = 0;
    while k < n
        invariant
            n == text@.len(),
            k <= n,
            lower@.len() == k,
            forall|i: int| 0 <= i < k ==> lower@[i] == ascii_lower(text@[i]),
        decreases n - k,
    {
        let c = text.get_char(k);
        if 'A' <= c && c <= 'Z' {
            let b: u8 = c as u8;
            push_char(&mut lower, (b + 32) as char);
        } else {
            push_char(&mut lower, c);
        }
        k += 1;
    }
    assert(lower@ =~= ascii_lowercase(text@));
    lower
}

/// Whether a character is one of the digits `0` to `9`.
pub open spec fn is_digit(c: char) -> bool {
    '0' <= c && c <= '9'
}

/// The number that a text of digits writes in decimal.
pub open spec fn digits_value(digits: Seq<char>) -> nat
    decreases digits.len(),
{
    if digits.len() == 0 {
        0
    } else {
        digits_value(digits.drop_last()) * 10 + ((digits.last() as u32) - ('0' as u32)) as nat
    }
}

/// The number that a text of digits writes, where it has a digit at least,
/// nothing but digits, and the number fits.
pub open spec fn digits_number(digits: Seq<char>) -> Option<usize> {
    if digits.len() > 0 && (forall|i: int| 0 <= i < digits.len() ==> is_digit(#[trigger] digits[i]))
        && digits_value(digits) <= usize::MAX {
        Some(digits_value(digits) as usize)
    } else {
        None
    }
}

/// A text without the `+` that it may start with.
pub open spec fn unsigned_part(text: Seq<char>) -> Seq<char> {
    if text.len() > 0 && text[0] == '+' {
        text.subrange(1, text.len() as int)
    } else {
        text
    }
}

/// The number that a text writes, where it writes one that fits: digits,
/// one at least, that may follow a single `+`, and nothing else.
pub open spec fn written_number(text: Seq<char>) -> Option<usize> {
    digits_number(unsigned_part(text))
}

/// Reads the number that a text writes.
pub fn parse_number(text: &str) -> (number: Option<usize>)
    ensures
        number == written_number(text@),
{
    let n = text.unicode_len();
    if n == 0 {
        return None;
    }
    let first: usize = if text.get_char(0) == '+' {
        1
    } else {
        0
    };
    if first == n {
        return None;
    }
    let ghost digits = unsigned_part(text@);
    assert(text@.subrange(0, n as int) =~= text@);
    assert(digits =~= text@.subrange(first as int, n as int));
    let mut value: usize = 0;
    let mut k: usize = first;
    assert(digits.subrange(0, 0) =~= Seq::<char>::empty());
    while k < n
        invariant
            n == text@.len(),
            first <= k <= n,
            first < n,
            digits == unsigned_part(text@),
            digits.len() == n - first,
            forall|i: int| 0 <= i < k - first ==> is_digit(#[trigger] digits[i]),
            value == digits_value(digits.subrange(0, k - first)),
        decreases n - k,
    {
        let c = text.get_char(k);
        assert(digits =~= text@.subrange(first as int, n as int));
        assert(c == digits[k - first]);
        if !('0' <= c && c <= '9') {
            assert(!is_digit(digits[k - first]));
            return None;
        }
        let d: usize = ((c as u32) - ('0' as u32)) as usize;
        let ghost head = digits.subrange(0, k - first + 1);
        assert(head.drop_last() =~= digits.subrange(0, k - first));
        assert(head.last() == c);
        assert(digits_value(head) == value * 10 + d);
        if value > (usize::MAX - d) / 10 {
            proof {
                assert(value * 10 + d > usize::MAX);
                lemma_digits_value_grows(digits, k - first + 1);
            }
            return None;
        }
        value = value * 10 + d;
        k += 1;
    }
    assert(digits.subrange(0, n - first) =~= digits);
    Some(value)
}

/// A longer text of digits writes no smaller number than what it starts
/// with.
pub proof fn lemma_digits_value_grows(digits: Seq<char>, k: int)
    requires
        0 <= k <= digits.len(),
    ensures
        digits_value(digits.subrange(0, k)) <= digits_value(digits),
    decreases digits.len() - k,
{
    if k < digits.len() {
        let head = digits.subrange(0, k + 1);
        assert(head.drop_last() =~= digits.subrange(0, k));
        lemma_digits_value_grows(digits, k + 1);
    } else {
        assert(digits.subrange(0, k) =~= digits);
    }
}

/// The texts put one after the other, with `between` between each two.
pub open spec fn joined_with(texts: Seq<Seq<char>>, between: Seq<char>) -> Seq<char>
    decreases texts.len(),
{
    if texts.len() == 0 {
        Seq::empty()
    } else if texts.len() == 1 {
        texts[0]
    } else {
        joined_with(texts.drop_last(), between) + between + texts.last()
    }
}

/// Puts texts one after the other, from place `from` on, with `between`
/// between each two.
pub fn join_from(texts: &Vec<String>, from: usize, between: &str) -> (all: String)
    ensures
        from <= texts@.len() ==> all@ == joined_with(
            texts.deep_view().subrange(from as int, texts@.len() as int),
            between@,
        ),
        from > texts@.len() ==> all@ == Seq::<char>::empty(),
{
    let ghost given = texts.deep_view();
    let mut all = String::new();
    if from > texts.len() {
        return all;
    }
    let mut k: usize = from;
    assert(given.subrange(from as int, from as int) =~= Seq::<Seq<char>>::empty());
    while k < texts.len()
        invariant
            from <= k <= texts@.len(),
            given == texts.deep_view(),
            all@ == joined_with(given.subrange(from as int, k as int), between@),
        decreases texts.len() - k,
    {
        let ghost head = given.subrange(from as int, k + 1);
        assert(head.drop_last() =~= given.subrange(from as int, k as int));
        assert(head.last() == texts@[k as int]@);
        if k > from {
            all.append(between);
        }
        all.append(texts[k].as_str());
        assert(all@ =~= joined_with(head, between@)) by {
            if k == from {
                assert(head.len() == 1);
            }
        }
        k += 1;
    }
    all
}

} // verus!
