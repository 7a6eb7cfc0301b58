//! Text as sequences of characters: the helpers the other modules build on.

use crate::ast::texts;
use vstd::prelude::*;
use vstd::string::*;

verus! {

/// `str::eq` of the standard library: two string slices are equal exactly when
/// they hold the same characters.
pub assume_specification[ <str as PartialEq>::eq ](a: &str, b: &str) -> (r: bool)
    ensures
        r == (a@ == b@),
;

/// `String::push` of the standard library: the character is appended.
pub assume_specification[ std::string::String::push ](s: &mut std::string::String, c: char)
    ensures
        final(s)@ == old(s)@.push(c),
;

/// A string as the standard library's `Debug` prints it: between double
/// quotes, with the characters escaped that `Debug` escapes.
pub uninterp spec fn quoted(s: Seq<char>) -> Seq<char>;

/// `Debug` of the standard library on a string slice, through `format!`.
/// The result depends on the characters alone; which of them are escaped,
/// and how, is left to the standard library.
#[verifier::external_body]
pub(crate) fn debug_quoted(s: &str) -> (r: String)
    ensures
        r@ == quoted(s@),
{
    format!("{:?}", s)
}

/// A string in lower case, as the standard library's `str::to_lowercase` gives it.
pub uninterp spec fn lowercase(s: Seq<char>) -> Seq<char>;

/// `str::to_lowercase` of the standard library. The result depends on the
/// characters alone; the Unicode rules by which each is mapped are left to
/// the standard library.
#[verifier::external_body]
pub(crate) fn to_lowercase(s: &str) -> (r: String)
    ensures
        r@ == lowercase(s@),
{
    s.to_lowercase()
}

/// The character of the decimal digit `d`.
pub open spec fn digit(d: nat) -> char
    recommends
        d < 10,
{
    (48 + d) as char
}

/// `n` in decimal notation, without leading zeros.
pub open spec fn decimal(n: nat) -> Seq<char>
    decreases n,
{
    if n < 10 {
        seq![digit(n)]
    } else {
        decimal(n / 10).push(digit(n % 10))
    }
}

/// The parts, with `sep` between each two neighbours.
pub open spec fn join(parts: Seq<Seq<char>>, sep: Seq<char>) -> Seq<char>
    decreases parts.len(),
{
    if parts.len() == 0 {
        Seq::empty()
    } else if parts.len() == 1 {
        parts[0]
    } else {
        join(parts.drop_last(), sep) + sep + parts.last()
    }
}

/// The least index at which `x` stands in `names`; `names.len()` if it stands nowhere.
pub open spec fn position(names: Seq<Seq<char>>, x: Seq<char>) -> int {
    position_from(names, x, 0)
}

/// The least index `i >= from` with `names[i] == x`, or `names.len()`.
pub open spec fn position_from(names: Seq<Seq<char>>, x: Seq<char>, from: int) -> int
    decreases names.len() - from,
{
    if from < 0 || from >= names.len() {
        names.len() as int
    } else if names[from] == x {
        from
    } else {
        position_from(names, x, from + 1)
    }
}

/// `position_from` finds the first occurrence behind `from`, if there is one.
pub proof fn lemma_position_from(names: Seq<Seq<char>>, x: Seq<char>, from: int)
    requires
        0 <= from <= names.len(),
    ensures
        from <= position_from(names, x, from) <= names.len(),
        position_from(names, x, from) < names.len() ==> names[position_from(names, x, from)] == x,
        forall|j: int| from <= j < position_from(names, x, from) ==> names[j] != x,
    decreases names.len() - from,
{
    if from < names.len() && names[from] != x {
        lemma_position_from(names, x, from + 1);
    }
}

/// `position` is an index into `names` exactly when `names` contains `x`.
pub proof fn lemma_position(names: Seq<Seq<char>>, x: Seq<char>)
    ensures
        0 <= position(names, x) <= names.len(),
        position(names, x) < names.len() <==> names.contains(x),
        position(names, x) < names.len() ==> names[position(names, x)] == x,
        forall|j: int| 0 <= j < position(names, x) ==> names[j] != x,
{
    lemma_position_from(names, x, 0);
}

/// What stands in a prefix of a list stands at the same first position in the list.
pub proof fn lemma_position_prefix(a: Seq<Seq<char>>, b: Seq<Seq<char>>, x: Seq<char>)
    requires
        a.is_prefix_of(b),
        a.contains(x),
    ensures
        position(b, x) == position(a, x),
        b.contains(x),
{
    lemma_position(a, x);
    lemma_position(b, x);
    let p = position(a, x);
    assert(b[p] == x);
    assert(forall|j: int| 0 <= j < p ==> b[j] == a[j]);
    if position(b, x) < p {
        assert(a[position(b, x)] == x);
    }
}

/// A list of distinct names, each of which stands in `universe`, is no longer than `universe`.
pub proof fn lemma_distinct_within(universe: Seq<Seq<char>>, names: Seq<Seq<char>>)
    requires
        names.no_duplicates(),
        forall|k: int| 0 <= k < names.len() ==> universe.contains(#[trigger] names[k]),
    ensures
        names.len() <= universe.len(),
{
    names.unique_seq_to_set();
    universe.lemma_cardinality_of_set();
    assert(names.to_set().subset_of(universe.to_set())) by {
        assert forall|x: Seq<char>| names.to_set().contains(x) implies universe.to_set().contains(
            x,
        ) by {
            let k = choose|k: int| 0 <= k < names.len() && names[k] == x;
            assert(universe.contains(names[k]));
        }
    }
    vstd::seq_lib::seq_to_set_is_finite(universe);
    vstd::set_lib::lemma_len_subset(names.to_set(), universe.to_set());
}

/// Whether `pattern` stands in `s` at index `at`.
pub open spec fn occurs_at(s: Seq<char>, pattern: Seq<char>, at: int) -> bool {
    0 <= at && at + pattern.len() <= s.len() && s.subrange(at, at + pattern.len()) == pattern
}

/// Whether `pattern` stands somewhere in `s`.
pub open spec fn has_substring(s: Seq<char>, pattern: Seq<char>) -> bool {
    exists|at: int| occurs_at(s, pattern, at)
}

/// `s` without the occurrences of `pattern`, which are taken out from left to
/// right; an empty pattern takes nothing out.
pub open spec fn without(s: Seq<char>, pattern: Seq<char>) -> Seq<char>
    decreases s.len(),
{
    if pattern.len() == 0 || s.len() < pattern.len() {
        s
    } else if occurs_at(s, pattern, 0) {
        without(s.subrange(pattern.len() as int, s.len() as int), pattern)
    } else {
        seq![s[0]] + without(s.subrange(1, s.len() as int), pattern)
    }
}

/// `count` times the character `c`.
pub open spec fn repeated(c: char, count: nat) -> Seq<char> {
    Seq::new(count, |i: int| c)
}

/// The number of bytes that `c` takes in UTF-8.
pub open spec fn utf8_width(c: char) -> nat {
    let code = c as u32;
    if code < 0x80 {
        1
    } else if code < 0x800 {
        2
    } else if code < 0x10000 {
        3
    } else {
        4
    }
}

/// The number of bytes that the characters of `s` take in UTF-8.
pub open spec fn byte_length(s: Seq<char>) -> nat
    decreases s.len(),
{
    if s.len() == 0 {
        0
    } else {
        utf8_width(s[0]) + byte_length(s.drop_first())
    }
}

/// One more character takes its width more in bytes.
pub proof fn lemma_byte_length_push(s: Seq<char>, c: char)
    ensures
        byte_length(s.push(c)) == byte_length(s) + utf8_width(c),
    decreases s.len(),
{
    if s.len() == 0 {
        assert(s.push(c).drop_first() =~= Seq::<char>::empty());
        assert(byte_length(s.push(c).drop_first()) == 0);
    } else {
        assert(s.push(c).drop_first() =~= s.drop_first().push(c));
        lemma_byte_length_push(s.drop_first(), c);
    }
}

/// The beginning of a text takes no more bytes than the text, and at least one byte
/// for each character.
pub proof fn lemma_byte_length_grows(s: Seq<char>, upto: int)
    requires
        0 <= upto <= s.len(),
    ensures
        upto <= byte_length(s.take(upto)) <= byte_length(s),
    decreases s.len() - upto,
{
    if upto < s.len() {
        assert(s.take(upto + 1) =~= s.take(upto).push(s[upto]));
        lemma_byte_length_push(s.take(upto), s[upto]);
        lemma_byte_length_grows(s, upto + 1);
        lemma_byte_length_counts(s.take(upto));
    } else {
        assert(s.take(upto) =~= s);
        lemma_byte_length_counts(s);
    }
}

/// Each character takes one byte at least.
pub proof fn lemma_byte_length_counts(s: Seq<char>)
    ensures
        s.len() <= byte_length(s),
    decreases s.len(),
{
    if s.len() > 0 {
        lemma_byte_length_counts(s.drop_first());
    }
}

/// The bytes counted are those of the UTF-8 encoding.
pub proof fn lemma_byte_length_is_encoded(s: Seq<char>)
    ensures
        byte_length(s) == vstd::utf8::encode_utf8(s).len(),
    decreases s.len(),
{
    if s.len() > 0 {
        vstd::utf8::char_is_scalar(s[0]);
        lemma_byte_length_is_encoded(s.drop_first());
    }
}

/// Appends `n` in decimal notation.
pub fn push_decimal(out: &mut String, n: usize)
    ensures
        final(out)@ == old(out)@ + decimal(n as nat),
    decreases n,
{
    if n >= 10 {
        push_decimal(out, n / 10);
    }
    let d: u8 = (n % 10) as u8;
    out.push((48u8 + d) as char);
    assert(out@ =~= old(out)@ + decimal(n as nat));
}

/// The parts, with `sep` between each two neighbours, as one string.
pub fn join_texts(parts: &Vec<String>, sep: &str) -> (r: String)
    ensures
        r@ == join(texts(parts@), sep@),
{
    let mut out = String::new();
    let mut i: usize = 0;
    while i < parts.len()
        invariant
            i <= parts.len(),
            out@ == join(texts(parts@).take(i as int), sep@),
        decreases parts.len() - i,
    {
        let ghost before = texts(parts@).take(i as int);
        let ghost after = texts(parts@).take(i + 1);
        assert(after.drop_last() =~= before);
        assert(after.last() == parts[i as int]@);
        if i > 0 {
            out.append(sep);
        }
        out.append(parts[i].as_str());
        assert(out@ =~= join(after, sep@));
        i += 1;
    }
    assert(texts(parts@).take(parts.len() as int) =~= texts(parts@));
    out
}

/// Appends `s` to `list`.
pub fn push_text(list: &mut Vec<String>, s: String)
    ensures
        texts(final(list)@) == texts(old(list)@).push(s@),
        final(list)@ == old(list)@.push(s),
{
    list.push(s);
    assert(texts(list@) =~= texts(old(list)@).push(s@));
}

/// The items between square brackets, with `", "` between each two neighbours.
pub fn bracket_list(items: &Vec<String>) -> (r: String)
    ensures
        r@ == "["@ + join(texts(items@), ", "@) + "]"@,
{
    let mut out = String::from_str("[");
    let inner = join_texts(items, ", ");
    out.append(inner.as_str());
    out.append("]");
    out
}

/// The index of the first string of `names` that holds the characters of `x`.
pub fn find_text(names: &Vec<String>, x: &str) -> (r: Option<usize>)
    ensures
        r is Some <==> texts(names@).contains(x@),
        r matches Some(i) ==> i == position(texts(names@), x@),
{
    let mut i: usize = 0;
    proof {
        lemma_position(texts(names@), x@);
    }
    while i < names.len()
        invariant
            i <= names.len(),
            position(texts(names@), x@) == position_from(texts(names@), x@, i as int),
            forall|j: int| 0 <= j < i ==> texts(names@)[j] != x@,
        decreases names.len() - i,
    {
        if *names[i].as_str() == *x {
            assert(texts(names@)[i as int] == x@);
            return Some(i);
        }
        i += 1;
    }
    None
}

/// Whether some string of `names` holds the characters of `x`.
pub fn contains_text(names: &Vec<String>, x: &str) -> (r: bool)
    ensures
        r == texts(names@).contains(x@),
{
    find_text(names, x).is_some()
}

/// The characters of a string slice. There are fewer than `usize::MAX` of
/// them: the vector that holds them takes one more, which is taken out again.
pub fn to_chars(s: &str) -> (r: Vec<char>)
    ensures
        r@ == s@,
        r@.len() < usize::MAX,
{
    let mut chars: Vec<char> = Vec::new();
    for c in it: s.chars()
        invariant
            it.seq() == s@,
            chars@ == s@.take(it.index()),
    {
        chars.push(c);
        assert(chars@ =~= s@.take(it.index() + 1));
    }
    assert(s@.take(s@.len() as int) =~= s@);
    chars.push(' ');
    assert(chars@.len() <= usize::MAX) by {
        assert(chars.len() == chars@.len());
    }
    chars.pop();
    assert(chars@ =~= s@);
    chars
}

/// The number of bytes that `c` takes in UTF-8.
pub fn char_width(c: char) -> (r: usize)
    ensures
        r == utf8_width(c),
{
    let code: u32 = c as u32;
    if code < 0x80 {
        1
    } else if code < 0x800 {
        2
    } else if code < 0x10000 {
        3
    } else {
        4
    }
}

/// The number of bytes that the first `index` characters take in UTF-8.
pub fn byte_offset(chars: &Vec<char>, index: usize) -> (r: usize)
    requires
        index <= chars.len(),
        byte_length(chars@) <= usize::MAX,
    ensures
        r == byte_length(chars@.take(index as int)),
{
    let mut bytes: usize = 0;
    let mut i: usize = 0;
    assert(chars@.take(0) =~= Seq::<char>::empty());
    while i < index
        invariant
            i <= index <= chars.len(),
            byte_length(chars@) <= usize::MAX,
            bytes == byte_length(chars@.take(i as int)),
        decreases index - i,
    {
        proof {
            assert(chars@.take(i + 1) =~= chars@.take(i as int).push(chars[i as int]));
            lemma_byte_length_push(chars@.take(i as int), chars[i as int]);
            lemma_byte_length_grows(chars@, i + 1);
        }
        bytes = bytes + char_width(chars[i]);
        i += 1;
    }
    bytes
}

/// The string made of the characters `chars[from..to]`.
pub fn to_text(chars: &Vec<char>, from: usize, to: usize) -> (r: String)
    requires
        from <= to <= chars.len(),
    ensures
        r@ == chars@.subrange(from as int, to as int),
{
    let mut out = String::new();
    let mut i: usize = from;
    while i < to
        invariant
            from <= i <= to <= chars.len(),
            out@ == chars@.subrange(from as int, i as int),
        decreases to - i,
    {
        out.push(chars[i]);
        assert(out@ =~= chars@.subrange(from as int, i + 1));
        i += 1;
    }
    out
}

/// Appends `count` times the character `c`.
pub fn push_repeated(out: &mut String, c: char, count: usize)
    ensures
        final(out)@ == old(out)@ + repeated(c, count as nat),
{
    let mut i: usize = 0;
    assert(out@ =~= old(out)@ + repeated(c, 0));
    while i < count
        invariant
            i <= count,
            out@ == old(out)@ + repeated(c, i as nat),
        decreases count - i,
    {
        out.push(c);
        assert(out@ =~= old(out)@ + repeated(c, (i + 1) as nat));
        i += 1;
    }
}

/// Whether `pattern` stands in `s` at index `at`.
pub fn matches_at(s: &Vec<char>, pattern: &Vec<char>, at: usize) -> (r: bool)
    ensures
        r == occurs_at(s@, pattern@, at as int),
{
    if pattern.len() > s.len() || at > s.len() - pattern.len() {
        return false;
    }
    let mut k: usize = 0;
    while k < pattern.len()
        invariant
            k <= pattern.len(),
            at + pattern.len() <= s.len(),
            forall|j: int| 0 <= j < k ==> s[at + j] == pattern[j],
        decreases pattern.len() - k,
    {
        if s[at + k] != pattern[k] {
            assert(s@.subrange(at as int, at + pattern.len())[k as int] != pattern[k as int]);
            return false;
        }
        k += 1;
    }
    assert(s@.subrange(at as int, at + pattern.len()) =~= pattern@);
    true
}

/// Whether `pattern` stands somewhere in `s`.
pub fn contains_chars(s: &Vec<char>, pattern: &Vec<char>) -> (r: bool)
    ensures
        r == has_substring(s@, pattern@),
{
    if pattern.len() > s.len() {
        return false;
    }
    let last: usize = s.len() - pattern.len();
    let mut at: usize = 0;
    loop
        invariant
            at <= last,
            last == s.len() - pattern.len(),
            forall|j: int| 0 <= j < at ==> !occurs_at(s@, pattern@, j),
        decreases last - at,
    {
        if matches_at(s, pattern, at) {
            return true;
        }
        if at == last {
            return false;
        }
        at += 1;
    }
}

/// Whether `pattern` stands somewhere in `s`.
pub fn contains_str(s: &str, pattern: &str) -> (r: bool)
    ensures
        r == has_substring(s@, pattern@),
{
    let s_chars = to_chars(s);
    let pattern_chars = to_chars(pattern);
    contains_chars(&s_chars, &pattern_chars)
}

/// `s` without the occurrences of `pattern`.
pub fn remove_all(s: &str, pattern: &str) -> (r: String)
    ensures
        r@ == without(s@, pattern@),
{
    let chars = to_chars(s);
    let pat = to_chars(pattern);
    if pat.len() == 0 {
        return to_text(&chars, 0, chars.len());
    }
    let mut out = String::new();
    let mut i: usize = 0;
    assert(chars@.subrange(0, chars.len() as int) =~= chars@);
    while i < chars.len()
        invariant
            i <= chars.len(),
            pat.len() > 0,
            pat@ == pattern@,
            chars@ == s@,
            out@ + without(chars@.subrange(i as int, chars.len() as int), pat@) == without(
                s@,
                pattern@,
            ),
        decreases chars.len() - i,
    {
        let ghost rest = chars@.subrange(i as int, chars.len() as int);
        if matches_at(&chars, &pat, i) {
            assert(rest.subrange(0, pat.len() as int) =~= chars@.subrange(
                i as int,
                i + pat.len(),
            ));
            assert(rest.subrange(pat.len() as int, rest.len() as int) =~= chars@.subrange(
                i + pat.len(),
                chars.len() as int,
            ));
            i += pat.len();
        } else {
            if chars.len() - i >= pat.len() {
                assert(rest.subrange(0, pat.len() as int) =~= chars@.subrange(
                    i as int,
                    i + pat.len(),
                ));
                assert(rest.subrange(1, rest.len() as int) =~= chars@.subrange(
                    i + 1,
                    chars.len() as int,
                ));
                let ghost tail = without(rest.subrange(1, rest.len() as int), pat@);
                assert(out@.push(chars[i as int]) + tail =~= out@ + (seq![rest[0]] + tail));
                out.push(chars[i]);
                i += 1;
            } else {
                let ghost before = out@;
                let rest_text = to_text(&chars, i, chars.len());
                out.append(rest_text.as_str());
                i = chars.len();
                assert(chars@.subrange(i as int, chars.len() as int) =~= Seq::<char>::empty());
                assert(out@ + Seq::<char>::empty() =~= before + rest);
            }
        }
    }
    assert(chars@.subrange(i as int, chars.len() as int) =~= Seq::<char>::empty());
    assert(out@ + Seq::<char>::empty() =~= out@);
    out
}

} // verus!
