//! Strings as sequences of Unicode scalar values, with their UTF-8 and
//! UTF-16 lengths.
use vstd::prelude::*;
use vstd::utf8::*;
use crate::classify::{is_white_space, white_space_codepoint};
use vstd::std_specs::iter::IteratorSpec;
use vstd::string::StringSliceAdditionalSpecFns;

verus! {

broadcast use {vstd::string::axiom_spec_iter, vstd::string::next_postcondition};

/// The number of UTF-8 bytes that encode `c`.
pub open spec fn utf8_width(c: char) -> nat {
    let cp = c as u32;
    if cp < 0x80 {
        1
    } else if cp < 0x800 {
        2
    } else if cp < 0x10000 {
        3
    } else {
        4
    }
}

/// The number of UTF-16 code units that encode `c`.
pub open spec fn utf16_width(c: char) -> nat {
    if (c as u32) < 0x10000 {
        1
    } else {
        2
    }
}

/// The UTF-8 byte offset of the character at index `i` of `s`.
pub open spec fn utf8_offset(s: Seq<char>, i: int) -> nat
    decreases i,
{
    if i <= 0 {
        0
    } else {
        utf8_offset(s, i - 1) + utf8_width(s[i - 1])
    }
}

/// The UTF-16 code unit offset of the character at index `i` of `s`.
pub open spec fn utf16_offset(s: Seq<char>, i: int) -> nat
    decreases i,
{
    if i <= 0 {
        0
    } else {
        utf16_offset(s, i - 1) + utf16_width(s[i - 1])
    }
}

/// The UTF-8 encoding of one character has `utf8_width` bytes.
pub proof fn lemma_encode_scalar_len(c: char)
    ensures
        encode_scalar(c as u32).len() == utf8_width(c),
{
}

/// Appending a character to a string appends its encoding.
pub proof fn lemma_encode_utf8_push(s: Seq<char>, c: char)
    ensures
        encode_utf8(s.push(c)).len() == encode_utf8(s).len() + utf8_width(c),
    decreases s.len(),
{
    lemma_encode_scalar_len(c);
    if s.len() == 0 {
        assert(s.push(c).drop_first() =~= Seq::<char>::empty());
        assert(encode_utf8(Seq::<char>::empty()) =~= Seq::<u8>::empty());
    } else {
        assert(s.push(c).drop_first() =~= s.drop_first().push(c));
        assert(s.push(c)[0] == s[0]);
        lemma_encode_utf8_push(s.drop_first(), c);
    }
}

/// The byte offset of position `i` is the length of the encoding of the
/// first `i` characters.
pub proof fn lemma_utf8_offset_is_encoded_len(s: Seq<char>, i: int)
    requires
        0 <= i <= s.len(),
    ensures
        utf8_offset(s, i) == encode_utf8(s.take(i)).len(),
    decreases i,
{
    if i == 0 {
        assert(s.take(0) =~= Seq::<char>::empty());
        assert(encode_utf8(Seq::<char>::empty()) =~= Seq::<u8>::empty());
    } else {
        lemma_utf8_offset_is_encoded_len(s, i - 1);
        assert(s.take(i) =~= s.take(i - 1).push(s[i - 1]));
        lemma_encode_utf8_push(s.take(i - 1), s[i - 1]);
    }
}

/// Offsets grow with the position.
pub proof fn lemma_utf8_offset_monotone(s: Seq<char>, i: int, j: int)
    requires
        0 <= i <= j,
    ensures
        utf8_offset(s, i) <= utf8_offset(s, j),
    decreases j,
{
    if i < j {
        lemma_utf8_offset_monotone(s, i, j - 1);
    }
}

/// Offsets grow with the position.
pub proof fn lemma_utf16_offset_monotone(s: Seq<char>, i: int, j: int)
    requires
        0 <= i <= j,
    ensures
        utf16_offset(s, i) <= utf16_offset(s, j),
        utf16_offset(s, j) - utf16_offset(s, i) <= 2 * (j - i),
    decreases j,
{
    if i < j {
        lemma_utf16_offset_monotone(s, i, j - 1);
    }
}

/// The byte offsets of a string's characters fit in its byte length.
pub proof fn lemma_utf8_offset_bounded(s: &str, i: int)
    requires
        0 <= i <= s@.len(),
    ensures
        utf8_offset(s@, i) <= s.spec_bytes().len(),
{
    lemma_utf8_offset_is_encoded_len(s@, s@.len() as int);
    assert(s@.take(s@.len() as int) =~= s@);
    lemma_utf8_offset_monotone(s@, i, s@.len() as int);
}

pub fn char_utf8_width(c: char) -> (w: usize)
    ensures
        w == utf8_width(c),
{
    let cp = c as u32;
    if cp < 0x80 {
        1
    } else if cp < 0x800 {
        2
    } else if cp < 0x10000 {
        3
    } else {
        4
    }
}

pub fn char_utf16_width(c: char) -> (w: usize)
    ensures
        w == utf16_width(c),
{
    if (c as u32) < 0x10000 {
        1
    } else {
        2
    }
}

/// The characters of a string, in order.
pub fn chars_of(s: &str) -> (chars: Vec<char>)
    ensures
        chars@ == s@,
{
    let mut chars: Vec<char> = Vec::new();
    let mut iter = s.chars();
    loop
        invariant
            iter.remaining() == s@.skip(chars@.len() as int),
            chars@ == s@.take(chars@.len() as int),
            chars@.len() <= s@.len(),
        ensures
            chars@ == s@,
        decreases s@.len() - chars@.len(),
    {
        match iter.next() {
            Some(c) => {
                assert(s@.take(chars@.len() as int + 1) =~= s@.take(chars@.len() as int).push(c));
                assert(s@.skip(chars@.len() as int + 1) =~= s@.skip(chars@.len() as int).drop_first());
                chars.push(c);
            },
            None => {
                assert(s@.take(chars@.len() as int) =~= s@);
                break ;
            },
        }
    }
    chars
}

/// Calls `String::push_str`, which appends the characters of `s` to `out`.
#[verifier::external_body]
pub(crate) fn push_str(out: &mut String, s: &str)
    ensures
        final(out)@ == old(out)@ + s@,
{
    out.push_str(s);
}

/// Calls `String::push`, which appends one character to `out`.
#[verifier::external_body]
pub(crate) fn push_char(out: &mut String, c: char)
    ensures
        final(out)@ == old(out)@.push(c),
{
    out.push(c);
}

/// Appends the characters `chars[start..end]` to `out`.
pub fn push_chars(out: &mut String, chars: &Vec<char>, start: usize, end: usize)
    requires
        start <= end <= chars@.len(),
    ensures
        final(out)@ == old(out)@ + chars@.subrange(start as int, end as int),
{
    let mut i = start;
    while i < end
        invariant
            start <= i <= end <= chars@.len(),
            out@ == old(out)@ + chars@.subrange(start as int, i as int),
        decreases end - i,
    {
        push_char(out, chars[i]);
        assert(chars@.subrange(start as int, i + 1) =~= chars@.subrange(start as int, i as int).push(
            chars@[i as int],
        ));
        i += 1;
    }
}

/// A new string holding `chars[start..end]`.
pub fn string_from_chars(chars: &Vec<char>, start: usize, end: usize) -> (s: String)
    requires
        start <= end <= chars@.len(),
    ensures
        s@ == chars@.subrange(start as int, end as int),
{
    let mut s = String::new();
    push_chars(&mut s, chars, start, end);
    assert(Seq::<char>::empty() + chars@.subrange(start as int, end as int) =~= chars@.subrange(
        start as int,
        end as int,
    ));
    s
}

/// `s` without leading characters that have the White_Space property.
pub open spec fn trim_start(s: Seq<char>) -> Seq<char>
    decreases s.len(),
{
    if s.len() > 0 && white_space_codepoint(s[0] as u32) {
        trim_start(s.drop_first())
    } else {
        s
    }
}

/// `s` without trailing characters that have the White_Space property.
pub open spec fn trim_end(s: Seq<char>) -> Seq<char>
    decreases s.len(),
{
    if s.len() > 0 && white_space_codepoint(s.last() as u32) {
        trim_end(s.drop_last())
    } else {
        s
    }
}

/// `s` without leading and trailing white space, as `str::trim` gives it.
pub open spec fn trimmed(s: Seq<char>) -> Seq<char> {
    trim_end(trim_start(s))
}

proof fn lemma_trim_start_at(s: Seq<char>, i: int)
    requires
        0 <= i <= s.len(),
        forall|k: int| 0 <= k < i ==> white_space_codepoint(#[trigger] s[k] as u32),
        i == s.len() || !white_space_codepoint(s[i] as u32),
    ensures
        trim_start(s) == s.skip(i),
    decreases i,
{
    if i > 0 {
        assert(s.drop_first().skip(i - 1) =~= s.skip(i));
        assert forall|k: int| 0 <= k < i - 1 implies white_space_codepoint(
            #[trigger] s.drop_first()[k] as u32,
        ) by {
            assert(s.drop_first()[k] == s[k + 1]);
        }
        lemma_trim_start_at(s.drop_first(), i - 1);
    } else {
        assert(s.skip(0) =~= s);
    }
}

proof fn lemma_trim_end_at(s: Seq<char>, j: int)
    requires
        0 <= j <= s.len(),
        forall|k: int| j <= k < s.len() ==> white_space_codepoint(#[trigger] s[k] as u32),
        j == 0 || !white_space_codepoint(s[j - 1] as u32),
    ensures
        trim_end(s) == s.take(j),
    decreases s.len() - j,
{
    if j < s.len() {
        assert(s.drop_last().take(j) =~= s.take(j));
        lemma_trim_end_at(s.drop_last(), j);
    } else {
        assert(s.take(j) =~= s);
    }
}

proof fn lemma_trim_start_shape(s: Seq<char>)
    ensures
        trim_start(s) == s.skip(s.len() - trim_start(s).len()),
        trim_start(s).len() <= s.len(),
        trim_start(s).len() > 0 ==> !white_space_codepoint(trim_start(s)[0] as u32),
    decreases s.len(),
{
    if s.len() > 0 && white_space_codepoint(s[0] as u32) {
        lemma_trim_start_shape(s.drop_first());
        assert(s.drop_first().skip(s.drop_first().len() - trim_start(s.drop_first()).len())
            =~= s.skip(s.len() - trim_start(s.drop_first()).len()));
    } else {
        assert(s.skip(0) =~= s);
    }
}

proof fn lemma_trim_end_shape(s: Seq<char>)
    ensures
        trim_end(s) == s.take(trim_end(s).len() as int),
        trim_end(s).len() <= s.len(),
        trim_end(s).len() > 0 ==> !white_space_codepoint(trim_end(s).last() as u32),
    decreases s.len(),
{
    if s.len() > 0 && white_space_codepoint(s.last() as u32) {
        lemma_trim_end_shape(s.drop_last());
        assert(s.drop_last().take(trim_end(s.drop_last()).len() as int) =~= s.take(
            trim_end(s.drop_last()).len() as int,
        ));
    } else {
        assert(s.take(s.len() as int) =~= s);
    }
}

/// Trimming twice trims nothing more.
pub proof fn lemma_trimmed_idempotent(s: Seq<char>)
    ensures
        trimmed(trimmed(s)) == trimmed(s),
{
    let u = trim_start(s);
    let t = trim_end(u);
    lemma_trim_start_shape(s);
    lemma_trim_end_shape(u);
    if t.len() > 0 {
        assert(t[0] == u[0]);
        assert(trim_start(t) == t);
        assert(trim_end(t) == t);
    } else {
        assert(trim_start(t) =~= t);
    }
}

/// A text that neither starts nor ends with white space is its own trim.
pub proof fn lemma_trimmed_unchanged(s: Seq<char>)
    requires
        s.len() > 0,
        !white_space_codepoint(s[0] as u32),
        !white_space_codepoint(s.last() as u32),
    ensures
        trimmed(s) == s,
{
    assert(trim_start(s) == s);
}

/// The last digit of `n`.
pub proof fn lemma_decimal_digits_last(n: nat)
    ensures
        decimal_digits(n).len() > 0,
        decimal_digits(n).last() == digit_char(n % 10),
        '0' <= digit_char(n % 10) <= '9',
{
}

/// The text of `s` without leading and trailing white space.
pub fn trim_text(s: &str) -> (t: String)
    ensures
        t@ == trimmed(s@),
{
    let chars = chars_of(s);
    let n = chars.len();
    let mut i: usize = 0;
    while i < n && is_white_space(chars[i])
        invariant
            n == chars@.len(),
            i <= n,
            forall|k: int| 0 <= k < i ==> white_space_codepoint(#[trigger] chars@[k] as u32),
        decreases n - i,
    {
        i += 1;
    }
    proof {
        lemma_trim_start_at(chars@, i as int);
    }
    let mut j: usize = n;
    while j > i && is_white_space(chars[j - 1])
        invariant
            n == chars@.len(),
            i <= j <= n,
            forall|k: int| j <= k < n ==> white_space_codepoint(#[trigger] chars@[k] as u32),
        decreases j,
    {
        j -= 1;
    }
    let ghost rest = chars@.skip(i as int);
    proof {
        assert forall|k: int| j - i <= k < rest.len() implies white_space_codepoint(
            #[trigger] rest[k] as u32,
        ) by {
            assert(rest[k] == chars@[k + i]);
        }
        if j > i {
            assert(rest[j - i - 1] == chars@[j - 1]);
        }
        lemma_trim_end_at(rest, j - i);
        assert(rest.take(j - i) =~= chars@.subrange(i as int, j as int));
    }
    string_from_chars(&chars, i, j)
}

/// The decimal digits of `n`, most significant first.
pub open spec fn decimal_digits(n: nat) -> Seq<char>
    decreases n,
{
    if n < 10 {
        seq![digit_char(n)]
    } else {
        decimal_digits(n / 10).push(digit_char(n % 10))
    }
}

pub open spec fn digit_char(d: nat) -> char {
    if d == 0 {
        '0'
    } else if d == 1 {
        '1'
    } else if d == 2 {
        '2'
    } else if d == 3 {
        '3'
    } else if d == 4 {
        '4'
    } else if d == 5 {
        '5'
    } else if d == 6 {
        '6'
    } else if d == 7 {
        '7'
    } else if d == 8 {
        '8'
    } else {
        '9'
    }
}

fn digit(d: usize) -> (c: char)
    requires
        d < 10,
    ensures
        c == digit_char(d as nat),
{
    let digits = ['0', '1', '2', '3', '4', '5', '6', '7', '8', '9'];
    digits[d]
}

/// Appends the decimal digits of `n`, as `usize::to_string` writes them.
pub fn push_decimal(out: &mut String, n: usize)
    ensures
        final(out)@ == old(out)@ + decimal_digits(n as nat),
    decreases n,
{
    if n >= 10 {
        push_decimal(out, n / 10);
    }
    push_char(out, digit(n % 10));
    assert(n < 10 ==> decimal_digits(n as nat) =~= seq![digit_char(n as nat)]);
    assert(n >= 10 ==> decimal_digits(n as nat) =~= decimal_digits((n / 10) as nat).push(
        digit_char((n % 10) as nat),
    ));
    assert(n < 10 ==> Seq::<char>::empty().push(digit_char(n as nat)) =~= seq![digit_char(n as nat)]);
    assert(final(out)@ =~= old(out)@ + decimal_digits(n as nat));
}

} // verus!
