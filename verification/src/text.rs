//! Facts about text: byte lengths, trimming, path separators, ordering and decimal numbers.

use vstd::prelude::*;
use vstd::string::*;
use vstd::utf8::*;

verus! {

/// Number of bytes that `s` takes in UTF-8.
pub open spec fn byte_len(s: Seq<char>) -> nat {
    encode_utf8(s).len()
}

/// The byte length of `s`.
pub fn byte_length(s: &str) -> (n: usize)
    ensures
        n == byte_len(s@),
{
    s.as_bytes().len()
}

/// The UTF-8 form of a concatenation is the concatenation of the UTF-8 forms.
pub proof fn lemma_encode_concat(a: Seq<char>, b: Seq<char>)
    ensures
        encode_utf8(a + b) == encode_utf8(a) + encode_utf8(b),
    decreases a.len(),
{
    if a.len() == 0 {
        assert(a + b =~= b);
        assert(encode_utf8(a) + encode_utf8(b) =~= encode_utf8(b));
    } else {
        assert((a + b).drop_first() =~= a.drop_first() + b);
        lemma_encode_concat(a.drop_first(), b);
        assert(encode_utf8(a + b) =~= encode_utf8(a) + encode_utf8(b));
    }
}

/// The characters of `s`, one by one.
pub fn chars_of(s: &str) -> (chars: Vec<char>)
    ensures
        chars@ == s@,
{
    let mut chars: Vec<char> = Vec::new();
    for c in iter: s.chars()
        invariant
            iter.seq() == s@,
            chars@ == iter.seq().take(iter.index() as int),
    {
        chars.push(c);
    }
    chars
}

/// The characters with the Unicode property `White_Space`.
pub open spec fn is_white_space(c: char) -> bool {
    ||| '\u{9}' <= c <= '\u{d}'
    ||| c == ' ' || c == '\u{85}' || c == '\u{a0}' || c == '\u{1680}'
    ||| '\u{2000}' <= c <= '\u{200a}'
    ||| c == '\u{2028}' || c == '\u{2029}' || c == '\u{202f}' || c == '\u{205f}' || c == '\u{3000}'
}

/// `char::is_whitespace` tells whether a character has the Unicode property `White_Space`.
pub assume_specification[ char::is_whitespace ](c: char) -> (r: bool)
    ensures
        r == is_white_space(c),
;

/// `s` without the white space at its start.
pub open spec fn trimmed_start(s: Seq<char>) -> Seq<char>
    decreases s.len(),
{
    if s.len() > 0 && is_white_space(s[0]) {
        trimmed_start(s.drop_first())
    } else {
        s
    }
}

/// `s` without the white space at its end.
pub open spec fn trimmed_end(s: Seq<char>) -> Seq<char>
    decreases s.len(),
{
    if s.len() > 0 && is_white_space(s.last()) {
        trimmed_end(s.drop_last())
    } else {
        s
    }
}

/// `s` without the white space around it.
pub open spec fn trimmed(s: Seq<char>) -> Seq<char> {
    trimmed_end(trimmed_start(s))
}

/// `s` without the white space around it.
pub fn trim(s: &str) -> (r: String)
    ensures
        r@ == trimmed(s@),
{
    let chars = chars_of(s);
    let mut start: usize = 0;
    proof {
        assert(s@.skip(0) =~= s@);
    }
    while start < chars.len() && chars[start].is_whitespace()
        invariant
            start <= chars.len(),
            chars@ == s@,
            trimmed_start(s@.skip(start as int)) == trimmed_start(s@),
        decreases chars.len() - start,
    {
        proof {
            assert(s@.skip(start as int).drop_first() =~= s@.skip(start + 1));
        }
        start = start + 1;
    }
    let ghost rest = s@.skip(start as int);
    let mut end: usize = chars.len();
    proof {
        assert(s@.subrange(start as int, end as int) =~= rest);
    }
    while start < end && chars[end - 1].is_whitespace()
        invariant
            start <= end <= chars.len(),
            chars@ == s@,
            trimmed_end(s@.subrange(start as int, end as int)) == trimmed_end(rest),
        decreases end,
    {
        proof {
            assert(s@.subrange(start as int, end as int).drop_last() =~= s@.subrange(
                start as int,
                end - 1,
            ));
        }
        end = end - 1;
    }
    s.substring_char(start, end).to_owned()
}


/// Trimming leaves no white space at either end, and trimming again changes nothing.
pub proof fn law_trim_is_final(s: Seq<char>)
    ensures
        trimmed(s).len() > 0 ==> !is_white_space(trimmed(s)[0]) && !is_white_space(
            trimmed(s).last(),
        ),
        trimmed(trimmed(s)) == trimmed(s),
{
    lemma_trimmed_start(s);
    lemma_trimmed_end(trimmed_start(s));
}

proof fn lemma_trimmed_start(s: Seq<char>)
    ensures
        trimmed_start(s).len() > 0 ==> !is_white_space(trimmed_start(s)[0]),
    decreases s.len(),
{
    if s.len() > 0 && is_white_space(s[0]) {
        lemma_trimmed_start(s.drop_first());
    }
}

proof fn lemma_trimmed_end(s: Seq<char>)
    ensures
        trimmed_end(s).len() > 0 ==> !is_white_space(trimmed_end(s).last()) && trimmed_end(s)[0]
            == s[0],
    decreases s.len(),
{
    if s.len() > 0 && is_white_space(s.last()) {
        lemma_trimmed_end(s.drop_last());
    }
}

/// The character with which `c` stands in a path that is searched: a backslash counts as a slash.
pub open spec fn forward_slash(c: char) -> char {
    if c == '\\' {
        '/'
    } else {
        c
    }
}

/// `s` with every backslash turned into a slash.
pub open spec fn forward_slashes(s: Seq<char>) -> Seq<char> {
    s.map_values(|c: char| forward_slash(c))
}

/// `String::push` appends one character.
pub assume_specification[ String::push ](s: &mut String, c: char)
    ensures
        final(s)@ == old(s)@.push(c),
;

/// `s` with every backslash turned into a slash.
pub fn with_forward_slashes(s: &str) -> (r: String)
    ensures
        r@ == forward_slashes(s@),
{
    let mut r = String::new();
    for c in iter: s.chars()
        invariant
            iter.seq() == s@,
            r@ == forward_slashes(iter.seq().take(iter.index() as int)),
    {
        if c == '\\' {
            r.push('/');
        } else {
            r.push(c);
        }
    }
    proof {
        assert(s@.take(s@.len() as int) =~= s@);
    }
    r
}

/// Turning backslashes into slashes moves no byte: every byte that differs was a backslash and
/// became a slash.
pub proof fn lemma_forward_slashes_bytes(s: Seq<char>)
    ensures
        byte_len(forward_slashes(s)) == byte_len(s),
        forall|i: int|
            #![trigger encode_utf8(s)[i]]
            #![trigger encode_utf8(forward_slashes(s))[i]]
            0 <= i < byte_len(s) ==> {
                ||| encode_utf8(forward_slashes(s))[i] == encode_utf8(s)[i]
                ||| encode_utf8(s)[i] == 0x5c && encode_utf8(forward_slashes(s))[i] == 0x2f
            },
    decreases s.len(),
{
    if s.len() > 0 {
        let rest = s.drop_first();
        lemma_forward_slashes_bytes(rest);
        assert(forward_slashes(s).drop_first() =~= forward_slashes(rest));
        let head = encode_scalar(s[0] as u32);
        let new_head = encode_scalar(forward_slashes(s)[0] as u32);
        assert(head.len() == new_head.len() && forall|i: int|
            #![auto]
            0 <= i < head.len() ==> new_head[i] == head[i] || (head[i] == 0x5c && new_head[i]
                == 0x2f)) by {
            if s[0] == '\\' {
                assert(leading_byte_width_1(0x5cu32) == 0x5c && leading_byte_width_1(0x2fu32)
                    == 0x2f) by (bit_vector);
            }
        }
        assert forall|i: int|
            #![trigger encode_utf8(s)[i]]
            #![trigger encode_utf8(forward_slashes(s))[i]]
            0 <= i < byte_len(s) implies {
            ||| encode_utf8(forward_slashes(s))[i] == encode_utf8(s)[i]
            ||| encode_utf8(s)[i] == 0x5c && encode_utf8(forward_slashes(s))[i] == 0x2f
        } by {
            if i >= head.len() {
                assert(encode_utf8(s)[i] == encode_utf8(rest)[i - head.len()]);
                assert(encode_utf8(forward_slashes(s))[i] == encode_utf8(forward_slashes(rest))[i
                    - head.len()]);
            } else {
                assert(encode_utf8(s)[i] == head[i]);
                assert(encode_utf8(forward_slashes(s))[i] == new_head[i]);
            }
        }
    }
}

/// Whether `a` sorts strictly before `b`: by the first character in which they differ, by code
/// point, and a proper prefix before what it is a prefix of.
pub open spec fn text_before(a: Seq<char>, b: Seq<char>) -> bool
    decreases a.len(),
{
    if b.len() == 0 {
        false
    } else if a.len() == 0 {
        true
    } else if a[0] == b[0] {
        text_before(a.drop_first(), b.drop_first())
    } else {
        a[0] < b[0]
    }
}

/// Whether `a` sorts strictly before `b`.
pub fn sorts_before(a: &str, b: &str) -> (r: bool)
    ensures
        r == text_before(a@, b@),
{
    let mut right = b.chars();
    proof {
        assert(a@.skip(0) =~= a@);
        assert(b@.skip(0) =~= b@);
    }
    for l in iter: a.chars()
        invariant
            iter.seq() == a@,
            iter.index() <= b@.len(),
            vstd::std_specs::iter::IteratorSpec::remaining(&right) == b@.skip(iter.index() as int),
            text_before(a@.skip(iter.index() as int), b@.skip(iter.index() as int)) == text_before(
                a@,
                b@,
            ),
    {
        proof {
            assert(a@.skip(iter.index() as int).drop_first() =~= a@.skip(iter.index() + 1));
            if iter.index() < b@.len() {
                assert(b@.skip(iter.index() as int).drop_first() =~= b@.skip(iter.index() + 1));
            }
        }
        match right.next() {
            None => {
                return false;
            },
            Some(r) => {
                if l != r {
                    return l < r;
                }
            },
        }
    }
    right.next().is_some()
}

/// No text sorts before itself, no two texts sort before each other, of two different texts one
/// sorts before the other, and sorting before carries over from one pair to the next.
pub proof fn law_text_order_is_total(a: Seq<char>, b: Seq<char>, c: Seq<char>)
    ensures
        !text_before(a, a),
        !(text_before(a, b) && text_before(b, a)),
        a == b || text_before(a, b) || text_before(b, a),
        text_before(a, b) && text_before(b, c) ==> text_before(a, c),
    decreases a.len() + b.len() + c.len(),
{
    if a.len() > 0 && b.len() > 0 && c.len() > 0 {
        law_text_order_is_total(a.drop_first(), b.drop_first(), c.drop_first());
    } else if a.len() > 0 && b.len() > 0 {
        law_text_order_is_total(a.drop_first(), b.drop_first(), c);
    } else if a.len() > 0 {
        law_text_order_is_total(a.drop_first(), b, c);
    }
    if a.len() == b.len() && a.len() > 0 && a[0] == b[0] && a.drop_first() == b.drop_first() {
        assert(a =~= seq![a[0]] + a.drop_first());
        assert(b =~= seq![b[0]] + b.drop_first());
    }
    if a.len() == 0 && b.len() == 0 {
        assert(a =~= b);
    }
}

/// The decimal digits of `n`, without leading zeros.
pub open spec fn decimal(n: nat) -> Seq<char>
    decreases n,
{
    if n < 10 {
        seq![digit(n)]
    } else {
        decimal(n / 10).push(digit(n % 10))
    }
}

/// The digit for `n` below ten.
pub open spec fn digit(n: nat) -> char {
    (48 + n) as char
}

fn digit_char(n: u32) -> (c: char)
    requires
        n < 10,
    ensures
        c == digit(n as nat),
{
    (48u8 + n as u8) as char
}

/// Appends the decimal digits of `n` to `s`.
pub fn push_decimal(s: &mut String, n: u32)
    ensures
        final(s)@ == old(s)@ + decimal(n as nat),
    decreases n,
{
    if n >= 10 {
        push_decimal(s, n / 10);
    }
    s.push(digit_char(n % 10));
    proof {
        assert(s@ =~= old(s)@ + decimal(n as nat));
    }
}

} // verus!
