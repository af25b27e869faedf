//! What holds of the operations on text, said of the characters that go in and come out.

use crate::text;
use vstd::prelude::*;
use vstd::utf8::*;

verus! {

/// The characters of a text are those it consists of, and its byte length is that of its UTF-8
/// form.
pub proof fn law_characters_and_bytes(s: &str, chars: Vec<char>, n: usize)
    requires
        call_ensures(text::chars_of, (s,), chars),
        call_ensures(text::byte_length, (s,), n),
    ensures
        chars@ == s@,
        n == encode_utf8(s@).len(),
{
}

/// Trimming takes white space off both ends, all of it, and nothing else: what is left is a
/// stretch of the text with nothing but white space around it, which neither starts nor ends with
/// any.
pub proof fn law_trim_takes_off_white_space_only(s: &str, r: String)
    requires
        call_ensures(text::trim, (s,), r),
    ensures
        exists|i: int, j: int|
            {
                &&& 0 <= i <= j <= s@.len()
                &&& r@ == #[trigger] s@.subrange(i, j)
                &&& forall|k: int|
                    0 <= k < i || j <= k < s@.len() ==> text::is_white_space(#[trigger] s@[k])
            },
        r@.len() > 0 ==> !text::is_white_space(r@[0]) && !text::is_white_space(r@.last()),
{
    let (i, j) = lemma_trimmed(s@);
}

/// A text that neither starts nor ends with white space is its own trimmed form, however long it
/// is and whatever stands within it.
pub proof fn law_trim_keeps_what_has_no_white_space_around_it(s: &str, r: String)
    requires
        call_ensures(text::trim, (s,), r),
        s@.len() > 0 ==> !text::is_white_space(s@[0]) && !text::is_white_space(s@.last()),
    ensures
        r@ == s@,
{
    let (i, j) = lemma_trimmed(s@);
    if s@.len() > 0 {
        assert(i <= 0 < j && i <= s@.len() - 1 < j);
    }
    assert(r@ =~= s@);
}

/// White space around a text makes no difference to what trimming leaves of it.
pub proof fn law_trim_forgets_the_white_space_around(
    s: &str,
    wide: &str,
    before: Seq<char>,
    after: Seq<char>,
    r: String,
    r_wide: String,
)
    requires
        call_ensures(text::trim, (s,), r),
        call_ensures(text::trim, (wide,), r_wide),
        wide@ == before + s@ + after,
        forall|k: int| 0 <= k < before.len() ==> text::is_white_space(#[trigger] before[k]),
        forall|k: int| 0 <= k < after.len() ==> text::is_white_space(#[trigger] after[k]),
    ensures
        r_wide@ == r@,
{
    let (i, j) = lemma_trimmed(s@);
    let (l, m) = lemma_trimmed(wide@);
    let n = before.len();
    assert forall|k: int| 0 <= k < s@.len() implies s@[k] == #[trigger] wide@[n + k] by {}
    assert forall|k: int| 0 <= k < before.len() implies before[k] == #[trigger] wide@[k] by {}
    assert forall|k: int| 0 <= k < after.len() implies after[k] == #[trigger] wide@[n + s@.len()
        + k] by {}
    if i < j {
        assert(wide@[n + i] == s@[i] && wide@[n + j - 1] == s@[j - 1]);
        assert(l <= n + i < m && l <= n + j - 1 < m);
    }
    if l < m {
        if l < n {
            assert(text::is_white_space(before[l]));
        }
        if l >= n + s@.len() {
            assert(text::is_white_space(after[l - n - s@.len()]));
        }
        if m - 1 < n {
            assert(text::is_white_space(before[m - 1]));
        }
        if m - 1 >= n + s@.len() {
            assert(text::is_white_space(after[m - 1 - n - s@.len()]));
        }
        assert(wide@[l] == s@[l - n] && wide@[m - 1] == s@[m - 1 - n]);
        assert(i <= l - n < j && i <= m - 1 - n < j);
    }
    assert(r_wide@ =~= r@);
}

proof fn lemma_trimmed_start(s: Seq<char>) -> (i: int)
    ensures
        0 <= i <= s.len(),
        text::trimmed_start(s) == s.skip(i),
        forall|k: int| 0 <= k < i ==> text::is_white_space(#[trigger] s[k]),
        i < s.len() ==> !text::is_white_space(s[i]),
    decreases s.len(),
{
    if s.len() > 0 && text::is_white_space(s[0]) {
        let rest = s.drop_first();
        let i = lemma_trimmed_start(rest);
        assert(rest.skip(i) =~= s.skip(i + 1));
        assert forall|k: int| 0 <= k < i + 1 implies text::is_white_space(#[trigger] s[k]) by {
            if k > 0 {
                assert(s[k] == rest[k - 1]);
            }
        }
        i + 1
    } else {
        assert(s.skip(0) =~= s);
        0
    }
}

proof fn lemma_trimmed_end(s: Seq<char>) -> (j: int)
    ensures
        0 <= j <= s.len(),
        text::trimmed_end(s) == s.take(j),
        forall|k: int| j <= k < s.len() ==> text::is_white_space(#[trigger] s[k]),
        j > 0 ==> !text::is_white_space(s[j - 1]),
    decreases s.len(),
{
    if s.len() > 0 && text::is_white_space(s.last()) {
        let init = s.drop_last();
        let j = lemma_trimmed_end(init);
        assert(init.take(j) =~= s.take(j));
        assert forall|k: int| j <= k < s.len() implies text::is_white_space(#[trigger] s[k]) by {
            if k < init.len() {
                assert(s[k] == init[k]);
            }
        }
        j
    } else {
        assert(s.take(s.len() as int) =~= s);
        s.len() as int
    }
}

/// The stretch of `s` that trimming leaves.
proof fn lemma_trimmed(s: Seq<char>) -> (stretch: (int, int))
    ensures
        0 <= stretch.0 <= stretch.1 <= s.len(),
        text::trimmed(s) == s.subrange(stretch.0, stretch.1),
        forall|k: int|
            0 <= k < stretch.0 || stretch.1 <= k < s.len() ==> text::is_white_space(
                #[trigger] s[k],
            ),
        stretch.0 < stretch.1 ==> !text::is_white_space(s[stretch.0]) && !text::is_white_space(
            s[stretch.1 - 1],
        ),
{
    let i = lemma_trimmed_start(s);
    let rest = s.skip(i);
    let n = lemma_trimmed_end(rest);
    let j = i + n;
    assert(rest.take(n) =~= s.subrange(i, j));
    assert forall|k: int| 0 <= k < i || j <= k < s.len() implies text::is_white_space(
        #[trigger] s[k],
    ) by {
        if k >= j {
            assert(s[k] == rest[k - i]);
        }
    }
    if n > 0 {
        assert(rest[n - 1] == s[j - 1]);
    }
    (i, j)
}

/// Turning backslashes into slashes turns every one of them, and leaves every other character in
/// its place.
pub proof fn law_every_backslash_becomes_a_slash(s: &str, r: String, i: int)
    requires
        call_ensures(text::with_forward_slashes, (s,), r),
    ensures
        r@.len() == s@.len(),
        0 <= i < s@.len() && s@[i] == '\\' ==> r@[i] == '/',
        0 <= i < s@.len() && s@[i] != '\\' ==> r@[i] == s@[i],
{
}

/// Texts sort as in a dictionary, whatever their lengths: where the two first differ, the one that
/// sorts before has ended or has the character with the smaller code point.
pub proof fn law_texts_sort_as_in_a_dictionary(a: &str, b: &str, r: bool)
    requires
        call_ensures(text::sorts_before, (a, b), r),
    ensures
        r <==> exists|k: int|
            {
                &&& 0 <= k <= a@.len()
                &&& k < b@.len()
                &&& #[trigger] a@.take(k) == b@.take(k)
                &&& k == a@.len() || a@[k] < b@[k]
            },
{
    lemma_text_before(a@, b@);
}

proof fn lemma_text_before(a: Seq<char>, b: Seq<char>)
    ensures
        text::text_before(a, b) <==> exists|k: int|
            {
                &&& 0 <= k <= a.len()
                &&& k < b.len()
                &&& #[trigger] a.take(k) == b.take(k)
                &&& k == a.len() || a[k] < b[k]
            },
    decreases a.len(),
{
    let differs_at = |a: Seq<char>, b: Seq<char>, k: int|
        {
            &&& 0 <= k <= a.len()
            &&& k < b.len()
            &&& a.take(k) == b.take(k)
            &&& k == a.len() || a[k] < b[k]
        };
    if b.len() > 0 {
        assert(a.take(0) =~= b.take(0));
        if a.len() > 0 && a[0] == b[0] {
            let x = a.drop_first();
            let y = b.drop_first();
            lemma_text_before(x, y);
            assert forall|k: int| 0 <= k <= x.len() && k < y.len() implies (#[trigger] x.take(k)
                == y.take(k) <==> a.take(k + 1) == b.take(k + 1)) by {
                assert(a.take(k + 1) =~= seq![a[0]] + x.take(k));
                assert(b.take(k + 1) =~= seq![b[0]] + y.take(k));
                assert(x.take(k) =~= a.take(k + 1).drop_first());
                assert(y.take(k) =~= b.take(k + 1).drop_first());
            }
            if text::text_before(x, y) {
                let k = choose|k: int|
                    #![trigger x.take(k)]
                    differs_at(x, y, k);
                assert(a.take(k + 1) == b.take(k + 1));
            }
            if exists|k: int| #![trigger a.take(k)] differs_at(a, b, k) {
                let k = choose|k: int| #![trigger a.take(k)] differs_at(a, b, k);
                assert(k > 0);
                assert(x.take(k - 1) == y.take(k - 1));
            }
        } else if a.len() > 0 {
            assert forall|k: int| 0 < k <= a.len() && k < b.len() implies #[trigger] a.take(k)
                != b.take(k) by {
                assert(a.take(k)[0] != b.take(k)[0]);
            }
        }
    }
}

/// Appending a number below ten appends one digit, and appending a larger one appends what is
/// appended for its tenth, and then the digit for the rest.
pub proof fn law_a_number_is_written_digit_by_digit(
    s: &mut String,
    n: u32,
    tenth: &mut String,
)
    requires
        call_ensures(text::push_decimal, (s, n), ()),
        call_ensures(text::push_decimal, (tenth, n / 10), ()),
        old(s)@ == old(tenth)@,
    ensures
        n < 10 ==> final(s)@ == old(s)@.push((48 + n) as char),
        n >= 10 ==> final(s)@ == final(tenth)@.push((48 + n % 10) as char),
{
    if n < 10 {
        assert(final(s)@ =~= old(s)@.push((48 + n) as char));
    } else {
        assert(final(s)@ =~= final(tenth)@.push((48 + n % 10) as char));
    }
}

/// The number that decimal digits write.
pub open spec fn number(digits: Seq<char>) -> int
    decreases digits.len(),
{
    if digits.len() == 0 {
        0
    } else {
        10 * number(digits.drop_last()) + (digits.last() as int - '0' as int)
    }
}

/// Appending a number leaves the text before it alone; what stands behind that are decimal digits,
/// at least one, the first of several not a zero, and they read as the number.
pub proof fn law_appended_digits_read_as_the_number(s: &mut String, n: u32)
    requires
        call_ensures(text::push_decimal, (s, n), ()),
    ensures
        ({
            let digits = final(s)@.skip(old(s)@.len() as int);
            &&& final(s)@ == old(s)@ + digits
            &&& digits.len() > 0
            &&& forall|i: int| 0 <= i < digits.len() ==> '0' <= #[trigger] digits[i] <= '9'
            &&& digits.len() > 1 ==> digits[0] != '0'
            &&& number(digits) == n
        }),
{
    let digits = text::decimal(n as nat);
    assert(final(s)@.skip(old(s)@.len() as int) =~= digits);
    lemma_decimal(n as nat);
}

proof fn lemma_decimal(n: nat)
    ensures
        ({
            let digits = text::decimal(n);
            &&& digits.len() > 0
            &&& forall|i: int| 0 <= i < digits.len() ==> '0' <= #[trigger] digits[i] <= '9'
            &&& digits.len() > 1 ==> digits[0] != '0'
            &&& number(digits) == n
        }),
        n > 0 ==> text::decimal(n)[0] != '0',
    decreases n,
{
    let digits = text::decimal(n);
    if n < 10 {
        assert(digits.drop_last() =~= Seq::<char>::empty());
        assert(number(Seq::<char>::empty()) == 0);
        assert(digits.last() as int == 48 + n);
    } else {
        lemma_decimal(n / 10);
        assert(digits.drop_last() =~= text::decimal(n / 10));
        assert(digits.last() as int == 48 + n % 10);
        assert forall|i: int| 0 <= i < digits.len() implies '0' <= #[trigger] digits[i] <= '9' by {
            if i < digits.len() - 1 {
                assert(digits[i] == text::decimal(n / 10)[i]);
            }
        }
        assert(digits[0] == text::decimal(n / 10)[0]);
    }
}

} // verus!
