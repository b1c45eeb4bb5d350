//! Text helpers: decimal numbers, searching, and the pieces of a URL.

use vstd::prelude::*;
use vstd::string::*;

verus! {

broadcast use vstd::string::group_string_axioms;

/// The decimal digit `d` as a character.
pub open spec fn digit_char(d: nat) -> char {
    ('0' as u32 + d) as char
}

/// The decimal digits of `n`, most significant first, with no leading zero.
pub open spec fn decimal(n: nat) -> Seq<char>
    decreases n,
{
    if n < 10 {
        seq![digit_char(n)]
    } else {
        decimal(n / 10).push(digit_char(n % 10))
    }
}

/// The decimal digits of `n`, behind a minus sign where `n` is negative.
pub open spec fn decimal_int(n: int) -> Seq<char> {
    if n < 0 {
        seq!['-'] + decimal((-n) as nat)
    } else {
        decimal(n as nat)
    }
}

fn digit_str(d: u64) -> (r: &'static str)
    requires
        d < 10,
    ensures
        r@ == seq![digit_char(d as nat)],
{
    proof {
        reveal_strlit("0");
        reveal_strlit("1");
        reveal_strlit("2");
        reveal_strlit("3");
        reveal_strlit("4");
        reveal_strlit("5");
        reveal_strlit("6");
        reveal_strlit("7");
        reveal_strlit("8");
        reveal_strlit("9");
    }
    let r: &'static str = match d {
        0 => "0",
        1 => "1",
        2 => "2",
        3 => "3",
        4 => "4",
        5 => "5",
        6 => "6",
        7 => "7",
        8 => "8",
        _ => "9",
    };
    assert(r@ =~= seq![digit_char(d as nat)]);
    r
}

/// Writes an unsigned number in decimal.
pub fn decimal_u64(n: u64) -> (r: String)
    ensures
        r@ == decimal(n as nat),
    decreases n,
{
    if n < 10 {
        digit_str(n).to_string()
    } else {
        let mut r = decimal_u64(n / 10);
        r.append(digit_str(n % 10));
        assert(r@ =~= decimal(n as nat));
        r
    }
}

/// Writes a signed number in decimal.
pub fn decimal_i64(n: i64) -> (r: String)
    ensures
        r@ == decimal_int(n as int),
{
    if n < 0 {
        proof {
            reveal_strlit("-");
        }
        let magnitude: u64 = if n == i64::MIN {
            9223372036854775808u64
        } else {
            (-n) as u64
        };
        let mut r = "-".to_string();
        assert(r@ =~= seq!['-']);
        r.append(decimal_u64(magnitude).as_str());
        r
    } else {
        decimal_u64(n as u64)
    }
}

/// Whether two texts are the same.
pub fn same_text(a: &str, b: &str) -> (r: bool)
    ensures
        r == (a@ == b@),
{
    let a = a.to_string();
    let b = b.to_string();
    a == b
}

/// A copy of a text that may not be there.
pub fn copied(text: &Option<String>) -> (r: Option<String>)
    ensures
        r.deep_view() == text.deep_view(),
{
    match text {
        Some(text) => Some(text.clone()),
        None => None,
    }
}

/// One text behind another.
pub fn joined(a: &str, b: &str) -> (r: String)
    ensures
        r@ == a@ + b@,
{
    let mut r = a.to_string();
    r.append(b);
    r
}

/// The characters of a text.
pub fn chars_of(s: &str) -> (r: Vec<char>)
    ensures
        r@ == s@,
{
    let mut r: Vec<char> = Vec::new();
    for c in it: s.chars()
        invariant
            it.seq() == s@,
            r@ == it.seq().take(it.index()),
    {
        r.push(c);
        assert(it.seq().take(it.index() + 1) =~= it.seq().take(it.index()).push(c));
    }
    assert(s@.take(s@.len() as int) =~= s@);
    r
}

/// Whether `needle` stands in `haystack` at position `at`.
pub open spec fn stands_at(haystack: Seq<char>, needle: Seq<char>, at: int) -> bool {
    &&& 0 <= at
    &&& at + needle.len() <= haystack.len()
    &&& haystack.subrange(at, at + needle.len()) == needle
}

/// Whether `needle` stands somewhere in `haystack`.
pub open spec fn contains_text(haystack: Seq<char>, needle: Seq<char>) -> bool {
    exists|at: int| stands_at(haystack, needle, at)
}

fn matches_at(haystack: &Vec<char>, needle: &Vec<char>, at: usize) -> (r: bool)
    requires
        at + needle@.len() <= haystack@.len(),
    ensures
        r == stands_at(haystack@, needle@, at as int),
{
    let n: usize = needle.len();
    let total: usize = haystack.len();
    let mut k: usize = 0;
    while k < n
        invariant
            n == needle@.len(),
            total == haystack@.len(),
            k <= n,
            at + n <= total,
            forall|j: int| 0 <= j < k ==> haystack@[at + j] == needle@[j],
        decreases n - k,
    {
        if haystack[at + k] != needle[k] {
            assert(haystack@.subrange(at as int, at + n)[k as int] != needle@[k as int]);
            return false;
        }
        k += 1;
    }
    assert(haystack@.subrange(at as int, at + n) =~= needle@);
    true
}

/// Looks for `needle` in `haystack`.
pub fn has_text(haystack: &str, needle: &str) -> (r: bool)
    ensures
        r == contains_text(haystack@, needle@),
{
    let h = chars_of(haystack);
    let n = chars_of(needle);
    if n.len() > h.len() {
        return false;
    }
    let last: usize = h.len() - n.len();
    let mut at: usize = 0;
    while at <= last
        invariant_except_break
            at <= last,
            forall|j: int| 0 <= j < at ==> !stands_at(h@, n@, j),
        invariant
            h@ == haystack@,
            n@ == needle@,
            last + n@.len() == h@.len(),
        ensures
            forall|j: int| 0 <= j <= last ==> !stands_at(h@, n@, j),
        decreases last + 1 - at,
    {
        if matches_at(&h, &n, at) {
            return true;
        }
        if at == last {
            break;
        }
        at += 1;
    }
    false
}

/// What follows the last `/` of a text: the whole text where it holds none.
pub open spec fn last_segment(s: Seq<char>) -> Seq<char>
    decreases s.len(),
{
    if s.len() == 0 || s.last() == '/' {
        Seq::empty()
    } else {
        last_segment(s.drop_last()).push(s.last())
    }
}

proof fn lemma_last_segment_suffix(s: Seq<char>, k: int)
    requires
        0 <= k <= s.len(),
        k == 0 || s[k - 1] == '/',
        forall|j: int| k <= j < s.len() ==> s[j] != '/',
    ensures
        last_segment(s) == s.subrange(k, s.len() as int),
    decreases s.len(),
{
    if k == s.len() {
        assert(s.subrange(k, s.len() as int) =~= Seq::empty());
    } else {
        lemma_last_segment_suffix(s.drop_last(), k);
        assert(s.drop_last().subrange(k, s.len() - 1).push(s.last()) =~= s.subrange(
            k,
            s.len() as int,
        ));
    }
}

/// Cuts the last segment out of a URL.
pub fn last_segment_of(s: &str) -> (r: String)
    ensures
        r@ == last_segment(s@),
{
    let chars = chars_of(s);
    let n: usize = chars.len();
    let mut k: usize = n;
    while k > 0 && chars[k - 1] != '/'
        invariant
            k <= n == chars@.len(),
            forall|j: int| k <= j < n ==> chars@[j] != '/',
        decreases k,
    {
        k -= 1;
    }
    proof {
        lemma_last_segment_suffix(s@, k as int);
    }
    s.substring_char(k, n).to_string()
}

/// The characters that count as white space.
pub open spec fn is_white_space(c: char) -> bool {
    ||| '\u{9}' <= c <= '\u{d}'
    ||| c == ' '
    ||| c == '\u{85}'
    ||| c == '\u{a0}'
    ||| c == '\u{1680}'
    ||| '\u{2000}' <= c <= '\u{200a}'
    ||| c == '\u{2028}'
    ||| c == '\u{2029}'
    ||| c == '\u{202f}'
    ||| c == '\u{205f}'
    ||| c == '\u{3000}'
}

/// Tells white space from other characters.
pub fn white_space(c: char) -> (r: bool)
    ensures
        r == is_white_space(c),
{
    ('\u{9}' <= c && c <= '\u{d}') || c == ' ' || c == '\u{85}' || c == '\u{a0}' || c == '\u{1680}'
        || ('\u{2000}' <= c && c <= '\u{200a}') || c == '\u{2028}' || c == '\u{2029}' || c
        == '\u{202f}' || c == '\u{205f}' || c == '\u{3000}'
}

/// Whether a text holds nothing but white space.
pub open spec fn is_blank(s: Seq<char>) -> bool {
    forall|i: int| 0 <= i < s.len() ==> is_white_space(#[trigger] s[i])
}

/// Tells whether a line holds nothing but white space.
pub fn blank(s: &str) -> (r: bool)
    ensures
        r == is_blank(s@),
{
    let chars = chars_of(s);
    let mut i: usize = 0;
    while i < chars.len()
        invariant
            i <= chars@.len(),
            chars@ == s@,
            forall|j: int| 0 <= j < i ==> is_white_space(#[trigger] s@[j]),
        decreases chars@.len() - i,
    {
        if !white_space(chars[i]) {
            assert(!is_white_space(s@[i as int]));
            return false;
        }
        i += 1;
    }
    true
}

/// The number that decimal digits stand for.
pub open spec fn digits_value(digits: Seq<char>) -> int
    decreases digits.len(),
{
    if digits.len() == 0 {
        0
    } else {
        10 * digits_value(digits.drop_last()) + (digits.last() as int - '0' as int)
    }
}

/// A number in decimal can be read back: its digits stand for the number. They are digits alone,
/// and the first of several is not zero, so there is no other way to write it.
pub proof fn a_number_is_read_back(n: nat)
    ensures
        decimal(n).len() > 0,
        digits_value(decimal(n)) == n,
        forall|i: int| 0 <= i < decimal(n).len() ==> '0' <= #[trigger] decimal(n)[i] <= '9',
        decimal(n).len() > 1 ==> decimal(n)[0] != '0',
    decreases n,
{
    if n < 10 {
        assert(digits_value(decimal(n).drop_last()) == 0);
    } else {
        a_number_is_read_back(n / 10);
        let before = decimal(n / 10);
        assert(decimal(n).drop_last() =~= before);
        if before.len() == 1 {
            assert(digits_value(before.drop_last()) == 0);
            assert(before[0] as int - '0' as int == n / 10);
        }
    }
}

/// A negative number is written as a minus sign and then as the number without its sign; any other
/// is written without a sign.
pub proof fn a_sign_stands_in_front(n: int)
    ensures
        n >= 0 ==> digits_value(decimal_int(n)) == n && decimal_int(n)[0] != '-',
        n < 0 ==> {
            &&& decimal_int(n)[0] == '-'
            &&& decimal_int(n).drop_first() == decimal_int(-n)
            &&& digits_value(decimal_int(n).drop_first()) == -n
        },
{
    if n >= 0 {
        a_number_is_read_back(n as nat);
    } else {
        a_number_is_read_back((-n) as nat);
        assert(decimal_int(n).drop_first() =~= decimal((-n) as nat));
    }
}

/// A text stands in another exactly where the other is something, then the text, then something.
pub proof fn a_text_stands_between_others(front: Seq<char>, needle: Seq<char>, back: Seq<char>)
    ensures
        contains_text(front + needle + back, needle),
        forall|haystack: Seq<char>| #[trigger]
            contains_text(haystack, needle) ==> exists|a: Seq<char>, b: Seq<char>|
                haystack == #[trigger] (a + needle + b),
{
    let all = front + needle + back;
    let at = front.len() as int;
    assert(all.subrange(at, at + needle.len()) =~= needle);
    assert(stands_at(all, needle, at));
    assert forall|haystack: Seq<char>| #[trigger] contains_text(haystack, needle) implies exists|
        a: Seq<char>,
        b: Seq<char>,
    |
        haystack == #[trigger] (a + needle + b) by {
        let at = choose|at: int| stands_at(haystack, needle, at);
        let a = haystack.take(at);
        let b = haystack.skip(at + needle.len());
        assert(haystack =~= a + needle + b) by {
            assert forall|i: int| 0 <= i < haystack.len() implies haystack[i] == (a + needle + b)[i] by {
                if at <= i < at + needle.len() {
                    assert(haystack.subrange(at, at + needle.len())[i - at] == needle[i - at]);
                }
            }
        }
    }
}

/// The last segment of a text is what stands behind its last slash, and the whole text where there
/// is no slash.
pub proof fn the_last_segment_follows_the_last_slash(front: Seq<char>, segment: Seq<char>)
    requires
        !segment.contains('/'),
    ensures
        last_segment(segment) == segment,
        last_segment(front.push('/') + segment) == segment,
{
    assert forall|j: int| 0 <= j < segment.len() implies segment[j] != '/' by {
        if segment[j] == '/' {
            assert(segment.contains('/'));
        }
    }
    lemma_last_segment_suffix(segment, 0);
    assert(segment.subrange(0, segment.len() as int) =~= segment);
    let all = front.push('/') + segment;
    assert forall|j: int| front.len() + 1 <= j < all.len() implies all[j] != '/' by {
        assert(all[j] == segment[j - front.len() - 1]);
    }
    let at = front.len() as int + 1;
    lemma_last_segment_suffix(all, at);
    assert(all.subrange(at, all.len() as int) =~= segment);
}

/// White space is the twenty-five characters that Unicode calls so: no character that can be seen
/// is among them.
pub proof fn white_space_cannot_be_seen(c: char)
    ensures
        '!' <= c <= '~' ==> !is_white_space(c),
        c == ' ' || c == '\t' || c == '\n' || c == '\r' ==> is_white_space(c),
        is_white_space(c) <==> {
            let code = c as int;
            ||| 9 <= code <= 13
            ||| 8192 <= code <= 8202
            ||| code == 32
            ||| code == 133
            ||| code == 160
            ||| code == 5760
            ||| code == 8232
            ||| code == 8233
            ||| code == 8239
            ||| code == 8287
            ||| code == 12288
        },
{
}

/// A text is blank where each part of it is: the empty text is, and one character decides for
/// itself.
pub proof fn blank_texts_have_blank_parts(a: Seq<char>, b: Seq<char>, c: char)
    ensures
        is_blank(a + b) <==> is_blank(a) && is_blank(b),
        is_blank(Seq::<char>::empty()),
        is_blank(seq![c]) <==> is_white_space(c),
{
    let all = a + b;
    if is_blank(all) {
        assert forall|i: int| 0 <= i < a.len() implies is_white_space(#[trigger] a[i]) by {
            assert(is_white_space(all[i]));
        }
        assert forall|i: int| 0 <= i < b.len() implies is_white_space(#[trigger] b[i]) by {
            assert(is_white_space(all[a.len() + i]));
        }
    }
    if is_blank(seq![c]) {
        assert(is_white_space(seq![c][0]));
    }
}

/// What stands in a text stands in a longer one too.
pub proof fn a_longer_text_holds_as_much(text: Seq<char>, more: Seq<char>, needle: Seq<char>)
    requires
        contains_text(text, needle),
    ensures
        contains_text(more + text, needle),
        contains_text(text + more, needle),
{
    let at = choose|at: int| stands_at(text, needle, at);
    let found = text.subrange(at, at + needle.len());
    assert((text + more).subrange(at, at + needle.len()) =~= found);
    assert(stands_at(text + more, needle, at));
    let behind = at + more.len();
    assert((more + text).subrange(behind, behind + needle.len()) =~= found);
    assert(stands_at(more + text, needle, behind));
}

} // verus!
