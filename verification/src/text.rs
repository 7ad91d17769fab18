//! Plain text: comparison, trimming, decimal numbers.

use vstd::prelude::*;
use vstd::string::*;
use vstd::utf8::encode_utf8;
use vstd::utf8::encode_utf8_decode_utf8;

verus! {

/// Whether a character has the Unicode property `White_Space`.
pub open spec fn is_white_space(c: char) -> bool {
    let n = c as int;
    ||| 0x09 <= n <= 0x0d
    ||| n == 0x20
    ||| n == 0x85
    ||| n == 0xa0
    ||| n == 0x1680
    ||| 0x2000 <= n <= 0x200a
    ||| n == 0x2028
    ||| n == 0x2029
    ||| n == 0x202f
    ||| n == 0x205f
    ||| n == 0x3000
}

/// `s` without its leading white space.
pub open spec fn trim_start_of(s: Seq<char>) -> Seq<char>
    decreases s.len(),
{
    if s.len() > 0 && is_white_space(s[0]) {
        trim_start_of(s.drop_first())
    } else {
        s
    }
}

/// `s` without its trailing white space.
pub open spec fn trim_end_of(s: Seq<char>) -> Seq<char>
    decreases s.len(),
{
    if s.len() > 0 && is_white_space(s.last()) {
        trim_end_of(s.drop_last())
    } else {
        s
    }
}

/// `s` without the white space at its two ends.
pub open spec fn trimmed(s: Seq<char>) -> Seq<char> {
    trim_end_of(trim_start_of(s))
}

/// The decimal digits of `n`, most significant first.
pub open spec fn decimal(n: nat) -> Seq<char>
    decreases n,
{
    if n < 10 {
        seq![(('0' as int) + n) as char]
    } else {
        decimal(n / 10) + decimal(n % 10)
    }
}

/// The characters of a string, if there is one.
pub open spec fn text_of(s: Option<&str>) -> Option<Seq<char>> {
    match s {
        Some(s) => Some(s@),
        None => None,
    }
}

/// The characters of each string.
pub open spec fn texts(strings: Seq<String>) -> Seq<Seq<char>> {
    Seq::new(strings.len(), |i: int| strings[i]@)
}

/// Tests a character for white space.
pub fn is_white(c: char) -> (b: bool)
    ensures
        b == is_white_space(c),
{
    let n: u32 = c as u32;
    (0x09 <= n && n <= 0x0d) || n == 0x20 || n == 0x85 || n == 0xa0 || n == 0x1680 || (0x2000 <= n
        && n <= 0x200a) || n == 0x2028 || n == 0x2029 || n == 0x202f || n == 0x205f || n == 0x3000
}

/// The characters of a string, in order.
pub fn to_chars(s: &str) -> (v: Vec<char>)
    ensures
        v@ == s@,
{
    let mut v: Vec<char> = Vec::new();
    for c in it: s.chars()
        invariant
            it.seq() == s@,
            v@ == s@.take(it.index()),
    {
        v.push(c);
    }
    v
}

proof fn lemma_trim_start(s: Seq<char>, i: int)
    requires
        0 <= i <= s.len(),
        forall|j: int| 0 <= j < i ==> is_white_space(s[j]),
        i < s.len() ==> !is_white_space(s[i]),
    ensures
        trim_start_of(s) == s.skip(i),
    decreases i,
{
    if i > 0 {
        let rest = s.drop_first();
        assert forall|j: int| 0 <= j < i - 1 implies is_white_space(rest[j]) by {
            assert(rest[j] == s[j + 1]);
        }
        lemma_trim_start(rest, i - 1);
        assert(rest.skip(i - 1) =~= s.skip(i));
    } else {
        assert(s.skip(0) =~= s);
    }
}

proof fn lemma_trim_end(s: Seq<char>, n: int)
    requires
        0 <= n <= s.len(),
        forall|j: int| n <= j < s.len() ==> is_white_space(s[j]),
        n > 0 ==> !is_white_space(s[n - 1]),
    ensures
        trim_end_of(s) == s.take(n),
    decreases s.len(),
{
    if n < s.len() {
        lemma_trim_end(s.drop_last(), n);
        assert(s.drop_last().take(n) =~= s.take(n));
    } else {
        assert(s.take(n) =~= s);
    }
}

/// `s` without the white space at its two ends.
pub fn trim(s: &str) -> (t: &str)
    ensures
        t@ == trimmed(s@),
{
    let chars = to_chars(s);
    let len: usize = chars.len();
    let mut start: usize = 0;
    while start < len && is_white(chars[start])
        invariant
            start <= len,
            len == chars@.len(),
            forall|j: int| 0 <= j < start ==> is_white_space(chars@[j]),
        decreases len - start,
    {
        start += 1;
    }
    let mut end: usize = len;
    while end > start && is_white(chars[end - 1])
        invariant
            start <= end <= len,
            len == chars@.len(),
            forall|j: int| end <= j < len ==> is_white_space(chars@[j]),
        decreases end,
    {
        end -= 1;
    }
    proof {
        let whole = chars@;
        let tail = whole.skip(start as int);
        lemma_trim_start(whole, start as int);
        assert forall|j: int| end - start <= j < tail.len() implies is_white_space(tail[j]) by {
            assert(tail[j] == whole[j + start]);
        }
        lemma_trim_end(tail, end - start);
        assert(tail.take(end - start) =~= whole.subrange(start as int, end as int));
    }
    s.substring_char(start, end)
}

/// Trimming leaves no white space at either end, and trims nothing the second time.
pub proof fn law_trim_settles(s: Seq<char>)
    ensures
        trimmed(trimmed(s)) == trimmed(s),
        trimmed(s).len() > 0 ==> !is_white_space(trimmed(s)[0]) && !is_white_space(
            trimmed(s).last(),
        ),
{
    lemma_trim_start_ends(s);
    lemma_trim_end_ends(trim_start_of(s));
    let t = trimmed(s);
    if t.len() > 0 {
        assert(t[0] == trim_start_of(s)[0]);
    }
    assert(trim_start_of(t) == t);
}

proof fn lemma_trim_start_ends(s: Seq<char>)
    ensures
        trim_start_of(s).len() > 0 ==> !is_white_space(trim_start_of(s)[0]),
    decreases s.len(),
{
    if s.len() > 0 && is_white_space(s[0]) {
        lemma_trim_start_ends(s.drop_first());
    }
}

proof fn lemma_trim_end_ends(s: Seq<char>)
    ensures
        trim_end_of(s).len() <= s.len(),
        trim_end_of(s) == s.take(trim_end_of(s).len() as int),
        trim_end_of(s).len() > 0 ==> !is_white_space(trim_end_of(s).last()),
    decreases s.len(),
{
    if s.len() > 0 && is_white_space(s.last()) {
        lemma_trim_end_ends(s.drop_last());
        let t = trim_end_of(s);
        assert(s.drop_last().take(t.len() as int) =~= s.take(t.len() as int));
    } else {
        assert(s.take(s.len() as int) =~= s);
    }
}

/// Whether two strings hold the same characters.
pub fn same_text(a: &str, b: &str) -> (same: bool)
    ensures
        same == (a@ == b@),
{
    proof {
        encode_utf8_decode_utf8(a@);
        encode_utf8_decode_utf8(b@);
    }
    let x = a.as_bytes();
    let y = b.as_bytes();
    if x.len() != y.len() {
        return false;
    }
    let n: usize = x.len();
    let mut i: usize = 0;
    while i < n
        invariant
            i <= n,
            n == x@.len(),
            n == y@.len(),
            x@ == encode_utf8(a@),
            y@ == encode_utf8(b@),
            forall|j: int| 0 <= j < i ==> x@[j] == y@[j],
        decreases n - i,
    {
        if x[i] != y[i] {
            return false;
        }
        i += 1;
    }
    assert(x@ =~= y@);
    true
}

fn digit(n: u128) -> (d: &'static str)
    requires
        n < 10,
    ensures
        d@ == decimal(n as nat),
{
    proof {
        reveal_strlit("0");
        reveal_strlit("1");
        reveal_strlit("2");
        reveal_strlit("3");
        reveal_strlit("4");
        reveal_strlit("5");
        reveal_strlit("6");
        reveal_strlit("7");
        reveal_strlit("8");
        reveal_strlit("9");
    }
    if n == 0 {
        "0"
    } else if n == 1 {
        "1"
    } else if n == 2 {
        "2"
    } else if n == 3 {
        "3"
    } else if n == 4 {
        "4"
    } else if n == 5 {
        "5"
    } else if n == 6 {
        "6"
    } else if n == 7 {
        "7"
    } else if n == 8 {
        "8"
    } else {
        "9"
    }
}

/// `n` written in decimal.
pub fn decimal_text(n: u128) -> (s: String)
    ensures
        s@ == decimal(n as nat),
    decreases n,
{
    if n < 10 {
        digit(n).to_owned()
    } else {
        let mut s = decimal_text(n / 10);
        s.append(digit(n % 10));
        s
    }
}

/// The number that decimal digits stand for.
pub open spec fn numeral_value(s: Seq<char>) -> int
    decreases s.len(),
{
    if s.len() == 0 {
        0
    } else {
        10 * numeral_value(s.drop_last()) + (s.last() as int - '0' as int)
    }
}

/// Whether `s` is how `n` is written: decimal digits of that value, without a needless zero
/// in front.
pub open spec fn is_numeral_of(s: Seq<char>, n: int) -> bool {
    &&& s.len() > 0
    &&& forall|i: int| 0 <= i < s.len() ==> '0' <= #[trigger] s[i] <= '9'
    &&& s.len() > 1 ==> s[0] != '0'
    &&& numeral_value(s) == n
}

/// A number is written as its numeral.
pub proof fn law_decimal_is_the_numeral(n: nat)
    ensures
        is_numeral_of(decimal(n), n as int),
    decreases n,
{
    let s = decimal(n);
    if n < 10 {
        assert(s.drop_last() =~= Seq::<char>::empty());
        assert(numeral_value(s.drop_last()) == 0);
    } else {
        let head = decimal(n / 10);
        let tail = decimal(n % 10);
        law_decimal_is_the_numeral(n / 10);
        assert(tail.len() == 1);
        assert(s =~= head.push(tail[0]));
        assert(s.drop_last() =~= head);
        assert(s[0] == head[0]);
        if head.len() == 1 && head[0] == '0' {
            assert(head.drop_last() =~= Seq::<char>::empty());
            assert(numeral_value(head.drop_last()) == 0);
        }
    }
}

/// Whether `part` is what stands in `s` between these positions, with nothing but white
/// space outside them and none just inside them.
pub open spec fn is_trimmed_at(s: Seq<char>, part: Seq<char>, start: int, end: int) -> bool {
    &&& 0 <= start <= end <= s.len()
    &&& part == s.subrange(start, end)
    &&& forall|i: int| 0 <= i < start || end <= i < s.len() ==> is_white_space(#[trigger] s[i])
    &&& start < end ==> !is_white_space(s[start]) && !is_white_space(s[end - 1])
}

/// Trimming takes away the white space at the two ends and nothing else.
pub proof fn law_trim_takes_white_space_only(s: Seq<char>)
    ensures
        exists|start: int, end: int| is_trimmed_at(s, trimmed(s), start, end),
{
    let start = lemma_trim_start_skips(s);
    let tail = trim_start_of(s);
    let n = lemma_trim_end_takes(tail);
    law_trim_settles(s);
    assert(trimmed(s) =~= s.subrange(start, start + n));
    assert forall|i: int| 0 <= i < start || start + n <= i < s.len() implies is_white_space(
        #[trigger] s[i],
    ) by {
        if i >= start + n {
            assert(tail[i - start] == s[i]);
        }
    }
    if n > 0 {
        assert(trimmed(s)[0] == s[start]);
        assert(trimmed(s).last() == s[start + n - 1]);
    }
    assert(is_trimmed_at(s, trimmed(s), start, start + n));
}

proof fn lemma_trim_start_skips(s: Seq<char>) -> (n: int)
    ensures
        0 <= n <= s.len(),
        trim_start_of(s) == s.skip(n),
        forall|i: int| 0 <= i < n ==> is_white_space(#[trigger] s[i]),
    decreases s.len(),
{
    if s.len() > 0 && is_white_space(s[0]) {
        let rest = s.drop_first();
        let n = lemma_trim_start_skips(rest);
        assert(rest.skip(n) =~= s.skip(n + 1));
        assert forall|i: int| 0 <= i < n + 1 implies is_white_space(#[trigger] s[i]) by {
            if i > 0 {
                assert(rest[i - 1] == s[i]);
            }
        }
        n + 1
    } else {
        assert(s.skip(0) =~= s);
        0
    }
}

proof fn lemma_trim_end_takes(s: Seq<char>) -> (n: int)
    ensures
        0 <= n <= s.len(),
        trim_end_of(s) == s.take(n),
        forall|i: int| n <= i < s.len() ==> is_white_space(#[trigger] s[i]),
    decreases s.len(),
{
    if s.len() > 0 && is_white_space(s.last()) {
        let rest = s.drop_last();
        let n = lemma_trim_end_takes(rest);
        assert(rest.take(n) =~= s.take(n));
        assert forall|i: int| n <= i < s.len() implies is_white_space(#[trigger] s[i]) by {
            if i < s.len() - 1 {
                assert(rest[i] == s[i]);
            }
        }
        n
    } else {
        assert(s.take(s.len() as int) =~= s);
        s.len() as int
    }
}

/// Strings are seen as their characters, each at its place.
pub proof fn law_texts_keep_their_places(strings: Seq<String>, s: &str)
    ensures
        texts(strings).len() == strings.len(),
        forall|i: int| 0 <= i < strings.len() ==> #[trigger] texts(strings)[i] == strings[i]@,
        text_of(Some(s)) == Some(s@),
        text_of(None) is None,
{
}

/// Whatever [`trim`], [`decimal_text`] and [`same_text`] return: the text without the white
/// space at its ends, the numeral, and whether the characters are the same.
pub proof fn law_text_functions(s: &str, t: &str, other: &str, n: u128, written: String, same: bool)
    requires
        call_ensures(trim, (s,), t),
        call_ensures(decimal_text, (n,), written),
        call_ensures(same_text, (s, other), same),
    ensures
        exists|start: int, end: int| is_trimmed_at(s@, t@, start, end),
        is_numeral_of(written@, n as int),
        same <==> s@ == other@,
{
    law_trim_takes_white_space_only(s@);
    law_decimal_is_the_numeral(n as nat);
}

} // verus!
