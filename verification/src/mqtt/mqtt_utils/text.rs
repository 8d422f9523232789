//! Text handling on character sequences: Unicode white space, trimming,
//! splitting on a separator, equality, and decimal numbers.
use vstd::prelude::*;

verus! {

/// Whether `c` has the Unicode `White_Space` property.
pub open spec fn is_white_space(c: char) -> bool {
    let v = c as u32;
    (0x09 <= v <= 0x0D) || v == 0x20 || v == 0x85 || v == 0xA0 || v == 0x1680 || (0x2000 <= v
        <= 0x200A) || v == 0x2028 || v == 0x2029 || v == 0x202F || v == 0x205F || v == 0x3000
}

/// `s` without its leading white space.
pub open spec fn trim_start(s: Seq<char>) -> Seq<char>
    decreases s.len(),
{
    if s.len() > 0 && is_white_space(s[0]) {
        trim_start(s.drop_first())
    } else {
        s
    }
}

/// `s` without its trailing white space.
pub open spec fn trim_end(s: Seq<char>) -> Seq<char>
    decreases s.len(),
{
    if s.len() > 0 && is_white_space(s.last()) {
        trim_end(s.drop_last())
    } else {
        s
    }
}

/// `s` without leading and trailing white space.
pub open spec fn trim(s: Seq<char>) -> Seq<char> {
    trim_end(trim_start(s))
}

/// How many characters of `s` come before its first `sep`; the length of
/// `s` when it has none.
pub open spec fn sep_pos(s: Seq<char>, sep: char) -> nat
    decreases s.len(),
{
    if s.len() > 0 && s[0] != sep {
        1 + sep_pos(s.drop_first(), sep)
    } else {
        0
    }
}

/// The pieces of `s` between occurrences of `sep`, empty pieces included:
/// one more piece than there are separators.
pub open spec fn split_on(s: Seq<char>, sep: char) -> Seq<Seq<char>>
    decreases s.len(),
{
    let p = sep_pos(s, sep);
    if p >= s.len() {
        seq![s]
    } else {
        seq![s.take(p as int)] + split_on(s.skip((p + 1) as int), sep)
    }
}

/// The value of the decimal digit `c`.
pub open spec fn digit_value(c: char) -> nat {
    ((c as u32) - 48) as nat
}

/// Whether `c` is one of the ASCII digits `0` to `9`.
pub open spec fn is_digit(c: char) -> bool {
    48 <= (c as u32) <= 57
}

/// Whether every character of `s` is an ASCII digit.
pub open spec fn all_digits(s: Seq<char>) -> bool {
    forall|i: int| 0 <= i < s.len() ==> #[trigger] is_digit(s[i])
}

/// The number that the digits `s` write in base 10.
pub open spec fn decimal_value(s: Seq<char>) -> nat
    decreases s.len(),
{
    if s.len() == 0 {
        0
    } else {
        decimal_value(s.drop_last()) * 10 + digit_value(s.last())
    }
}

/// The digit character for `d`, below 10.
pub open spec fn digit_char(d: nat) -> char {
    (48 + d) as char
}

/// `n` written in base 10, without leading zeros (`0` for zero).
pub open spec fn decimal_text(n: nat) -> Seq<char>
    decreases n,
{
    if n < 10 {
        seq![digit_char(n)]
    } else {
        decimal_text(n / 10).push(digit_char(n % 10))
    }
}

/// What reading `s` as a `u8` gives: an optional `+`, then one or more
/// decimal digits whose value is at most 255.
pub open spec fn parse_u8_text(s: Seq<char>) -> Option<u8> {
    let d = if s.len() > 0 && s[0] == '+' {
        s.drop_first()
    } else {
        s
    };
    if d.len() > 0 && all_digits(d) && decimal_value(d) <= 255 {
        Some(decimal_value(d) as u8)
    } else {
        None
    }
}

/// Whether `c` has the Unicode `White_Space` property.
pub fn char_is_white_space(c: char) -> (r: bool)
    ensures
        r == is_white_space(c),
{
    let v = c as u32;
    (0x09 <= v && v <= 0x0D) || v == 0x20 || v == 0x85 || v == 0xA0 || v == 0x1680 || (0x2000
        <= v && v <= 0x200A) || v == 0x2028 || v == 0x2029 || v == 0x202F || v == 0x205F || v
        == 0x3000
}

/// The characters of `s`.
pub fn chars_of(s: &str) -> (r: Vec<char>)
    ensures
        r@ == s@,
{
    let n = s.unicode_len();
    let mut r: Vec<char> = Vec::new();
    let mut i: usize = 0;
    while i < n
        invariant
            n == s@.len(),
            i <= n,
            r@ == s@.take(i as int),
        decreases n - i,
    {
        r.push(s.get_char(i));
        i = i + 1;
        assert(r@ =~= s@.take(i as int));
    }
    assert(s@.take(n as int) =~= s@);
    r
}

/// Whether two texts are the same characters.
pub fn str_equals(a: &str, b: &str) -> (r: bool)
    ensures
        r == (a@ == b@),
{
    let n = a.unicode_len();
    if n != b.unicode_len() {
        return false;
    }
    let mut i: usize = 0;
    while i < n
        invariant
            n == a@.len(),
            n == b@.len(),
            i <= n,
            forall|j: int| 0 <= j < i ==> a@[j] == b@[j],
        decreases n - i,
    {
        if a.get_char(i) != b.get_char(i) {
            return false;
        }
        i = i + 1;
    }
    assert(a@ =~= b@);
    true
}

proof fn lemma_trim_start_skip(s: Seq<char>, i: int)
    requires
        0 <= i <= s.len(),
        forall|j: int| 0 <= j < i ==> is_white_space(#[trigger] s[j]),
    ensures
        trim_start(s) == trim_start(s.skip(i)),
    decreases i,
{
    if i > 0 {
        assert(is_white_space(s[0]));
        let t = s.drop_first();
        assert forall|j: int| 0 <= j < i - 1 implies is_white_space(#[trigger] t[j]) by {
            assert(t[j] == s[j + 1]);
        }
        lemma_trim_start_skip(t, i - 1);
        assert(t.skip(i - 1) =~= s.skip(i));
    } else {
        assert(s.skip(0) =~= s);
    }
}

proof fn lemma_trim_end_take(s: Seq<char>, j: int)
    requires
        0 <= j <= s.len(),
        forall|k: int| j <= k < s.len() ==> is_white_space(#[trigger] s[k]),
    ensures
        trim_end(s) == trim_end(s.take(j)),
    decreases s.len() - j,
{
    if j < s.len() {
        assert(is_white_space(s.last()));
        let t = s.drop_last();
        assert forall|k: int| j <= k < t.len() implies is_white_space(#[trigger] t[k]) by {
            assert(t[k] == s[k]);
        }
        lemma_trim_end_take(t, j);
        assert(t.take(j) =~= s.take(j));
    } else {
        assert(s.take(j) =~= s);
    }
}

/// The bounds `(start, end)` of `s` without leading and trailing white space.
pub fn trim_bounds(s: &Vec<char>) -> (r: (usize, usize))
    ensures
        r.0 <= r.1 <= s@.len(),
        s@.subrange(r.0 as int, r.1 as int) == trim(s@),
{
    let n = s.len();
    let mut i: usize = 0;
    while i < n && char_is_white_space(s[i])
        invariant
            n == s@.len(),
            i <= n,
            forall|j: int| 0 <= j < i ==> is_white_space(#[trigger] s@[j]),
        decreases n - i,
    {
        i = i + 1;
    }
    proof {
        lemma_trim_start_skip(s@, i as int);
        if i < n {
            assert(s@.skip(i as int)[0] == s@[i as int]);
        }
    }
    let ghost t = s@.skip(i as int);
    assert(trim_start(s@) == t);
    let mut j: usize = n;
    while j > i && char_is_white_space(s[j - 1])
        invariant
            n == s@.len(),
            i <= j <= n,
            t == s@.skip(i as int),
            forall|k: int| j <= k < n ==> is_white_space(#[trigger] s@[k]),
        decreases j - i,
    {
        j = j - 1;
    }
    proof {
        assert forall|k: int| j - i <= k < t.len() implies is_white_space(#[trigger] t[k]) by {
            assert(t[k] == s@[k + i]);
        }
        lemma_trim_end_take(t, j - i);
        let u = t.take(j - i);
        if j > i {
            assert(u.last() == s@[j - 1]);
        }
        assert(u =~= s@.subrange(i as int, j as int));
    }
    (i, j)
}

proof fn lemma_sep_pos(s: Seq<char>, sep: char, k: int)
    requires
        0 <= k <= s.len(),
        forall|j: int| 0 <= j < k ==> #[trigger] s[j] != sep,
        k == s.len() || s[k] == sep,
    ensures
        sep_pos(s, sep) == k,
    decreases k,
{
    if k > 0 {
        let t = s.drop_first();
        assert forall|j: int| 0 <= j < k - 1 implies #[trigger] t[j] != sep by {
            assert(t[j] == s[j + 1]);
        }
        if k < s.len() {
            assert(t[k - 1] == s[k]);
        }
        lemma_sep_pos(t, sep, k - 1);
    }
}

/// The pieces of `s` that the bounds `r` delimit.
pub open spec fn pieces_of(s: Seq<char>, r: Seq<(usize, usize)>) -> Seq<Seq<char>> {
    r.map_values(|p: (usize, usize)| s.subrange(p.0 as int, p.1 as int))
}

/// The pieces of `s[start..end]` between occurrences of `sep`, as bounds
/// into `s`.
pub fn split_bounds(s: &Vec<char>, start: usize, end: usize, sep: char) -> (r: Vec<(usize, usize)>)
    requires
        start <= end <= s@.len(),
    ensures
        r@.len() == split_on(s@.subrange(start as int, end as int), sep).len(),
        forall|k: int|
            0 <= k < r@.len() ==> {
                &&& start <= (#[trigger] r@[k]).0 <= r@[k].1 <= end
                &&& s@.subrange(r@[k].0 as int, r@[k].1 as int) == split_on(
                    s@.subrange(start as int, end as int),
                    sep,
                )[k]
            },
{
    let ghost whole = s@.subrange(start as int, end as int);
    let mut r: Vec<(usize, usize)> = Vec::new();
    let mut piece: usize = start;
    let mut i: usize = start;
    while i < end
        invariant
            start <= piece <= i <= end <= s@.len(),
            whole == s@.subrange(start as int, end as int),
            forall|j: int| piece <= j < i ==> #[trigger] s@[j] != sep,
            forall|k: int| 0 <= k < r@.len() ==> start <= (#[trigger] r@[k]).0 <= r@[k].1 <= end,
            split_on(whole, sep) == pieces_of(s@, r@) + split_on(s@.subrange(piece as int, end as int), sep),
        decreases end - i,
    {
        if s[i] == sep {
            proof {
                let u = s@.subrange(piece as int, end as int);
                assert forall|j: int| 0 <= j < i - piece implies #[trigger] u[j] != sep by {
                    assert(u[j] == s@[j + piece]);
                }
                assert(u[i - piece] == s@[i as int]);
                lemma_sep_pos(u, sep, i - piece);
                assert(u.take(i - piece) =~= s@.subrange(piece as int, i as int));
                assert(u.skip(i - piece + 1) =~= s@.subrange(i + 1, end as int));
                assert(pieces_of(s@, r@.push((piece, i))) =~= pieces_of(s@, r@).push(
                    s@.subrange(piece as int, i as int),
                ));
                assert(pieces_of(s@, r@) + split_on(u, sep) =~= pieces_of(s@, r@).push(
                    s@.subrange(piece as int, i as int),
                ) + split_on(s@.subrange(i + 1, end as int), sep));
            }
            r.push((piece, i));
            piece = i + 1;
        }
        i = i + 1;
    }
    proof {
        let u = s@.subrange(piece as int, end as int);
        assert forall|j: int| 0 <= j < u.len() implies #[trigger] u[j] != sep by {
            assert(u[j] == s@[j + piece]);
        }
        lemma_sep_pos(u, sep, u.len() as int);
        assert(pieces_of(s@, r@.push((piece, end))) =~= pieces_of(s@, r@) + split_on(u, sep));
    }
    r.push((piece, end));
    proof {
        let sp = split_on(whole, sep);
        assert(sp =~= pieces_of(s@, r@));
        assert forall|k: int| 0 <= k < r@.len() implies s@.subrange(
            (#[trigger] r@[k]).0 as int,
            r@[k].1 as int,
        ) == sp[k] by {
            assert(pieces_of(s@, r@)[k] == s@.subrange(r@[k].0 as int, r@[k].1 as int));
        }
    }
    r
}

proof fn lemma_decimal_prefix(d: Seq<char>, k: int)
    requires
        0 <= k <= d.len(),
        all_digits(d),
    ensures
        decimal_value(d.take(k)) <= decimal_value(d),
    decreases d.len() - k,
{
    if k < d.len() {
        lemma_decimal_prefix(d, k + 1);
        assert(d.take(k + 1).drop_last() =~= d.take(k));
    } else {
        assert(d.take(k) =~= d);
    }
}

/// What reading `s[start..end]` as a `u8` gives: an optional `+`, then one
/// or more decimal digits whose value is at most 255.
pub fn parse_u8(s: &Vec<char>, start: usize, end: usize) -> (r: Option<u8>)
    requires
        start <= end <= s@.len(),
    ensures
        r == parse_u8_text(s@.subrange(start as int, end as int)),
{
    let ghost t = s@.subrange(start as int, end as int);
    let mut i: usize = start;
    if i < end && s[i] == '+' {
        i = i + 1;
    }
    let ghost d = s@.subrange(i as int, end as int);
    assert(d =~= if t.len() > 0 && t[0] == '+' {
        t.drop_first()
    } else {
        t
    });
    if i == end {
        return None;
    }
    let i0 = i;
    let mut acc: u16 = 0;
    while i < end
        invariant
            start <= i0 <= i <= end <= s@.len(),
            d == s@.subrange(i0 as int, end as int),
            t == s@.subrange(start as int, end as int),
            d == (if t.len() > 0 && t[0] == '+' {
                t.drop_first()
            } else {
                t
            }),
            d.len() > 0,
            acc <= 255,
            acc == decimal_value(d.take(i - i0)),
            all_digits(d.take(i - i0)),
        decreases end - i,
    {
        let c = s[i];
        let v = c as u32;
        assert(d[i - i0] == c);
        if v < 48 || v > 57 {
            assert(!is_digit(d[i - i0]));
            return None;
        }
        let ghost before = d.take(i - i0);
        acc = acc * 10 + (v - 48) as u16;
        i = i + 1;
        assert(d.take(i - i0).drop_last() =~= before);
        assert(d.take(i - i0).last() == c);
        if acc > 255 {
            proof {
                if all_digits(d) {
                    lemma_decimal_prefix(d, i - i0);
                }
            }
            return None;
        }
        assert(all_digits(d.take(i - i0))) by {
            assert forall|j: int| 0 <= j < i - i0 implies #[trigger] is_digit(d.take(i - i0)[j]) by {
                if j < i - i0 - 1 {
                    assert(d.take(i - i0)[j] == before[j]);
                }
            }
        }
    }
    assert(d.take(i - i0) =~= d);
    Some(acc as u8)
}

/// The one-character text of the digit `d`.
pub fn digit_str(d: u8) -> (r: &'static str)
    requires
        d < 10,
    ensures
        r@ == seq![digit_char(d as nat)],
{
    let digits = "0123456789";
    proof {
        reveal_strlit("0123456789");
    }
    let r = digits.substring_char(d as usize, (d + 1) as usize);
    assert(r@ =~= seq![digit_char(d as nat)]);
    r
}

/// Appends `n` written in base 10 to `out`.
pub fn push_decimal(out: &mut String, n: u8)
    ensures
        final(out)@ == old(out)@ + decimal_text(n as nat),
{
    proof {
        reveal_with_fuel(decimal_text, 3);
    }
    if n >= 100 {
        out.append(digit_str(n / 100));
    }
    if n >= 10 {
        out.append(digit_str((n / 10) % 10));
    }
    out.append(digit_str(n % 10));
    assert(n >= 100 ==> (n / 10) / 10 == n / 100 && n / 100 < 10);
    assert(n >= 10 ==> (n / 10) % 10 == (n / 10) % 10);
    if n >= 100 {
        assert(decimal_text(n as nat) =~= seq![
            digit_char((n / 100) as nat),
            digit_char(((n / 10) % 10) as nat),
            digit_char((n % 10) as nat),
        ]);
    } else if n >= 10 {
        assert(decimal_text(n as nat) =~= seq![digit_char((n / 10) as nat), digit_char((n % 10) as nat)]);
    }
}

/// A number written in base 10 reads back as that number.
pub proof fn lemma_decimal_text_value(n: nat)
    ensures
        all_digits(decimal_text(n)),
        decimal_text(n).len() > 0,
        decimal_value(decimal_text(n)) == n,
    decreases n,
{
    if n >= 10 {
        lemma_decimal_text_value(n / 10);
        let t = decimal_text(n / 10);
        let u = decimal_text(n);
        assert(u.drop_last() =~= t);
        assert forall|j: int| 0 <= j < u.len() implies #[trigger] is_digit(u[j]) by {
            if j < t.len() {
                assert(u[j] == t[j]);
            }
        }
    } else {
        let u = decimal_text(n);
        assert(u.drop_last() =~= Seq::<char>::empty());
        assert((digit_char(n) as u32) == 48 + n);
        assert(decimal_value(u) == decimal_value(u.drop_last()) * 10 + digit_value(u.last()));
    }
}

/// A `u8` written in base 10 is read back by `parse_u8_text`.
pub proof fn lemma_parse_u8_decimal(n: u8)
    ensures
        parse_u8_text(decimal_text(n as nat)) == Some(n),
{
    lemma_decimal_text_value(n as nat);
    let t = decimal_text(n as nat);
    assert(is_digit(t[0]));
}

/// The index of the first white space of `s` at or after `i`; the length
/// of `s` when there is none.
pub open spec fn word_end(s: Seq<char>, i: int) -> int
    decreases s.len() - i,
{
    if i < 0 || i >= s.len() || is_white_space(s[i]) {
        if i < 0 { 0 } else if i > s.len() { s.len() as int } else { i }
    } else {
        word_end(s, i + 1)
    }
}

pub proof fn lemma_word_end(s: Seq<char>, i: int)
    requires
        0 <= i <= s.len(),
    ensures
        i <= word_end(s, i) <= s.len(),
        word_end(s, i) < s.len() ==> is_white_space(s[word_end(s, i)]),
        forall|j: int| i <= j < word_end(s, i) ==> !is_white_space(#[trigger] s[j]),
    decreases s.len() - i,
{
    if i < s.len() && !is_white_space(s[i]) {
        lemma_word_end(s, i + 1);
    }
}

/// The words of `s` from position `i` on: the maximal runs of characters
/// that are not white space, in order.
pub open spec fn words_from(s: Seq<char>, i: int) -> Seq<Seq<char>>
    decreases s.len() - i,
{
    if i < 0 || i >= s.len() {
        Seq::empty()
    } else if is_white_space(s[i]) {
        words_from(s, i + 1)
    } else {
        let k = word_end(s, i + 1);
        proof {
            lemma_word_end(s, i + 1);
        }
        seq![s.subrange(i, k)] + words_from(s, k)
    }
}

/// The words of `s`, as `split_whitespace` gives them.
pub open spec fn words(s: Seq<char>) -> Seq<Seq<char>> {
    words_from(s, 0)
}

/// The bounds of the words of `s`, in order.
pub fn word_bounds(s: &Vec<char>) -> (r: Vec<(usize, usize)>)
    ensures
        r@.len() == words(s@).len(),
        forall|k: int|
            0 <= k < r@.len() ==> (#[trigger] r@[k]).0 <= r@[k].1 <= s@.len() && s@.subrange(
                r@[k].0 as int,
                r@[k].1 as int,
            ) == words(s@)[k],
{
    let n = s.len();
    let mut r: Vec<(usize, usize)> = Vec::new();
    let mut i: usize = 0;
    while i < n
        invariant
            n == s@.len(),
            i <= n,
            pieces_of(s@, r@) + words_from(s@, i as int) == words(s@),
            forall|k: int| 0 <= k < r@.len() ==> (#[trigger] r@[k]).0 <= r@[k].1 <= n,
        decreases n - i,
    {
        if char_is_white_space(s[i]) {
            i = i + 1;
        } else {
            let start = i;
            i = i + 1;
            while i < n && !char_is_white_space(s[i])
                invariant
                    n == s@.len(),
                    start < i <= n,
                    forall|j: int| start + 1 <= j < i ==> !is_white_space(#[trigger] s@[j]),
                    word_end(s@, start + 1) == word_end(s@, i as int),
                decreases n - i,
            {
                i = i + 1;
            }
            proof {
                lemma_word_end(s@, i as int);
                assert(word_end(s@, start + 1) == i);
                assert(pieces_of(s@, r@.push((start, i))) =~= pieces_of(s@, r@).push(s@.subrange(start as int, i as int)));
                assert(pieces_of(s@, r@).push(s@.subrange(start as int, i as int)) + words_from(s@, i as int) =~= pieces_of(s@, r@)
                    + (seq![s@.subrange(start as int, i as int)] + words_from(s@, i as int)));
            }
            r.push((start, i));
        }
    }
    proof {
        assert(pieces_of(s@, r@) + Seq::<Seq<char>>::empty() =~= pieces_of(s@, r@));
        assert forall|k: int| 0 <= k < r@.len() implies s@.subrange((#[trigger] r@[k]).0 as int, r@[k].1 as int) == words(s@)[k] by {
            assert(pieces_of(s@, r@)[k] == s@.subrange(r@[k].0 as int, r@[k].1 as int));
        }
    }
    r
}

/// What reading `s` as a `u16` gives: an optional `+`, then one or more
/// decimal digits whose value is at most 65535.
pub open spec fn parse_u16_text(s: Seq<char>) -> Option<u16> {
    let d = if s.len() > 0 && s[0] == '+' {
        s.drop_first()
    } else {
        s
    };
    if d.len() > 0 && all_digits(d) && decimal_value(d) <= 65535 {
        Some(decimal_value(d) as u16)
    } else {
        None
    }
}

/// What reading `s` as a `u16` gives: an optional `+`, then one or more
/// decimal digits whose value is at most 65535.
pub fn parse_u16(s: &str) -> (r: Option<u16>)
    ensures
        r == parse_u16_text(s@),
{
    let chars = chars_of(s);
    let ghost t = chars@;
    let end = chars.len();
    let mut i: usize = 0;
    if i < end && chars[i] == '+' {
        i = i + 1;
    }
    let ghost d = t.subrange(i as int, end as int);
    assert(d =~= if t.len() > 0 && t[0] == '+' {
        t.drop_first()
    } else {
        t
    });
    if i == end {
        return None;
    }
    let i0 = i;
    let mut acc: u32 = 0;
    while i < end
        invariant
            i0 <= i <= end == t.len(),
            t == chars@,
            t == s@,
            d == t.subrange(i0 as int, end as int),
            d == (if t.len() > 0 && t[0] == '+' {
                t.drop_first()
            } else {
                t
            }),
            d.len() > 0,
            acc <= 65535,
            acc == decimal_value(d.take(i - i0)),
            all_digits(d.take(i - i0)),
        decreases end - i,
    {
        let c = chars[i];
        let v = c as u32;
        assert(d[i - i0] == c);
        if v < 48 || v > 57 {
            assert(!is_digit(d[i - i0]));
            return None;
        }
        let ghost before = d.take(i - i0);
        acc = acc * 10 + (v - 48);
        i = i + 1;
        assert(d.take(i - i0).drop_last() =~= before);
        assert(d.take(i - i0).last() == c);
        if acc > 65535 {
            proof {
                if all_digits(d) {
                    lemma_decimal_prefix(d, i - i0);
                }
            }
            return None;
        }
        assert(all_digits(d.take(i - i0))) by {
            assert forall|j: int| 0 <= j < i - i0 implies #[trigger] is_digit(d.take(i - i0)[j]) by {
                if j < i - i0 - 1 {
                    assert(d.take(i - i0)[j] == before[j]);
                }
            }
        }
    }
    assert(d.take(i - i0) =~= d);
    Some(acc as u16)
}

} // verus!
