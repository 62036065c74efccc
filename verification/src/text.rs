//! Text as sequences of characters: the pieces of `str`'s API that reading
//! and writing the stored settings rests on, written out with their
//! specifications.

use vstd::prelude::*;

verus! {

/// Unicode's `White_Space` property, what `char::is_whitespace` and
/// `str::trim` go by.
pub open spec fn is_ws(c: char) -> bool {
    let n = c as u32;
    ||| 0x09 <= n <= 0x0d
    ||| n == 0x20
    ||| n == 0x85
    ||| n == 0xa0
    ||| n == 0x1680
    ||| 0x2000 <= n <= 0x200a
    ||| n == 0x2028
    ||| n == 0x2029
    ||| n == 0x202f
    ||| n == 0x205f
    ||| n == 0x3000
}

/// Unicode's general category `Cc`, what `char::is_control` goes by.
pub open spec fn is_control(c: char) -> bool {
    let n = c as u32;
    n <= 0x1f || 0x7f <= n <= 0x9f
}

/// `s` without its leading whitespace.
pub open spec fn trim_start(s: Seq<char>) -> Seq<char>
    decreases s.len(),
{
    if s.len() > 0 && is_ws(s[0]) {
        trim_start(s.drop_first())
    } else {
        s
    }
}

/// `s` without its trailing whitespace.
pub open spec fn trim_end(s: Seq<char>) -> Seq<char>
    decreases s.len(),
{
    if s.len() > 0 && is_ws(s.last()) {
        trim_end(s.drop_last())
    } else {
        s
    }
}

/// `s` without leading or trailing whitespace, as `str::trim`.
pub open spec fn trim(s: Seq<char>) -> Seq<char> {
    trim_end(trim_start(s))
}

/// The index of the first `c` in `s`, if there is one.
pub open spec fn find_char(s: Seq<char>, c: char) -> Option<int>
    decreases s.len(),
{
    if s.len() == 0 {
        None
    } else if s[0] == c {
        Some(0)
    } else {
        match find_char(s.drop_first(), c) {
            Some(i) => Some(i + 1),
            None => None,
        }
    }
}

/// `find_char` finds the first `c`.
pub proof fn lemma_find_char(s: Seq<char>, c: char)
    ensures
        match find_char(s, c) {
            Some(i) => 0 <= i < s.len() && s[i] == c && forall|k: int|
                0 <= k < i ==> #[trigger] s[k] != c,
            None => forall|k: int| 0 <= k < s.len() ==> #[trigger] s[k] != c,
        },
    decreases s.len(),
{
    if s.len() > 0 && s[0] != c {
        lemma_find_char(s.drop_first(), c);
        match find_char(s.drop_first(), c) {
            Some(i) => {
                assert forall|k: int| 0 <= k < i + 1 implies #[trigger] s[k] != c by {
                    if k > 0 {
                        assert(s[k] == s.drop_first()[k - 1]);
                    }
                }
            },
            None => {
                assert forall|k: int| 0 <= k < s.len() implies #[trigger] s[k] != c by {
                    if k > 0 {
                        assert(s[k] == s.drop_first()[k - 1]);
                    }
                }
            },
        }
    }
}

/// A line without the `\r` of a `\r\n` line ending.
pub open spec fn strip_cr(line: Seq<char>) -> Seq<char> {
    if line.len() > 0 && line.last() == '\r' {
        line.drop_last()
    } else {
        line
    }
}

/// The lines of `s`, as `str::lines`: split at `\n` or `\r\n`, with the
/// last line ending optional (no empty line after it).
pub open spec fn lines(s: Seq<char>) -> Seq<Seq<char>>
    decreases s.len(),
{
    if s.len() == 0 {
        seq![]
    } else {
        match find_char(s, '\n') {
            None => seq![s],
            Some(i) => {
                proof {
                    lemma_find_char(s, '\n');
                }
                seq![strip_cr(s.take(i))] + lines(s.skip(i + 1))
            },
        }
    }
}

/// The parts of `s` before and after its first `c`, as `str::split_once`.
pub open spec fn split_once(s: Seq<char>, c: char) -> Option<(Seq<char>, Seq<char>)> {
    match find_char(s, c) {
        None => None,
        Some(i) => Some((s.take(i), s.skip(i + 1))),
    }
}

pub open spec fn digit_char(d: int) -> char {
    (d + '0' as int) as char
}

pub open spec fn is_digit(c: char) -> bool {
    '0' <= c <= '9'
}

/// The number written in decimal by the digits `s`.
pub open spec fn digits_value(s: Seq<char>) -> nat
    decreases s.len(),
{
    if s.len() == 0 {
        0
    } else {
        digits_value(s.drop_last()) * 10 + ((s.last() as int) - ('0' as int)) as nat
    }
}

/// `n` written in decimal, without leading zeros.
pub open spec fn decimal(n: nat) -> Seq<char>
    decreases n,
{
    if n < 10 {
        seq![digit_char(n as int)]
    } else {
        decimal(n / 10).push(digit_char((n % 10) as int))
    }
}

pub open spec fn all_digits(s: Seq<char>) -> bool {
    forall|i: int| 0 <= i < s.len() ==> is_digit(#[trigger] s[i])
}

/// What `u64::from_str` reads from `s`: an optional `+` followed by at least
/// one decimal digit and nothing else, whose value fits in `u64`.
pub open spec fn parse_u64(s: Seq<char>) -> Option<u64> {
    let digits = if s.len() > 0 && s[0] == '+' {
        s.drop_first()
    } else {
        s
    };
    if digits.len() > 0 && all_digits(digits) && digits_value(digits) <= u64::MAX {
        Some(digits_value(digits) as u64)
    } else {
        None
    }
}

/// How `bool`'s `Display` writes it.
pub open spec fn bool_text(b: bool) -> Seq<char> {
    if b {
        seq!['t', 'r', 'u', 'e']
    } else {
        seq!['f', 'a', 'l', 's', 'e']
    }
}

/// What `bool::from_str` reads from `s`: exactly `true` or `false`.
pub open spec fn parse_bool(s: Seq<char>) -> Option<bool> {
    if s == bool_text(true) {
        Some(true)
    } else if s == bool_text(false) {
        Some(false)
    } else {
        None
    }
}

/// The characters of a string.
pub fn chars_of(s: &str) -> (chars: Vec<char>)
    ensures
        chars@ == s@,
{
    broadcast use vstd::string::axiom_spec_iter;

    let mut chars: Vec<char> = Vec::new();
    for c in it: s.chars()
        invariant
            chars@ == it.seq().take(it.index() as int),
            it.seq() == s@,
    {
        chars.push(c);
        assert(chars@ =~= it.seq().take(it.index() + 1));
    }
    assert(chars@ =~= s@);
    chars
}

/// std's `String::from_iter` over characters: the string of exactly
/// these characters, in order.
#[verifier::external_body]
pub fn string_of(chars: &Vec<char>) -> (s: String)
    ensures
        s@ == chars@,
{
    String::from_iter(chars)
}

/// Whether `c` is whitespace, as `char::is_whitespace`.
pub fn is_whitespace(c: char) -> (b: bool)
    ensures
        b == is_ws(c),
{
    let n = c as u32;
    (0x09 <= n && n <= 0x0d) || n == 0x20 || n == 0x85 || n == 0xa0 || n == 0x1680 || (0x2000 <= n
        && n <= 0x200a) || n == 0x2028 || n == 0x2029 || n == 0x202f || n == 0x205f || n == 0x3000
}

/// Whether `c` is a control character, as `char::is_control`.
pub fn is_control_char(c: char) -> (b: bool)
    ensures
        b == is_control(c),
{
    let n = c as u32;
    n <= 0x1f || (0x7f <= n && n <= 0x9f)
}

/// The characters `s[start..end]`.
pub fn slice(s: &Vec<char>, start: usize, end: usize) -> (r: Vec<char>)
    requires
        start <= end <= s@.len(),
    ensures
        r@ == s@.subrange(start as int, end as int),
{
    let mut r: Vec<char> = Vec::new();
    let mut i = start;
    while i < end
        invariant
            start <= i <= end <= s@.len(),
            r@ == s@.subrange(start as int, i as int),
        decreases end - i,
    {
        r.push(s[i]);
        i = i + 1;
        assert(r@ =~= s@.subrange(start as int, i as int));
    }
    r
}

proof fn lemma_trim_start_skip(s: Seq<char>, i: int)
    requires
        0 <= i <= s.len(),
        forall|k: int| 0 <= k < i ==> is_ws(#[trigger] s[k]),
    ensures
        trim_start(s) == trim_start(s.skip(i)),
    decreases i,
{
    if i > 0 {
        assert(s.skip(1) =~= s.drop_first());
        lemma_trim_start_skip(s.drop_first(), i - 1);
        assert(s.drop_first().skip(i - 1) =~= s.skip(i));
    } else {
        assert(s.skip(0) =~= s);
    }
}

proof fn lemma_trim_end_take(s: Seq<char>, j: int)
    requires
        0 <= j <= s.len(),
        forall|k: int| j <= k < s.len() ==> is_ws(#[trigger] s[k]),
    ensures
        trim_end(s) == trim_end(s.take(j)),
    decreases s.len() - j,
{
    if j < s.len() {
        assert(s.take(s.len() - 1) =~= s.drop_last());
        lemma_trim_end_take(s.drop_last(), j);
        assert(s.drop_last().take(j) =~= s.take(j));
    } else {
        assert(s.take(j) =~= s);
    }
}

/// The characters `s[start..end]` without leading or trailing whitespace.
pub fn trimmed(s: &Vec<char>, start: usize, end: usize) -> (r: Vec<char>)
    requires
        start <= end <= s@.len(),
    ensures
        r@ == trim(s@.subrange(start as int, end as int)),
{
    let ghost whole = s@.subrange(start as int, end as int);
    let mut i = start;
    while i < end && is_whitespace(s[i])
        invariant
            start <= i <= end <= s@.len(),
            whole == s@.subrange(start as int, end as int),
            forall|k: int| start <= k < i ==> is_ws(#[trigger] s@[k]),
        decreases end - i,
    {
        i = i + 1;
    }
    proof {
        assert forall|k: int| 0 <= k < i - start implies is_ws(#[trigger] whole[k]) by {
            assert(whole[k] == s@[start + k]);
        }
        lemma_trim_start_skip(whole, i - start);
        assert(whole.skip(i - start) =~= s@.subrange(i as int, end as int));
        let rest = s@.subrange(i as int, end as int);
        if i < end {
            assert(!is_ws(rest[0]));
        }
        assert(trim_start(rest) == rest);
    }
    let mut j = end;
    while j > i && is_whitespace(s[j - 1])
        invariant
            start <= i <= j <= end <= s@.len(),
            forall|k: int| j <= k < end ==> is_ws(#[trigger] s@[k]),
        decreases j - i,
    {
        j = j - 1;
    }
    proof {
        let rest = s@.subrange(i as int, end as int);
        assert forall|k: int| j - i <= k < rest.len() implies is_ws(#[trigger] rest[k]) by {
            assert(rest[k] == s@[i + k]);
        }
        lemma_trim_end_take(rest, j - i);
        assert(rest.take(j - i) =~= s@.subrange(i as int, j as int));
        let core = s@.subrange(i as int, j as int);
        if j > i {
            assert(!is_ws(core.last()));
        }
        assert(trim_end(core) == core);
    }
    slice(s, i, j)
}

/// The `key=value` pairs of the lines of a text that have an `=`: split at
/// the first `=`, both sides trimmed.
pub open spec fn pairs_of(ls: Seq<Seq<char>>) -> Seq<(Seq<char>, Seq<char>)>
    decreases ls.len(),
{
    if ls.len() == 0 {
        seq![]
    } else {
        let rest = pairs_of(ls.drop_first());
        match split_once(ls[0], '=') {
            Some((key, value)) => seq![(trim(key), trim(value))] + rest,
            None => rest,
        }
    }
}

/// The value of the last pair with key `key`: later lines override earlier
/// ones.
pub open spec fn lookup(pairs: Seq<(Seq<char>, Seq<char>)>, key: Seq<char>) -> Option<Seq<char>>
    decreases pairs.len(),
{
    if pairs.len() == 0 {
        None
    } else if pairs.last().0 == key {
        Some(pairs.last().1)
    } else {
        lookup(pairs.drop_last(), key)
    }
}

pub open spec fn pair_views(pairs: Seq<(Vec<char>, Vec<char>)>) -> Seq<(Seq<char>, Seq<char>)> {
    pairs.map_values(|p: (Vec<char>, Vec<char>)| (p.0@, p.1@))
}

/// The first `c` in `s[from..to]`, as an index into `s`, or `to`.
fn find_from(s: &Vec<char>, c: char, from: usize, to: usize) -> (i: usize)
    requires
        from <= to <= s@.len(),
    ensures
        from <= i <= to,
        forall|k: int| from <= k < i ==> #[trigger] s@[k] != c,
        i < to ==> s@[i as int] == c,
{
    let mut i = from;
    while i < to && s[i] != c
        invariant
            from <= i <= to <= s@.len(),
            forall|k: int| from <= k < i ==> #[trigger] s@[k] != c,
        decreases to - i,
    {
        i = i + 1;
    }
    i
}

proof fn lemma_find_char_at(s: Seq<char>, c: char, i: int)
    requires
        0 <= i <= s.len(),
        forall|k: int| 0 <= k < i ==> #[trigger] s[k] != c,
        i < s.len() ==> s[i] == c,
    ensures
        find_char(s, c) == (if i < s.len() {
            Some(i)
        } else {
            None::<int>
        }),
{
    lemma_find_char(s, c);
    match find_char(s, c) {
        Some(j) => {
            if j < i {
                assert(s[j] != c);
            } else if i < j {
                assert(s[i] != c);
            }
        },
        None => {
            if i < s.len() {
                assert(s[i] != c);
            }
        },
    }
}

/// Split `key=value` lines into pairs, as [`pairs_of`] the [`lines`]. Lines
/// without a `=` are skipped, so a hand-edited file with a stray blank line
/// or comment still reads.
pub fn parse(text: &Vec<char>) -> (pairs: Vec<(Vec<char>, Vec<char>)>)
    ensures
        pair_views(pairs@) == pairs_of(lines(text@)),
{
    let len = text.len();
    let mut pairs: Vec<(Vec<char>, Vec<char>)> = Vec::new();
    let mut start: usize = 0;
    assert(text@.skip(0) =~= text@);
    while start < len
        invariant
            len == text@.len(),
            0 <= start <= len,
            pairs_of(lines(text@)) == pair_views(pairs@) + pairs_of(lines(text@.skip(start as int))),
        decreases len - start,
    {
        let ghost rest = text@.skip(start as int);
        let nl = find_from(text, '\n', start, len);
        proof {
            assert forall|k: int| 0 <= k < nl - start implies #[trigger] rest[k] != '\n' by {
                assert(rest[k] == text@[start + k]);
            }
            lemma_find_char_at(rest, '\n', nl - start);
        }
        // the line without its ending
        let mut end = nl;
        if nl < len && end > start && text[end - 1] == '\r' {
            end = end - 1;
        }
        let ghost line = text@.subrange(start as int, end as int);
        proof {
            if nl < len {
                assert(line =~= strip_cr(rest.take(nl - start)));
                assert(rest.skip(nl - start + 1) =~= text@.skip(nl + 1));
                assert(lines(rest) == seq![line] + lines(text@.skip(nl + 1)));
            } else {
                assert(line =~= rest);
                assert(lines(rest) == seq![line]);
                assert(text@.skip(len as int) =~= Seq::<char>::empty());
                assert(lines(text@.skip(len as int)) == Seq::<Seq<char>>::empty());
            }
        }
        let eq = find_from(text, '=', start, end);
        proof {
            assert forall|k: int| 0 <= k < eq - start implies #[trigger] line[k] != '=' by {
                assert(line[k] == text@[start + k]);
            }
            lemma_find_char_at(line, '=', eq - start);
        }
        let ghost before = pairs@;
        if eq < end {
            let key = trimmed(text, start, eq);
            let value = trimmed(text, eq + 1, end);
            proof {
                assert(line.take(eq - start) =~= text@.subrange(start as int, eq as int));
                assert(line.skip(eq - start + 1) =~= text@.subrange(eq + 1, end as int));
            }
            pairs.push((key, value));
            proof {
                assert(pair_views(pairs@) =~= pair_views(before) + seq![(key@, value@)]);
            }
        }
        let next = if nl < len { nl + 1 } else { len };
        proof {
            let ls = lines(rest);
            assert(ls[0] == line);
            assert(ls.drop_first() == lines(text@.skip(next as int)));
            assert(pairs_of(ls) == (match split_once(line, '=') {
                Some((k, v)) => seq![(trim(k), trim(v))],
                None => Seq::<(Seq<char>, Seq<char>)>::empty(),
            }) + pairs_of(lines(text@.skip(next as int))));
            assert(pair_views(pairs@) + pairs_of(lines(text@.skip(next as int))) =~= pair_views(
                before,
            ) + pairs_of(lines(rest)));
        }
        start = next;
    }
    proof {
        assert(text@.skip(start as int) =~= Seq::<char>::empty());
        assert(pair_views(pairs@) + pairs_of(lines(text@.skip(start as int))) =~= pair_views(
            pairs@,
        ));
    }
    pairs
}

/// Whether two character sequences are the same.
pub fn chars_eq(a: &Vec<char>, b: &Vec<char>) -> (same: bool)
    ensures
        same == (a@ == b@),
{
    if a.len() != b.len() {
        return false;
    }
    let mut i: usize = 0;
    while i < a.len()
        invariant
            a@.len() == b@.len(),
            0 <= i <= a@.len(),
            forall|k: int| 0 <= k < i ==> a@[k] == b@[k],
        decreases a@.len() - i,
    {
        if a[i] != b[i] {
            return false;
        }
        i = i + 1;
    }
    assert(a@ =~= b@);
    true
}

/// Whether the characters `chars` spell `text`.
pub fn text_is(chars: &Vec<char>, text: &str) -> (same: bool)
    ensures
        same == (chars@ == text@),
{
    let other = chars_of(text);
    chars_eq(chars, &other)
}

/// The value of the last pair with key `key`.
pub fn lookup_key(pairs: &Vec<(Vec<char>, Vec<char>)>, key: &str) -> (r: Option<Vec<char>>)
    ensures
        match r {
            Some(v) => lookup(pair_views(pairs@), key@) == Some(v@),
            None => lookup(pair_views(pairs@), key@) is None,
        },
{
    let ghost all = pair_views(pairs@);
    let mut i = pairs.len();
    assert(all.take(i as int) =~= all);
    while i > 0
        invariant
            0 <= i <= pairs@.len(),
            all == pair_views(pairs@),
            lookup(all, key@) == lookup(all.take(i as int), key@),
        decreases i,
    {
        let ghost prefix = all.take(i as int);
        assert(prefix.last() == (pairs@[i - 1].0@, pairs@[i - 1].1@));
        if text_is(&pairs[i - 1].0, key) {
            return Some(pairs[i - 1].1.clone());
        }
        assert(prefix.drop_last() =~= all.take(i - 1));
        i = i - 1;
    }
    None
}

/// The decimal digit `d` (0 to 9) as a character.
pub fn digit(d: u64) -> (c: char)
    requires
        d < 10,
    ensures
        c == digit_char(d as int),
        is_digit(c),
{
    ((d as u8) + 48u8) as char
}

/// `n` written in decimal.
pub fn write_u64(n: u64) -> (chars: Vec<char>)
    ensures
        chars@ == decimal(n as nat),
    decreases n,
{
    if n < 10 {
        let mut chars = Vec::new();
        chars.push(digit(n));
        assert(chars@ =~= decimal(n as nat));
        chars
    } else {
        let mut chars = write_u64(n / 10);
        chars.push(digit(n % 10));
        chars
    }
}

/// `b` written as `bool`'s `Display` writes it.
pub fn write_bool(b: bool) -> (chars: Vec<char>)
    ensures
        chars@ == bool_text(b),
{
    let mut chars = Vec::new();
    if b {
        chars.push('t');
        chars.push('r');
        chars.push('u');
        chars.push('e');
    } else {
        chars.push('f');
        chars.push('a');
        chars.push('l');
        chars.push('s');
        chars.push('e');
    }
    assert(chars@ =~= bool_text(b));
    chars
}

/// Read a `bool` as `bool::from_str` does.
pub fn read_bool(chars: &Vec<char>) -> (b: Option<bool>)
    ensures
        b == parse_bool(chars@),
{
    let t = write_bool(true);
    let f = write_bool(false);
    if chars_eq(chars, &t) {
        Some(true)
    } else if chars_eq(chars, &f) {
        Some(false)
    } else {
        None
    }
}

proof fn lemma_digits_value_push(s: Seq<char>, c: char)
    ensures
        digits_value(s.push(c)) == digits_value(s) * 10 + ((c as int) - ('0' as int)) as nat,
{
    assert(s.push(c).drop_last() =~= s);
}

/// Read a `u64` as `u64::from_str` does: an optional `+`, then decimal
/// digits only, at least one, of a value that fits.
pub fn read_u64(chars: &Vec<char>) -> (r: Option<u64>)
    ensures
        r == parse_u64(chars@),
{
    let len = chars.len();
    let start: usize = if len > 0 && chars[0] == '+' {
        1
    } else {
        0
    };
    let ghost digits = chars@.skip(start as int);
    assert(digits =~= (if chars@.len() > 0 && chars@[0] == '+' {
        chars@.drop_first()
    } else {
        chars@
    }));
    if start == len {
        return None;
    }
    let mut acc: u64 = 0;
    let mut i = start;
    assert(digits.take(0) =~= Seq::<char>::empty());
    while i < len
        invariant
            len == chars@.len(),
            start <= i <= len,
            start < len,
            digits == chars@.skip(start as int),
            digits == (if chars@.len() > 0 && chars@[0] == '+' {
                chars@.drop_first()
            } else {
                chars@
            }),
            forall|k: int| 0 <= k < i - start ==> is_digit(#[trigger] digits[k]),
            acc == digits_value(digits.take(i - start)),
        decreases len - i,
    {
        let c = chars[i];
        assert(digits[i - start] == c);
        if !('0' <= c && c <= '9') {
            proof {
                assert(!is_digit(digits[i - start]));
                assert(!all_digits(digits));
            }
            return None;
        }
        let d = (c as u32 - 48) as u64;
        proof {
            assert(digits.take(i - start + 1) =~= digits.take(i - start).push(c));
            lemma_digits_value_push(digits.take(i - start), c);
        }
        if acc > (u64::MAX - d) / 10 {
            proof {
                assert(acc * 10 + d > u64::MAX) by (nonlinear_arith)
                    requires
                        acc > (u64::MAX - d) / 10,
                        d < 10,
                ;
                assert(digits_value(digits.take(i - start + 1)) == acc * 10 + d);
                if all_digits(digits) {
                    lemma_digits_prefix(digits, i - start + 1);
                    assert(digits_value(digits) > u64::MAX);
                }
            }
            return None;
        }
        assert(acc * 10 + d <= u64::MAX) by (nonlinear_arith)
            requires
                acc <= (u64::MAX - d) / 10,
                d < 10,
        ;
        acc = acc * 10 + d;
        i = i + 1;
    }
    assert(digits.take(len - start) =~= digits);
    Some(acc)
}

/// A longer run of digits has at least the value of its prefix.
proof fn lemma_digits_prefix(s: Seq<char>, n: int)
    requires
        0 <= n <= s.len(),
        forall|k: int| 0 <= k < s.len() ==> is_digit(#[trigger] s[k]),
    ensures
        digits_value(s) >= digits_value(s.take(n)),
    decreases s.len() - n,
{
    if n < s.len() {
        lemma_digits_prefix(s.drop_last(), n);
        assert(s.drop_last().take(n) =~= s.take(n));
        assert(is_digit(s.last()));
    } else {
        assert(s.take(n) =~= s);
    }
}


/// What a key or a value of the stored form is made of: at least one
/// character, none of them whitespace (line breaks included) or `=`.
pub open spec fn is_word(s: Seq<char>) -> bool {
    s.len() > 0 && forall|i: int| 0 <= i < s.len() ==> !is_ws(#[trigger] s[i]) && s[i] != '='
}

/// Key/value pairs written one `key=value` line each, every line ended by a
/// `\n`.
pub open spec fn join_entries(es: Seq<(Seq<char>, Seq<char>)>) -> Seq<char>
    decreases es.len(),
{
    if es.len() == 0 {
        seq![]
    } else {
        join_entries(es.drop_last()) + es.last().0 + seq!['='] + es.last().1 + seq!['\n']
    }
}

/// No two pairs share a key.
pub open spec fn keys_distinct(es: Seq<(Seq<char>, Seq<char>)>) -> bool {
    forall|i: int, j: int| 0 <= i < j < es.len() ==> #[trigger] es[i].0 != #[trigger] es[j].0
}

/// The first `c` of `x` is the first of `x + y` too.
proof fn lemma_find_char_prefix(x: Seq<char>, y: Seq<char>, c: char, i: int)
    requires
        find_char(x, c) == Some(i),
    ensures
        find_char(x + y, c) == Some(i),
{
    lemma_find_char(x, c);
    assert forall|k: int| 0 <= k < i implies #[trigger] (x + y)[k] != c by {
        assert((x + y)[k] == x[k]);
        assert(x[k] != c);
    }
    lemma_find_char_at(x + y, c, i);
}

/// Text that ends in a line break splits into lines apart from what follows.
pub proof fn lemma_lines_append(x: Seq<char>, y: Seq<char>)
    requires
        x.len() == 0 || x.last() == '\n',
    ensures
        lines(x + y) == lines(x) + lines(y),
    decreases x.len(),
{
    if x.len() == 0 {
        assert(x + y =~= y);
        assert(lines(x) + lines(y) =~= lines(y));
    } else {
        lemma_find_char(x, '\n');
        let i = find_char(x, '\n')->0;
        lemma_find_char_prefix(x, y, '\n', i);
        let rest = x.skip(i + 1);
        assert((x + y).take(i) =~= x.take(i));
        assert((x + y).skip(i + 1) =~= rest + y);
        if rest.len() > 0 {
            assert(rest.last() == x.last());
        }
        lemma_lines_append(rest, y);
        assert(lines(x + y) =~= lines(x) + lines(y));
    }
}

/// A single line ended by a line break.
proof fn lemma_lines_one(l: Seq<char>)
    requires
        forall|k: int| 0 <= k < l.len() ==> #[trigger] l[k] != '\n',
        l.len() > 0 && l.last() != '\r',
    ensures
        lines(l + seq!['\n']) == seq![l],
{
    let s = l + seq!['\n'];
    assert forall|k: int| 0 <= k < l.len() implies #[trigger] s[k] != '\n' by {
        assert(s[k] == l[k]);
    }
    lemma_find_char_at(s, '\n', l.len() as int);
    assert(s.take(l.len() as int) =~= l);
    assert(s.skip(l.len() as int + 1) =~= Seq::<char>::empty());
    assert(strip_cr(l) == l);
    assert(lines(Seq::<char>::empty()) == Seq::<Seq<char>>::empty());
    assert(lines(s) =~= seq![l]);
}

pub proof fn lemma_pairs_of_append(a: Seq<Seq<char>>, b: Seq<Seq<char>>)
    ensures
        pairs_of(a + b) == pairs_of(a) + pairs_of(b),
    decreases a.len(),
{
    if a.len() == 0 {
        assert(a + b =~= b);
        assert(pairs_of(a) + pairs_of(b) =~= pairs_of(b));
    } else {
        assert((a + b).drop_first() =~= a.drop_first() + b);
        assert((a + b)[0] == a[0]);
        lemma_pairs_of_append(a.drop_first(), b);
        assert(pairs_of(a + b) =~= pairs_of(a) + pairs_of(b));
    }
}

/// A word has nothing to trim.
proof fn lemma_trim_word(s: Seq<char>)
    requires
        is_word(s),
    ensures
        trim(s) == s,
{
    assert(!is_ws(s[0]));
    assert(trim_start(s) == s);
    assert(!is_ws(s[s.len() - 1]));
    assert(trim_end(s) == s);
}

/// Written out and read back, pairs of words come back as they were.
pub proof fn lemma_join_entries_read_back(es: Seq<(Seq<char>, Seq<char>)>)
    requires
        forall|i: int| 0 <= i < es.len() ==> is_word(#[trigger] es[i].0) && is_word(es[i].1),
    ensures
        pairs_of(lines(join_entries(es))) == es,
    decreases es.len(),
{
    if es.len() > 0 {
        let init = es.drop_last();
        let k = es.last().0;
        let v = es.last().1;
        assert(is_word(k) && is_word(v)) by {
            assert(es[es.len() - 1] == es.last());
        }
        assert forall|i: int| 0 <= i < init.len() implies is_word(#[trigger] init[i].0) && is_word(
            init[i].1,
        ) by {
            assert(init[i] == es[i]);
        }
        lemma_join_entries_read_back(init);
        let head = join_entries(init);
        let l = k + seq!['='] + v;
        assert(join_entries(es) =~= head + (l + seq!['\n']));
        if head.len() > 0 {
            if init.len() > 0 {
                let prev = join_entries(init.drop_last()) + init.last().0 + seq!['='] + init.last().1;
                assert(head =~= prev + seq!['\n']);
                assert(head.last() == '\n');
            }
        }
        lemma_lines_append(head, l + seq!['\n']);
        assert forall|j: int| 0 <= j < l.len() implies #[trigger] l[j] != '\n' by {
            if j < k.len() {
                assert(l[j] == k[j]);
            } else if j > k.len() {
                assert(l[j] == v[j - k.len() - 1]);
            }
        }
        assert(l.last() == v[v.len() - 1]);
        lemma_lines_one(l);
        lemma_pairs_of_append(lines(head), seq![l]);
        assert forall|j: int| 0 <= j < k.len() implies #[trigger] l[j] != '=' by {
            assert(l[j] == k[j]);
        }
        lemma_find_char_at(l, '=', k.len() as int);
        assert(l.take(k.len() as int) =~= k);
        assert(l.skip(k.len() as int + 1) =~= v);
        lemma_trim_word(k);
        lemma_trim_word(v);
        assert(seq![l].drop_first() =~= Seq::<Seq<char>>::empty());
        assert(split_once(l, '=') == Some((k, v)));
        assert(pairs_of(Seq::<Seq<char>>::empty()) == Seq::<(Seq<char>, Seq<char>)>::empty());
        assert(pairs_of(seq![l]) =~= seq![(k, v)]);
        assert(es =~= init + seq![(k, v)]);
    }
}

/// With no key repeated, a key finds the value beside it.
pub proof fn lemma_lookup_distinct(es: Seq<(Seq<char>, Seq<char>)>, j: int)
    requires
        keys_distinct(es),
        0 <= j < es.len(),
    ensures
        lookup(es, es[j].0) == Some(es[j].1),
    decreases es.len(),
{
    let n = es.len() - 1;
    if j < n {
        assert(es[j].0 != es[n].0);
        let init = es.drop_last();
        assert forall|a: int, b: int| 0 <= a < b < init.len() implies #[trigger] init[a].0
            != #[trigger] init[b].0 by {
            assert(init[a] == es[a] && init[b] == es[b]);
            assert(es[a].0 != es[b].0);
        }
        assert(init[j] == es[j]);
        lemma_lookup_distinct(init, j);
    }
}

/// `decimal(n)` is a word of digits that `u64::from_str` reads back as `n`.
pub proof fn lemma_decimal(n: nat)
    ensures
        all_digits(decimal(n)),
        is_word(decimal(n)),
        digits_value(decimal(n)) == n,
        decimal(n)[0] != '+',
        n <= u64::MAX ==> parse_u64(decimal(n)) == Some(n as u64),
    decreases n,
{
    let s = decimal(n);
    if n < 10 {
        assert(s.drop_last() =~= Seq::<char>::empty());
        assert(digit_char(n as int) as int == n + 48);
        assert(digits_value(Seq::<char>::empty()) == 0);
        assert(s.last() == digit_char(n as int));
        assert(digits_value(s) == n);
    } else {
        lemma_decimal(n / 10);
        let t = decimal(n / 10);
        assert(s.drop_last() =~= t);
        assert(s[0] == t[0]);
        assert forall|i: int| 0 <= i < s.len() implies is_digit(#[trigger] s[i]) by {
            if i < t.len() {
                assert(s[i] == t[i]);
                assert(is_digit(t[i]));
            }
        }
        assert(digit_char((n % 10) as int) as int == n % 10 + 48);
        assert(s.last() == digit_char((n % 10) as int));
        assert(digits_value(s) == digits_value(t) * 10 + n % 10);
        assert(digits_value(s) == n);
    }
    assert forall|i: int| 0 <= i < s.len() implies !is_ws(#[trigger] s[i]) && s[i] != '=' by {
        assert(is_digit(s[i]));
    }
}

} // verus!
