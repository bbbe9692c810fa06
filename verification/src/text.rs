//! Character-level text helpers shared by the report and extract paths.
use vstd::prelude::*;

verus! {

/// The character for a decimal digit `d` (0 ≤ d < 10).
pub open spec fn digit_char(d: int) -> char {
    ((48 + d) as u8) as char
}

/// Decimal rendering of a natural number, most significant digit first.
pub open spec fn decimal(n: nat) -> Seq<char>
    decreases n,
{
    if n < 10 {
        seq![digit_char(n as int)]
    } else {
        decimal(n / 10).push(digit_char((n % 10) as int))
    }
}

/// Appends one character to a `String`: std `String::push`, which the
/// contract takes to add exactly `c` at the end.
#[verifier::external_body]
fn push_char(s: &mut String, c: char)
    ensures
        final(s)@ == old(s)@.push(c),
{
    s.push(c);
}

/// Builds a `String` holding exactly the given characters.
pub fn string_from_chars(v: &Vec<char>) -> (s: String)
    ensures
        s@ == v@,
{
    let mut s = String::new();
    let mut i: usize = 0;
    while i < v.len()
        invariant
            i <= v.len(),
            s@ == v@.take(i as int),
        decreases v.len() - i,
    {
        push_char(&mut s, v[i]);
        i = i + 1;
        assert(v@.take(i as int) =~= v@.take((i - 1) as int).push(v@[i - 1]));
    }
    assert(v@.take(v.len() as int) =~= v@);
    s
}

/// The characters of a string slice, in order.
pub fn chars_of(s: &str) -> (v: Vec<char>)
    ensures
        v@ == s@,
{
    let mut v: Vec<char> = Vec::new();
    for c in it: s.chars()
        invariant
            v@ == it.seq().take(it.index() as int),
    {
        v.push(c);
    }
    v
}

/// Decimal digits of `n`, most significant first.
pub fn u64_digits(n: u64) -> (r: Vec<char>)
    ensures
        r@ == decimal(n as nat),
    decreases n,
{
    let d: u8 = (n % 10) as u8;
    let c: char = (48u8 + d) as char;
    if n < 10 {
        let mut v = Vec::new();
        v.push(c);
        v
    } else {
        let mut v = u64_digits(n / 10);
        v.push(c);
        v
    }
}


/// Appends the characters of `s` to `v`.
pub fn push_str_chars(v: &mut Vec<char>, s: &str)
    ensures
        final(v)@ == old(v)@ + s@,
{
    let mut t = chars_of(s);
    v.append(&mut t);
}

/// `s` padded on the left with `'0'` up to `width` characters; `s` itself
/// when it is already that long (the `{:0w}` rendering of a non-negative
/// number).
pub open spec fn pad_zeros(s: Seq<char>, width: nat) -> Seq<char> {
    if s.len() >= width {
        s
    } else {
        Seq::new((width - s.len()) as nat, |i: int| '0') + s
    }
}

/// Zero-padded decimal rendering of `n` in at least `width` characters.
pub fn zero_padded(n: u64, width: usize) -> (r: Vec<char>)
    ensures
        r@ == pad_zeros(decimal(n as nat), width as nat),
{
    let digits = u64_digits(n);
    if digits.len() >= width {
        return digits;
    }
    let mut r: Vec<char> = Vec::new();
    let pad = width - digits.len();
    let mut i: usize = 0;
    while i < pad
        invariant
            i <= pad,
            pad == width - digits@.len(),
            r@ == Seq::new(i as nat, |k: int| '0'),
        decreases pad - i,
    {
        r.push('0');
        i = i + 1;
        assert(r@ =~= Seq::new(i as nat, |k: int| '0'));
    }
    let mut d = digits;
    r.append(&mut d);
    r
}

/// The pieces of `s` between occurrences of `sep`, as `str::split` yields
/// them: `k` separators give `k + 1` pieces, empty pieces included.
pub open spec fn split_on(s: Seq<char>, sep: char) -> Seq<Seq<char>>
    decreases s.len(),
{
    if s.len() == 0 {
        seq![Seq::<char>::empty()]
    } else {
        let r = split_on(s.drop_last(), sep);
        if s.last() == sep {
            r.push(Seq::<char>::empty())
        } else {
            r.update(r.len() - 1, r.last().push(s.last()))
        }
    }
}

proof fn lemma_split_on_nonempty(s: Seq<char>, sep: char)
    ensures
        split_on(s, sep).len() >= 1,
    decreases s.len(),
{
    if s.len() > 0 {
        lemma_split_on_nonempty(s.drop_last(), sep);
    }
}

/// No piece of a split holds the separator.
pub proof fn lemma_split_on_pieces(s: Seq<char>, sep: char)
    ensures
        split_on(s, sep).len() >= 1,
        forall|i: int, j: int|
            0 <= i < split_on(s, sep).len() && 0 <= j < split_on(s, sep)[i].len()
                ==> split_on(s, sep)[i][j] != sep,
    decreases s.len(),
{
    if s.len() > 0 {
        lemma_split_on_pieces(s.drop_last(), sep);
    }
}

/// Splits `s` on every occurrence of `sep` (std `str::split` with a char).
pub fn split_chars(s: &Vec<char>, sep: char) -> (parts: Vec<Vec<char>>)
    ensures
        parts@.len() == split_on(s@, sep).len(),
        forall|i: int| 0 <= i < parts@.len() ==> #[trigger] parts@[i]@ == split_on(s@, sep)[i],
{
    let mut parts: Vec<Vec<char>> = Vec::new();
    let mut cur: Vec<char> = Vec::new();
    let mut i: usize = 0;
    while i < s.len()
        invariant
            i <= s.len(),
            parts@.len() + 1 == split_on(s@.take(i as int), sep).len(),
            forall|k: int|
                0 <= k < parts@.len() ==> #[trigger] parts@[k]@ == split_on(
                    s@.take(i as int),
                    sep,
                )[k],
            cur@ == split_on(s@.take(i as int), sep).last(),
        decreases s.len() - i,
    {
        proof {
            lemma_split_on_nonempty(s@.take(i as int), sep);
        }
        let c = s[i];
        assert(s@.take(i as int + 1).drop_last() =~= s@.take(i as int));
        if c == sep {
            let done = cur;
            parts.push(done);
            cur = Vec::new();
        } else {
            cur.push(c);
        }
        i = i + 1;
    }
    assert(s@.take(s.len() as int) =~= s@);
    proof {
        lemma_split_on_nonempty(s@, sep);
    }
    parts.push(cur);
    parts
}

/// Whether `c` is an ASCII decimal digit.
pub open spec fn is_digit(c: char) -> bool {
    '0' <= c && c <= '9'
}

/// Value of a run of decimal digits.
pub open spec fn digits_value(s: Seq<char>) -> nat
    decreases s.len(),
{
    if s.len() == 0 {
        0
    } else {
        digits_value(s.drop_last()) * 10 + ((s.last() as int - 48) as nat)
    }
}

/// Whether every character of `s` is an ASCII digit.
pub open spec fn all_digits(s: Seq<char>) -> bool {
    forall|i: int| 0 <= i < s.len() ==> is_digit(#[trigger] s[i])
}

/// `s` without one leading `+`, if it has one.
pub open spec fn without_plus(s: Seq<char>) -> Seq<char> {
    if s.len() > 0 && s[0] == '+' {
        s.drop_first()
    } else {
        s
    }
}

/// std's `FromStr` for an integer type whose largest value is `max`, on text
/// without a minus sign: an optional `+`, then one or more ASCII digits,
/// whose value must not exceed `max`.
pub open spec fn parse_unsigned(s: Seq<char>, max: nat) -> Option<nat> {
    let body = without_plus(s);
    if body.len() > 0 && all_digits(body) && digits_value(body) <= max {
        Some(digits_value(body))
    } else {
        None
    }
}

proof fn lemma_digits_value_grows(s: Seq<char>, n: int)
    requires
        0 <= n <= s.len(),
        all_digits(s),
    ensures
        digits_value(s.take(n)) <= digits_value(s),
    decreases s.len() - n,
{
    if n < s.len() {
        lemma_digits_value_grows(s, n + 1);
        assert(s.take(n + 1).drop_last() =~= s.take(n));
    } else {
        assert(s.take(n) =~= s);
    }
}

/// Parses `s` as std parses an unsigned integer of largest value `max`
/// (`s` holds no minus sign).
pub fn parse_unsigned_chars(s: &Vec<char>, max: u32) -> (r: Option<u32>)
    ensures
        match r {
            Some(v) => parse_unsigned(s@, max as nat) == Some(v as nat),
            None => parse_unsigned(s@, max as nat) is None,
        },
{
    let ghost body = without_plus(s@);
    let start: usize = if s.len() > 0 && s[0] == '+' {
        1
    } else {
        0
    };
    if start >= s.len() {
        return None;
    }
    let mut acc: u64 = 0;
    let mut i: usize = start;
    while i < s.len()
        invariant
            start <= i <= s.len(),
            body =~= s@.skip(start as int),
            body == without_plus(s@),
            forall|k: int| 0 <= k < i - start ==> is_digit(#[trigger] body[k]),
            acc == digits_value(body.take(i - start)),
            acc <= max,
        decreases s.len() - i,
    {
        let c = s[i];
        assert(body[i - start] == c);
        if !('0' <= c && c <= '9') {
            assert(!is_digit(body[i - start]));
            return None;
        }
        let d: u64 = (c as u64) - 48;
        assert(body.take(i - start + 1).drop_last() =~= body.take(i - start));
        acc = acc * 10 + d;
        i = i + 1;
        if acc > max as u64 {
            proof {
                if all_digits(body) {
                    lemma_digits_value_grows(body, i - start);
                    assert(digits_value(body) > max);
                }
            }
            return None;
        }
    }
    assert(body.take(i - start) =~= body);
    Some(acc as u32)
}


/// Number of occurrences of `c` in `s`.
pub open spec fn count_char(s: Seq<char>, c: char) -> nat
    decreases s.len(),
{
    if s.len() == 0 {
        0
    } else {
        count_char(s.drop_last(), c) + if s.last() == c {
            1nat
        } else {
            0nat
        }
    }
}

/// Counting occurrences distributes over concatenation.
pub proof fn lemma_count_char_concat(a: Seq<char>, b: Seq<char>, c: char)
    ensures
        count_char(a + b, c) == count_char(a, c) + count_char(b, c),
    decreases b.len(),
{
    if b.len() == 0 {
        assert(a + b =~= a);
    } else {
        lemma_count_char_concat(a, b.drop_last(), c);
        assert((a + b).drop_last() =~= a + b.drop_last());
    }
}


/// Index of the first occurrence of `c` in `s`.
pub open spec fn index_of(s: Seq<char>, c: char) -> Option<int>
    decreases s.len(),
{
    if s.len() == 0 {
        None
    } else if s[0] == c {
        Some(0)
    } else {
        match index_of(s.drop_first(), c) {
            Some(i) => Some(i + 1),
            None => None,
        }
    }
}

pub proof fn lemma_index_of(s: Seq<char>, c: char, i: int)
    requires
        0 <= i <= s.len(),
        forall|k: int| 0 <= k < i ==> s[k] != c,
    ensures
        i < s.len() && s[i] == c ==> index_of(s, c) == Some(i),
        i == s.len() ==> index_of(s, c) is None,
    decreases i,
{
    if i > 0 {
        lemma_index_of(s.drop_first(), c, i - 1);
    } else if s.len() == 0 {
    }
}

/// Where `index_of` finds `c`, it is there, and not before.
pub proof fn lemma_index_of_found(s: Seq<char>, c: char)
    ensures
        index_of(s, c) matches Some(i) ==> 0 <= i < s.len() && s[i] == c && forall|k: int|
            0 <= k < i ==> s[k] != c,
    decreases s.len(),
{
    if s.len() > 0 && s[0] != c {
        lemma_index_of_found(s.drop_first(), c);
        if let Some(j) = index_of(s.drop_first(), c) {
            assert forall|k: int| 0 <= k < j + 1 implies s[k] != c by {
                if k > 0 {
                    assert(s[k] == s.drop_first()[k - 1]);
                }
            }
        }
    }
}

/// Position of the first `c` in `s` (std `str::find` / `split_once` on a
/// char, counted in characters).
pub fn find_char(s: &Vec<char>, c: char) -> (r: Option<usize>)
    ensures
        match r {
            Some(i) => index_of(s@, c) == Some(i as int) && i < s@.len(),
            None => index_of(s@, c) is None,
        },
{
    let mut i: usize = 0;
    while i < s.len()
        invariant
            i <= s.len(),
            forall|k: int| 0 <= k < i ==> s@[k] != c,
        decreases s.len() - i,
    {
        if s[i] == c {
            proof {
                lemma_index_of(s@, c, i as int);
            }
            return Some(i);
        }
        i = i + 1;
    }
    proof {
        lemma_index_of(s@, c, i as int);
    }
    None
}

/// The elements `v[from..to]` as a new vector.
pub fn sub_chars(v: &Vec<char>, from: usize, to: usize) -> (r: Vec<char>)
    requires
        from <= to <= v@.len(),
    ensures
        r@ == v@.subrange(from as int, to as int),
{
    let mut r: Vec<char> = Vec::new();
    let mut i = from;
    while i < to
        invariant
            from <= i <= to,
            to <= v@.len(),
            r@ == v@.subrange(from as int, i as int),
        decreases to - i,
    {
        r.push(v[i]);
        i = i + 1;
        assert(r@ =~= v@.subrange(from as int, i as int));
    }
    r
}

/// `s` padded with spaces on the right to `width` characters (`{:<w}`).
pub open spec fn pad_right(s: Seq<char>, width: nat) -> Seq<char> {
    if s.len() >= width {
        s
    } else {
        s + Seq::new((width - s.len()) as nat, |i: int| ' ')
    }
}

/// `s` padded with spaces on the left to `width` characters (`{:>w}`).
pub open spec fn pad_left(s: Seq<char>, width: nat) -> Seq<char> {
    if s.len() >= width {
        s
    } else {
        Seq::new((width - s.len()) as nat, |i: int| ' ') + s
    }
}

fn spaces(n: usize) -> (r: Vec<char>)
    ensures
        r@ == Seq::new(n as nat, |i: int| ' '),
{
    let mut r: Vec<char> = Vec::new();
    let mut i: usize = 0;
    while i < n
        invariant
            i <= n,
            r@ == Seq::new(i as nat, |k: int| ' '),
        decreases n - i,
    {
        r.push(' ');
        i = i + 1;
        assert(r@ =~= Seq::new(i as nat, |k: int| ' '));
    }
    r
}

/// Appends `s`, left-aligned in a field of `width` characters.
pub fn push_padded_right(v: &mut Vec<char>, s: &str, width: usize)
    ensures
        final(v)@ == old(v)@ + pad_right(s@, width as nat),
{
    let mut t = chars_of(s);
    let n = t.len();
    v.append(&mut t);
    if n < width {
        let mut p = spaces(width - n);
        v.append(&mut p);
    }
}

/// Appends `s`, right-aligned in a field of `width` characters.
pub fn push_padded_left(v: &mut Vec<char>, s: &str, width: usize)
    ensures
        final(v)@ == old(v)@ + pad_left(s@, width as nat),
{
    let mut t = chars_of(s);
    let n = t.len();
    if n < width {
        let mut p = spaces(width - n);
        v.append(&mut p);
    }
    v.append(&mut t);
}


/// Whether `p` is a prefix of `s`.
pub open spec fn has_prefix(p: Seq<char>, s: Seq<char>) -> bool {
    p.len() <= s.len() && s.take(p.len() as int) == p
}

/// Whether the characters of `p` start `s`.
pub fn chars_start_with(s: &Vec<char>, p: &Vec<char>) -> (r: bool)
    ensures
        r == has_prefix(p@, s@),
{
    if p.len() > s.len() {
        return false;
    }
    let mut i: usize = 0;
    while i < p.len()
        invariant
            i <= p.len() <= s.len(),
            forall|k: int| 0 <= k < i ==> s@[k] == p@[k],
        decreases p.len() - i,
    {
        if s[i] != p[i] {
            assert(s@.take(p.len() as int)[i as int] != p@[i as int]);
            return false;
        }
        i = i + 1;
    }
    assert(s@.take(p.len() as int) =~= p@);
    true
}

/// Whether two character vectors are equal.
pub fn chars_eq(a: &Vec<char>, b: &Vec<char>) -> (r: bool)
    ensures
        r == (a@ == b@),
{
    if a.len() != b.len() {
        return false;
    }
    let r = chars_start_with(a, b);
    assert(a@.take(b.len() as int) =~= a@);
    r
}

/// Whether `pat` occurs in `s` as a run of consecutive characters.
pub open spec fn contains_text(s: Seq<char>, pat: Seq<char>) -> bool {
    exists|i: int| 0 <= i && i + pat.len() <= s.len() && #[trigger] s.subrange(i, i + pat.len()) == pat
}

/// Whether the characters of `pat` occur in `s` consecutively.
pub fn chars_contain(s: &Vec<char>, pat: &Vec<char>) -> (r: bool)
    ensures
        r == contains_text(s@, pat@),
{
    if pat.len() > s.len() {
        return false;
    }
    if pat.len() == 0 {
        assert(s@.subrange(0, 0 + pat@.len() as int) =~= pat@);
        return true;
    }
    let plen = pat.len();
    let slen = s.len();
    let last = slen - plen;
    let mut i: usize = 0;
    while i <= last
        invariant
            plen == pat@.len(),
            slen == s@.len(),
            last + plen == slen,
            0 < pat@.len() <= s@.len(),
            i <= last + 1,
            forall|j: int| 0 <= j < i ==> #[trigger] s@.subrange(j, j + pat@.len()) != pat@,
        decreases last + 1 - i,
    {
        let window = sub_chars(s, i, i + plen);
        if chars_eq(&window, pat) {
            return true;
        }
        i = i + 1;
    }
    false
}

/// `s` with every occurrence of the non-empty `pat` replaced by `with`,
/// scanning left to right without overlaps (std `str::replace`).
pub open spec fn replace_text(s: Seq<char>, pat: Seq<char>, with: Seq<char>) -> Seq<char>
    decreases s.len(),
{
    if pat.len() == 0 || s.len() < pat.len() {
        s
    } else if s.take(pat.len() as int) == pat {
        with + replace_text(s.skip(pat.len() as int), pat, with)
    } else {
        seq![s[0]] + replace_text(s.skip(1), pat, with)
    }
}

proof fn lemma_replace_step(s: Seq<char>, pat: Seq<char>, with: Seq<char>, i: int)
    requires
        0 < pat.len(),
        0 <= i < s.len(),
    ensures
        s.skip(i).len() < pat.len() ==> replace_text(s.skip(i), pat, with) == s.skip(i),
        s.skip(i).len() >= pat.len() && s.subrange(i, i + pat.len()) == pat ==> replace_text(
            s.skip(i),
            pat,
            with,
        ) == with + replace_text(s.skip(i + pat.len()), pat, with),
        s.skip(i).len() >= pat.len() && s.subrange(i, i + pat.len()) != pat ==> replace_text(
            s.skip(i),
            pat,
            with,
        ) == seq![s[i]] + replace_text(s.skip(i + 1), pat, with),
{
    if s.skip(i).len() >= pat.len() {
        assert(s.skip(i).take(pat.len() as int) =~= s.subrange(i, i + pat.len()));
        assert(s.skip(i).skip(pat.len() as int) =~= s.skip(i + pat.len()));
        assert(s.skip(i).skip(1) =~= s.skip(i + 1));
    }
}

/// The characters of `s` with every `pat` replaced by `with`.
pub fn replace_chars(s: &Vec<char>, pat: &Vec<char>, with: &Vec<char>) -> (r: Vec<char>)
    requires
        pat@.len() > 0,
    ensures
        r@ == replace_text(s@, pat@, with@),
{
    let plen = pat.len();
    let slen = s.len();
    let mut out: Vec<char> = Vec::new();
    let mut i: usize = 0;
    proof {
        assert(s@.skip(0) =~= s@);
    }
    while i < slen
        invariant
            plen == pat@.len(),
            slen == s@.len(),
            0 < plen,
            i <= slen,
            out@ + replace_text(s@.skip(i as int), pat@, with@) == replace_text(s@, pat@, with@),
        decreases slen - i,
    {
        proof {
            lemma_replace_step(s@, pat@, with@, i as int);
        }
        if slen - i < plen {
            let mut rest = sub_chars(s, i, slen);
            out.append(&mut rest);
            proof {
                assert(s@.skip(i as int) =~= s@.subrange(i as int, slen as int));
                assert(s@.skip(slen as int) =~= Seq::<char>::empty());
                assert(out@ + replace_text(s@.skip(slen as int), pat@, with@) =~= out@);
            }
            i = slen;
        } else {
            let window = sub_chars(s, i, i + plen);
            if chars_eq(&window, pat) {
                let ghost before = out@;
                let mut w = sub_chars(with, 0, with.len());
                out.append(&mut w);
                proof {
                    assert(with@.subrange(0, with@.len() as int) =~= with@);
                    assert(before + replace_text(s@.skip(i as int), pat@, with@) =~= out@ + replace_text(
                        s@.skip(i + plen),
                        pat@,
                        with@,
                    ));
                }
                i = i + plen;
            } else {
                let ghost before = out@;
                out.push(s[i]);
                proof {
                    assert(before + replace_text(s@.skip(i as int), pat@, with@) =~= out@ + replace_text(
                        s@.skip(i + 1),
                        pat@,
                        with@,
                    ));
                }
                i = i + 1;
            }
        }
    }
    proof {
        assert(s@.skip(i as int) =~= Seq::<char>::empty());
        assert(out@ + replace_text(s@.skip(i as int), pat@, with@) =~= out@);
    }
    out
}

/// Decimal text of a signed integer (`to_string`).
pub open spec fn int_text(n: int) -> Seq<char> {
    if n < 0 {
        seq!['-'] + decimal((-n) as nat)
    } else {
        decimal(n as nat)
    }
}

/// The decimal text of `n`.
pub fn i64_text(n: i64) -> (r: Vec<char>)
    ensures
        r@ == int_text(n as int),
{
    if n < 0 {
        let m: u64 = if n == i64::MIN {
            9223372036854775808u64
        } else {
            (-n) as u64
        };
        let mut v: Vec<char> = Vec::new();
        v.push('-');
        let mut d = u64_digits(m);
        v.append(&mut d);
        v
    } else {
        u64_digits(n as u64)
    }
}

/// One character as a `LIKE` pattern with `ESCAPE '\'` matches it: the
/// wildcards `%` and `_` and the escape `\` itself get a `\` in front.
pub open spec fn like_escape_char(c: char) -> Seq<char> {
    if c == '\\' || c == '%' || c == '_' {
        seq!['\\', c]
    } else {
        seq![c]
    }
}

/// `s` as a `LIKE` pattern (with `ESCAPE '\'`) that matches `s` alone.
pub open spec fn like_escape(s: Seq<char>) -> Seq<char>
    decreases s.len(),
{
    if s.len() == 0 {
        s
    } else {
        like_escape_char(s[0]) + like_escape(s.skip(1))
    }
}

/// The text a `LIKE` pattern with `ESCAPE '\'` matches when it has no
/// wildcard: each `\` takes the next character literally; `None` when the
/// pattern holds an unescaped `%` or `_`, or ends in a lone `\`.
pub open spec fn pattern_text(p: Seq<char>) -> Option<Seq<char>>
    decreases p.len(),
{
    if p.len() == 0 {
        Some(p)
    } else if p[0] == '\\' {
        if p.len() >= 2 {
            match pattern_text(p.skip(2)) {
                Some(t) => Some(seq![p[1]] + t),
                None => None,
            }
        } else {
            None
        }
    } else if p[0] == '%' || p[0] == '_' {
        None
    } else {
        match pattern_text(p.skip(1)) {
            Some(t) => Some(seq![p[0]] + t),
            None => None,
        }
    }
}

/// An escaped text is a wildcard-free pattern that matches exactly that
/// text: `%` and `_` in it lose their wildcard meaning.
pub proof fn law_like_escape_is_literal(s: Seq<char>)
    ensures
        pattern_text(like_escape(s)) == Some(s),
    decreases s.len(),
{
    if s.len() == 0 {
    } else {
        law_like_escape_is_literal(s.skip(1));
        let p = like_escape(s);
        let rest = like_escape(s.skip(1));
        assert(s =~= seq![s[0]] + s.skip(1));
        if s[0] == '\\' || s[0] == '%' || s[0] == '_' {
            assert(p.skip(2) =~= rest);
        } else {
            assert(p.skip(1) =~= rest);
        }
    }
}

/// `s` escaped for a `LIKE` pattern with `ESCAPE '\'`.
pub fn escape_like(s: &str) -> (r: String)
    ensures
        r@ == like_escape(s@),
{
    let c = chars_of(s);
    let mut out: Vec<char> = Vec::new();
    let mut i: usize = 0;
    proof {
        assert(c@.skip(0) =~= c@);
    }
    while i < c.len()
        invariant
            i <= c@.len(),
            c@ == s@,
            out@ + like_escape(c@.skip(i as int)) == like_escape(s@),
        decreases c@.len() - i,
    {
        let ch = c[i];
        let ghost before = out@;
        if ch == '\\' || ch == '%' || ch == '_' {
            out.push('\\');
        }
        out.push(ch);
        proof {
            assert(c@.skip(i as int).skip(1) =~= c@.skip(i + 1));
            assert(out@ =~= before + like_escape_char(ch));
        }
        i = i + 1;
    }
    proof {
        assert(c@.skip(i as int) =~= Seq::<char>::empty());
        assert(out@ + like_escape(c@.skip(i as int)) =~= out@);
    }
    string_from_chars(&out)
}

/// The decimal text of `n` is digits reading back as `n`.
pub proof fn lemma_decimal_reads_back(n: nat)
    ensures
        decimal(n).len() >= 1,
        all_digits(decimal(n)),
        digits_value(decimal(n)) == n,
    decreases n,
{
    let d = (n % 10) as int;
    let c = digit_char(d);
    assert(c as int == 48 + d);
    assert(is_digit(c));
    vstd::arithmetic::div_mod::lemma_fundamental_div_mod(n as int, 10);
    let q = decimal(n);
    if n < 10 {
        assert(d == n);
        assert(q == seq![c]);
        assert(q.drop_last() =~= Seq::<char>::empty());
        assert(digits_value(q) == digits_value(q.drop_last()) * 10 + ((q.last() as int - 48) as nat));
    } else {
        lemma_decimal_reads_back(n / 10);
        let p = decimal(n / 10);
        assert(q == p.push(c));
        assert(q.drop_last() =~= p);
        assert(q.last() == c);
        assert(digits_value(q) == digits_value(q.drop_last()) * 10 + ((q.last() as int - 48) as nat));
        assert forall|i: int| 0 <= i < q.len() implies is_digit(#[trigger] q[i]) by {
            if i < p.len() {
                assert(q[i] == p[i]);
            }
        }
    }
}

/// Leading zeros do not change the value of a run of digits.
pub proof fn lemma_leading_zeros(z: Seq<char>, s: Seq<char>)
    requires
        forall|i: int| 0 <= i < z.len() ==> #[trigger] z[i] == '0',
    ensures
        digits_value(z + s) == digits_value(s),
    decreases s.len(), z.len(),
{
    if s.len() == 0 {
        assert(z + s =~= z);
        if z.len() > 0 {
            lemma_leading_zeros(z.drop_last(), s);
            assert(z.drop_last() + s =~= z.drop_last());
        }
    } else {
        assert((z + s).drop_last() =~= z + s.drop_last());
        lemma_leading_zeros(z, s.drop_last());
    }
}

/// A zero-padded decimal text parses back to its number.
pub proof fn lemma_padded_parses(n: nat, w: nat, max: nat)
    requires
        n <= max,
    ensures
        parse_unsigned(pad_zeros(decimal(n), w), max) == Some(n),
        all_digits(pad_zeros(decimal(n), w)),
{
    lemma_decimal_reads_back(n);
    let d = decimal(n);
    let p = pad_zeros(d, w);
    if d.len() < w {
        let z = Seq::new((w - d.len()) as nat, |i: int| '0');
        assert(p == z + d);
        lemma_leading_zeros(z, d);
        assert forall|i: int| 0 <= i < p.len() implies is_digit(#[trigger] p[i]) by {
            if i >= z.len() {
                assert(p[i] == d[i - z.len()]);
            }
        }
    }
    assert(p[0] != '+');
    assert(without_plus(p) == p);
}

/// A text without the separator splits into itself.
pub proof fn lemma_split_on_whole(s: Seq<char>, sep: char)
    requires
        forall|i: int| 0 <= i < s.len() ==> #[trigger] s[i] != sep,
    ensures
        split_on(s, sep) == seq![s],
    decreases s.len(),
{
    if s.len() == 0 {
        assert(s =~= Seq::<char>::empty());
        assert(split_on(s, sep) =~= seq![s]);
    } else {
        lemma_split_on_whole(s.drop_last(), sep);
        assert(s[s.len() - 1] != sep);
        let r = split_on(s.drop_last(), sep);
        assert(r == seq![s.drop_last()]);
        let t = s.drop_last().push(s.last());
        assert(t =~= s);
        assert(split_on(s, sep) == r.update(0, t));
        assert(r.update(0, t) =~= seq![t]);
    }
}

/// Splitting at a separator splits each side.
pub proof fn lemma_split_on_concat(a: Seq<char>, b: Seq<char>, sep: char)
    ensures
        split_on(a + seq![sep] + b, sep) == split_on(a, sep) + split_on(b, sep),
    decreases b.len(),
{
    let c = a + seq![sep] + b;
    if b.len() == 0 {
        assert(c.drop_last() =~= a);
        assert(split_on(c, sep) =~= split_on(a, sep) + split_on(b, sep));
    } else {
        lemma_split_on_concat(a, b.drop_last(), sep);
        lemma_split_on_nonempty(b.drop_last(), sep);
        assert(c.drop_last() =~= a + seq![sep] + b.drop_last());
        assert(split_on(c, sep) =~= split_on(a, sep) + split_on(b, sep));
    }
}

} // verus!
