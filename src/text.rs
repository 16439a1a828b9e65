//! Character-level building blocks shared by the URL and token encoders.
use vstd::prelude::*;
use vstd::slice::slice_subrange;
use vstd::std_specs::iter::IteratorSpec;
use vstd::utf8::is_scalar;

verus! {

/// Relies on `String::push`: appends one character at the end.
pub assume_specification[ String::push ](s: &mut String, ch: char)
    ensures
        final(s)@ == old(s)@.push(ch),
;

/// The ASCII character of a decimal digit.
pub open spec fn decimal_digit(d: nat) -> char
    recommends
        d < 10,
{
    (48 + d) as char
}

/// The shortest decimal form of a natural number.
pub open spec fn decimal(n: nat) -> Seq<char>
    decreases n,
{
    if n < 10 {
        seq![decimal_digit(n)]
    } else {
        decimal(n / 10).push(decimal_digit(n % 10))
    }
}

/// Appends the decimal form of `n`.
pub(crate) fn push_decimal(out: &mut String, n: usize)
    ensures
        final(out)@ == old(out)@ + decimal(n as nat),
    decreases n,
{
    if n >= 10 {
        push_decimal(out, n / 10);
    }
    let d: u8 = (n % 10) as u8;
    out.push((48u8 + d) as char);
    proof {
        assert(((48u8 + d) as char) == decimal_digit((n % 10) as nat));
    }
}

/// Appends a whole string.
pub(crate) fn push_str(out: &mut String, s: &str)
    ensures
        final(out)@ == old(out)@ + s@,
{
    out.append(s);
}


/// Sixteen to the power `n`.
pub open spec fn pow16(n: nat) -> nat
    decreases n,
{
    if n == 0 {
        1
    } else {
        16 * pow16((n - 1) as nat)
    }
}

/// The lowercase hexadecimal digit of a value below sixteen.
pub open spec fn hex_digit(d: nat) -> char {
    if d < 10 {
        (48 + d) as char
    } else {
        (87 + d) as char
    }
}

/// The value of a lowercase hexadecimal digit.
pub open spec fn hex_value(c: char) -> Option<nat> {
    if '0' <= c && c <= '9' {
        Some((c as u32 - 48) as nat)
    } else if 'a' <= c && c <= 'f' {
        Some((c as u32 - 87) as nat)
    } else {
        None
    }
}

/// The last `n` hexadecimal digits of `v`, most significant first.
pub open spec fn hex_fixed(v: nat, n: nat) -> Seq<char>
    decreases n,
{
    if n == 0 {
        seq![]
    } else {
        hex_fixed(v / 16, (n - 1) as nat).push(hex_digit(v % 16))
    }
}

/// The number that a string of lowercase hexadecimal digits writes.
pub open spec fn hex_number(s: Seq<char>) -> Option<nat>
    decreases s.len(),
{
    if s.len() == 0 {
        Some(0)
    } else {
        match (hex_number(s.drop_last()), hex_value(s.last())) {
            (Some(h), Some(d)) => Some(h * 16 + d),
            _ => None,
        }
    }
}

pub proof fn lemma_pow16_mono(a: nat, b: nat)
    requires
        a <= b,
    ensures
        pow16(a) <= pow16(b),
    decreases b,
{
    if a < b {
        lemma_pow16_mono(a, (b - 1) as nat);
    }
}

pub proof fn lemma_pow16_sixteen()
    ensures
        pow16(16) == 0x1_0000_0000_0000_0000,
        pow16(6) == 0x100_0000,
{
    reveal_with_fuel(pow16, 17);
}

/// Reading back `n` digits of a value below `16^n` gives that value.
pub proof fn lemma_hex_round_trip(v: nat, n: nat)
    requires
        v < pow16(n),
    ensures
        hex_fixed(v, n).len() == n,
        hex_number(hex_fixed(v, n)) == Some(v),
    decreases n,
{
    if n > 0 {
        lemma_hex_round_trip(v / 16, (n - 1) as nat);
        assert(hex_fixed(v, n).drop_last() == hex_fixed(v / 16, (n - 1) as nat));
    }
}

pub proof fn lemma_hex_number_bound(s: Seq<char>)
    ensures
        hex_number(s) matches Some(x) ==> x < pow16(s.len()),
    decreases s.len(),
{
    if s.len() > 0 {
        lemma_hex_number_bound(s.drop_last());
        if let Some(x) = hex_number(s) {
            let h = hex_number(s.drop_last())->0;
            let p = pow16((s.len() - 1) as nat);
            assert(h < p);
            assert(h * 16 + 15 < 16 * p) by (nonlinear_arith)
                requires
                    h < p,
            ;
        }
    }
}

pub proof fn lemma_hex_number_bad_digit(s: Seq<char>, k: int)
    requires
        0 <= k < s.len(),
        hex_value(s[k]) is None,
    ensures
        hex_number(s) is None,
    decreases s.len(),
{
    if k < s.len() - 1 {
        lemma_hex_number_bad_digit(s.drop_last(), k);
    }
}

fn hex_digit_char(d: u64) -> (c: char)
    requires
        d < 16,
    ensures
        c == hex_digit(d as nat),
{
    if d < 10 {
        ((48 + d) as u8) as char
    } else {
        ((87 + d) as u8) as char
    }
}

fn hex_value_of(c: char) -> (r: Option<u64>)
    ensures
        r matches Some(d) ==> hex_value(c) == Some(d as nat) && d < 16,
        r is None ==> hex_value(c) is None,
{
    if '0' <= c && c <= '9' {
        Some((c as u32 - 48) as u64)
    } else if 'a' <= c && c <= 'f' {
        Some((c as u32 - 87) as u64)
    } else {
        None
    }
}

/// Appends the last `n` hexadecimal digits of `v`.
pub(crate) fn push_hex(out: &mut String, v: u64, n: usize)
    ensures
        final(out)@ == old(out)@ + hex_fixed(v as nat, n as nat),
    decreases n,
{
    if n > 0 {
        push_hex(out, v / 16, n - 1);
        out.push(hex_digit_char(v % 16));
    }
}

/// Reads a string of at most sixteen lowercase hexadecimal digits.
pub(crate) fn read_hex(s: &[char]) -> (r: Option<u64>)
    requires
        s@.len() <= 16,
    ensures
        r is Some <==> hex_number(s@) is Some,
        r matches Some(v) ==> hex_number(s@) == Some(v as nat),
{
    proof {
        lemma_pow16_sixteen();
    }
    let mut acc: u64 = 0;
    let mut i: usize = 0;
    while i < s.len()
        invariant
            0 <= i <= s@.len() <= 16,
            pow16(16) == 0x1_0000_0000_0000_0000,
            hex_number(s@.take(i as int)) == Some(acc as nat),
        decreases s@.len() - i,
    {
        let d = match hex_value_of(s[i]) {
            Some(d) => d,
            None => {
                proof {
                    lemma_hex_number_bad_digit(s@, i as int);
                }
                return None;
            },
        };
        proof {
            let t = s@.take(i as int + 1);
            assert(t.drop_last() == s@.take(i as int));
            lemma_hex_number_bound(t);
            lemma_pow16_mono(t.len(), 16);
        }
        acc = acc * 16 + d;
        i += 1;
    }
    assert(s@.take(i as int) == s@);
    Some(acc)
}


/// Relies on `char::from_u32`: the character of a Unicode scalar value, `None` for any other number.
pub assume_specification[ char::from_u32 ](i: u32) -> (r: Option<char>)
    ensures
        r == (if is_scalar(i) {
            Some(i as char)
        } else {
            None
        }),
;

/// The characters of `s`, one by one.
pub(crate) fn chars_of(s: &str) -> (r: Vec<char>)
    ensures
        r@ == s@,
{
    broadcast use vstd::string::group_string_axioms;

    let mut it = s.chars();
    let mut r: Vec<char> = Vec::new();
    loop
        invariant
            r@ + it.remaining() == s@,
            it.decrease() is Some,
        decreases it.decrease()->0,
    {
        match it.next() {
            Some(c) => {
                r.push(c);
            },
            None => {
                assert(r@ + it.remaining() == r@);
                return r;
            },
        }
    }
}

/// No position of `s` holds `c`.
pub open spec fn lacks(s: Seq<char>, c: char) -> bool {
    forall|j: int| 0 <= j < s.len() ==> s[j] != c
}

/// Characters that stand for themselves in escaped text: ASCII letters and digits.
pub open spec fn is_plain(c: char) -> bool {
    ('0' <= c && c <= '9') || ('a' <= c && c <= 'z') || ('A' <= c && c <= 'Z')
}

/// One character escaped: itself if plain, else `~` and six hexadecimal digits of its code.
pub open spec fn escape_char(c: char) -> Seq<char> {
    if is_plain(c) {
        seq![c]
    } else {
        seq!['~'] + hex_fixed(c as u32 as nat, 6)
    }
}

/// A string escaped character by character.
pub open spec fn escape(s: Seq<char>) -> Seq<char>
    decreases s.len(),
{
    if s.len() == 0 {
        seq![]
    } else {
        escape(s.drop_last()) + escape_char(s.last())
    }
}

/// The string that escaped text stands for, if it is well formed.
pub open spec fn unescape(t: Seq<char>) -> Option<Seq<char>>
    decreases t.len(),
{
    if t.len() == 0 {
        Some(seq![])
    } else if is_plain(t[0]) {
        match unescape(t.drop_first()) {
            Some(r) => Some(seq![t[0]] + r),
            None => None,
        }
    } else if t[0] == '~' && t.len() >= 7 {
        match hex_number(t.subrange(1, 7)) {
            Some(v) => if is_scalar(v as u32) {
                match unescape(t.subrange(7, t.len() as int)) {
                    Some(r) => Some(seq![(v as u32) as char] + r),
                    None => None,
                }
            } else {
                None
            },
            None => None,
        }
    } else {
        None
    }
}

/// Escaped text holds only plain characters, `~` and hexadecimal digits.
pub open spec fn escaped_char(c: char) -> bool {
    is_plain(c) || c == '~'
}

pub proof fn lemma_escape_concat(a: Seq<char>, b: Seq<char>)
    ensures
        escape(a + b) == escape(a) + escape(b),
    decreases b.len(),
{
    if b.len() == 0 {
        assert(a + b == a);
    } else {
        assert((a + b).drop_last() == a + b.drop_last());
        lemma_escape_concat(a, b.drop_last());
    }
}

proof fn lemma_hex_digit_plain(d: nat)
    requires
        d < 16,
    ensures
        is_plain(hex_digit(d)),
{
}

pub proof fn lemma_hex_fixed_chars(v: nat, n: nat)
    ensures
        forall|j: int| 0 <= j < hex_fixed(v, n).len() ==> is_plain(#[trigger] hex_fixed(v, n)[j]),
    decreases n,
{
    if n > 0 {
        lemma_hex_fixed_chars(v / 16, (n - 1) as nat);
        lemma_hex_digit_plain(v % 16);
        let h = hex_fixed(v, n);
        let p = hex_fixed(v / 16, (n - 1) as nat);
        assert forall|j: int| 0 <= j < h.len() implies is_plain(#[trigger] h[j]) by {
            if j < p.len() {
                assert(h[j] == p[j]);
            }
        }
    }
}

pub proof fn lemma_escape_chars(s: Seq<char>)
    ensures
        forall|j: int| 0 <= j < escape(s).len() ==> escaped_char(#[trigger] escape(s)[j]),
    decreases s.len(),
{
    if s.len() > 0 {
        let c = s.last();
        vstd::utf8::char_is_scalar(c);
        lemma_escape_chars(s.drop_last());
        lemma_hex_fixed_chars(c as u32 as nat, 6);
        let e = escape(s);
        let p = escape(s.drop_last());
        let x = escape_char(c);
        assert forall|j: int| 0 <= j < e.len() implies escaped_char(#[trigger] e[j]) by {
            if j < p.len() {
                assert(e[j] == p[j]);
            } else if !is_plain(c) && j > p.len() {
                assert(e[j] == hex_fixed(c as u32 as nat, 6)[j - p.len() - 1]);
            }
        }
    }
}

/// Escaped text holds none of the characters that separate fields.
pub proof fn lemma_escape_lacks(s: Seq<char>, c: char)
    requires
        !escaped_char(c),
    ensures
        lacks(escape(s), c),
{
    lemma_escape_chars(s);
}

pub proof fn lemma_unescape_escape(s: Seq<char>)
    ensures
        unescape(escape(s)) == Some(s),
    decreases s.len(),
{
    broadcast use vstd::utf8::char_is_scalar, vstd::utf8::char_u32_cast;

    if s.len() > 0 {
        let c = s[0];
        let rest = s.drop_first();
        assert(s == seq![c] + rest);
        lemma_escape_concat(seq![c], rest);
        assert(seq![c].drop_last() == Seq::<char>::empty());
        assert(escape(Seq::<char>::empty()) == Seq::<char>::empty());
        assert(Seq::<char>::empty() + escape_char(c) == escape_char(c));
        assert(escape(seq![c]) == escape_char(c));
        lemma_unescape_escape(rest);
        let t = escape(s);
        assert(t == escape_char(c) + escape(rest));
        if is_plain(c) {
            assert(t[0] == c);
            assert(t.drop_first() == escape(rest));
            assert(unescape(t) == Some(seq![c] + rest));
        } else {
            vstd::utf8::char_is_scalar(c);
            let code = c as u32 as nat;
            lemma_pow16_sixteen();
            lemma_hex_round_trip(code, 6);
            assert(t.subrange(1, 7) == hex_fixed(code, 6));
            assert(t.subrange(7, t.len() as int) == escape(rest));
            assert(t[0] == '~');
            assert(!is_plain('~'));
            assert(hex_number(t.subrange(1, 7)) == Some(code));
            let u = code as u32;
            assert(u == c as u32);
            vstd::utf8::char_u32_cast(c, u);
            assert(is_scalar(u));
            assert(unescape(t) == Some(seq![c] + rest));
        }
    }
}

/// Appends `s` escaped.
pub(crate) fn push_escaped(out: &mut String, s: &str)
    ensures
        final(out)@ == old(out)@ + escape(s@),
{
    let cs = chars_of(s);
    let ghost start = out@;
    let mut i: usize = 0;
    while i < cs.len()
        invariant
            0 <= i <= cs@.len(),
            cs@ == s@,
            out@ == start + escape(cs@.take(i as int)),
        decreases cs@.len() - i,
    {
        let c = cs[i];
        if ('0' <= c && c <= '9') || ('a' <= c && c <= 'z') || ('A' <= c && c <= 'Z') {
            out.push(c);
        } else {
            out.push('~');
            push_hex(out, c as u32 as u64, 6);
        }
        proof {
            assert(cs@.take(i as int + 1).drop_last() == cs@.take(i as int));
        }
        i += 1;
    }
    assert(cs@.take(i as int) == s@);
}

/// The string that escaped text stands for, if it is well formed.
pub(crate) fn read_escaped(t: &[char]) -> (r: Option<String>)
    ensures
        r is Some <==> unescape(t@) is Some,
        r matches Some(x) ==> unescape(t@) == Some(x@),
{
    let mut out = String::new();
    let mut i: usize = 0;
    proof {
        assert(t@.skip(0) == t@);
        if let Some(r) = unescape(t@) {
            assert(out@ + r == r);
        }
    }
    while i < t.len()
        invariant
            0 <= i <= t@.len(),
            unescape(t@) == (match unescape(t@.skip(i as int)) {
                Some(r) => Some(out@ + r),
                None => None,
            }),
        decreases t@.len() - i,
    {
        let ghost rest = t@.skip(i as int);
        let c = t[i];
        if ('0' <= c && c <= '9') || ('a' <= c && c <= 'z') || ('A' <= c && c <= 'Z') {
            proof {
                assert(rest.drop_first() == t@.skip(i as int + 1));
                match unescape(t@.skip(i as int + 1)) {
                    Some(r) => {
                        assert(out@ + (seq![c] + r) == out@.push(c) + r);
                    },
                    None => {},
                }
            }
            out.push(c);
            i += 1;
        } else if c == '~' && t.len() - i >= 7 {
            let code = match read_hex(slice_subrange(t, i + 1, i + 7)) {
                Some(v) => v,
                None => {
                    assert(rest.subrange(1, 7) == t@.subrange(i + 1, i + 7));
                    return None;
                },
            };
            proof {
                assert(rest.subrange(1, 7) == t@.subrange(i + 1, i + 7));
                lemma_hex_number_bound(t@.subrange(i + 1, i + 7));
                lemma_pow16_sixteen();
            }
            match char::from_u32(code as u32) {
                Some(d) => {
                    proof {
                        assert(rest.subrange(7, rest.len() as int) == t@.skip(i as int + 7));
                        match unescape(t@.skip(i as int + 7)) {
                            Some(r) => {
                                assert(out@ + (seq![d] + r) == out@.push(d) + r);
                            },
                            None => {},
                        }
                    }
                    out.push(d);
                    i += 7;
                },
                None => {
                    return None;
                },
            }
        } else {
            return None;
        }
    }
    proof {
        assert(t@.skip(i as int) == Seq::<char>::empty());
        assert(out@ + Seq::<char>::empty() == out@);
    }
    Some(out)
}

/// Where `c` first occurs in `t`.
pub open spec fn find(t: Seq<char>, c: char) -> Option<nat>
    decreases t.len(),
{
    if t.len() == 0 {
        None
    } else if t[0] == c {
        Some(0)
    } else {
        match find(t.drop_first(), c) {
            Some(k) => Some(k + 1),
            None => None,
        }
    }
}

/// `t` split at the first `c`: what comes before it and what comes after it.
pub open spec fn cut(t: Seq<char>, c: char) -> Option<(Seq<char>, Seq<char>)> {
    match find(t, c) {
        Some(i) => Some((t.take(i as int), t.skip(i + 1 as int))),
        None => None,
    }
}

pub proof fn lemma_find_bound(t: Seq<char>, c: char)
    ensures
        find(t, c) matches Some(i) ==> i < t.len() && t[i as int] == c && lacks(t.take(i as int), c),
        find(t, c) is None ==> lacks(t, c),
    decreases t.len(),
{
    if t.len() > 0 {
        lemma_find_bound(t.drop_first(), c);
        if let Some(i) = find(t, c) {
            if i > 0 {
                assert forall|j: int| 0 <= j < i implies t.take(i as int)[j] != c by {
                    if j > 0 {
                        assert(t.take(i as int)[j] == t.drop_first().take(i - 1)[j - 1]);
                    }
                }
            }
        } else {
            assert forall|j: int| 0 <= j < t.len() implies t[j] != c by {
                if j > 0 {
                    assert(t[j] == t.drop_first()[j - 1]);
                }
            }
        }
    }
}

pub proof fn lemma_find_first(t: Seq<char>, c: char, i: int)
    requires
        0 <= i < t.len(),
        t[i] == c,
        lacks(t.take(i), c),
    ensures
        find(t, c) == Some(i as nat),
    decreases t.len(),
{
    if i > 0 {
        assert(t[0] == t.take(i)[0]);
        assert forall|j: int| 0 <= j < i - 1 implies #[trigger] t.drop_first().take(i - 1)[j] != c by {
            assert(t.drop_first().take(i - 1)[j] == t.take(i)[j + 1]);
        }
        lemma_find_first(t.drop_first(), c, i - 1);
    }
}

/// Text that lacks `c`, then `c`, then anything: cutting at `c` gives back the two sides.
pub proof fn lemma_cut_concat(a: Seq<char>, b: Seq<char>, c: char)
    requires
        lacks(a, c),
    ensures
        cut(a + seq![c] + b, c) == Some((a, b)),
{
    let t = a + seq![c] + b;
    assert(t.take(a.len() as int) == a);
    lemma_find_first(t, c, a.len() as int);
    assert(t.skip(a.len() + 1 as int) == b);
}

/// Splits `t` at its first `c`.
pub(crate) fn cut_at<'a>(t: &'a [char], c: char) -> (r: Option<(&'a [char], &'a [char])>)
    ensures
        r matches Some((a, b)) ==> {
            &&& cut(t@, c) == Some((a@, b@))
            &&& t@ == a@ + seq![c] + b@
            &&& lacks(a@, c)
        },
        r is None ==> cut(t@, c) is None,
{
    let mut i: usize = 0;
    while i < t.len()
        invariant
            0 <= i <= t@.len(),
            lacks(t@.take(i as int), c),
        decreases t@.len() - i,
    {
        if t[i] == c {
            proof {
                lemma_find_first(t@, c, i as int);
                assert(t@ == t@.take(i as int) + seq![c] + t@.skip(i + 1 as int));
            }
            return Some((slice_subrange(t, 0, i), slice_subrange(t, i + 1, t.len())));
        }
        proof {
            assert forall|j: int| 0 <= j < i + 1 implies #[trigger] t@.take(i as int + 1)[j] != c by {
                if j < i {
                    assert(t@.take(i as int + 1)[j] == t@.take(i as int)[j]);
                }
            }
        }
        i += 1;
    }
    proof {
        lemma_find_bound(t@, c);
        assert(t@.take(i as int) == t@);
    }
    None
}


/// A string holding the given characters.
pub(crate) fn string_of(cs: &[char]) -> (r: String)
    ensures
        r@ == cs@,
{
    let mut r = String::new();
    let mut i: usize = 0;
    while i < cs.len()
        invariant
            0 <= i <= cs@.len(),
            r@ == cs@.take(i as int),
        decreases cs@.len() - i,
    {
        r.push(cs[i]);
        proof {
            assert(cs@.take(i as int + 1) == cs@.take(i as int).push(cs@[i as int]));
        }
        i += 1;
    }
    assert(cs@.take(i as int) == cs@);
    r
}

/// Whether two runs of characters are the same.
pub(crate) fn same_chars(a: &[char], b: &[char]) -> (r: bool)
    ensures
        r == (a@ == b@),
{
    if a.len() != b.len() {
        return false;
    }
    let mut i: usize = 0;
    while i < a.len()
        invariant
            0 <= i <= a@.len(),
            a@.len() == b@.len(),
            a@.take(i as int) == b@.take(i as int),
        decreases a@.len() - i,
    {
        if a[i] != b[i] {
            return false;
        }
        proof {
            assert(a@.take(i as int + 1) == a@.take(i as int).push(a@[i as int]));
            assert(b@.take(i as int + 1) == b@.take(i as int).push(b@[i as int]));
        }
        i += 1;
    }
    assert(a@.take(i as int) == a@);
    assert(b@.take(i as int) == b@);
    true
}

} // verus!
