//! Character-level helpers shared by the parsers and the tools: whitespace
//! and trimming as `str::trim` defines them, decimal rendering, UTF-8 byte
//! offsets, and conversions between strings and character vectors.
use vstd::prelude::*;
use vstd::utf8::*;
use vstd::std_specs::iter::IteratorSpec;

verus! {

/// `char::is_whitespace`: the characters with the Unicode `White_Space` property.
pub open spec fn is_ws(c: char) -> bool {
    ||| c == '\t' || c == '\n' || c == '\u{0B}' || c == '\u{0C}' || c == '\r' || c == ' '
    ||| c == '\u{85}' || c == '\u{A0}' || c == '\u{1680}'
    ||| ('\u{2000}' <= c && c <= '\u{200A}')
    ||| c == '\u{2028}' || c == '\u{2029}' || c == '\u{202F}' || c == '\u{205F}' || c == '\u{3000}'
}

/// `u8::is_ascii_whitespace` on the character's code: space, tab, line feed,
/// form feed and carriage return.
pub open spec fn is_ascii_ws(c: char) -> bool {
    c == ' ' || c == '\t' || c == '\n' || c == '\u{0C}' || c == '\r'
}

pub open spec fn trim_start(s: Seq<char>) -> Seq<char>
    decreases s.len(),
{
    if s.len() > 0 && is_ws(s[0]) {
        trim_start(s.drop_first())
    } else {
        s
    }
}

pub open spec fn trim_end(s: Seq<char>) -> Seq<char>
    decreases s.len(),
{
    if s.len() > 0 && is_ws(s.last()) {
        trim_end(s.drop_last())
    } else {
        s
    }
}

/// `str::trim`: leading and trailing whitespace removed.
pub open spec fn trim(s: Seq<char>) -> Seq<char> {
    trim_end(trim_start(s))
}

pub proof fn lemma_trim_empty()
    ensures
        trim(Seq::<char>::empty()) == Seq::<char>::empty(),
{
    assert(trim_start(Seq::<char>::empty()) == Seq::<char>::empty());
}

pub fn is_ws_exec(c: char) -> (r: bool)
    ensures
        r == is_ws(c),
{
    c == '\t' || c == '\n' || c == '\u{0B}' || c == '\u{0C}' || c == '\r' || c == ' ' || c
        == '\u{85}' || c == '\u{A0}' || c == '\u{1680}' || ('\u{2000}' <= c && c <= '\u{200A}')
        || c == '\u{2028}' || c == '\u{2029}' || c == '\u{202F}' || c == '\u{205F}' || c
        == '\u{3000}'
}

pub fn is_ascii_ws_exec(c: char) -> (r: bool)
    ensures
        r == is_ascii_ws(c),
{
    c == ' ' || c == '\t' || c == '\n' || c == '\u{0C}' || c == '\r'
}

/// The bounds of `trim(v[lo..hi])` inside `v`.
pub fn trim_bounds(v: &[char], lo: usize, hi: usize) -> (r: (usize, usize))
    requires
        lo <= hi <= v@.len(),
    ensures
        lo <= r.0 <= r.1 <= hi,
        v@.subrange(r.0 as int, r.1 as int) == trim(v@.subrange(lo as int, hi as int)),
{
    let mut a: usize = lo;
    while a < hi && is_ws_exec(v[a])
        invariant
            lo <= a <= hi <= v@.len(),
            trim_start(v@.subrange(lo as int, hi as int)) == trim_start(
                v@.subrange(a as int, hi as int),
            ),
        decreases hi - a,
    {
        assert(v@.subrange(a as int, hi as int).drop_first() =~= v@.subrange(
            a + 1,
            hi as int,
        ));
        a = a + 1;
    }
    assert(trim_start(v@.subrange(a as int, hi as int)) == v@.subrange(a as int, hi as int));
    let mut b: usize = hi;
    while b > a && is_ws_exec(v[b - 1])
        invariant
            lo <= a <= b <= hi <= v@.len(),
            trim_end(v@.subrange(a as int, hi as int)) == trim_end(
                v@.subrange(a as int, b as int),
            ),
        decreases b - a,
    {
        assert(v@.subrange(a as int, b as int).drop_last() =~= v@.subrange(
            a as int,
            b - 1,
        ));
        b = b - 1;
    }
    (a, b)
}

/// The characters of a string slice.
pub(crate) fn chars_of(s: &str) -> (r: Vec<char>)
    ensures
        r@ == s@,
{
    broadcast use vstd::string::group_string_axioms;

    let mut it = s.chars();
    let mut out: Vec<char> = Vec::new();
    loop
        invariant
            out@ + it.remaining() == s@,
            it.decrease() is Some,
        decreases it.decrease()->0,
    {
        let ghost before = it.remaining();
        match it.next() {
            Some(c) => {
                out.push(c);
                assert(out@ + it.remaining() =~= s@) by {
                    assert(before =~= seq![c] + before.drop_first());
                }
            },
            None => {
                assert(out@ =~= s@);
                return out;
            },
        }
    }
}

/// A string made of the given characters.
#[verifier::external_body]
pub(crate) fn string_of(v: &[char]) -> (r: String)
    ensures
        r@ == v@,
{
    v.iter().collect()
}

/// Appends `src[lo..hi]` to `dst`.
pub fn push_range(dst: &mut Vec<char>, src: &[char], lo: usize, hi: usize)
    requires
        lo <= hi <= src@.len(),
    ensures
        final(dst)@ == old(dst)@ + src@.subrange(lo as int, hi as int),
{
    let mut i: usize = lo;
    while i < hi
        invariant
            lo <= i <= hi <= src@.len(),
            dst@ == old(dst)@ + src@.subrange(lo as int, i as int),
        decreases hi - i,
    {
        dst.push(src[i]);
        assert(src@.subrange(lo as int, i + 1) =~= src@.subrange(lo as int, i as int).push(
            src@[i as int],
        ));
        i = i + 1;
    }
}

/// Appends all of `src` to `dst`.
pub fn push_all(dst: &mut Vec<char>, src: &[char])
    ensures
        final(dst)@ == old(dst)@ + src@,
{
    push_range(dst, src, 0, src.len());
    assert(src@.subrange(0, src@.len() as int) =~= src@);
}

/// Appends the characters of a string to `dst`.
pub fn push_str(dst: &mut Vec<char>, s: &str)
    ensures
        final(dst)@ == old(dst)@ + s@,
{
    let cs = chars_of(s);
    push_all(dst, cs.as_slice());
}

/// The decimal digits of a natural number, as `Display` writes them.
pub open spec fn decimal(n: nat) -> Seq<char>
    decreases n,
{
    if n < 10 {
        seq![digit_char(n)]
    } else {
        decimal(n / 10).push(digit_char(n % 10))
    }
}

pub open spec fn digit_char(d: nat) -> char {
    ((d + 48) as u32) as char
}

pub fn digit_exec(d: u128) -> (c: char)
    requires
        d < 10,
    ensures
        c == digit_char(d as nat),
{
    if d == 0 {
        '0'
    } else if d == 1 {
        '1'
    } else if d == 2 {
        '2'
    } else if d == 3 {
        '3'
    } else if d == 4 {
        '4'
    } else if d == 5 {
        '5'
    } else if d == 6 {
        '6'
    } else if d == 7 {
        '7'
    } else if d == 8 {
        '8'
    } else {
        '9'
    }
}

/// Appends the decimal rendering of `n` to `dst`.
pub fn push_decimal(dst: &mut Vec<char>, n: u128)
    ensures
        final(dst)@ == old(dst)@ + decimal(n as nat),
    decreases n,
{
    if n < 10 {
        dst.push(digit_exec(n));
        assert(decimal(n as nat) =~= seq![digit_char(n as nat)]);
    } else {
        push_decimal(dst, n / 10);
        dst.push(digit_exec(n % 10));
    }
}

/// Number of UTF-8 bytes that encode the characters.
pub open spec fn utf8_len(s: Seq<char>) -> nat {
    encode_utf8(s).len()
}

pub proof fn lemma_encode_utf8_append(a: Seq<char>, b: Seq<char>)
    ensures
        encode_utf8(a + b) == encode_utf8(a) + encode_utf8(b),
    decreases a.len(),
{
    if a.len() == 0 {
        assert(a + b =~= b);
    } else {
        lemma_encode_utf8_append(a.drop_first(), b);
        assert((a + b).drop_first() =~= a.drop_first() + b);
        assert((a + b)[0] == a[0]);
    }
}

pub proof fn lemma_encode_one(c: char)
    ensures
        encode_utf8(seq![c]) == encode_scalar(c as u32),
{
    let s = seq![c];
    assert(s.drop_first() =~= Seq::<char>::empty());
    assert(encode_utf8(s.drop_first()) =~= Seq::<u8>::empty());
    assert(encode_utf8(s) == encode_scalar(s[0] as u32) + encode_utf8(s.drop_first()));
    assert(encode_scalar(c as u32) + Seq::<u8>::empty() =~= encode_scalar(c as u32));
}

/// Number of bytes in the UTF-8 encoding of `c`.
pub fn char_utf8_len(c: char) -> (n: u128)
    ensures
        n == encode_scalar(c as u32).len(),
        1 <= n <= 4,
{
    proof {
        char_is_scalar(c);
    }
    let v = c as u32;
    if v <= 0x7f {
        1
    } else if v <= 0x7ff {
        2
    } else if v <= 0xffff {
        3
    } else {
        4
    }
}

/// The byte offset of character position `n` in `v`.
pub fn byte_offset(v: &[char], n: usize) -> (r: u128)
    requires
        n <= v@.len(),
    ensures
        r == utf8_len(v@.subrange(0, n as int)),
{
    let mut i: usize = 0;
    let mut acc: u128 = 0;
    assert(v@.subrange(0, 0) =~= Seq::<char>::empty());
    while i < n
        invariant
            i <= n <= v@.len(),
            n <= usize::MAX,
            acc == utf8_len(v@.subrange(0, i as int)),
            acc <= 4 * i,
        decreases n - i,
    {
        let c = v[i];
        proof {
            assert(v@.subrange(0, i + 1) =~= v@.subrange(0, i as int) + seq![c]);
            lemma_encode_utf8_append(v@.subrange(0, i as int), seq![c]);
            lemma_encode_one(c);
        }
        acc = acc + char_utf8_len(c);
        i = i + 1;
    }
    acc
}

/// The first byte of the UTF-8 encoding of `c`, read back as a character the
/// way `byte as char` does.
pub open spec fn lead_char(c: char) -> char {
    (encode_scalar(c as u32)[0] as u32) as char
}

pub fn lead_char_exec(c: char) -> (r: char)
    ensures
        r == lead_char(c),
{
    proof {
        char_is_scalar(c);
    }
    let v = c as u32;
    let b: u8 = if v <= 0x7f {
        (v & 0x7F) as u8
    } else if v <= 0x7ff {
        0xC0u8 | ((v >> 6) & 0x1F) as u8
    } else if v <= 0xffff {
        0xE0u8 | ((v >> 12) & 0x0F) as u8
    } else {
        0xF0u8 | ((v >> 18) & 0x7) as u8
    };
    assert(b == encode_scalar(v)[0]);
    b as char
}

/// What `format!("{:?}", c)` writes for a character.
pub uninterp spec fn char_debug(c: char) -> Seq<char>;

/// What `format!("{:?}", s)` writes for a string.
pub uninterp spec fn str_debug(s: Seq<char>) -> Seq<char>;

/// `Debug` of a `char`: the character in single quotes with `char::escape_debug`
/// applied. The contract only names the result; its exact text is std's.
#[verifier::external_body]
pub(crate) fn char_debug_text(c: char) -> (r: String)
    ensures
        r@ == char_debug(c),
{
    format!("{:?}", c)
}

/// `Debug` of a `str`: the text in double quotes with `str::escape_debug`
/// applied. The contract only names the result; its exact text is std's.
#[verifier::external_body]
pub(crate) fn str_debug_text(s: &str) -> (r: String)
    ensures
        r@ == str_debug(s@),
{
    format!("{:?}", s)
}

/// What `format!("{:?}", o)` writes for an `Option<char>`.
pub open spec fn option_char_debug(o: Option<char>) -> Seq<char> {
    match o {
        Some(c) => seq!['S', 'o', 'm', 'e', '('] + char_debug(c) + seq![')'],
        None => seq!['N', 'o', 'n', 'e'],
    }
}

pub fn push_option_char_debug(dst: &mut Vec<char>, o: Option<char>)
    ensures
        final(dst)@ == old(dst)@ + option_char_debug(o),
{
    match o {
        Some(c) => {
            let ghost d0 = dst@;
            dst.push('S');
            dst.push('o');
            dst.push('m');
            dst.push('e');
            dst.push('(');
            let t = char_debug_text(c);
            push_str(dst, t.as_str());
            dst.push(')');
            assert(dst@ =~= d0 + option_char_debug(o));
        },
        None => {
            let ghost d0 = dst@;
            dst.push('N');
            dst.push('o');
            dst.push('n');
            dst.push('e');
            assert(dst@ =~= d0 + option_char_debug(o));
        },
    }
}

/// Equality of two string slices.
#[verifier::external_body]
pub(crate) fn str_eq(a: &str, b: &str) -> (r: bool)
    ensures
        r == (a@ == b@),
{
    a == b
}

/// Equality of two character slices.
pub fn chars_eq(a: &[char], b: &[char]) -> (r: bool)
    ensures
        r == (a@ == b@),
{
    if a.len() != b.len() {
        return false;
    }
    let mut i: usize = 0;
    while i < a.len()
        invariant
            a@.len() == b@.len(),
            i <= a@.len(),
            forall|j: int| 0 <= j < i ==> a@[j] == b@[j],
        decreases a.len() - i,
    {
        if a[i] != b[i] {
            return false;
        }
        i = i + 1;
    }
    assert(a@ =~= b@);
    true
}

} // verus!

verus! {

// ===================================================================
// Integers, as `FromStr` for the integer types reads them
// ===================================================================

pub open spec fn is_digit(c: char) -> bool {
    '0' <= c && c <= '9'
}

pub open spec fn all_digits(d: Seq<char>) -> bool {
    forall|i: int| 0 <= i < d.len() ==> is_digit(#[trigger] d[i])
}

/// The number that a run of decimal digits denotes.
pub open spec fn digits_value(d: Seq<char>) -> nat
    decreases d.len(),
{
    if d.len() == 0 {
        0
    } else {
        digits_value(d.drop_last()) * 10 + ((d.last() as u32) - 48) as nat
    }
}

/// An optional `+` or `-` followed by at least one ASCII digit: the integer
/// it denotes, before any range check.
pub open spec fn signed_number(s: Seq<char>) -> Option<int> {
    if s.len() > 0 && (s[0] == '+' || s[0] == '-') {
        let d = s.drop_first();
        if d.len() > 0 && all_digits(d) {
            Some(
                if s[0] == '-' {
                    -(digits_value(d) as int)
                } else {
                    digits_value(d) as int
                },
            )
        } else {
            None
        }
    } else if s.len() > 0 && all_digits(s) {
        Some(digits_value(s) as int)
    } else {
        None
    }
}

/// `s.parse::<i64>()`: `Some` exactly when `s` is a signed decimal number in range.
pub open spec fn parse_i64_spec(s: Seq<char>) -> Option<i64> {
    match signed_number(s) {
        Some(v) => if i64::MIN <= v <= i64::MAX {
            Some(v as i64)
        } else {
            None
        },
        None => None,
    }
}

/// `s.parse::<usize>()`: an optional `+` and at least one digit, in range.
pub open spec fn parse_usize_spec(s: Seq<char>) -> Option<usize> {
    if s.len() > 0 && s[0] == '-' {
        None
    } else {
        match signed_number(s) {
            Some(v) => if 0 <= v <= usize::MAX {
                Some(v as usize)
            } else {
                None
            },
            None => None,
        }
    }
}

pub proof fn lemma_digits_value_mono(d: Seq<char>, k: int, n: int)
    requires
        0 <= k <= n <= d.len(),
        all_digits(d),
    ensures
        digits_value(d.subrange(0, k)) <= digits_value(d.subrange(0, n)),
    decreases n - k,
{
    if k < n {
        lemma_digits_value_mono(d, k, n - 1);
        assert(d.subrange(0, n).drop_last() =~= d.subrange(0, n - 1));
        assert(is_digit(d[n - 1]));
    }
}

/// Reads the digits `v[lo..]`: their value if it is at most `limit`.
fn digits_up_to(v: &[char], lo: usize, limit: u128) -> (r: Option<u128>)
    requires
        lo < v@.len(),
        limit <= 0x1_0000_0000_0000_0000,
    ensures
        match r {
            Some(m) => all_digits(v@.subrange(lo as int, v@.len() as int)) && m == digits_value(
                v@.subrange(lo as int, v@.len() as int),
            ) && m <= limit,
            None => !all_digits(v@.subrange(lo as int, v@.len() as int)) || digits_value(
                v@.subrange(lo as int, v@.len() as int),
            ) > limit,
        },
{
    let ghost d = v@.subrange(lo as int, v@.len() as int);
    let mut i: usize = lo;
    let mut m: u128 = 0;
    assert(d.subrange(0, 0) =~= Seq::<char>::empty());
    while i < v.len()
        invariant
            lo <= i <= v@.len(),
            d == v@.subrange(lo as int, v@.len() as int),
            all_digits(d.subrange(0, i - lo)),
            m == digits_value(d.subrange(0, i - lo)),
            m <= limit,
            limit <= 0x1_0000_0000_0000_0000,
        decreases v@.len() - i,
    {
        let c = v[i];
        if !('0' <= c && c <= '9') {
            assert(d[i - lo] == c);
            return None;
        }
        let dv = (c as u32 - 48) as u128;
        assert(d.subrange(0, i - lo + 1).drop_last() =~= d.subrange(0, i - lo));
        assert(d.subrange(0, i - lo + 1).last() == c);
        if m * 10 + dv > limit {
            proof {
                assert(all_digits(d.subrange(0, i - lo + 1)));
                if all_digits(d) {
                    lemma_digits_value_mono(d, i - lo + 1, d.len() as int);
                    assert(d.subrange(0, d.len() as int) =~= d);
                }
            }
            return None;
        }
        m = m * 10 + dv;
        i = i + 1;
    }
    assert(d.subrange(0, d.len() as int) =~= d);
    Some(m)
}

/// `s.parse::<i64>().ok()` over characters.
pub fn parse_i64(v: &[char]) -> (r: Option<i64>)
    ensures
        r == parse_i64_spec(v@),
{
    if v.len() == 0 {
        return None;
    }
    let c = v[0];
    if c == '+' || c == '-' {
        if v.len() == 1 {
            return None;
        }
        assert(v@.drop_first() =~= v@.subrange(1, v@.len() as int));
        let limit: u128 = if c == '-' {
            0x8000_0000_0000_0000
        } else {
            0x7fff_ffff_ffff_ffff
        };
        match digits_up_to(v, 1, limit) {
            Some(m) => {
                if c == '-' {
                    if m == 0x8000_0000_0000_0000 {
                        Some(i64::MIN)
                    } else {
                        Some(-(m as i64))
                    }
                } else {
                    Some(m as i64)
                }
            },
            None => None,
        }
    } else {
        assert(v@ =~= v@.subrange(0, v@.len() as int));
        match digits_up_to(v, 0, 0x7fff_ffff_ffff_ffff) {
            Some(m) => Some(m as i64),
            None => None,
        }
    }
}

/// `s.parse::<usize>().ok()` over characters.
pub fn parse_usize(v: &[char]) -> (r: Option<usize>)
    ensures
        r == parse_usize_spec(v@),
{
    if v.len() == 0 {
        return None;
    }
    let c = v[0];
    if c == '-' {
        return None;
    }
    let lo: usize = if c == '+' {
        1
    } else {
        0
    };
    if lo == 1 && v.len() == 1 {
        return None;
    }
    if lo == 1 {
        assert(v@.drop_first() =~= v@.subrange(1, v@.len() as int));
    } else {
        assert(v@ =~= v@.subrange(0, v@.len() as int));
    }
    match digits_up_to(v, lo, usize::MAX as u128) {
        Some(m) => Some(m as usize),
        None => None,
    }
}

} // verus!

verus! {

// ===================================================================
// Scanning
// ===================================================================

/// The first position at or after `p` whose character fails `f` (or the end).
pub open spec fn scan_while(s: Seq<char>, p: int, f: spec_fn(char) -> bool) -> int
    decreases s.len() - p,
{
    if 0 <= p < s.len() && f(s[p]) {
        scan_while(s, p + 1, f)
    } else {
        p
    }
}

pub open spec fn starts_with_at(s: Seq<char>, p: int, t: Seq<char>) -> bool {
    0 <= p && p + t.len() <= s.len() && s.subrange(p, p + t.len()) == t
}

/// The first position at or after `q` where `m` occurs in `s`.
pub open spec fn find_from(s: Seq<char>, q: int, m: Seq<char>) -> Option<int>
    decreases s.len() - q,
{
    if q < 0 || q + m.len() > s.len() {
        None
    } else if m.len() == 0 || s.subrange(q, q + m.len()) == m {
        Some(q)
    } else {
        find_from(s, q + 1, m)
    }
}

pub proof fn lemma_scan_while(s: Seq<char>, p: int, f: spec_fn(char) -> bool)
    requires
        0 <= p <= s.len(),
    ensures
        p <= scan_while(s, p, f) <= s.len(),
        forall|i: int| p <= i < scan_while(s, p, f) ==> f(#[trigger] s[i]),
        scan_while(s, p, f) < s.len() ==> !f(s[scan_while(s, p, f)]),
    decreases s.len() - p,
{
    if 0 <= p < s.len() && f(s[p]) {
        lemma_scan_while(s, p + 1, f);
    }
}

/// Scanning ignores a prefix that satisfies the predicate.
pub proof fn lemma_scan_while_skip(s: Seq<char>, p: int, w: int, f: spec_fn(char) -> bool)
    requires
        0 <= p <= w <= s.len(),
        forall|i: int| p <= i < w ==> f(#[trigger] s[i]),
    ensures
        scan_while(s, p, f) == scan_while(s, w, f),
    decreases w - p,
{
    if p < w {
        lemma_scan_while_skip(s, p + 1, w, f);
    }
}


} // verus!

verus! {

/// `s[from..].find(m)`, as a character position in `s`.
pub fn find_chars(s: &[char], from: usize, m: &[char]) -> (r: Option<usize>)
    requires
        from <= s@.len(),
    ensures
        match find_from(s@, from as int, m@) {
            Some(k) => r == Some(k as usize) && from <= k && k + m@.len() <= s@.len(),
            None => r is None,
        },
{
    let n = s.len();
    let mut q: usize = from;
    while q <= n
        invariant
            n == s@.len(),
            from <= q,
            q <= n + 1,
            find_from(s@, from as int, m@) == find_from(s@, q as int, m@),
        decreases n + 1 - q,
    {
        if m.len() > n - q {
            return None;
        }
        let mut i: usize = 0;
        let mut same = true;
        while i < m.len()
            invariant
                n == s@.len(),
                q + m@.len() <= n,
                i <= m@.len(),
                same == forall|j: int| 0 <= j < i ==> s@[q + j] == m@[j],
            decreases m@.len() - i,
        {
            if s[q + i] != m[i] {
                same = false;
            }
            i = i + 1;
        }
        if same {
            assert(s@.subrange(q as int, q + m@.len()) =~= m@);
            return Some(q);
        } else {
            assert(s@.subrange(q as int, q + m@.len()) != m@) by {
                let j = choose|j: int| 0 <= j < m@.len() && s@[q + j] != m@[j];
                assert(s@.subrange(q as int, q + m@.len())[j] == s@[q + j]);
            }
        }
        q = q + 1;
    }
    None
}

} // verus!

verus! {

pub proof fn lemma_scan_while_idem(s: Seq<char>, p: int, f: spec_fn(char) -> bool)
    requires
        0 <= p <= s.len(),
    ensures
        scan_while(s, scan_while(s, p, f), f) == scan_while(s, p, f),
{
    lemma_scan_while(s, p, f);
}

} // verus!

verus! {

pub proof fn lemma_find_from_window(s: Seq<char>, off: int, t: Seq<char>, i: int, m: Seq<char>)
    requires
        0 <= off,
        off + t.len() <= s.len(),
        s.subrange(off, off + t.len()) == t,
        0 <= i,
        find_from(t, i, m) is Some,
    ensures
        find_from(s, off + i, m) == Some(off + find_from(t, i, m)->Some_0),
    decreases t.len() - i,
{
    if i + m.len() > t.len() {
    } else {
        assert(s.subrange(off + i, off + i + m.len()) =~= t.subrange(i, i + m.len()));
        if m.len() == 0 || t.subrange(i, i + m.len()) == m {
        } else {
            lemma_find_from_window(s, off, t, i + 1, m);
        }
    }
}

/// `find_from` gives the first occurrence at or after `q`, and `None`
/// exactly when there is none.
pub proof fn lemma_find_from_first(s: Seq<char>, q: int, m: Seq<char>)
    requires
        0 <= q,
    ensures
        match find_from(s, q, m) {
            Some(k) => q <= k && starts_with_at(s, k, m) && forall|j: int|
                q <= j < k ==> !#[trigger] starts_with_at(s, j, m),
            None => forall|j: int| q <= j ==> !#[trigger] starts_with_at(s, j, m),
        },
    decreases s.len() - q,
{
    if q + m.len() > s.len() {
    } else if m.len() == 0 || s.subrange(q, q + m.len()) == m {
        if m.len() == 0 {
            assert(s.subrange(q, q + m.len()) =~= m);
        }
    } else {
        lemma_find_from_first(s, q + 1, m);
    }
}

pub proof fn lemma_find_from_bounds(s: Seq<char>, q: int, m: Seq<char>)
    ensures
        find_from(s, q, m) matches Some(k) ==> q <= k && 0 <= k && k + m.len() <= s.len(),
    decreases s.len() - q,
{
    if q < 0 || q + m.len() > s.len() {
    } else if m.len() == 0 || s.subrange(q, q + m.len()) == m {
    } else {
        lemma_find_from_bounds(s, q + 1, m);
    }
}

} // verus!
