//! Verified string helpers: case folding, substring search, and the
//! numeric parsing/formatting used across the OS boundary.
//!
//! Affinity masks cross the boundary as hexadecimal strings, priority
//! classes as their canonical names, and policy matching is
//! case-insensitive; the helpers here give those conversions exact
//! specifications.

use vstd::prelude::*;

verus! {

/// What `str::to_lowercase` returns for a given character sequence.
/// The result depends on the characters alone.
pub uninterp spec fn lower_of(s: Seq<char>) -> Seq<char>;

/// ASCII lowercase mapping of one character: `'A'..='Z'` shift down by
/// 32, everything else is unchanged.
pub open spec fn ascii_lower_char(c: char) -> char {
    if 'A' <= c && c <= 'Z' {
        ((c as u32) + 32) as char
    } else {
        c
    }
}

/// Relies on `str::to_lowercase`: the result is a function of the
/// characters alone, an empty string stays empty, and an ASCII string
/// maps character by character through the ASCII lowercase shift.
#[verifier::external_body]
pub fn lowercase(s: &str) -> (r: String)
    ensures
        r@ == lower_of(s@),
        s@.len() == 0 ==> r@.len() == 0,
        vstd::utf8::is_ascii_chars(s@) ==> r@ == s@.map_values(|c: char| ascii_lower_char(c)),
{
    s.to_lowercase()
}

/// The characters of `s`, one per element.
pub fn chars_vec(s: &str) -> (r: Vec<char>)
    ensures
        r@ == s@,
{
    let n = s.unicode_len();
    let mut r: Vec<char> = Vec::new();
    let mut i: usize = 0;
    while i < n
        invariant
            i <= n,
            n == s@.len(),
            r@ == s@.take(i as int),
        decreases n - i,
    {
        let c = s.get_char(i);
        r.push(c);
        proof {
            assert(r@ =~= s@.take(i as int + 1));
        }
        i += 1;
    }
    proof {
        assert(s@.take(n as int) =~= s@);
    }
    r
}

/// Character-for-character string equality.
pub fn str_eq(a: &str, b: &str) -> (r: bool)
    ensures
        r == (a@ == b@),
{
    let sa = String::from_str(a);
    let sb = String::from_str(b);
    sa == sb
}

/// `s` occurs in `h` starting at position `i`.
pub open spec fn spec_match_at(h: Seq<char>, n: Seq<char>, i: int) -> bool {
    0 <= i && i + n.len() <= h.len() && h.subrange(i, i + n.len()) == n
}

/// `n` occurs somewhere in `h` (every string contains the empty one).
pub open spec fn spec_contains(h: Seq<char>, n: Seq<char>) -> bool {
    exists|i: int| #[trigger] spec_match_at(h, n, i)
}

fn match_at(h: &Vec<char>, n: &Vec<char>, i: usize) -> (r: bool)
    requires
        i + n@.len() <= h@.len(),
    ensures
        r == spec_match_at(h@, n@, i as int),
{
    proof {
        vstd::std_specs::vec::axiom_spec_len(h);
    }
    let mut k: usize = 0;
    while k < n.len()
        invariant
            k <= n@.len(),
            h@.len() <= usize::MAX,
            i + n@.len() <= h@.len(),
            forall|t: int| 0 <= t < k ==> h@[i + t] == n@[t],
        decreases n@.len() - k,
    {
        if h[i + k] != n[k] {
            proof {
                assert(h@.subrange(i as int, i as int + n@.len() as int)[k as int] == h@[i + k]);
            }
            return false;
        }
        k += 1;
    }
    proof {
        assert(h@.subrange(i as int, i as int + n@.len() as int) =~= n@);
    }
    true
}

/// Substring search with the semantics of `str::contains`.
pub fn contains_sub(hay: &str, needle: &str) -> (r: bool)
    ensures
        r == spec_contains(hay@, needle@),
{
    let h = chars_vec(hay);
    let n = chars_vec(needle);
    if n.len() == 0 {
        proof {
            assert(hay@.subrange(0, 0) =~= needle@);
            assert(spec_match_at(hay@, needle@, 0));
        }
        return true;
    }
    if n.len() > h.len() {
        proof {
            assert(forall|i: int| !spec_match_at(hay@, needle@, i));
        }
        return false;
    }
    let bound = h.len() - n.len();
    proof {
        vstd::std_specs::vec::axiom_spec_len(&h);
    }
    let mut i: usize = 0;
    while i <= bound
        invariant
            h@ == hay@,
            n@ == needle@,
            1 <= n@.len() <= h@.len(),
            h@.len() <= usize::MAX,
            bound == h@.len() - n@.len(),
            i <= bound + 1,
            forall|j: int| 0 <= j < i ==> !spec_match_at(hay@, needle@, j),
        decreases bound + 1 - i,
    {
        if match_at(&h, &n, i) {
            return true;
        }
        i += 1;
    }
    proof {
        assert forall|j: int| !spec_match_at(hay@, needle@, j) by {
            if j < 0 || j > bound {
            }
        }
    }
    false
}

/// Prefix test with the semantics of `str::starts_with`.
pub fn starts_with_str(s: &str, prefix: &str) -> (r: bool)
    ensures
        r == (s@.len() >= prefix@.len() && s@.subrange(0, prefix@.len() as int) == prefix@),
{
    let h = chars_vec(s);
    let p = chars_vec(prefix);
    if p.len() > h.len() {
        return false;
    }
    match_at(&h, &p, 0)
}

/// Suffix test with the semantics of `str::ends_with`.
pub fn ends_with_str(s: &str, suffix: &str) -> (r: bool)
    ensures
        r == (s@.len() >= suffix@.len() && s@.subrange(
            s@.len() - suffix@.len(),
            s@.len() as int,
        ) == suffix@),
{
    let h = chars_vec(s);
    let p = chars_vec(suffix);
    if p.len() > h.len() {
        return false;
    }
    match_at(&h, &p, h.len() - p.len())
}

/// First position at or after `from` where `c` occurs in `s`.
pub open spec fn spec_find_char(s: Seq<char>, from: int, c: char) -> Option<int> {
    if exists|i: int| from <= i < s.len() && s[i] == c {
        Some(choose|i: int| from <= i < s.len() && s[i] == c && forall|j: int| from <= j < i ==> s[j] != c)
    } else {
        None
    }
}

/// Finds the first occurrence of `c` at or after `from`.
pub fn find_char(v: &Vec<char>, from: usize, c: char) -> (r: Option<usize>)
    ensures
        r matches Some(i) ==> from <= i < v@.len() && v@[i as int] == c && (forall|j: int|
            from <= j < i ==> v@[j] != c),
        r is None ==> forall|j: int| from <= j < v@.len() ==> v@[j] != c,
{
    let mut i: usize = from;
    if i > v.len() {
        return None;
    }
    while i < v.len()
        invariant
            from <= i <= v@.len(),
            forall|j: int| from <= j < i ==> v@[j] != c,
        decreases v@.len() - i,
    {
        if v[i] == c {
            return Some(i);
        }
        i += 1;
    }
    None
}

/// The Unicode `White_Space` characters, which `str::trim` strips.
pub open spec fn spec_is_ws(c: char) -> bool {
    ||| c == '\u{9}'
    ||| c == '\u{A}'
    ||| c == '\u{B}'
    ||| c == '\u{C}'
    ||| c == '\u{D}'
    ||| c == ' '
    ||| c == '\u{85}'
    ||| c == '\u{A0}'
    ||| c == '\u{1680}'
    ||| ('\u{2000}' <= c && c <= '\u{200A}')
    ||| c == '\u{2028}'
    ||| c == '\u{2029}'
    ||| c == '\u{202F}'
    ||| c == '\u{205F}'
    ||| c == '\u{3000}'
}

/// `s` without its leading whitespace.
pub open spec fn spec_trim_start(s: Seq<char>) -> Seq<char>
    decreases s.len(),
{
    if s.len() > 0 && spec_is_ws(s[0]) {
        spec_trim_start(s.drop_first())
    } else {
        s
    }
}

/// `s` without its trailing whitespace.
pub open spec fn spec_trim_end(s: Seq<char>) -> Seq<char>
    decreases s.len(),
{
    if s.len() > 0 && spec_is_ws(s.last()) {
        spec_trim_end(s.drop_last())
    } else {
        s
    }
}

/// `s` without leading or trailing whitespace, as `str::trim` returns it.
pub open spec fn spec_trim(s: Seq<char>) -> Seq<char> {
    spec_trim_end(spec_trim_start(s))
}

fn is_ws(c: char) -> (r: bool)
    ensures
        r == spec_is_ws(c),
{
    c == '\u{9}' || c == '\u{A}' || c == '\u{B}' || c == '\u{C}' || c == '\u{D}' || c == ' ' || c
        == '\u{85}' || c == '\u{A0}' || c == '\u{1680}' || ('\u{2000}' <= c && c <= '\u{200A}')
        || c == '\u{2028}' || c == '\u{2029}' || c == '\u{202F}' || c == '\u{205F}' || c
        == '\u{3000}'
}

proof fn lemma_trim_start_skip(s: Seq<char>, a: int)
    requires
        0 <= a <= s.len(),
        forall|j: int| 0 <= j < a ==> spec_is_ws(#[trigger] s[j]),
        a < s.len() ==> !spec_is_ws(s[a]),
    ensures
        spec_trim_start(s) == s.skip(a),
    decreases a,
{
    if a == 0 {
        assert(s.skip(0) =~= s);
    } else {
        assert(s.drop_first() =~= s.skip(1));
        lemma_trim_start_skip(s.skip(1), a - 1);
        assert(s.skip(1).skip(a - 1) =~= s.skip(a));
    }
}

proof fn lemma_trim_end_take(s: Seq<char>, b: int)
    requires
        0 <= b <= s.len(),
        forall|j: int| b <= j < s.len() ==> spec_is_ws(#[trigger] s[j]),
        b > 0 ==> !spec_is_ws(s[b - 1]),
    ensures
        spec_trim_end(s) == s.take(b),
    decreases s.len(),
{
    if b == s.len() {
        assert(s.take(b) =~= s);
    } else {
        assert(spec_is_ws(s.last()));
        lemma_trim_end_take(s.drop_last(), b);
        assert(s.drop_last().take(b) =~= s.take(b));
    }
}

/// Whitespace trimming with the semantics of `str::trim`.
pub fn trim<'a>(s: &'a str) -> (r: &'a str)
    ensures
        r@ == spec_trim(s@),
{
    let cs = chars_vec(s);
    let n = cs.len();
    let mut a: usize = 0;
    while a < n && is_ws(cs[a])
        invariant
            a <= n,
            n == cs@.len(),
            cs@ == s@,
            forall|j: int| 0 <= j < a ==> spec_is_ws(#[trigger] s@[j]),
        decreases n - a,
    {
        a += 1;
    }
    let mut b: usize = n;
    while b > a && is_ws(cs[b - 1])
        invariant
            a <= b <= n,
            n == cs@.len(),
            cs@ == s@,
            forall|j: int| b <= j < n ==> spec_is_ws(#[trigger] s@[j]),
        decreases b,
    {
        b -= 1;
    }
    proof {
        lemma_trim_start_skip(s@, a as int);
        let t = s@.skip(a as int);
        assert forall|j: int| b - a <= j < t.len() implies spec_is_ws(#[trigger] t[j]) by {
            assert(t[j] == s@[a + j]);
        }
        if b > a {
            assert(t[b - a - 1] == s@[b - 1]);
        }
        lemma_trim_end_take(t, b as int - a as int);
        assert(t.take(b as int - a as int) =~= s@.subrange(a as int, b as int));
    }
    s.substring_char(a, b)
}

/// The decimal digit character for `d` in `0..=9`.
pub open spec fn spec_dec_digit(d: int) -> char {
    if d == 0 {
        '0'
    } else if d == 1 {
        '1'
    } else if d == 2 {
        '2'
    } else if d == 3 {
        '3'
    } else if d == 4 {
        '4'
    } else if d == 5 {
        '5'
    } else if d == 6 {
        '6'
    } else if d == 7 {
        '7'
    } else if d == 8 {
        '8'
    } else {
        '9'
    }
}

/// The decimal form of `n`, most significant digit first.
pub open spec fn spec_dec(n: int) -> Seq<char>
    decreases n,
{
    if n < 10 {
        seq![spec_dec_digit(n)]
    } else {
        spec_dec(n / 10).push(spec_dec_digit(n % 10))
    }
}

/// The lowercase hexadecimal digit character for `d` in `0..=15`.
pub open spec fn spec_hex_digit_lower(d: int) -> char {
    if d < 10 {
        spec_dec_digit(d)
    } else if d == 10 {
        'a'
    } else if d == 11 {
        'b'
    } else if d == 12 {
        'c'
    } else if d == 13 {
        'd'
    } else if d == 14 {
        'e'
    } else {
        'f'
    }
}

/// The uppercase hexadecimal digit character for `d` in `0..=15`.
pub open spec fn spec_hex_digit_upper(d: int) -> char {
    if d < 10 {
        spec_dec_digit(d)
    } else if d == 10 {
        'A'
    } else if d == 11 {
        'B'
    } else if d == 12 {
        'C'
    } else if d == 13 {
        'D'
    } else if d == 14 {
        'E'
    } else {
        'F'
    }
}

/// The lowercase hexadecimal form of `n`, most significant digit first.
pub open spec fn spec_hex_lower(n: int) -> Seq<char>
    decreases n,
{
    if n < 16 {
        seq![spec_hex_digit_lower(n)]
    } else {
        spec_hex_lower(n / 16).push(spec_hex_digit_lower(n % 16))
    }
}

/// The uppercase hexadecimal form of `n`, most significant digit first.
pub open spec fn spec_hex_upper(n: int) -> Seq<char>
    decreases n,
{
    if n < 16 {
        seq![spec_hex_digit_upper(n)]
    } else {
        spec_hex_upper(n / 16).push(spec_hex_digit_upper(n % 16))
    }
}

fn dec_digit_str(d: u64) -> (r: &'static str)
    requires
        d < 10,
    ensures
        r@ == seq![spec_dec_digit(d as int)],
{
    proof {
        reveal_strlit("0");
        reveal_strlit("1");
        reveal_strlit("2");
        reveal_strlit("3");
        reveal_strlit("4");
        reveal_strlit("5");
        reveal_strlit("6");
        reveal_strlit("7");
        reveal_strlit("8");
        reveal_strlit("9");
        assert("0"@ =~= seq!['0']);
        assert("1"@ =~= seq!['1']);
        assert("2"@ =~= seq!['2']);
        assert("3"@ =~= seq!['3']);
        assert("4"@ =~= seq!['4']);
        assert("5"@ =~= seq!['5']);
        assert("6"@ =~= seq!['6']);
        assert("7"@ =~= seq!['7']);
        assert("8"@ =~= seq!['8']);
        assert("9"@ =~= seq!['9']);
    }
    match d {
        0 => "0",
        1 => "1",
        2 => "2",
        3 => "3",
        4 => "4",
        5 => "5",
        6 => "6",
        7 => "7",
        8 => "8",
        _ => "9",
    }
}

fn hex_digit_lower_str(d: u64) -> (r: &'static str)
    requires
        d < 16,
    ensures
        r@ == seq![spec_hex_digit_lower(d as int)],
{
    if d < 10 {
        dec_digit_str(d)
    } else {
        proof {
            reveal_strlit("a");
            reveal_strlit("b");
            reveal_strlit("c");
            reveal_strlit("d");
            reveal_strlit("e");
            reveal_strlit("f");
            assert("a"@ =~= seq!['a']);
            assert("b"@ =~= seq!['b']);
            assert("c"@ =~= seq!['c']);
            assert("d"@ =~= seq!['d']);
            assert("e"@ =~= seq!['e']);
            assert("f"@ =~= seq!['f']);
        }
        match d {
            10 => "a",
            11 => "b",
            12 => "c",
            13 => "d",
            14 => "e",
            _ => "f",
        }
    }
}

fn hex_digit_upper_str(d: u64) -> (r: &'static str)
    requires
        d < 16,
    ensures
        r@ == seq![spec_hex_digit_upper(d as int)],
{
    if d < 10 {
        dec_digit_str(d)
    } else {
        proof {
            reveal_strlit("A");
            reveal_strlit("B");
            reveal_strlit("C");
            reveal_strlit("D");
            reveal_strlit("E");
            reveal_strlit("F");
            assert("A"@ =~= seq!['A']);
            assert("B"@ =~= seq!['B']);
            assert("C"@ =~= seq!['C']);
            assert("D"@ =~= seq!['D']);
            assert("E"@ =~= seq!['E']);
            assert("F"@ =~= seq!['F']);
        }
        match d {
            10 => "A",
            11 => "B",
            12 => "C",
            13 => "D",
            14 => "E",
            _ => "F",
        }
    }
}

/// Decimal rendering of an unsigned number.
pub fn dec_str_u64(n: u64) -> (r: String)
    ensures
        r@ == spec_dec(n as int),
    decreases n,
{
    if n < 10 {
        dec_digit_str(n).to_owned()
    } else {
        let mut s = dec_str_u64(n / 10);
        s.append(dec_digit_str(n % 10));
        proof {
            assert(s@ =~= spec_dec(n as int));
        }
        s
    }
}

/// Lowercase hexadecimal rendering, without a prefix.
pub fn hex_lower_str_u64(n: u64) -> (r: String)
    ensures
        r@ == spec_hex_lower(n as int),
    decreases n,
{
    if n < 16 {
        hex_digit_lower_str(n).to_owned()
    } else {
        let mut s = hex_lower_str_u64(n / 16);
        s.append(hex_digit_lower_str(n % 16));
        proof {
            assert(s@ =~= spec_hex_lower(n as int));
        }
        s
    }
}

/// Uppercase hexadecimal rendering, without a prefix; the form masks
/// take when they cross to the OS boundary.
pub fn hex_upper_str_u64(n: u64) -> (r: String)
    ensures
        r@ == spec_hex_upper(n as int),
    decreases n,
{
    if n < 16 {
        hex_digit_upper_str(n).to_owned()
    } else {
        let mut s = hex_upper_str_u64(n / 16);
        s.append(hex_digit_upper_str(n % 16));
        proof {
            assert(s@ =~= spec_hex_upper(n as int));
        }
        s
    }
}

/// The `0x`-prefixed lowercase hexadecimal form of `n`.
pub open spec fn spec_hex_0x(n: int) -> Seq<char> {
    "0x"@ + spec_hex_lower(n)
}

/// Lowercase hexadecimal rendering with a `0x` prefix; the canonical
/// form affinity labels are compared against.
pub fn hex_0x_str_u64(n: u64) -> (r: String)
    ensures
        r@ == spec_hex_0x(n as int),
{
    let mut s = String::from_str("0x");
    s.append(hex_lower_str_u64(n).as_str());
    s
}

/// Whether `c` is a hexadecimal digit in either case.
pub open spec fn spec_is_hex_digit(c: char) -> bool {
    ('0' <= c && c <= '9') || ('a' <= c && c <= 'f') || ('A' <= c && c <= 'F')
}

/// The value of the hexadecimal digit `c`.
pub open spec fn spec_hex_val(c: char) -> int {
    if '0' <= c && c <= '9' {
        c as int - '0' as int
    } else if 'a' <= c && c <= 'f' {
        c as int - 'a' as int + 10
    } else {
        c as int - 'A' as int + 10
    }
}

/// The number a sequence of hexadecimal digits denotes.
pub open spec fn spec_hex_num(s: Seq<char>) -> int
    decreases s.len(),
{
    if s.len() == 0 {
        0
    } else {
        spec_hex_num(s.drop_last()) * 16 + spec_hex_val(s.last())
    }
}

/// The digit part of a hexadecimal numeral: everything after one
/// optional leading `+`.
pub open spec fn spec_hex_body(s: Seq<char>) -> Seq<char> {
    if s.len() > 0 && s[0] == '+' {
        s.drop_first()
    } else {
        s
    }
}

/// What `u64::from_str_radix(s, 16)` accepts and returns: an optional
/// leading `+`, then at least one hexadecimal digit, denoting a value
/// that fits in 64 bits.
pub open spec fn spec_parse_hex(s: Seq<char>) -> Option<u64> {
    let body = spec_hex_body(s);
    if body.len() == 0 {
        None
    } else if !(forall|i: int| 0 <= i < body.len() ==> spec_is_hex_digit(#[trigger] body[i])) {
        None
    } else if spec_hex_num(body) > u64::MAX {
        None
    } else {
        Some(spec_hex_num(body) as u64)
    }
}

proof fn lemma_hex_num_nonneg(s: Seq<char>)
    requires
        forall|i: int| 0 <= i < s.len() ==> spec_is_hex_digit(#[trigger] s[i]),
    ensures
        spec_hex_num(s) >= 0,
    decreases s.len(),
{
    if s.len() > 0 {
        lemma_hex_num_nonneg(s.drop_last());
    }
}

proof fn lemma_hex_num_mono(s: Seq<char>, k: int)
    requires
        forall|i: int| 0 <= i < s.len() ==> spec_is_hex_digit(#[trigger] s[i]),
        0 <= k <= s.len(),
    ensures
        spec_hex_num(s) >= spec_hex_num(s.take(k)),
    decreases s.len() - k,
{
    if k < s.len() {
        lemma_hex_num_mono(s, k + 1);
        let t = s.take(k + 1);
        assert(t.drop_last() =~= s.take(k));
        assert(t.last() == s[k]);
        lemma_hex_num_nonneg(s.take(k));
        assert(spec_is_hex_digit(s[k]));
        assert(spec_hex_val(s[k]) >= 0);
        assert(spec_hex_num(t) == spec_hex_num(s.take(k)) * 16 + spec_hex_val(s[k]));
        assert(spec_hex_num(s.take(k)) * 16 >= spec_hex_num(s.take(k))) by (nonlinear_arith)
            requires spec_hex_num(s.take(k)) >= 0;
    } else {
        assert(s.take(k) =~= s);
    }
}

fn hex_digit_val(c: char) -> (r: Option<u64>)
    ensures
        r matches Some(d) ==> spec_is_hex_digit(c) && d == spec_hex_val(c) && d < 16,
        r is None ==> !spec_is_hex_digit(c),
{
    if '0' <= c && c <= '9' {
        Some(c as u64 - '0' as u64)
    } else if 'a' <= c && c <= 'f' {
        Some(c as u64 - 'a' as u64 + 10)
    } else if 'A' <= c && c <= 'F' {
        Some(c as u64 - 'A' as u64 + 10)
    } else {
        None
    }
}

/// Parses a hexadecimal numeral exactly as `u64::from_str_radix(s, 16)`
/// would, collapsing its error cases to `None`.
pub fn parse_hex_u64(s: &str) -> (r: Option<u64>)
    ensures
        r == spec_parse_hex(s@),
{
    let cs = chars_vec(s);
    let start: usize = if cs.len() > 0 && cs[0] == '+' {
        1
    } else {
        0
    };
    let ghost body = spec_hex_body(s@);
    proof {
        assert(body =~= s@.skip(start as int));
        vstd::std_specs::vec::axiom_spec_len(&cs);
    }
    if cs.len() == start {
        return None;
    }
    let mut acc: u64 = 0;
    let mut i: usize = start;
    while i < cs.len()
        invariant
            start <= i <= cs@.len(),
            cs@.len() <= usize::MAX,
            cs@ == s@,
            start < cs@.len(),
            start == 0 || (cs@.len() > 0 && cs@[0] == '+' && start == 1),
            start == 0 ==> !(cs@.len() > 0 && cs@[0] == '+'),
            body == spec_hex_body(s@),
            body =~= s@.skip(start as int),
            forall|t: int| 0 <= t < i - start ==> spec_is_hex_digit(#[trigger] body[t]),
            acc == spec_hex_num(body.take(i - start)),
        decreases cs@.len() - i,
    {
        let c = cs[i];
        proof {
            assert(body[i - start] == cs@[i as int]);
        }
        let d = match hex_digit_val(c) {
            Some(d) => d,
            None => {
                proof {
                    assert(!spec_is_hex_digit(body[i - start]));
                }
                return None;
            },
        };
        let limit = (u64::MAX - d) / 16;
        proof {
            let a = acc as int;
            let dd = d as int;
            let m = u64::MAX as int;
            vstd::arithmetic::div_mod::lemma_fundamental_div_mod(m - dd, 16);
            vstd::arithmetic::div_mod::lemma_mod_bound(m - dd, 16);
            assert(limit as int == (m - dd) / 16);
            assert((a > limit as int) == (a * 16 + dd > m)) by (nonlinear_arith)
                requires
                    a >= 0,
                    0 <= dd < 16,
                    m - dd == 16 * ((m - dd) / 16) + ((m - dd) % 16),
                    0 <= (m - dd) % 16 < 16,
                    limit as int == (m - dd) / 16;
        }
        if acc > limit {
            proof {
                let pre = body.take(i - start + 1);
                assert(pre.drop_last() =~= body.take(i - start));
                assert(pre.last() == body[i - start]);
                assert(spec_hex_num(pre) == acc * 16 + d);
                assert(spec_hex_num(pre) > u64::MAX);
                if forall|t: int| 0 <= t < body.len() ==> spec_is_hex_digit(#[trigger] body[t]) {
                    lemma_hex_num_mono(body, i - start + 1);
                    assert(spec_hex_num(body) > u64::MAX);
                }
            }
            return None;
        }
        acc = acc * 16 + d;
        proof {
            let pre = body.take(i - start + 1);
            assert(pre.drop_last() =~= body.take(i - start));
            assert(pre.last() == body[i - start]);
        }
        i += 1;
    }
    proof {
        assert(body.take(cs@.len() - start) =~= body);
        lemma_hex_num_nonneg(body);
    }
    Some(acc)
}

/// The parsed hexadecimal value of `s`, or zero where parsing fails.
pub open spec fn spec_parse_or_zero(s: Seq<char>) -> u64 {
    match spec_parse_hex(s) {
        Some(v) => v,
        None => 0u64,
    }
}

/// Lowercases every entry of a list of names.
pub fn lowercase_all(v: &Vec<String>) -> (r: Vec<String>)
    ensures
        r@.len() == v@.len(),
        forall|i: int| 0 <= i < v@.len() ==> (#[trigger] r@[i])@ == lower_of(v@[i]@),
{
    let mut r: Vec<String> = Vec::new();
    let mut k: usize = 0;
    while k < v.len()
        invariant
            k <= v@.len(),
            r@.len() == k,
            forall|i: int| 0 <= i < k ==> (#[trigger] r@[i])@ == lower_of(v@[i]@),
        decreases v@.len() - k,
    {
        r.push(lowercase(v[k].as_str()));
        k += 1;
    }
    r
}

} // verus!
