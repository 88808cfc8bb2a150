//! Text: comparison, numbers in decimal and octal, trimming, splitting.

use vstd::prelude::*;
use vstd::string::*;
use vstd::utf8::*;

verus! {

/// `String::push` appends one character to the end of the string.
pub assume_specification[ String::push ](s: &mut String, c: char)
    ensures
        final(s)@ == old(s)@.push(c),
;

/// Two texts whose UTF-8 bytes agree are the same text.
pub proof fn lemma_bytes_determine_text(a: Seq<char>, b: Seq<char>)
    requires
        encode_utf8(a) == encode_utf8(b),
    ensures
        a == b,
{
    encode_utf8_decode_utf8(a);
    encode_utf8_decode_utf8(b);
}

/// Whether two texts are equal.
pub fn str_eq(a: &str, b: &str) -> (r: bool)
    ensures
        r == (a@ == b@),
{
    let x = a.as_bytes();
    let y = b.as_bytes();
    if x.len() != y.len() {
        return false;
    }
    let mut i: usize = 0;
    while i < x.len()
        invariant
            i <= x.len(),
            x.len() == y.len(),
            x@ == encode_utf8(a@),
            y@ == encode_utf8(b@),
            forall|k: int| 0 <= k < i ==> x@[k] == y@[k],
        decreases x.len() - i,
    {
        if x[i] != y[i] {
            return false;
        }
        i = i + 1;
    }
    proof {
        assert(x@ =~= y@);
        lemma_bytes_determine_text(a@, b@);
    }
    true
}

/// The characters of a text.
pub fn chars_of(s: &str) -> (v: Vec<char>)
    ensures
        v@ == s@,
{
    let mut v: Vec<char> = Vec::new();
    for c in it: s.chars()
        invariant
            it.seq() == s@,
            v@ == s@.subrange(0, it.index() as int),
    {
        proof {
            assert(s@.subrange(0, it.index() as int).push(c) =~= s@.subrange(0, it.index() as int + 1));
        }
        v.push(c);
    }
    proof {
        assert(s@.subrange(0, s@.len() as int) =~= s@);
    }
    v
}

/// The text made of the given characters.
pub fn string_of(cs: &[char]) -> (s: String)
    ensures
        s@ == cs@,
{
    let mut s = String::new();
    let mut i: usize = 0;
    while i < cs.len()
        invariant
            i <= cs.len(),
            s@ == cs@.subrange(0, i as int),
        decreases cs.len() - i,
    {
        proof {
            assert(cs@.subrange(0, i as int).push(cs@[i as int]) =~= cs@.subrange(0, i + 1));
        }
        s.push(cs[i]);
        i = i + 1;
    }
    proof {
        assert(cs@.subrange(0, cs@.len() as int) =~= cs@);
    }
    s
}

/// An owned copy of a text.
pub fn owned(s: &str) -> (r: String)
    ensures
        r@ == s@,
{
    s.to_owned()
}

/// Whether there is nothing in the text.
pub fn is_empty(s: &str) -> (r: bool)
    ensures
        r == (s@.len() == 0),
{
    proof {
        reveal_strlit("");
        if s@.len() == 0 {
            assert(s@ =~= ""@);
        }
    }
    str_eq(s, "")
}

/// Two texts, one behind the other.
pub fn cat2(a: &str, b: &str) -> (r: String)
    ensures
        r@ == a@ + b@,
{
    let mut r = owned(a);
    r.append(b);
    r
}

/// Three texts, one behind the other.
pub fn cat3(a: &str, b: &str, c: &str) -> (r: String)
    ensures
        r@ == a@ + b@ + c@,
{
    let mut r = owned(a);
    r.append(b);
    r.append(c);
    r
}

/// The texts of a list of strings.
pub open spec fn texts(v: Seq<String>) -> Seq<Seq<char>> {
    Seq::new(v.len(), |i: int| v[i]@)
}

/// The text of an optional string.
pub open spec fn opt_text(s: Option<String>) -> Option<Seq<char>> {
    match s {
        Some(t) => Some(t@),
        None => None,
    }
}

/// Appending a string appends its text.
pub proof fn lemma_texts_push(v: Seq<String>, s: String)
    ensures
        texts(v.push(s)) == texts(v).push(s@),
{
    assert(texts(v.push(s)) =~= texts(v).push(s@));
}

/// A copy of an optional string.
pub fn clone_opt(s: &Option<String>) -> (r: Option<String>)
    ensures
        opt_text(r) == opt_text(*s),
{
    match s {
        Some(t) => Some(t.clone()),
        None => None,
    }
}

/// A copy of a list of strings.
pub fn clone_strings(v: &Vec<String>) -> (r: Vec<String>)
    ensures
        texts(r@) == texts(v@),
{
    let mut r: Vec<String> = Vec::new();
    let mut i: usize = 0;
    while i < v.len()
        invariant
            i <= v.len(),
            r.len() == i,
            forall|k: int| 0 <= k < i ==> r@[k]@ == v@[k]@,
        decreases v.len() - i,
    {
        r.push(v[i].clone());
        i = i + 1;
    }
    proof {
        assert(texts(r@) =~= texts(v@));
    }
    r
}

/// Whether a text holds a character.
pub open spec fn has_char(s: Seq<char>, c: char) -> bool {
    exists|i: int| 0 <= i < s.len() && s[i] == c
}

/// Whether `s` holds the character `c`.
pub fn contains_char(s: &str, c: char) -> (r: bool)
    ensures
        r == has_char(s@, c),
{
    let v = chars_of(s);
    let mut i: usize = 0;
    while i < v.len()
        invariant
            i <= v.len(),
            v@ == s@,
            forall|k: int| 0 <= k < i ==> v@[k] != c,
        decreases v.len() - i,
    {
        if v[i] == c {
            assert(s@[i as int] == c);
            return true;
        }
        i = i + 1;
    }
    false
}

/// Whether `s` starts with `p`.
pub fn starts_with(s: &str, p: &str) -> (r: bool)
    ensures
        r == p@.is_prefix_of(s@),
{
    let n = s.unicode_len();
    let m = p.unicode_len();
    if n < m {
        return false;
    }
    let head = s.substring_char(0, m);
    str_eq(head, p)
}

/// Whether `s` ends with `p`.
pub fn ends_with(s: &str, p: &str) -> (r: bool)
    ensures
        r == p@.is_suffix_of(s@),
{
    let n = s.unicode_len();
    let m = p.unicode_len();
    if n < m {
        return false;
    }
    let tail = s.substring_char(n - m, n);
    str_eq(tail, p)
}

/// Whether `p` stands somewhere in `s`.
pub open spec fn holds(s: Seq<char>, p: Seq<char>) -> bool {
    exists|i: int| 0 <= i <= s.len() - p.len() && #[trigger] s.subrange(i, i + p.len()) == p
}

/// Whether `p` stands somewhere in `s`.
pub fn contains_text(s: &str, p: &str) -> (r: bool)
    ensures
        r == holds(s@, p@),
{
    let n = s.unicode_len();
    let m = p.unicode_len();
    if n < m {
        return false;
    }
    let last = n - m;
    let mut i: usize = 0;
    while i <= last
        invariant
            n == s@.len(),
            m == p@.len(),
            last == n - m,
            i <= last + 1,
            forall|k: int| 0 <= k < i ==> #[trigger] s@.subrange(k, k + m) != p@,
        decreases last + 1 - i,
    {
        let part = s.substring_char(i, i + m);
        if str_eq(part, p) {
            proof {
                assert(s@.subrange(i as int, i + p@.len()) == p@);
            }
            return true;
        }
        if i == last {
            return false;
        }
        i += 1;
    }
    false
}

/// A text with every `from` turned into `to`.
pub open spec fn replaced(s: Seq<char>, from: char, to: char) -> Seq<char> {
    Seq::new(s.len(), |i: int| if s[i] == from { to } else { s[i] })
}

/// Replaces every `from` in `s` by `to`.
pub fn replace_char(s: &str, from: char, to: char) -> (r: String)
    ensures
        r@ == replaced(s@, from, to),
{
    let v = chars_of(s);
    let mut r = String::new();
    let mut i: usize = 0;
    while i < v.len()
        invariant
            i <= v.len(),
            v@ == s@,
            r@ =~= replaced(s@, from, to).subrange(0, i as int),
        decreases v.len() - i,
    {
        r.push(if v[i] == from { to } else { v[i] });
        i = i + 1;
    }
    proof {
        assert(replaced(s@, from, to).subrange(0, v@.len() as int) =~= replaced(s@, from, to));
    }
    r
}

/// Texts one behind the other, with `sep` between them.
pub open spec fn joined_texts(parts: Seq<Seq<char>>, sep: Seq<char>) -> Seq<char>
    decreases parts.len(),
{
    if parts.len() == 0 {
        Seq::empty()
    } else if parts.len() == 1 {
        parts[0]
    } else {
        joined_texts(parts.drop_last(), sep) + sep + parts.last()
    }
}

/// Puts texts one behind the other, with `sep` between them.
pub fn join_texts(parts: &Vec<String>, sep: &str) -> (r: String)
    ensures
        r@ == joined_texts(texts(parts@), sep@),
{
    let mut r = String::new();
    let ghost all = texts(parts@);
    let mut i: usize = 0;
    while i < parts.len()
        invariant
            i <= parts.len(),
            all == texts(parts@),
            r@ == joined_texts(all.subrange(0, i as int), sep@),
        decreases parts.len() - i,
    {
        let ghost was = r@;
        proof {
            assert(all.subrange(0, i + 1).drop_last() =~= all.subrange(0, i as int));
            assert(all.subrange(0, i + 1).last() == parts@[i as int]@);
        }
        if i > 0 {
            r.append(sep);
        }
        r.append(parts[i].as_str());
        proof {
            if i == 0 {
                assert(r@ =~= all.subrange(0, 1)[0]);
            }
        }
        i = i + 1;
    }
    proof {
        assert(all.subrange(0, all.len() as int) =~= all);
    }
    r
}

/// `s` without the characters `c` in front.
pub open spec fn without_front(s: Seq<char>, c: char) -> Seq<char>
    decreases s.len(),
{
    if s.len() > 0 && s[0] == c {
        without_front(s.skip(1), c)
    } else {
        s
    }
}

/// Cuts the characters `c` off the front.
pub fn trim_front(s: &str, c: char) -> (r: &str)
    ensures
        r@ == without_front(s@, c),
{
    let v = chars_of(s);
    let mut a: usize = 0;
    proof {
        assert(s@.skip(0) =~= s@);
    }
    while a < v.len() && v[a] == c
        invariant
            a <= v.len(),
            v@ == s@,
            without_front(s@, c) == without_front(s@.skip(a as int), c),
        ensures
            a <= v.len(),
            without_front(s@, c) == s@.skip(a as int),
        decreases v.len() - a,
    {
        proof {
            assert(s@.skip(a as int).skip(1) =~= s@.skip(a + 1));
        }
        a = a + 1;
    }
    proof {
        assert(s@.skip(a as int) =~= s@.subrange(a as int, v@.len() as int));
    }
    s.substring_char(a, v.len())
}

/// A text that can be handed to the kernel: it holds no NUL.
pub open spec fn nul_free(s: Seq<char>) -> bool {
    !has_char(s, '\0')
}

/// The character for a digit.
pub open spec fn digit_char(d: nat) -> char {
    ((48 + d) as u8) as char
}

/// Gives the character for a digit.
fn digit_to_char(d: u8) -> (c: char)
    requires
        d < 10,
    ensures
        c == digit_char(d as nat),
{
    (48u8 + d) as char
}

/// A natural number in the given base, without leading zeros.
pub open spec fn in_base(n: nat, base: nat) -> Seq<char>
    decreases n,
{
    if base < 2 || n < base {
        seq![digit_char(n)]
    } else {
        proof {
            assert(n / base < n) by (nonlinear_arith)
                requires
                    n >= base,
                    base >= 2,
            ;
        }
        in_base(n / base, base).push(digit_char(n % base))
    }
}

/// A natural number in decimal.
pub open spec fn dec(n: nat) -> Seq<char> {
    in_base(n, 10)
}

/// An integer in decimal, with a minus sign where it is negative.
pub open spec fn dec_int(i: int) -> Seq<char> {
    if i < 0 {
        seq!['-'] + dec((-i) as nat)
    } else {
        dec(i as nat)
    }
}

/// Writes a number in a base of at most ten.
pub fn in_base_u64(n: u64, base: u64) -> (s: String)
    requires
        2 <= base <= 10,
    ensures
        s@ == in_base(n as nat, base as nat),
    decreases n,
{
    if n < base {
        let mut s = String::new();
        s.push(digit_to_char(n as u8));
        proof {
            assert(s@ =~= in_base(n as nat, base as nat));
        }
        s
    } else {
        proof {
            assert(n / base < n) by (nonlinear_arith)
                requires
                    n >= base,
                    base >= 2,
            ;
            assert(n % base < 10) by (nonlinear_arith)
                requires
                    2 <= base <= 10,
            ;
        }
        let mut s = in_base_u64(n / base, base);
        s.push(digit_to_char((n % base) as u8));
        s
    }
}

/// Writes a number in decimal.
pub fn dec_u64(n: u64) -> (s: String)
    ensures
        s@ == dec(n as nat),
{
    in_base_u64(n, 10)
}

/// Writes a signed number in decimal.
pub fn dec_i64(n: i64) -> (s: String)
    ensures
        s@ == dec_int(n as int),
{
    if n >= 0 {
        dec_u64(n as u64)
    } else {
        let mag: u64 = ((-(n + 1)) as u64) + 1;
        let d = dec_u64(mag);
        let mut s = String::new();
        s.push('-');
        s.append(d.as_str());
        proof {
            assert(s@ =~= dec_int(n as int));
        }
        s
    }
}

/// A nonempty run of decimal digits.
pub open spec fn is_digits(s: Seq<char>) -> bool {
    s.len() > 0 && forall|i: int| 0 <= i < s.len() ==> '0' <= #[trigger] s[i] <= '9'
}

/// What a run of decimal digits stands for.
pub open spec fn digits_value(s: Seq<char>) -> nat
    decreases s.len(),
{
    if s.len() == 0 {
        0
    } else {
        (digits_value(s.drop_last()) * 10 + (s.last() as nat - 48)) as nat
    }
}

/// The digits of an unsigned number text, past one optional plus sign.
pub open spec fn unsigned_digits(s: Seq<char>) -> Seq<char> {
    if s.len() > 0 && s[0] == '+' {
        s.skip(1)
    } else {
        s
    }
}

/// What `s` stands for as a number of at most `max`, if it is one.
pub open spec fn unsigned_value(s: Seq<char>, max: nat) -> Option<nat> {
    let d = unsigned_digits(s);
    if is_digits(d) && digits_value(d) <= max {
        Some(digits_value(d))
    } else {
        None
    }
}

/// What `s` stands for as a 32-bit signed number, if it is one.
pub open spec fn i32_value(s: Seq<char>) -> Option<int> {
    if s.len() > 0 && s[0] == '-' {
        let d = s.skip(1);
        if is_digits(d) && digits_value(d) <= 0x8000_0000 {
            Some(-(digits_value(d) as int))
        } else {
            None
        }
    } else {
        let d = unsigned_digits(s);
        if is_digits(d) && digits_value(d) <= i32::MAX {
            Some(digits_value(d) as int)
        } else {
            None
        }
    }
}

/// A prefix of a run of digits stands for no more than the whole.
pub proof fn lemma_digits_prefix(s: Seq<char>, k: int)
    requires
        is_digits(s),
        0 <= k <= s.len(),
    ensures
        digits_value(s.subrange(0, k)) <= digits_value(s),
    decreases s.len() - k,
{
    if k == s.len() {
        assert(s.subrange(0, k) =~= s);
    } else {
        lemma_digits_prefix(s, k + 1);
        assert(s.subrange(0, k + 1).drop_last() =~= s.subrange(0, k));
        assert('0' <= s[k] <= '9');
    }
}

/// Reads `v[from..]` as a decimal number of at most `max`.
fn parse_digits(v: &Vec<char>, from: usize, max: u64) -> (r: Option<u64>)
    requires
        from <= v.len(),
    ensures
        ({
            let d = v@.skip(from as int);
            match r {
                Some(n) => is_digits(d) && digits_value(d) == n && n <= max,
                None => !(is_digits(d) && digits_value(d) <= max),
            }
        }),
{
    let ghost d = v@.skip(from as int);
    if from == v.len() {
        return None;
    }
    let mut n: u64 = 0;
    let mut i: usize = from;
    while i < v.len()
        invariant
            from <= i <= v.len(),
            d == v@.skip(from as int),
            forall|k: int| 0 <= k < i - from ==> '0' <= #[trigger] d[k] <= '9',
            digits_value(d.subrange(0, i - from)) == n,
            n <= max,
        decreases v.len() - i,
    {
        let c = v[i];
        if c < '0' || c > '9' {
            assert(d[i - from] == c);
            return None;
        }
        proof {
            assert(d[i - from] == c);
            assert(d.subrange(0, i - from + 1).drop_last() =~= d.subrange(0, i - from));
            assert(d.subrange(0, i - from + 1).last() == c);
            if is_digits(d) {
                lemma_digits_prefix(d, i - from + 1);
            }
        }
        let x: u64 = (c as u64) - 48;
        if x > max || n > (max - x) / 10 {
            proof {
                assert(n * 10 + x > max);
            }
            return None;
        }
        n = n * 10 + x;
        i = i + 1;
    }
    proof {
        assert(d.subrange(0, d.len() as int) =~= d);
    }
    Some(n)
}

/// Reads an unsigned decimal number of at most `max`: an optional plus sign, then digits.
pub fn parse_unsigned(s: &str, max: u64) -> (r: Option<u64>)
    ensures
        match r {
            Some(n) => unsigned_value(s@, max as nat) == Some(n as nat),
            None => unsigned_value(s@, max as nat) is None,
        },
{
    let v = chars_of(s);
    if v.len() > 0 && v[0] == '+' {
        parse_digits(&v, 1, max)
    } else {
        proof {
            assert(v@.skip(0) =~= s@);
        }
        parse_digits(&v, 0, max)
    }
}

/// Reads a signed 32-bit decimal number: an optional sign, then digits.
pub fn parse_i32(s: &str) -> (r: Option<i32>)
    ensures
        match r {
            Some(n) => i32_value(s@) == Some(n as int),
            None => i32_value(s@) is None,
        },
{
    let v = chars_of(s);
    if v.len() > 0 && v[0] == '-' {
        match parse_digits(&v, 1, 0x8000_0000) {
            Some(n) => Some((-(n as i64)) as i32),
            None => None,
        }
    } else if v.len() > 0 && v[0] == '+' {
        match parse_digits(&v, 1, 0x7fff_ffff) {
            Some(n) => Some(n as i32),
            None => None,
        }
    } else {
        proof {
            assert(v@.skip(0) =~= s@);
        }
        match parse_digits(&v, 0, 0x7fff_ffff) {
            Some(n) => Some(n as i32),
            None => None,
        }
    }
}

/// A number in decimal is a run of digits that stands for the number.
pub proof fn lemma_dec_value(n: nat)
    ensures
        is_digits(dec(n)),
        digits_value(dec(n)) == n,
    decreases n,
{
    let s = dec(n);
    if n < 10 {
        assert(s =~= seq![digit_char(n)]);
        assert(s.drop_last() =~= Seq::<char>::empty());
        assert(digits_value(s.drop_last()) == 0);
    } else {
        lemma_dec_value(n / 10);
        assert(s.drop_last() =~= dec(n / 10));
        assert(s.last() == digit_char(n % 10));
    }
}

/// Reading a number written in decimal gives the number back.
pub proof fn law_decimal_round_trip(n: u64)
    ensures
        unsigned_value(dec(n as nat), u64::MAX as nat) == Some(n as nat),
{
    lemma_dec_value(n as nat);
    assert('0' <= dec(n as nat)[0] <= '9');
}

/// The characters that Unicode calls white space.
pub open spec fn is_white(c: char) -> bool {
    ||| '\u{9}' <= c <= '\u{d}'
    ||| c == ' '
    ||| c == '\u{85}'
    ||| c == '\u{a0}'
    ||| c == '\u{1680}'
    ||| '\u{2000}' <= c <= '\u{200a}'
    ||| c == '\u{2028}'
    ||| c == '\u{2029}'
    ||| c == '\u{202f}'
    ||| c == '\u{205f}'
    ||| c == '\u{3000}'
}

/// Whether a character is white space.
fn white(c: char) -> (r: bool)
    ensures
        r == is_white(c),
{
    ('\u{9}' <= c && c <= '\u{d}') || c == ' ' || c == '\u{85}' || c == '\u{a0}' || c == '\u{1680}'
        || ('\u{2000}' <= c && c <= '\u{200a}') || c == '\u{2028}' || c == '\u{2029}' || c
        == '\u{202f}' || c == '\u{205f}' || c == '\u{3000}'
}

/// `s` without the white space in front.
pub open spec fn trimmed_front(s: Seq<char>) -> Seq<char>
    decreases s.len(),
{
    if s.len() > 0 && is_white(s[0]) {
        trimmed_front(s.skip(1))
    } else {
        s
    }
}

/// `s` without the white space behind.
pub open spec fn trimmed_back(s: Seq<char>) -> Seq<char>
    decreases s.len(),
{
    if s.len() > 0 && is_white(s.last()) {
        trimmed_back(s.drop_last())
    } else {
        s
    }
}

/// `s` without the white space at both ends.
pub open spec fn trimmed(s: Seq<char>) -> Seq<char> {
    trimmed_back(trimmed_front(s))
}

/// Cuts the white space off both ends.
pub fn trim(s: &str) -> (r: &str)
    ensures
        r@ == trimmed(s@),
{
    let v = chars_of(s);
    let n = v.len();
    let mut a: usize = 0;
    proof {
        assert(s@.skip(0) =~= s@);
    }
    while a < n && white(v[a])
        invariant
            a <= n,
            n == v.len(),
            v@ == s@,
            trimmed_front(s@) == trimmed_front(s@.skip(a as int)),
        ensures
            a <= n,
            trimmed_front(s@) == s@.skip(a as int),
        decreases n - a,
    {
        proof {
            assert(s@.skip(a as int).skip(1) =~= s@.skip(a + 1));
        }
        a = a + 1;
    }
    let ghost f = s@.skip(a as int);
    let mut b: usize = n;
    proof {
        assert(f.subrange(0, b - a) =~= f);
    }
    while b > a && white(v[b - 1])
        invariant
            a <= b <= n,
            n == v.len(),
            v@ == s@,
            f == s@.skip(a as int),
            trimmed_back(f) == trimmed_back(f.subrange(0, b - a)),
        ensures
            a <= b <= n,
            trimmed_back(f) == f.subrange(0, b - a),
        decreases b,
    {
        proof {
            assert(f.subrange(0, b - a).drop_last() =~= f.subrange(0, b - a - 1));
            assert(f.subrange(0, b - a).last() == v@[b - 1]);
        }
        b = b - 1;
    }
    proof {
        assert(f.subrange(0, b - a) =~= s@.subrange(a as int, b as int));
    }
    s.substring_char(a, b)
}

/// The pieces of `s` between the separators.
pub open spec fn pieces(s: Seq<char>, sep: char) -> Seq<Seq<char>>
    decreases s.len(),
{
    if s.len() == 0 {
        seq![Seq::empty()]
    } else {
        let head = pieces(s.drop_last(), sep);
        if s.last() == sep {
            head.push(Seq::empty())
        } else {
            head.update(head.len() - 1, head.last().push(s.last()))
        }
    }
}

/// There is always at least one piece.
pub proof fn lemma_pieces_nonempty(s: Seq<char>, sep: char)
    ensures
        pieces(s, sep).len() > 0,
    decreases s.len(),
{
    if s.len() > 0 {
        lemma_pieces_nonempty(s.drop_last(), sep);
    }
}

/// Splits a text at every separator.
pub fn split(s: &str, sep: char) -> (r: Vec<String>)
    ensures
        texts(r@) == pieces(s@, sep),
{
    let v = chars_of(s);
    let mut r: Vec<String> = Vec::new();
    let mut cur = String::new();
    let mut i: usize = 0;
    proof {
        assert(s@.subrange(0, 0) =~= Seq::<char>::empty());
        assert(texts(r@).push(cur@) =~= pieces(s@.subrange(0, 0), sep));
    }
    while i < v.len()
        invariant
            i <= v.len(),
            v@ == s@,
            texts(r@).push(cur@) == pieces(s@.subrange(0, i as int), sep),
        decreases v.len() - i,
    {
        let c = v[i];
        let ghost head = pieces(s@.subrange(0, i as int), sep);
        proof {
            assert(s@.subrange(0, i + 1).drop_last() =~= s@.subrange(0, i as int));
            assert(head.last() == cur@);
        }
        if c == sep {
            let ghost before = r@;
            r.push(cur);
            proof {
                lemma_texts_push(before, cur);
            }
            cur = String::new();
            proof {
                assert(texts(r@).push(cur@) =~= pieces(s@.subrange(0, i + 1), sep));
            }
        } else {
            cur.push(c);
            proof {
                assert(texts(r@).push(cur@) =~= pieces(s@.subrange(0, i + 1), sep));
            }
        }
        i = i + 1;
    }
    proof {
        assert(s@.subrange(0, v@.len() as int) =~= s@);
        lemma_texts_push(r@, cur);
    }
    r.push(cur);
    r
}

/// A text without the separator is one piece.
pub proof fn lemma_one_piece(s: Seq<char>, sep: char)
    requires
        !has_char(s, sep),
    ensures
        pieces(s, sep) == seq![s],
    decreases s.len(),
{
    if s.len() > 0 {
        let t = s.drop_last();
        assert forall|i: int| 0 <= i < t.len() implies t[i] != sep by {
            assert(t[i] == s[i]);
        }
        lemma_one_piece(t, sep);
        assert(s.last() == s[s.len() - 1]);
        assert(t.push(s.last()) =~= s);
        assert(pieces(s, sep) =~= seq![s]);
    } else {
        assert(s =~= Seq::<char>::empty());
    }
}

/// A text behind a separator is a piece more.
proof fn lemma_piece_behind(a: Seq<char>, b: Seq<char>, sep: char)
    requires
        !has_char(b, sep),
    ensures
        pieces(a + seq![sep] + b, sep) == pieces(a, sep).push(b),
    decreases b.len(),
{
    let s = a + seq![sep] + b;
    lemma_pieces_nonempty(a, sep);
    if b.len() == 0 {
        assert(s.drop_last() =~= a);
        assert(s.last() == sep);
        assert(b =~= Seq::<char>::empty());
    } else {
        let c = b.drop_last();
        assert forall|i: int| 0 <= i < c.len() implies c[i] != sep by {
            assert(c[i] == b[i]);
        }
        lemma_piece_behind(a, c, sep);
        assert(s.drop_last() =~= a + seq![sep] + c);
        assert(s.last() == b[b.len() - 1]);
        assert(c.push(b.last()) =~= b);
        assert(pieces(s, sep) =~= pieces(a, sep).push(b));
    }
}

/// Texts that are joined by a character that none of them holds can be taken apart again.
pub proof fn law_split_undoes_join(parts: Seq<Seq<char>>, sep: char, sep_text: Seq<char>)
    requires
        parts.len() > 0,
        sep_text == seq![sep],
        forall|i: int| 0 <= i < parts.len() ==> !has_char(#[trigger] parts[i], sep),
    ensures
        pieces(joined_texts(parts, sep_text), sep) == parts,
    decreases parts.len(),
{
    if parts.len() == 1 {
        lemma_one_piece(parts[0], sep);
        assert(parts =~= seq![parts[0]]);
    } else {
        let head = parts.drop_last();
        assert forall|i: int| 0 <= i < head.len() implies !has_char(#[trigger] head[i], sep) by {
            assert(head[i] == parts[i]);
        }
        law_split_undoes_join(head, sep, sep_text);
        assert(!has_char(parts[parts.len() - 1], sep));
        lemma_piece_behind(joined_texts(head, sep_text), parts.last(), sep);
        assert(head.push(parts.last()) =~= parts);
    }
}

/// `std::str::from_utf8` gives the text that the bytes are in UTF-8, and an error where they are
/// none.
#[verifier::external_body]
pub(crate) fn text_of_utf8(bytes: &[u8]) -> (r: Option<String>)
    ensures
        match r {
            Some(s) => valid_utf8(bytes@) && s@ == decode_utf8(bytes@),
            None => !valid_utf8(bytes@),
        },
{
    std::str::from_utf8(bytes).ok().map(String::from)
}

/// A text without the separator goes on with the last piece.
pub proof fn lemma_tail_split(s: Seq<char>, tail: Seq<char>, sep: char)
    requires
        !has_char(tail, sep),
    ensures
        pieces(s + tail, sep) == pieces(s, sep).update(
            pieces(s, sep).len() - 1,
            pieces(s, sep).last() + tail,
        ),
    decreases tail.len(),
{
    let p = pieces(s, sep);
    lemma_pieces_nonempty(s, sep);
    if tail.len() == 0 {
        assert(s + tail =~= s);
        assert(p.last() + tail =~= p.last());
        assert(p.update(p.len() - 1, p.last()) =~= p);
    } else {
        let h = tail.drop_last();
        assert forall|i: int| 0 <= i < h.len() implies h[i] != sep by {
            assert(h[i] == tail[i]);
        }
        lemma_tail_split(s, h, sep);
        assert(tail.last() == tail[tail.len() - 1]);
        assert((s + tail).drop_last() =~= s + h);
        assert((s + tail).last() == tail.last());
        let q = pieces(s + h, sep);
        assert(q.last() == p.last() + h);
        assert((p.last() + h).push(tail.last()) =~= p.last() + tail);
        assert(q.update(q.len() - 1, p.last() + tail) =~= p.update(
            p.len() - 1,
            p.last() + tail,
        ));
    }
}

/// A line behind a text: it goes on with the text's last line, and a new one begins.
pub proof fn lemma_line_split(s: Seq<char>, line: Seq<char>)
    requires
        !has_char(line, '\n'),
    ensures
        pieces(s + line + "\n"@, '\n') == pieces(s, '\n').update(
            pieces(s, '\n').len() - 1,
            pieces(s, '\n').last() + line,
        ).push(Seq::empty()),
{
    reveal_strlit("\n");
    let t = s + line + "\n"@;
    assert(t.drop_last() =~= s + line);
    lemma_tail_split(s, line, '\n');
}

/// Lines one behind the other.
pub open spec fn as_lines(lines: Seq<Seq<char>>) -> Seq<char>
    decreases lines.len(),
{
    if lines.len() == 0 {
        Seq::empty()
    } else {
        as_lines(lines.drop_last()) + lines.last() + "\n"@
    }
}

/// Lines, split at their ends, are the lines and an empty rest.
pub proof fn lemma_lines_split(lines: Seq<Seq<char>>)
    requires
        forall|i: int| 0 <= i < lines.len() ==> !has_char(#[trigger] lines[i], '\n'),
    ensures
        pieces(as_lines(lines), '\n') == lines.push(Seq::empty()),
    decreases lines.len(),
{
    if lines.len() > 0 {
        let h = lines.drop_last();
        assert forall|i: int| 0 <= i < h.len() implies !has_char(#[trigger] h[i], '\n') by {
            assert(h[i] == lines[i]);
        }
        lemma_lines_split(h);
        assert(lines.last() == lines[lines.len() - 1]);
        lemma_line_split(as_lines(h), lines.last());
        let p = pieces(as_lines(h), '\n');
        assert(p.last() + lines.last() =~= lines.last());
        assert(p.update(p.len() - 1, lines.last()).push(Seq::empty()) =~= lines.push(
            Seq::empty(),
        ));
    } else {
        assert(lines.push(Seq::empty()) =~= seq![Seq::<char>::empty()]);
    }
}

/// A number in decimal holds digits only.
pub proof fn lemma_dec_lacks(n: nat, c: char)
    requires
        !('0' <= c <= '9'),
    ensures
        !has_char(dec(n), c),
        dec(n).len() > 0,
{
    lemma_dec_value(n);
    let s = dec(n);
    assert forall|i: int| 0 <= i < s.len() implies s[i] != c by {
        assert('0' <= s[i] <= '9');
    }
}

/// What white space is cut off: what is left stands in the text, begins and ends with something
/// else, and there was nothing but white space around it.
pub proof fn law_trimmed(s: Seq<char>)
    ensures
        exists|a: int, b: int|
            0 <= a <= b <= s.len() && trimmed(s) == #[trigger] s.subrange(a, b) && (forall|i: int|
                0 <= i < s.len() && !(a <= i < b) ==> is_white(#[trigger] s[i])),
        trimmed(s).len() > 0 ==> !is_white(trimmed(s)[0]) && !is_white(trimmed(s).last()),
{
    let a = lemma_trimmed_front(s);
    let t = trimmed_front(s);
    let b = lemma_trimmed_back(t);
    assert(trimmed(s) =~= s.subrange(a, a + b));
    assert forall|i: int| 0 <= i < s.len() && !(a <= i < a + b) implies is_white(#[trigger] s[i]) by {
        if i >= a {
            assert(t[i - a] == s[i]);
        }
    }
    if trimmed(s).len() > 0 {
        assert(trimmed(s)[0] == t[0]);
    }
}

/// Where what is left begins.
proof fn lemma_trimmed_front(s: Seq<char>) -> (a: int)
    ensures
        0 <= a <= s.len(),
        trimmed_front(s) == s.skip(a),
        forall|i: int| 0 <= i < a ==> is_white(#[trigger] s[i]),
        a < s.len() ==> !is_white(s[a]),
    decreases s.len(),
{
    if s.len() > 0 && is_white(s[0]) {
        let t = s.skip(1);
        let b = lemma_trimmed_front(t);
        assert(t.skip(b) =~= s.skip(b + 1));
        assert forall|i: int| 0 <= i < b + 1 implies is_white(#[trigger] s[i]) by {
            if i > 0 {
                assert(t[i - 1] == s[i]);
            }
        }
        b + 1
    } else {
        assert(s.skip(0) =~= s);
        0
    }
}

/// Where what is left ends.
proof fn lemma_trimmed_back(s: Seq<char>) -> (b: int)
    ensures
        0 <= b <= s.len(),
        trimmed_back(s) == s.take(b),
        forall|i: int| b <= i < s.len() ==> is_white(#[trigger] s[i]),
        b > 0 ==> !is_white(s[b - 1]),
    decreases s.len(),
{
    if s.len() > 0 && is_white(s.last()) {
        let t = s.drop_last();
        let b = lemma_trimmed_back(t);
        assert(t.take(b) =~= s.take(b));
        assert forall|i: int| b <= i < s.len() implies is_white(#[trigger] s[i]) by {
            if i < t.len() {
                assert(t[i] == s[i]);
            }
        }
        if b > 0 {
            assert(t[b - 1] == s[b - 1]);
        }
        b
    } else {
        assert(s.take(s.len() as int) =~= s);
        s.len() as int
    }
}

/// What is cut off the front: what is left ends the text, does not begin with the character, and
/// there was nothing but the character before it.
pub proof fn law_without_front(s: Seq<char>, c: char)
    ensures
        without_front(s, c).len() <= s.len(),
        without_front(s, c) == s.skip(s.len() - without_front(s, c).len()),
        forall|i: int| 0 <= i < s.len() - without_front(s, c).len() ==> #[trigger] s[i] == c,
        without_front(s, c).len() > 0 ==> without_front(s, c)[0] != c,
    decreases s.len(),
{
    if s.len() > 0 && s[0] == c {
        let t = s.skip(1);
        law_without_front(t, c);
        let n = without_front(t, c).len();
        assert(t.skip(t.len() - n) =~= s.skip(s.len() - n));
        assert forall|i: int| 0 <= i < s.len() - n implies #[trigger] s[i] == c by {
            if i > 0 {
                assert(t[i - 1] == s[i]);
            }
        }
    } else {
        assert(s.skip(0) =~= s);
    }
}

/// Numbers are told apart by their decimal texts, with a sign or without.
pub proof fn law_decimals_differ(a: int, b: int)
    requires
        dec_int(a) == dec_int(b),
    ensures
        a == b,
{
    lemma_dec_value(if a < 0 {
        (-a) as nat
    } else {
        a as nat
    });
    lemma_dec_value(if b < 0 {
        (-b) as nat
    } else {
        b as nat
    });
    let s = dec_int(a);
    if a < 0 {
        assert(s[0] == '-');
        assert(s.skip(1) =~= dec((-a) as nat));
        if b >= 0 {
            assert('0' <= dec(b as nat)[0] <= '9');
        } else {
            assert(s.skip(1) =~= dec((-b) as nat));
        }
    } else {
        assert('0' <= dec(a as nat)[0] <= '9');
        if b < 0 {
            assert(s[0] == '-');
        }
    }
}

/// No piece holds the separator.
pub proof fn lemma_pieces_lack(s: Seq<char>, sep: char)
    ensures
        forall|i: int| 0 <= i < pieces(s, sep).len() ==> !has_char(#[trigger] pieces(s, sep)[i], sep),
    decreases s.len(),
{
    let p = pieces(s, sep);
    if s.len() > 0 {
        let h = pieces(s.drop_last(), sep);
        lemma_pieces_lack(s.drop_last(), sep);
        lemma_pieces_nonempty(s.drop_last(), sep);
        assert forall|i: int| 0 <= i < p.len() implies !has_char(#[trigger] p[i], sep) by {
            if i < h.len() - 1 {
                assert(p[i] == h[i]);
            } else if s.last() == sep && i < h.len() {
                assert(p[i] == h[i]);
            } else if s.last() != sep {
                assert(!has_char(h[h.len() - 1], sep));
                let t = h.last().push(s.last());
                assert forall|k: int| 0 <= k < t.len() implies t[k] != sep by {
                    if k < h.last().len() {
                        assert(t[k] == h.last()[k]);
                    }
                }
            }
        }
    }
}

/// A number in a base of at most ten holds digits only.
pub proof fn lemma_in_base_lacks(n: nat, base: nat, c: char)
    requires
        2 <= base <= 10,
        !('0' <= c <= '9'),
    ensures
        !has_char(in_base(n, base), c),
    decreases n,
{
    let s = in_base(n, base);
    if n < base {
        assert(s =~= seq![digit_char(n)]);
    } else {
        assert(n / base < n && n % base < base) by (nonlinear_arith)
            requires
                n >= base,
                base >= 2,
        ;
        lemma_in_base_lacks(n / base, base, c);
        let h = in_base(n / base, base);
        assert forall|i: int| 0 <= i < s.len() implies s[i] != c by {
            if i < h.len() {
                assert(s[i] == h[i]);
            }
        }
    }
}

/// A text made of two without a character is without it.
pub proof fn lemma_sum_lacks(a: Seq<char>, b: Seq<char>, c: char)
    requires
        !has_char(a, c),
        !has_char(b, c),
    ensures
        !has_char(a + b, c),
{
    assert forall|i: int| 0 <= i < (a + b).len() implies (a + b)[i] != c by {
        if i < a.len() {
            assert((a + b)[i] == a[i]);
        } else {
            assert((a + b)[i] == b[i - a.len()]);
        }
    }
}

} // verus!
