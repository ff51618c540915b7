//! Character-level text helpers shared by the attribute and option parsers.
//!
//! Strings are handled as sequences of Unicode scalar values. The spec
//! functions here state what the corresponding `str` operations of std do
//! (`trim`, `split` on a set of separator characters, ASCII lower-casing,
//! decimal parsing of unsigned integers), and the executable functions are
//! proved against them.
use vstd::prelude::*;

verus! {

/// Unicode `White_Space` property, as used by `char::is_whitespace` and `str::trim`.
pub open spec fn is_ws(c: char) -> bool {
    let u = c as u32;
    ||| (0x09 <= u && u <= 0x0d)
    ||| u == 0x20
    ||| u == 0x85
    ||| u == 0xa0
    ||| u == 0x1680
    ||| (0x2000 <= u && u <= 0x200a)
    ||| u == 0x2028
    ||| u == 0x2029
    ||| u == 0x202f
    ||| u == 0x205f
    ||| u == 0x3000
}

/// `s` with its leading white space removed.
pub open spec fn trim_start_seq(s: Seq<char>) -> Seq<char>
    decreases s.len(),
{
    if s.len() > 0 && is_ws(s[0]) {
        trim_start_seq(s.drop_first())
    } else {
        s
    }
}

/// `s` with its trailing white space removed.
pub open spec fn trim_end_seq(s: Seq<char>) -> Seq<char>
    decreases s.len(),
{
    if s.len() > 0 && is_ws(s.last()) {
        trim_end_seq(s.drop_last())
    } else {
        s
    }
}

/// What `str::trim` returns.
pub open spec fn trim_seq(s: Seq<char>) -> Seq<char> {
    trim_end_seq(trim_start_seq(s))
}

/// ASCII lower-casing of one character (`char::to_ascii_lowercase`).
pub open spec fn lower_char(c: char) -> char {
    if 'A' <= c && c <= 'Z' {
        ((c as u32) + 32) as char
    } else {
        c
    }
}

/// ASCII upper-casing of one character (`char::to_ascii_uppercase`).
pub open spec fn upper_char(c: char) -> char {
    if 'a' <= c && c <= 'z' {
        ((c as u32) - 32) as char
    } else {
        c
    }
}

/// `str::to_ascii_lowercase`.
pub open spec fn lower_seq(s: Seq<char>) -> Seq<char> {
    s.map_values(|c: char| lower_char(c))
}

/// `str::to_ascii_uppercase`.
pub open spec fn upper_seq(s: Seq<char>) -> Seq<char> {
    s.map_values(|c: char| upper_char(c))
}

/// The pieces that `str::split` yields when every character of `seps` is a separator:
/// `n` separators give `n + 1` pieces, empty ones included.
pub open spec fn split_seq(s: Seq<char>, seps: Seq<char>) -> Seq<Seq<char>>
    decreases s.len(),
{
    if s.len() == 0 {
        seq![Seq::<char>::empty()]
    } else {
        let rest = split_seq(s.drop_last(), seps);
        if seps.contains(s.last()) {
            rest.push(Seq::<char>::empty())
        } else {
            rest.update(rest.len() - 1, rest.last().push(s.last()))
        }
    }
}

/// The value of an ASCII digit.
pub open spec fn digit_value(c: char) -> nat {
    ((c as u32) - ('0' as u32)) as nat
}

pub open spec fn is_digit(c: char) -> bool {
    '0' <= c && c <= '9'
}

/// The decimal value of a sequence of digits.
pub open spec fn decimal_value(s: Seq<char>) -> nat
    decreases s.len(),
{
    if s.len() == 0 {
        0
    } else {
        decimal_value(s.drop_last()) * 10 + digit_value(s.last())
    }
}

/// The digits that `u32::from_str` / `usize::from_str` read: an optional `+`, then the rest.
pub open spec fn unsigned_digits(s: Seq<char>) -> Seq<char> {
    if s.len() > 0 && s[0] == '+' {
        s.drop_first()
    } else {
        s
    }
}

/// Whether `str::parse` of an unsigned integer type with maximum `max` succeeds.
pub open spec fn parses_unsigned(s: Seq<char>, max: nat) -> bool {
    let d = unsigned_digits(s);
    &&& d.len() > 0
    &&& forall|i: int| 0 <= i < d.len() ==> is_digit(#[trigger] d[i])
    &&& decimal_value(d) <= max
}

/// The decimal representation that `Display` gives an unsigned integer.
pub open spec fn decimal_text(n: nat) -> Seq<char>
    decreases n,
{
    if n < 10 {
        seq![(('0' as u32) + n) as char]
    } else {
        decimal_text(n / 10).push((('0' as u32) + (n % 10)) as char)
    }
}

/// Copies the characters of a string slice into a vector.
pub fn chars_of(s: &str) -> (r: Vec<char>)
    ensures
        r@ == s@,
{
    let mut r: Vec<char> = Vec::new();
    for c in it: s.chars()
        invariant
            r@ == it.seq().take(it.index() as int),
    {
        r.push(c);
    }
    r
}

/// `pat` occurs in `s` at position `i`.
pub open spec fn occurs_at(s: Seq<char>, pat: Seq<char>, i: int) -> bool {
    0 <= i && i + pat.len() <= s.len() && s.subrange(i, i + pat.len() as int) == pat
}

/// The first position at or after `from` where `pat` occurs in `s` (`str::find`).
pub open spec fn find_from(s: Seq<char>, pat: Seq<char>, from: int) -> Option<int>
    decreases s.len() + 1 - from,
{
    if from < 0 || from + pat.len() > s.len() {
        None
    } else if occurs_at(s, pat, from) {
        Some(from)
    } else {
        find_from(s, pat, from + 1)
    }
}

/// Where `pat` first occurs in `s` at or after `from`.
pub fn find_in(s: &[char], pat: &[char], from: usize) -> (r: Option<usize>)
    ensures
        r matches Some(i) ==> find_from(s@, pat@, from as int) == Some(i as int),
        r is None ==> find_from(s@, pat@, from as int) is None,
{
    let mut i: usize = from;
    let n = s.len();
    while i <= n && pat.len() <= n - i
        invariant
            n == s@.len(),
            from <= i,
            find_from(s@, pat@, from as int) == find_from(s@, pat@, i as int),
        decreases s@.len() + 1 - i,
    {
        let mut k: usize = 0;
        let mut same = true;
        while k < pat.len()
            invariant
                n == s@.len(),
                i + pat@.len() <= s@.len(),
                k <= pat@.len(),
                same == (forall|j: int| 0 <= j < k ==> s@[i + j] == pat@[j]),
            decreases pat@.len() - k,
        {
            assert(i + k < s@.len());
            if s[i + k] != pat[k] {
                same = false;
            }
            k = k + 1;
        }
        if same {
            assert(s@.subrange(i as int, i + pat@.len()) =~= pat@);
            return Some(i);
        }
        assert(!occurs_at(s@, pat@, i as int)) by {
            if occurs_at(s@, pat@, i as int) {
                let j = choose|j: int| 0 <= j < pat@.len() && s@[i + j] != pat@[j];
                assert(s@.subrange(i as int, i + pat@.len())[j] == s@[i + j]);
            }
        }
        i = i + 1;
    }
    None
}

pub proof fn lemma_find_bounds(s: Seq<char>, pat: Seq<char>, from: int)
    ensures
        find_from(s, pat, from) matches Some(i) ==> from <= i && i + pat.len() <= s.len() && 0 <= i,
    decreases s.len() + 1 - from,
{
    if !(from < 0 || from + pat.len() > s.len()) && !occurs_at(s, pat, from) {
        lemma_find_bounds(s, pat, from + 1);
    }
}

/// `pat` occurs somewhere in `s` (`str::contains`).
pub open spec fn has_sub(s: Seq<char>, pat: Seq<char>) -> bool {
    exists|i: int| #[trigger] occurs_at(s, pat, i)
}

proof fn lemma_find_none(s: Seq<char>, pat: Seq<char>, from: int)
    requires
        0 <= from,
        find_from(s, pat, from) is None,
    ensures
        forall|i: int| from <= i ==> !#[trigger] occurs_at(s, pat, i),
    decreases s.len() + 1 - from,
{
    if !(from < 0 || from + pat.len() > s.len()) {
        lemma_find_none(s, pat, from + 1);
    }
}

/// Whether `pat` occurs in `s`.
pub fn contains_str(s: &str, pat: &str) -> (r: bool)
    ensures
        r == has_sub(s@, pat@),
{
    let sc = chars_of(s);
    let pc = chars_of(pat);
    match find_in(sc.as_slice(), pc.as_slice(), 0) {
        Some(i) => {
            proof {
                lemma_find_bounds(s@, pat@, 0);
                lemma_find_hit(s@, pat@, 0);
                assert(occurs_at(s@, pat@, i as int));
            }
            true
        },
        None => {
            proof {
                lemma_find_none(s@, pat@, 0);
            }
            false
        },
    }
}

proof fn lemma_find_hit(s: Seq<char>, pat: Seq<char>, from: int)
    ensures
        find_from(s, pat, from) matches Some(i) ==> occurs_at(s, pat, i),
    decreases s.len() + 1 - from,
{
    if !(from < 0 || from + pat.len() > s.len()) && !occurs_at(s, pat, from) {
        lemma_find_hit(s, pat, from + 1);
    }
}

/// `String::push`: appends one character.
#[verifier::external_body]
fn push_char(s: &mut String, c: char)
    ensures
        final(s)@ == old(s)@.push(c),
{
    s.push(c);
}

/// Gives `s` the static lifetime that descriptions carry, by `String::leak`.
#[verifier::external_body]
pub(crate) fn leak_text(s: String) -> (r: &'static str)
    ensures
        r@ == s@,
{
    s.leak()
}

/// A `String` holding the characters `cs`.
pub fn string_of(cs: &[char]) -> (r: String)
    ensures
        r@ == cs@,
{
    let mut r = String::new();
    let mut i: usize = 0;
    while i < cs.len()
        invariant
            i <= cs@.len(),
            r@ == cs@.take(i as int),
        decreases cs@.len() - i,
    {
        push_char(&mut r, cs[i]);
        assert(cs@.take(i + 1) =~= cs@.take(i as int).push(cs@[i as int]));
        i = i + 1;
    }
    assert(cs@.take(cs@.len() as int) =~= cs@);
    r
}

/// A `String` holding `a`, then `b`, then `c`.
pub fn text_between(a: &str, b: &[char], c: &str) -> (r: String)
    ensures
        r@ == a@ + b@ + c@,
{
    let mut v = chars_of(a);
    let ghost va = v@;
    let mut i: usize = 0;
    while i < b.len()
        invariant
            i <= b@.len(),
            va == a@,
            v@ == va + b@.take(i as int),
        decreases b@.len() - i,
    {
        v.push(b[i]);
        assert(b@.take(i + 1) =~= b@.take(i as int).push(b@[i as int]));
        i = i + 1;
    }
    assert(b@.take(b@.len() as int) =~= b@);
    let cc = chars_of(c);
    let ghost vb = v@;
    let mut j: usize = 0;
    while j < cc.len()
        invariant
            j <= cc@.len(),
            vb == a@ + b@,
            cc@ == c@,
            v@ == vb + cc@.take(j as int),
        decreases cc@.len() - j,
    {
        v.push(cc[j]);
        assert(cc@.take(j + 1) =~= cc@.take(j as int).push(cc@[j as int]));
        j = j + 1;
    }
    assert(cc@.take(cc@.len() as int) =~= cc@);
    string_of(v.as_slice())
}

/// Whether two character sequences are equal.
pub fn chars_eq(a: &[char], b: &[char]) -> (r: bool)
    ensures
        r == (a@ == b@),
{
    if a.len() != b.len() {
        return false;
    }
    let mut i: usize = 0;
    while i < a.len()
        invariant
            a@.len() == b@.len(),
            i <= a@.len(),
            forall|j: int| 0 <= j < i ==> a@[j] == b@[j],
        decreases a@.len() - i,
    {
        if a[i] != b[i] {
            return false;
        }
        i = i + 1;
    }
    assert(a@ =~= b@);
    true
}

/// Whether two string slices hold the same text (`str == str`).
pub fn str_eq(a: &str, b: &str) -> (r: bool)
    ensures
        r == (a@ == b@),
{
    let x = chars_of(a);
    let y = chars_of(b);
    chars_eq(x.as_slice(), y.as_slice())
}

/// `char::is_whitespace`.
pub fn is_whitespace(c: char) -> (r: bool)
    ensures
        r == is_ws(c),
{
    let u = c as u32;
    (0x09 <= u && u <= 0x0d) || u == 0x20 || u == 0x85 || u == 0xa0 || u == 0x1680 || (0x2000
        <= u && u <= 0x200a) || u == 0x2028 || u == 0x2029 || u == 0x202f || u == 0x205f || u
        == 0x3000
}

proof fn lemma_trim_start_step(s: Seq<char>, i: int)
    requires
        0 <= i < s.len(),
        is_ws(s[i]),
    ensures
        trim_start_seq(s.subrange(i, s.len() as int)) == trim_start_seq(
            s.subrange(i + 1, s.len() as int),
        ),
{
    assert(s.subrange(i, s.len() as int).drop_first() =~= s.subrange(i + 1, s.len() as int));
}

proof fn lemma_trim_end_step(s: Seq<char>, j: int)
    requires
        0 < j <= s.len(),
        is_ws(s[j - 1]),
    ensures
        trim_end_seq(s.subrange(0, j)) == trim_end_seq(s.subrange(0, j - 1)),
{
    assert(s.subrange(0, j).drop_last() =~= s.subrange(0, j - 1));
}

/// `str::trim`: removes leading and trailing white space.
pub fn trim(s: &[char]) -> (r: Vec<char>)
    ensures
        r@ == trim_seq(s@),
{
    let n = s.len();
    let mut i: usize = 0;
    assert(s@.subrange(0, n as int) =~= s@);
    while i < n && is_whitespace(s[i])
        invariant
            n == s@.len(),
            i <= n,
            trim_start_seq(s@) == trim_start_seq(s@.subrange(i as int, n as int)),
        decreases n - i,
    {
        proof {
            lemma_trim_start_step(s@, i as int);
        }
        i = i + 1;
    }
    let ghost t = s@.subrange(i as int, n as int);
    assert(trim_start_seq(t) == t);
    let mut j: usize = n;
    assert(t.subrange(0, (j - i) as int) =~= t);
    while j > i && is_whitespace(s[j - 1])
        invariant
            n == s@.len(),
            i <= j <= n,
            t == s@.subrange(i as int, n as int),
            trim_end_seq(t) == trim_end_seq(t.subrange(0, (j - i) as int)),
        decreases j,
    {
        proof {
            assert(t[(j - i) - 1] == s@[j - 1]);
            lemma_trim_end_step(t, (j - i) as int);
        }
        j = j - 1;
    }
    let ghost u = t.subrange(0, (j - i) as int);
    assert(trim_end_seq(u) == u);
    let mut r: Vec<char> = Vec::new();
    let mut k: usize = i;
    while k < j
        invariant
            n == s@.len(),
            i <= k <= j <= n,
            r@ == s@.subrange(i as int, k as int),
        decreases j - k,
    {
        r.push(s[k]);
        assert(r@ =~= s@.subrange(i as int, k + 1));
        k = k + 1;
    }
    assert(r@ =~= u);
    r
}

/// `char::to_ascii_lowercase`.
pub fn to_lower(c: char) -> (r: char)
    ensures
        r == lower_char(c),
{
    if 'A' <= c && c <= 'Z' {
        let u: u32 = (c as u32) + 32;
        assert(0x61 <= u && u <= 0x7a);
        char_from_ascii(u)
    } else {
        c
    }
}

/// `char::to_ascii_uppercase`.
pub fn to_upper(c: char) -> (r: char)
    ensures
        r == upper_char(c),
{
    if 'a' <= c && c <= 'z' {
        let u: u32 = (c as u32) - 32;
        char_from_ascii(u)
    } else {
        c
    }
}

fn char_from_ascii(u: u32) -> (r: char)
    requires
        u < 128,
    ensures
        r == u as char,
{
    let b: u8 = u as u8;
    b as char
}

/// Whether the ASCII lower-cased `piece` equals `word`.
pub fn lower_eq(piece: &[char], word: &[char]) -> (r: bool)
    ensures
        r == (lower_seq(piece@) == word@),
{
    if piece.len() != word.len() {
        assert(lower_seq(piece@).len() == piece@.len());
        return false;
    }
    let mut i: usize = 0;
    while i < piece.len()
        invariant
            piece@.len() == word@.len(),
            i <= piece@.len(),
            forall|j: int| 0 <= j < i ==> lower_char(piece@[j]) == word@[j],
        decreases piece@.len() - i,
    {
        if to_lower(piece[i]) != word[i] {
            assert(lower_seq(piece@)[i as int] != word@[i as int]);
            return false;
        }
        i = i + 1;
    }
    assert(lower_seq(piece@) =~= word@);
    true
}

/// Whether the ASCII upper-cased `piece` equals `word`.
pub fn upper_eq(piece: &[char], word: &[char]) -> (r: bool)
    ensures
        r == (upper_seq(piece@) == word@),
{
    if piece.len() != word.len() {
        assert(upper_seq(piece@).len() == piece@.len());
        return false;
    }
    let mut i: usize = 0;
    while i < piece.len()
        invariant
            piece@.len() == word@.len(),
            i <= piece@.len(),
            forall|j: int| 0 <= j < i ==> upper_char(piece@[j]) == word@[j],
        decreases piece@.len() - i,
    {
        if to_upper(piece[i]) != word[i] {
            assert(upper_seq(piece@)[i as int] != word@[i as int]);
            return false;
        }
        i = i + 1;
    }
    assert(upper_seq(piece@) =~= word@);
    true
}

/// Whether `c` occurs in `seps`.
pub fn contains_char(seps: &[char], c: char) -> (r: bool)
    ensures
        r == seps@.contains(c),
{
    let mut i: usize = 0;
    while i < seps.len()
        invariant
            i <= seps@.len(),
            forall|j: int| 0 <= j < i ==> seps@[j] != c,
        decreases seps@.len() - i,
    {
        if seps[i] == c {
            return true;
        }
        i = i + 1;
    }
    false
}

/// `str::split` with every character of `seps` as a separator.
pub fn split(s: &[char], seps: &[char]) -> (r: Vec<Vec<char>>)
    ensures
        r@.len() == split_seq(s@, seps@).len(),
        forall|k: int| 0 <= k < r@.len() ==> #[trigger] r@[k]@ == split_seq(s@, seps@)[k],
{
    let mut done: Vec<Vec<char>> = Vec::new();
    let mut cur: Vec<char> = Vec::new();
    let mut i: usize = 0;
    assert(s@.take(0) =~= Seq::<char>::empty());
    while i < s.len()
        invariant
            i <= s@.len(),
            done@.len() + 1 == split_seq(s@.take(i as int), seps@).len(),
            forall|k: int|
                0 <= k < done@.len() ==> #[trigger] done@[k]@ == split_seq(
                    s@.take(i as int),
                    seps@,
                )[k],
            cur@ == split_seq(s@.take(i as int), seps@).last(),
        decreases s@.len() - i,
    {
        let c = s[i];
        assert(s@.take(i + 1).drop_last() =~= s@.take(i as int));
        if contains_char(seps, c) {
            let piece = cur;
            done.push(piece);
            cur = Vec::new();
        } else {
            cur.push(c);
        }
        i = i + 1;
    }
    assert(s@.take(s@.len() as int) =~= s@);
    done.push(cur);
    done
}

/// `u32::from_str` on the text `s`.
pub fn parse_u32(s: &[char]) -> (r: Option<u32>)
    ensures
        r is Some <==> parses_unsigned(s@, u32::MAX as nat),
        r matches Some(v) ==> v as nat == decimal_value(unsigned_digits(s@)),
{
    match parse_u64_bounded(s, u32::MAX as u64) {
        Some(v) => Some(v as u32),
        None => None,
    }
}

/// The value of a `u32` text, if it has one.
pub open spec fn u32_of(s: Seq<char>) -> Option<u32> {
    if parses_unsigned(s, u32::MAX as nat) {
        Some(decimal_value(unsigned_digits(s)) as u32)
    } else {
        None
    }
}

/// `u32::from_str`, with its result as `u32_of` states it.
pub fn u32_text(s: &[char]) -> (r: Option<u32>)
    ensures
        r == u32_of(s@),
{
    parse_u32(s)
}

/// `usize::from_str` on the text `s`.
pub fn parse_usize(s: &[char]) -> (r: Option<usize>)
    ensures
        r is Some <==> parses_unsigned(s@, usize::MAX as nat),
        r matches Some(v) ==> v as nat == decimal_value(unsigned_digits(s@)),
{
    match parse_u64_bounded(s, usize::MAX as u64) {
        Some(v) => Some(v as usize),
        None => None,
    }
}

proof fn lemma_decimal_value_push(d: Seq<char>, i: int)
    requires
        0 <= i < d.len(),
    ensures
        decimal_value(d.take(i + 1)) == decimal_value(d.take(i)) * 10 + digit_value(d[i]),
{
    assert(d.take(i + 1).drop_last() =~= d.take(i));
}

proof fn lemma_decimal_value_mono(d: Seq<char>, i: int, j: int)
    requires
        0 <= i <= j <= d.len(),
    ensures
        decimal_value(d.take(i)) <= decimal_value(d.take(j)),
    decreases j - i,
{
    if i < j {
        lemma_decimal_value_mono(d, i, j - 1);
        lemma_decimal_value_push(d, j - 1);
        assert(decimal_value(d.take(j - 1)) <= decimal_value(d.take(j - 1)) * 10) by (
        nonlinear_arith);
    }
}

fn parse_u64_bounded(s: &[char], max: u64) -> (r: Option<u64>)
    ensures
        r is Some <==> parses_unsigned(s@, max as nat),
        r matches Some(v) ==> v as nat == decimal_value(unsigned_digits(s@)) && v <= max,
{
    let start: usize = if s.len() > 0 && s[0] == '+' {
        1
    } else {
        0
    };
    let ghost d = unsigned_digits(s@);
    assert(d =~= s@.subrange(start as int, s@.len() as int));
    if start >= s.len() {
        return None;
    }
    let mut v: u64 = 0;
    let mut i: usize = start;
    assert(d.take(0) =~= Seq::<char>::empty());
    while i < s.len()
        invariant
            start <= i <= s@.len(),
            start < s@.len(),
            d == s@.subrange(start as int, s@.len() as int),
            d == unsigned_digits(s@),
            forall|j: int| 0 <= j < i - start ==> is_digit(#[trigger] d[j]),
            v as nat == decimal_value(d.take(i - start)),
            v <= max,
        decreases s@.len() - i,
    {
        let c = s[i];
        assert(d[i - start] == c);
        if !('0' <= c && c <= '9') {
            assert(!is_digit(d[i - start]));
            return None;
        }
        let digit: u64 = (c as u32 - '0' as u32) as u64;
        proof {
            lemma_decimal_value_push(d, i - start);
            assert(digit_value(c) == digit as nat);
            assert(decimal_value(d.take(i - start + 1)) == v * 10 + digit);
        }
        if digit > max {
            proof {
                assert(decimal_value(d.take(i - start + 1)) > max);
                lemma_decimal_value_mono(d, i - start + 1, d.len() as int);
                assert(d.take(d.len() as int) =~= d);
                assert(decimal_value(d) > max);
            }
            return None;
        }
        if v > (max - digit) / 10 {
            proof {
                assert(v * 10 + digit > max) by (nonlinear_arith)
                    requires
                        v > (max - digit) / 10,
                        digit <= 9,
                        digit <= max,
                ;
                assert(decimal_value(d.take(i - start + 1)) > max);
                lemma_decimal_value_mono(d, i - start + 1, d.len() as int);
                assert(d.take(d.len() as int) =~= d);
                assert(decimal_value(d) > max);
            }
            return None;
        }
        assert(v * 10 + digit <= max) by (nonlinear_arith)
            requires
                v <= (max - digit) / 10,
                digit <= max,
        ;
        v = v * 10 + digit;
        i = i + 1;
    }
    assert(d.take(d.len() as int) =~= d);
    Some(v)
}

/// The pieces of `s` split on `seps`, each trimmed and ASCII lower-cased.
pub open spec fn norm_pieces(s: Seq<char>, seps: Seq<char>) -> Seq<Seq<char>> {
    split_seq(s, seps).map_values(|p: Seq<char>| lower_seq(trim_seq(p)))
}

/// Whether some piece of `s`, trimmed and lower-cased, is `word`.
pub open spec fn has_word(s: Seq<char>, seps: Seq<char>, word: Seq<char>) -> bool {
    norm_pieces(s, seps).contains(word)
}

/// The separators that list-valued attribute strings use: `|`, `,` and space.
pub open spec fn list_seps() -> Seq<char> {
    seq!['|', ',', ' ']
}

/// Whether `s` is the text of the literal `lit`.
pub fn eq_lit(s: &[char], lit: &str) -> (r: bool)
    ensures
        r == (s@ == lit@),
{
    let l = chars_of(lit);
    chars_eq(s, l.as_slice())
}

/// Whether the ASCII lower-cased `s` is the text of `lit`.
pub fn lower_eq_lit(s: &[char], lit: &str) -> (r: bool)
    ensures
        r == (lower_seq(s@) == lit@),
{
    let l = chars_of(lit);
    lower_eq(s, l.as_slice())
}

/// The separators `|`, `,` and space.
pub fn list_separators() -> (r: Vec<char>)
    ensures
        r@ == list_seps(),
{
    let mut v: Vec<char> = Vec::new();
    v.push('|');
    v.push(',');
    v.push(' ');
    assert(v@ =~= list_seps());
    v
}

/// Splits `s` on `seps`, then trims and lower-cases every piece.
pub fn normalized_pieces(s: &[char], seps: &[char]) -> (r: Vec<Vec<char>>)
    ensures
        r@.len() == norm_pieces(s@, seps@).len(),
        forall|k: int| 0 <= k < r@.len() ==> #[trigger] r@[k]@ == norm_pieces(s@, seps@)[k],
{
    let pieces = split(s, seps);
    let mut r: Vec<Vec<char>> = Vec::new();
    let mut i: usize = 0;
    while i < pieces.len()
        invariant
            i <= pieces@.len(),
            pieces@.len() == split_seq(s@, seps@).len(),
            forall|k: int| 0 <= k < pieces@.len() ==> #[trigger] pieces@[k]@ == split_seq(s@, seps@)[k],
            r@.len() == i,
            forall|k: int| 0 <= k < i ==> #[trigger] r@[k]@ == norm_pieces(s@, seps@)[k],
        decreases pieces@.len() - i,
    {
        let t = trim(pieces[i].as_slice());
        let mut low: Vec<char> = Vec::new();
        let mut j: usize = 0;
        while j < t.len()
            invariant
                j <= t@.len(),
                low@ == lower_seq(t@.take(j as int)),
            decreases t@.len() - j,
        {
            low.push(to_lower(t[j]));
            assert(low@ =~= lower_seq(t@.take(j + 1)));
            j = j + 1;
        }
        assert(t@.take(t@.len() as int) =~= t@);
        r.push(low);
        i = i + 1;
    }
    r
}

/// Whether `list` holds the text of `lit`.
pub fn contains_lit(list: &Vec<Vec<char>>, lit: &str) -> (r: bool)
    ensures
        r == exists|k: int| 0 <= k < list@.len() && #[trigger] list@[k]@ == lit@,
{
    let l = chars_of(lit);
    let mut i: usize = 0;
    while i < list.len()
        invariant
            i <= list@.len(),
            l@ == lit@,
            forall|k: int| 0 <= k < i ==> #[trigger] list@[k]@ != lit@,
        decreases list@.len() - i,
    {
        if chars_eq(list[i].as_slice(), l.as_slice()) {
            return true;
        }
        i = i + 1;
    }
    false
}

/// Whether some piece of `s` split on `seps`, trimmed and lower-cased, is `lit`.
pub(crate) fn has_word_exec(norm: &Vec<Vec<char>>, lit: &str, Ghost(s): Ghost<Seq<char>>, Ghost(seps): Ghost<Seq<char>>) -> (r: bool)
    requires
        norm@.len() == norm_pieces(s, seps).len(),
        forall|k: int| 0 <= k < norm@.len() ==> #[trigger] norm@[k]@ == norm_pieces(s, seps)[k],
    ensures
        r == has_word(s, seps, lit@),
{
    let r = contains_lit(norm, lit);
    proof {
        if r {
            let k = choose|k: int| 0 <= k < norm@.len() && #[trigger] norm@[k]@ == lit@;
            assert(norm_pieces(s, seps)[k] == lit@);
        }
        if has_word(s, seps, lit@) {
            let k = choose|k: int| 0 <= k < norm_pieces(s, seps).len() && norm_pieces(s, seps)[k] == lit@;
            assert(norm@[k]@ == lit@);
        }
    }
    r
}

} // verus!
