//! Character sequences: searching, trimming, decimal numerals.
use vstd::prelude::*;

verus! {

/// `String::push` appends one character.
pub assume_specification[ std::string::String::push ](s: &mut std::string::String, c: char)
    ensures
        final(s)@ == old(s)@.push(c),
;

/// `p` occurs in `s` at position `i`.
pub open spec fn occurs_at(s: Seq<char>, i: int, p: Seq<char>) -> bool {
    0 <= i && i + p.len() <= s.len() && s.subrange(i, i + p.len()) == p
}

/// The first position from `i` on at which `p` occurs in `s`.
pub open spec fn find_from(s: Seq<char>, p: Seq<char>, i: int) -> Option<int>
    decreases s.len() - i + 1,
{
    if i < 0 || i + p.len() > s.len() {
        None
    } else if occurs_at(s, i, p) {
        Some(i)
    } else {
        find_from(s, p, i + 1)
    }
}

/// The first occurrence of `p` in `s`.
pub open spec fn find(s: Seq<char>, p: Seq<char>) -> Option<int> {
    find_from(s, p, 0)
}

pub open spec fn contains(s: Seq<char>, p: Seq<char>) -> bool {
    find(s, p) is Some
}

pub open spec fn has_prefix(s: Seq<char>, p: Seq<char>) -> bool {
    occurs_at(s, 0, p)
}

pub open spec fn has_suffix(s: Seq<char>, p: Seq<char>) -> bool {
    p.len() <= s.len() && occurs_at(s, s.len() - p.len(), p)
}

/// `find_from` returns an occurrence, and there is none before it.
pub proof fn lemma_find_from(s: Seq<char>, p: Seq<char>, i: int)
    requires
        0 <= i,
    ensures
        match find_from(s, p, i) {
            Some(r) => i <= r && occurs_at(s, r, p) && forall|j: int|
                i <= j < r ==> !occurs_at(s, j, p),
            None => forall|j: int| i <= j ==> !occurs_at(s, j, p),
        },
    decreases s.len() - i + 1,
{
    if i + p.len() <= s.len() && !occurs_at(s, i, p) {
        lemma_find_from(s, p, i + 1);
    }
}

/// The characters of `s`, one per element.
pub fn chars_of(s: &str) -> (r: Vec<char>)
    ensures
        r@ == s@,
{
    let mut out: Vec<char> = Vec::new();
    for c in it: s.chars()
        invariant
            it.seq() == s@,
            out@ == s@.take(it.index() as int),
    {
        out.push(c);
        proof {
            assert(s@.take(it.index() + 1) =~= s@.take(it.index() as int).push(
                s@[it.index() as int],
            ));
        }
    }
    assert(s@.take(s@.len() as int) =~= s@);
    out
}

/// The string made of the characters `s[from..to]`.
pub fn string_of(s: &[char], from: usize, to: usize) -> (r: String)
    requires
        from <= to <= s@.len(),
    ensures
        r@ == s@.subrange(from as int, to as int),
{
    let mut out = String::new();
    let mut i: usize = from;
    while i < to
        invariant
            from <= i <= to <= s@.len(),
            out@ == s@.subrange(from as int, i as int),
        decreases to - i,
    {
        out.push(s[i]);
        i += 1;
        assert(s@.subrange(from as int, i as int) =~= s@.subrange(from as int, i - 1).push(
            s@[i - 1],
        ));
    }
    out
}

/// Whether the characters `p` stand in `s` at position `i`.
pub fn occurs_chars_at(s: &[char], i: usize, p: &[char]) -> (r: bool)
    ensures
        r == occurs_at(s@, i as int, p@),
{
    if i > s.len() || p.len() > s.len() - i {
        return false;
    }
    let mut k: usize = 0;
    while k < p.len()
        invariant
            k <= p@.len(),
            i + p.len() <= s.len(),
            forall|j: int| 0 <= j < k ==> s@[i + j] == p@[j],
        decreases p@.len() - k,
    {
        if s[i + k] != p[k] {
            proof {
                let w = s@.subrange(i as int, i + p@.len());
                assert(w[k as int] == s@[i + k]);
            }
            return false;
        }
        k += 1;
    }
    assert(s@.subrange(i as int, i + p@.len()) =~= p@);
    true
}

/// Whether the string `p` stands in `s` at position `i`.
pub fn occurs_str_at(s: &[char], i: usize, p: &str) -> (r: bool)
    ensures
        r == occurs_at(s@, i as int, p@),
{
    let q = chars_of(p);
    occurs_chars_at(s, i, q.as_slice())
}

/// The first position from `from` on at which `p` occurs in `s`.
pub fn find_chars_from(s: &[char], p: &[char], from: usize) -> (r: Option<usize>)
    ensures
        match r {
            Some(k) => find_from(s@, p@, from as int) == Some(k as int),
            None => find_from(s@, p@, from as int) is None,
        },
{
    let mut i: usize = from;
    while i <= s.len() && p.len() <= s.len() - i
        invariant
            from <= i,
            i <= s@.len() + 1 || i == from,
            find_from(s@, p@, from as int) == find_from(s@, p@, i as int),
        decreases s@.len() + 1 - i,
    {
        if occurs_chars_at(s, i, p) {
            return Some(i);
        }
        if i == s.len() {
            assert(s@.subrange(i as int, i as int) =~= p@);
            return None;
        }
        i += 1;
    }
    None
}

/// The first position from `from` on at which the string `p` occurs in `s`.
pub fn find_str_from(s: &[char], p: &str, from: usize) -> (r: Option<usize>)
    ensures
        match r {
            Some(k) => find_from(s@, p@, from as int) == Some(k as int),
            None => find_from(s@, p@, from as int) is None,
        },
{
    let q = chars_of(p);
    find_chars_from(s, q.as_slice(), from)
}

pub fn contains_str(s: &[char], p: &str) -> (r: bool)
    ensures
        r == contains(s@, p@),
{
    find_str_from(s, p, 0).is_some()
}

pub fn starts_with_str(s: &[char], p: &str) -> (r: bool)
    ensures
        r == has_prefix(s@, p@),
{
    occurs_str_at(s, 0, p)
}

pub fn ends_with_str(s: &[char], p: &str) -> (r: bool)
    ensures
        r == has_suffix(s@, p@),
{
    let q = chars_of(p);
    if q.len() > s.len() {
        false
    } else {
        occurs_chars_at(s, s.len() - q.len(), q.as_slice())
    }
}

/// Whether two character slices hold the same characters.
pub fn same_chars(a: &[char], b: &[char]) -> (r: bool)
    ensures
        r == (a@ == b@),
{
    if a.len() != b.len() {
        return false;
    }
    let r = occurs_chars_at(a, 0, b);
    assert(a@.subrange(0, b@.len() as int) =~= a@);
    r
}

/// Whether a slice spells the string `p`.
pub fn equals_str(a: &[char], p: &str) -> (r: bool)
    ensures
        r == (a@ == p@),
{
    let q = chars_of(p);
    same_chars(a, q.as_slice())
}

/// Whether two strings hold the same characters.
pub fn same_str(a: &str, b: &str) -> (r: bool)
    ensures
        r == (a@ == b@),
{
    let x = chars_of(a);
    equals_str(x.as_slice(), b)
}

/// Characters with the Unicode property `White_Space`.
pub open spec fn white_space(c: char) -> bool {
    let u = c as u32;
    ||| 0x9 <= u <= 0xd
    ||| u == 0x20
    ||| u == 0x85
    ||| u == 0xa0
    ||| u == 0x1680
    ||| 0x2000 <= u <= 0x200a
    ||| u == 0x2028
    ||| u == 0x2029
    ||| u == 0x202f
    ||| u == 0x205f
    ||| u == 0x3000
}

pub fn is_white_space(c: char) -> (r: bool)
    ensures
        r == white_space(c),
{
    let u: u32 = c as u32;
    (0x9 <= u && u <= 0xd) || u == 0x20 || u == 0x85 || u == 0xa0 || u == 0x1680 || (0x2000 <= u
        && u <= 0x200a) || u == 0x2028 || u == 0x2029 || u == 0x202f || u == 0x205f || u == 0x3000
}

/// `s` without its leading white space.
pub open spec fn trim_start(s: Seq<char>) -> Seq<char>
    decreases s.len(),
{
    if s.len() > 0 && white_space(s.first()) {
        trim_start(s.drop_first())
    } else {
        s
    }
}

/// `s` without its trailing white space.
pub open spec fn trim_end(s: Seq<char>) -> Seq<char>
    decreases s.len(),
{
    if s.len() > 0 && white_space(s.last()) {
        trim_end(s.drop_last())
    } else {
        s
    }
}

/// `s` without white space at either end.
pub open spec fn trim(s: Seq<char>) -> Seq<char> {
    trim_end(trim_start(s))
}

/// The characters of `s` without white space at either end.
pub fn trimmed(s: &[char]) -> (r: Vec<char>)
    ensures
        r@ == trim(s@),
{
    let mut a: usize = 0;
    assert(s@.subrange(0, s@.len() as int) =~= s@);
    while a < s.len() && is_white_space(s[a])
        invariant
            a <= s@.len(),
            trim_start(s@) == trim_start(s@.subrange(a as int, s@.len() as int)),
        decreases s@.len() - a,
    {
        proof {
            let rest = s@.subrange(a as int, s@.len() as int);
            assert(rest.first() == s@[a as int]);
            assert(rest.drop_first() =~= s@.subrange(a + 1, s@.len() as int));
        }
        a += 1;
    }
    let ghost front = s@.subrange(a as int, s@.len() as int);
    assert(trim_start(s@) == front) by {
        if front.len() > 0 {
            assert(front.first() == s@[a as int]);
        }
    }
    let mut b: usize = s.len();
    assert(s@.subrange(a as int, b as int) =~= front);
    while a < b && is_white_space(s[b - 1])
        invariant
            a <= b <= s@.len(),
            trim_end(front) == trim_end(s@.subrange(a as int, b as int)),
        decreases b,
    {
        proof {
            let rest = s@.subrange(a as int, b as int);
            assert(rest.last() == s@[b - 1]);
            assert(rest.drop_last() =~= s@.subrange(a as int, b - 1));
        }
        b -= 1;
    }
    proof {
        let rest = s@.subrange(a as int, b as int);
        if rest.len() > 0 {
            assert(rest.last() == s@[b - 1]);
        }
    }
    sub_vec(s, a, b)
}

/// The characters `s[from..to]`.
pub fn sub_vec(s: &[char], from: usize, to: usize) -> (r: Vec<char>)
    requires
        from <= to <= s@.len(),
    ensures
        r@ == s@.subrange(from as int, to as int),
{
    let mut out: Vec<char> = Vec::new();
    let mut i: usize = from;
    while i < to
        invariant
            from <= i <= to <= s@.len(),
            out@ == s@.subrange(from as int, i as int),
        decreases to - i,
    {
        out.push(s[i]);
        i += 1;
        assert(s@.subrange(from as int, i as int) =~= s@.subrange(from as int, i - 1).push(
            s@[i - 1],
        ));
    }
    out
}

/// The characters of `s` without trailing white space.
pub fn trimmed_end(s: &[char]) -> (r: Vec<char>)
    ensures
        r@ == trim_end(s@),
{
    let mut b: usize = s.len();
    assert(s@.subrange(0, b as int) =~= s@);
    while 0 < b && is_white_space(s[b - 1])
        invariant
            b <= s@.len(),
            trim_end(s@) == trim_end(s@.subrange(0, b as int)),
        decreases b,
    {
        proof {
            let rest = s@.subrange(0, b as int);
            assert(rest.last() == s@[b - 1]);
            assert(rest.drop_last() =~= s@.subrange(0, b - 1));
        }
        b -= 1;
    }
    proof {
        let rest = s@.subrange(0, b as int);
        if rest.len() > 0 {
            assert(rest.last() == s@[b - 1]);
        }
    }
    sub_vec(s, 0, b)
}

/// `s` without leading `c`s.
pub open spec fn strip_start(s: Seq<char>, c: char) -> Seq<char>
    decreases s.len(),
{
    if s.len() > 0 && s.first() == c {
        strip_start(s.drop_first(), c)
    } else {
        s
    }
}

/// `s` without trailing `c`s.
pub open spec fn strip_end(s: Seq<char>, c: char) -> Seq<char>
    decreases s.len(),
{
    if s.len() > 0 && s.last() == c {
        strip_end(s.drop_last(), c)
    } else {
        s
    }
}

/// `s` without `c`s at either end.
pub open spec fn strip_both(s: Seq<char>, c: char) -> Seq<char> {
    strip_end(strip_start(s, c), c)
}

pub fn stripped_end(s: &[char], c: char) -> (r: Vec<char>)
    ensures
        r@ == strip_end(s@, c),
{
    let mut b: usize = s.len();
    assert(s@.subrange(0, b as int) =~= s@);
    while 0 < b && s[b - 1] == c
        invariant
            b <= s@.len(),
            strip_end(s@, c) == strip_end(s@.subrange(0, b as int), c),
        decreases b,
    {
        proof {
            let rest = s@.subrange(0, b as int);
            assert(rest.last() == s@[b - 1]);
            assert(rest.drop_last() =~= s@.subrange(0, b - 1));
        }
        b -= 1;
    }
    proof {
        let rest = s@.subrange(0, b as int);
        if rest.len() > 0 {
            assert(rest.last() == s@[b - 1]);
        }
    }
    sub_vec(s, 0, b)
}

pub fn stripped_both(s: &[char], c: char) -> (r: Vec<char>)
    ensures
        r@ == strip_both(s@, c),
{
    let mut a: usize = 0;
    assert(s@.subrange(0, s@.len() as int) =~= s@);
    while a < s.len() && s[a] == c
        invariant
            a <= s@.len(),
            strip_start(s@, c) == strip_start(s@.subrange(a as int, s@.len() as int), c),
        decreases s@.len() - a,
    {
        proof {
            let rest = s@.subrange(a as int, s@.len() as int);
            assert(rest.first() == s@[a as int]);
            assert(rest.drop_first() =~= s@.subrange(a + 1, s@.len() as int));
        }
        a += 1;
    }
    proof {
        let rest = s@.subrange(a as int, s@.len() as int);
        if rest.len() > 0 {
            assert(rest.first() == s@[a as int]);
        }
    }
    let front = sub_vec(s, a, s.len());
    stripped_end(front.as_slice(), c)
}

/// Trimming does not lengthen.
pub proof fn lemma_trim_len(s: Seq<char>)
    ensures
        trim(s).len() <= s.len(),
{
    lemma_trim_start_len(s);
    lemma_trim_end_len(trim_start(s));
}

proof fn lemma_trim_start_len(s: Seq<char>)
    ensures
        trim_start(s).len() <= s.len(),
    decreases s.len(),
{
    if s.len() > 0 && white_space(s.first()) {
        lemma_trim_start_len(s.drop_first());
    }
}

proof fn lemma_trim_end_len(s: Seq<char>)
    ensures
        trim_end(s).len() <= s.len(),
    decreases s.len(),
{
    if s.len() > 0 && white_space(s.last()) {
        lemma_trim_end_len(s.drop_last());
    }
}

pub open spec fn is_digit(c: char) -> bool {
    '0' as u32 <= c as u32 <= '9' as u32
}

/// The number that a run of decimal digits stands for.
pub open spec fn digits_value(s: Seq<char>) -> nat
    decreases s.len(),
{
    if s.len() == 0 {
        0
    } else {
        digits_value(s.drop_last()) * 10 + (s.last() as u32 - '0' as u32) as nat
    }
}

pub open spec fn all_digits(s: Seq<char>) -> bool {
    forall|i: int| 0 <= i < s.len() ==> is_digit(#[trigger] s[i])
}

/// `s` behind an optional plus sign.
pub open spec fn unsigned_part(s: Seq<char>) -> Seq<char> {
    if s.len() > 0 && s[0] == '+' {
        s.drop_first()
    } else {
        s
    }
}

/// The number that `s` spells: decimal digits, at least one, behind an optional plus sign.
pub open spec fn parse_number(s: Seq<char>) -> Option<nat> {
    if unsigned_part(s).len() > 0 && all_digits(unsigned_part(s)) {
        Some(digits_value(unsigned_part(s)))
    } else {
        None
    }
}

/// The `usize` that `s` spells, or zero where it spells none.
pub open spec fn parse_or_zero(s: Seq<char>) -> nat {
    match parse_number(s) {
        Some(n) => if n <= usize::MAX {
            n
        } else {
            0
        },
        None => 0,
    }
}

/// The `usize` that `s` spells, or zero where it spells none.
pub fn number_or_zero(s: &[char]) -> (r: usize)
    ensures
        r == parse_or_zero(s@),
{
    let from: usize = if s.len() > 0 && s[0] == '+' { 1 } else { 0 };
    let ghost d = s@.subrange(from as int, s@.len() as int);
    assert(d =~= unsigned_part(s@));
    if from == s.len() {
        return 0;
    }
    let mut n: usize = 0;
    let mut over = false;
    let mut i: usize = from;
    assert(d.take(0).len() == 0);
    while i < s.len()
        invariant
            from <= i <= s@.len(),
            from < s@.len(),
            d == s@.subrange(from as int, s@.len() as int),
            d == unsigned_part(s@),
            forall|k: int| 0 <= k < i - from ==> is_digit(#[trigger] d[k]),
            !over ==> n == digits_value(d.take(i - from)),
            over ==> digits_value(d.take(i - from)) > usize::MAX,
        decreases s@.len() - i,
    {
        let c = s[i];
        assert(d[i - from] == c);
        if (c as u32) < 48 || (c as u32) > 57 {
            assert(!is_digit(d[i - from]));
            return 0;
        }
        let v: usize = (c as u32 - 48) as usize;
        proof {
            assert(d.take(i - from + 1).drop_last() =~= d.take(i - from));
        }
        if !over {
            match n.checked_mul(10) {
                Some(m) => match m.checked_add(v) {
                    Some(t) => {
                        n = t;
                    },
                    None => {
                        over = true;
                    },
                },
                None => {
                    over = true;
                },
            }
        }
        i += 1;
    }
    assert(d.take(i - from) =~= d);
    if over {
        0
    } else {
        n
    }
}

/// The UTF-8 bytes of one character, each read as the character with that code.
pub open spec fn latin1(c: char) -> Seq<char> {
    vstd::utf8::encode_utf8(seq![c]).map_values(|b: u8| b as char)
}

/// The UTF-8 bytes of one character.
pub fn utf8_bytes(c: char) -> (r: Vec<u8>)
    ensures
        r@ == vstd::utf8::encode_utf8(seq![c]),
{
    let mut one = String::new();
    one.push(c);
    assert(one@ =~= seq![c]);
    one.as_str().as_bytes_vec()
}

/// Appends the bytes `b[from..]`, each as the character with that code.
pub fn push_bytes_as_chars(out: &mut String, b: &[u8], from: usize)
    requires
        from <= b@.len(),
    ensures
        final(out)@ == old(out)@ + b@.skip(from as int).map_values(|x: u8| x as char),
{
    let mut i: usize = from;
    let ghost tail = b@.skip(from as int).map_values(|x: u8| x as char);
    assert(old(out)@ + tail.take(0) =~= old(out)@);
    while i < b.len()
        invariant
            from <= i <= b@.len(),
            tail == b@.skip(from as int).map_values(|x: u8| x as char),
            out@ == old(out)@ + tail.take(i - from),
        decreases b@.len() - i,
    {
        out.push(b[i] as char);
        proof {
            assert(tail[i - from] == b@[i as int] as char);
            assert(old(out)@ + tail.take(i - from + 1) =~= (old(out)@ + tail.take(i - from)).push(
                b@[i as int] as char,
            ));
        }
        i += 1;
    }
    assert(tail.take(i - from) =~= tail);
}

/// Appends the UTF-8 bytes of `c`, each as the character with that code.
pub fn push_latin1(out: &mut String, c: char)
    ensures
        final(out)@ == old(out)@ + latin1(c),
{
    let b = utf8_bytes(c);
    push_bytes_as_chars(out, b.as_slice(), 0);
    assert(b@.skip(0) =~= b@);
}

/// The character of a decimal digit.
pub open spec fn digit_char(d: int) -> char {
    (('0' as u32 + d) as u32) as char
}

/// The decimal numeral of `n`, without leading zeros.
pub open spec fn decimal(n: nat) -> Seq<char>
    decreases n,
{
    if n < 10 {
        seq![digit_char(n as int)]
    } else {
        decimal(n / 10).push(digit_char((n % 10) as int))
    }
}

/// A numeral is made of digits and spells its number.
pub proof fn lemma_decimal_digits(n: nat)
    ensures
        decimal(n).len() > 0,
        forall|i: int| 0 <= i < decimal(n).len() ==> is_digit(#[trigger] decimal(n)[i]),
        digits_value(decimal(n)) == n,
    decreases n,
{
    if n >= 10 {
        lemma_decimal_digits(n / 10);
        let d = decimal(n);
        let front = decimal(n / 10);
        assert(d.drop_last() =~= front);
        assert forall|i: int| 0 <= i < d.len() implies is_digit(#[trigger] d[i]) by {
            if i < front.len() {
                assert(d[i] == front[i]);
            }
        }
    } else {
        assert(decimal(n).drop_last().len() == 0);
        assert(digits_value(decimal(n).drop_last()) == 0);
    }
}

/// A numeral ends where the digits do: it can be told from what follows.
pub proof fn lemma_numeral_ends(m: nat, p: Seq<char>, n: nat, q: Seq<char>)
    requires
        p.len() > 0 && !is_digit(p[0]),
        q.len() > 0 && !is_digit(q[0]),
        decimal(m) + p == decimal(n) + q,
    ensures
        m == n && p == q,
{
    let (x, y) = (decimal(m), decimal(n));
    let (k, l) = (x + p, y + q);
    lemma_decimal_digits(m);
    lemma_decimal_digits(n);
    assert(k[x.len() as int] == p[0]);
    assert(l[y.len() as int] == q[0]);
    if x.len() < y.len() {
        assert(l[x.len() as int] == y[x.len() as int]);
    }
    if y.len() < x.len() {
        assert(k[y.len() as int] == x[y.len() as int]);
    }
    assert(x =~= k.subrange(0, x.len() as int));
    assert(y =~= l.subrange(0, y.len() as int));
    assert(p =~= k.subrange(x.len() as int, k.len() as int));
    assert(q =~= l.subrange(y.len() as int, l.len() as int));
}

/// Appends the decimal numeral of `n`.
pub fn push_decimal(out: &mut String, n: u64)
    ensures
        final(out)@ == old(out)@ + decimal(n as nat),
    decreases n,
{
    if n >= 10 {
        push_decimal(out, n / 10);
    }
    let d: u8 = (n % 10) as u8;
    let c: char = (48u8 + d) as char;
    out.push(c);
    proof {
        assert(c == digit_char((n % 10) as int));
        if n >= 10 {
            assert(old(out)@ + decimal((n / 10) as nat) + seq![c] =~= old(out)@ + decimal(
                (n / 10) as nat,
            ).push(c));
        } else {
            assert(old(out)@.push(c) =~= old(out)@ + decimal(n as nat));
        }
    }
}

/// The decimal numeral of `n`.
pub fn decimal_string(n: u64) -> (r: String)
    ensures
        r@ == decimal(n as nat),
{
    let mut out = String::new();
    push_decimal(&mut out, n);
    assert(Seq::<char>::empty() + decimal(n as nat) =~= decimal(n as nat));
    out
}

/// The lower-case hexadecimal digit of a value.
pub open spec fn hex_digit(d: int) -> char {
    if d < 10 {
        digit_char(d)
    } else {
        (87 + d) as char
    }
}

/// A number in hexadecimal, without leading zeros.
pub open spec fn hexadecimal(n: nat) -> Seq<char>
    decreases n,
{
    if n < 16 {
        seq![hex_digit(n as int)]
    } else {
        hexadecimal(n / 16).push(hex_digit((n % 16) as int))
    }
}

/// Appends a number in hexadecimal.
pub fn push_hexadecimal(out: &mut String, n: u64)
    ensures
        final(out)@ == old(out)@ + hexadecimal(n as nat),
    decreases n,
{
    if n >= 16 {
        push_hexadecimal(out, n / 16);
    }
    let d: u8 = (n % 16) as u8;
    let c = if d < 10 { (48 + d) as char } else { (87 + d) as char };
    out.push(c);
    assert(out@ =~= old(out)@ + hexadecimal(n as nat));
}

/// `a` followed by `b`.
pub fn concat2(a: &str, b: &str) -> (r: String)
    ensures
        r@ == a@ + b@,
{
    let mut out = a.to_owned();
    out.append(b);
    out
}

/// `a`, `b` and `c` in turn.
pub fn concat3(a: &str, b: &str, c: &str) -> (r: String)
    ensures
        r@ == a@ + b@ + c@,
{
    let mut out = a.to_owned();
    out.append(b);
    out.append(c);
    out
}

} // verus!
