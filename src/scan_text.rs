//! Position-based scanning of byte buffers: literals, blanks, words, digits.
use vstd::prelude::*;

verus! {

/// The ASCII text `l` stands in `b` at position `i`.
pub open spec fn lit_at(b: Seq<u8>, i: int, l: Seq<char>) -> bool {
    0 <= i && i + l.len() <= b.len() && forall|k: int| 0 <= k < l.len() ==> (b[i + k] as char) == l[k]
}

/// A space or a tab.
pub open spec fn is_blank(c: u8) -> bool {
    c == 32 || c == 9
}

/// A space, a tab, a carriage return or a line feed.
pub open spec fn is_space(c: u8) -> bool {
    c == 32 || c == 9 || c == 13 || c == 10
}

/// A letter, a digit or an underscore.
pub open spec fn is_word(c: u8) -> bool {
    (48 <= c <= 57) || (65 <= c <= 90) || (97 <= c <= 122) || c == 95
}

/// A lower-case hexadecimal digit.
pub open spec fn is_hex(c: u8) -> bool {
    (48 <= c <= 57) || (97 <= c <= 102)
}

/// A decimal digit.
pub open spec fn is_digit(c: u8) -> bool {
    48 <= c <= 57
}

/// The first position at or after `i` that does not hold a byte of `p`.
pub open spec fn skip_while(b: Seq<u8>, i: int, p: spec_fn(u8) -> bool) -> int
    decreases b.len() - i,
{
    if 0 <= i < b.len() && p(b[i]) {
        skip_while(b, i + 1, p)
    } else {
        i
    }
}

pub open spec fn blank() -> spec_fn(u8) -> bool {
    |c: u8| is_blank(c)
}

pub open spec fn space() -> spec_fn(u8) -> bool {
    |c: u8| is_space(c)
}

pub open spec fn word() -> spec_fn(u8) -> bool {
    |c: u8| is_word(c)
}

pub open spec fn digit() -> spec_fn(u8) -> bool {
    |c: u8| is_digit(c)
}

pub open spec fn not_newline() -> spec_fn(u8) -> bool {
    |c: u8| c != 10
}

/// Bytes read as ASCII characters.
pub open spec fn ascii_text(b: Seq<u8>) -> Seq<char> {
    b.map_values(|c: u8| c as char)
}

/// Decimal value of the digits `b[i..j]`.
pub open spec fn digits_value(b: Seq<u8>, i: int, j: int) -> nat
    decreases j - i,
{
    if j <= i {
        0
    } else {
        digits_value(b, i, j - 1) * 10 + (b[j - 1] - 48) as nat
    }
}

/// Whether the ASCII text `l` stands in `b` at position `i`.
pub fn lit_at_exec(b: &[u8], i: usize, l: &Vec<char>) -> (r: bool)
    ensures
        r == lit_at(b@, i as int, l@),
{
    if i > b.len() || l.len() > b.len() - i {
        return false;
    }
    let len = b.len();
    let mut k: usize = 0;
    while k < l.len()
        invariant
            len == b@.len(),
            i + l@.len() <= b@.len(),
            k <= l@.len(),
            forall|m: int| 0 <= m < k ==> (b@[i + m] as char) == l@[m],
        decreases l@.len() - k,
    {
        if (b[i + k] as char) != l[k] {
            return false;
        }
        k = k + 1;
    }
    true
}

/// The first position at or after `i` that is not a blank.
pub fn skip_blanks(b: &[u8], i: usize) -> (r: usize)
    requires
        i <= b@.len(),
    ensures
        r == skip_while(b@, i as int, blank()),
        i <= r <= b@.len(),
        forall|k: int| i <= k < r ==> blank()(b@[k]),
{
    let mut k: usize = i;
    while k < b.len() && (b[k] == 32 || b[k] == 9)
        invariant
            i <= k <= b@.len(),
            skip_while(b@, k as int, blank()) == skip_while(b@, i as int, blank()),
            forall|m: int| i <= m < k ==> blank()(b@[m]),
        decreases b@.len() - k,
    {
        k = k + 1;
    }
    k
}

/// The first position at or after `i` that is not white space.
pub fn skip_spaces(b: &[u8], i: usize) -> (r: usize)
    requires
        i <= b@.len(),
    ensures
        r == skip_while(b@, i as int, space()),
        i <= r <= b@.len(),
        forall|k: int| i <= k < r ==> space()(b@[k]),
{
    let mut k: usize = i;
    while k < b.len() && (b[k] == 32 || b[k] == 9 || b[k] == 13 || b[k] == 10)
        invariant
            i <= k <= b@.len(),
            skip_while(b@, k as int, space()) == skip_while(b@, i as int, space()),
            forall|m: int| i <= m < k ==> space()(b@[m]),
        decreases b@.len() - k,
    {
        k = k + 1;
    }
    k
}

/// The end of the run of word characters from `i`.
pub fn skip_word(b: &[u8], i: usize) -> (r: usize)
    requires
        i <= b@.len(),
    ensures
        r == skip_while(b@, i as int, word()),
        i <= r <= b@.len(),
        forall|k: int| i <= k < r ==> word()(b@[k]),
{
    let mut k: usize = i;
    while k < b.len() && ((48 <= b[k] && b[k] <= 57) || (65 <= b[k] && b[k] <= 90) || (97 <= b[k] && b[k] <= 122) || b[k] == 95)
        invariant
            i <= k <= b@.len(),
            skip_while(b@, k as int, word()) == skip_while(b@, i as int, word()),
            forall|m: int| i <= m < k ==> word()(b@[m]),
        decreases b@.len() - k,
    {
        k = k + 1;
    }
    k
}

/// The end of the run of digits from `i`.
pub fn skip_digits(b: &[u8], i: usize) -> (r: usize)
    requires
        i <= b@.len(),
    ensures
        r == skip_while(b@, i as int, digit()),
        i <= r <= b@.len(),
        forall|k: int| i <= k < r ==> digit()(b@[k]),
{
    let mut k: usize = i;
    while k < b.len() && (48 <= b[k] && b[k] <= 57)
        invariant
            i <= k <= b@.len(),
            skip_while(b@, k as int, digit()) == skip_while(b@, i as int, digit()),
            forall|m: int| i <= m < k ==> digit()(b@[m]),
        decreases b@.len() - k,
    {
        k = k + 1;
    }
    k
}

/// The position of the next line feed at or after `i`, or the end.
pub fn line_end(b: &[u8], i: usize) -> (r: usize)
    requires
        i <= b@.len(),
    ensures
        r == skip_while(b@, i as int, not_newline()),
        i <= r <= b@.len(),
        forall|k: int| i <= k < r ==> not_newline()(b@[k]),
{
    let mut k: usize = i;
    while k < b.len() && b[k] != 10
        invariant
            i <= k <= b@.len(),
            skip_while(b@, k as int, not_newline()) == skip_while(b@, i as int, not_newline()),
            forall|m: int| i <= m < k ==> not_newline()(b@[m]),
        decreases b@.len() - k,
    {
        k = k + 1;
    }
    k
}

/// Whether the `n` bytes from `i` are all lower-case hexadecimal digits.
pub fn hex_run(b: &[u8], i: usize, n: usize) -> (r: bool)
    ensures
        r == (i + n <= b@.len() && forall|k: int| i <= k < i + n ==> is_hex(b@[k])),
{
    if i > b.len() || n > b.len() - i {
        return false;
    }
    let len = b.len();
    let mut k: usize = 0;
    while k < n
        invariant
            len == b@.len(),
            i + n <= b@.len(),
            k <= n,
            forall|m: int| i <= m < i + k ==> is_hex(b@[m]),
        decreases n - k,
    {
        let c = b[i + k];
        if !((48 <= c && c <= 57) || (97 <= c && c <= 102)) {
            return false;
        }
        k = k + 1;
    }
    true
}

/// The bytes `b[i..j]` as a string of ASCII characters.
pub fn ascii_string(b: &[u8], i: usize, j: usize) -> (r: String)
    requires
        i <= j <= b@.len(),
    ensures
        r@ == ascii_text(b@.subrange(i as int, j as int)),
{
    let mut s = String::new();
    let mut k: usize = i;
    while k < j
        invariant
            i <= k <= j <= b@.len(),
            s@ == ascii_text(b@.subrange(i as int, k as int)),
        decreases j - k,
    {
        crate::text::push_char(&mut s, b[k] as char);
        k = k + 1;
        assert(s@ =~= ascii_text(b@.subrange(i as int, k as int)));
    }
    s
}

/// The value of the digits `b[i..j]`, or `None` when it exceeds `u64`.
pub fn digits_u64(b: &[u8], i: usize, j: usize) -> (r: Option<u64>)
    requires
        i <= j <= b@.len(),
        forall|k: int| i <= k < j ==> is_digit(b@[k]),
    ensures
        r matches Some(v) ==> v == digits_value(b@, i as int, j as int),
        r is None ==> digits_value(b@, i as int, j as int) > u64::MAX,
{
    let mut v: u64 = 0;
    let mut k: usize = i;
    while k < j
        invariant
            i <= k <= j <= b@.len(),
            forall|m: int| i <= m < j ==> is_digit(b@[m]),
            v == digits_value(b@, i as int, k as int),
        decreases j - k,
    {
        let d = (b[k] - 48) as u64;
        if v > (u64::MAX - d) / 10 {
            proof {
                lemma_digits_grow(b@, i as int, k as int + 1, j as int);
            }
            return None;
        }
        v = v * 10 + d;
        k = k + 1;
    }
    Some(v)
}

proof fn lemma_digits_grow(b: Seq<u8>, i: int, k: int, j: int)
    requires
        i <= k <= j <= b.len(),
        forall|m: int| i <= m < j ==> is_digit(b[m]),
    ensures
        digits_value(b, i, k) <= digits_value(b, i, j),
    decreases j - k,
{
    if k < j {
        lemma_digits_grow(b, i, k, j - 1);
    }
}

} // verus!
