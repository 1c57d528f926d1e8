//! The textual values of OFD attributes and elements: numbers, booleans,
//! float literals, boxes and space separated arrays.
use vstd::prelude::*;
use vstd::std_specs::iter::IteratorSpec;

verus! {

/// Why the text of a value could not be read.
#[derive(Debug, PartialEq, Eq, Structural, Clone, Copy)]
pub enum ValueError {
    /// Not an integer of the expected type.
    ParseInt,
    /// Not a float literal.
    ParseFloat,
    /// Neither `true` nor `false`.
    ParseBool,
    /// Not the name of a variant.
    ParseEnum,
    /// Not four float literals separated by single spaces.
    ParseStBox,
    /// Not a calendar date.
    ParseDate,
}

/// The characters of `s`, in order.
pub fn chars_of(s: &str) -> (v: Vec<char>)
    ensures
        v@ == s@,
{
    broadcast use vstd::string::axiom_spec_iter;

    let mut v: Vec<char> = Vec::new();
    let mut chars = s.chars();
    loop
        invariant
            v@.len() <= s@.len(),
            chars.remaining() == s@.subrange(v@.len() as int, s@.len() as int),
            v@ == s@.subrange(0, v@.len() as int),
            chars.obeys_prophetic_iter_laws(),
        decreases s@.len() - v@.len(),
    {
        let ghost old_chars = chars;
        let ghost n = v@.len();
        let next = chars.next();
        proof {
            vstd::string::next_postcondition(&old_chars, &chars, next);
        }
        match next {
            Some(c) => {
                assert(c == s@[n as int]);
                v.push(c);
                assert(chars.remaining() =~= s@.subrange(v@.len() as int, s@.len() as int));
                assert(v@ =~= s@.subrange(0, v@.len() as int));
            },
            None => {
                assert(v@ =~= s@);
                return v;
            },
        }
    }
}

// ---------------------------------------------------------------------------
// White space and trimming
// ---------------------------------------------------------------------------

/// The characters of the Unicode `White_Space` property, which
/// `char::is_whitespace` and `str::trim` go by.
pub open spec fn is_white(c: char) -> bool {
    let u = c as u32;
    ||| 0x09 <= u <= 0x0d
    ||| u == 0x20
    ||| u == 0x85
    ||| u == 0xa0
    ||| u == 0x1680
    ||| 0x2000 <= u <= 0x200a
    ||| u == 0x2028
    ||| u == 0x2029
    ||| u == 0x202f
    ||| u == 0x205f
    ||| u == 0x3000
}

pub fn is_white_char(c: char) -> (b: bool)
    ensures
        b == is_white(c),
{
    let u = c as u32;
    (0x09 <= u && u <= 0x0d) || u == 0x20 || u == 0x85 || u == 0xa0 || u == 0x1680 || (0x2000
        <= u && u <= 0x200a) || u == 0x2028 || u == 0x2029 || u == 0x202f || u == 0x205f || u
        == 0x3000
}

/// `s` without the white space at its start and at its end, as `str::trim`.
pub open spec fn trimmed(s: Seq<char>) -> Seq<char> {
    let i = lead_white(s) as int;
    let j = s.len() - trail_white(s);
    if i < j {
        s.subrange(i, j)
    } else {
        Seq::empty()
    }
}

/// Number of white characters at the start of `s`.
pub open spec fn lead_white(s: Seq<char>) -> nat
    decreases s.len(),
{
    if s.len() > 0 && is_white(s[0]) {
        1 + lead_white(s.skip(1))
    } else {
        0
    }
}

/// Number of white characters at the end of `s`.
pub open spec fn trail_white(s: Seq<char>) -> nat
    decreases s.len(),
{
    if s.len() > 0 && is_white(s.last()) {
        1 + trail_white(s.drop_last())
    } else {
        0
    }
}

proof fn lemma_lead_white(s: Seq<char>, i: int)
    requires
        0 <= i <= s.len(),
        forall|k: int| 0 <= k < i ==> is_white(#[trigger] s[k]),
        i == s.len() || !is_white(s[i]),
    ensures
        lead_white(s) == i,
    decreases i,
{
    if i > 0 {
        lemma_lead_white(s.skip(1), i - 1);
    }
}

proof fn lemma_trail_white(s: Seq<char>, i: int)
    requires
        0 <= i <= s.len(),
        forall|k: int| s.len() - i <= k < s.len() ==> is_white(#[trigger] s[k]),
        i == s.len() || !is_white(s[s.len() - i - 1]),
    ensures
        trail_white(s) == i,
    decreases i,
{
    if i > 0 {
        lemma_trail_white(s.drop_last(), i - 1);
    }
}

/// The character bounds of `trimmed(s@)` in `s`.
fn trim_bounds(cs: &Vec<char>) -> (r: (usize, usize))
    ensures
        r.0 <= r.1 <= cs@.len(),
        cs@.subrange(r.0 as int, r.1 as int) == trimmed(cs@),
{
    let n = cs.len();
    let mut i: usize = 0;
    while i < n && is_white_char(cs[i])
        invariant
            i <= n == cs@.len(),
            forall|k: int| 0 <= k < i ==> is_white(#[trigger] cs@[k]),
        decreases n - i,
    {
        i = i + 1;
    }
    proof {
        lemma_lead_white(cs@, i as int);
    }
    if i == n {
        assert(cs@.subrange(i as int, i as int) =~= trimmed(cs@));
        return (i, i);
    }
    let mut j: usize = n;
    while j > i && is_white_char(cs[j - 1])
        invariant
            i < n == cs@.len(),
            i <= j <= n,
            !is_white(cs@[i as int]),
            forall|k: int| j <= k < n ==> is_white(#[trigger] cs@[k]),
        decreases j,
    {
        j = j - 1;
    }
    proof {
        lemma_trail_white(cs@, n - j);
    }
    (i, j)
}

// ---------------------------------------------------------------------------
// Integers and booleans
// ---------------------------------------------------------------------------

pub open spec fn is_digit(c: char) -> bool {
    '0' <= c <= '9'
}

pub open spec fn all_digits(s: Seq<char>) -> bool {
    forall|i: int| 0 <= i < s.len() ==> is_digit(#[trigger] s[i])
}

/// The number that a string of decimal digits writes.
pub open spec fn digits_value(s: Seq<char>) -> nat
    decreases s.len(),
{
    if s.len() == 0 {
        0
    } else {
        digits_value(s.drop_last()) * 10 + (s.last() as u32 - '0' as u32) as nat
    }
}

/// The value of an unsigned integer as `from_str` reads it: an optional `+`
/// then at least one decimal digit, and nothing else.
pub open spec fn spec_uint(s: Seq<char>) -> Option<nat> {
    let d = if s.len() > 0 && s[0] == '+' {
        s.skip(1)
    } else {
        s
    };
    if d.len() > 0 && all_digits(d) {
        Some(digits_value(d))
    } else {
        None
    }
}

/// An unsigned integer of at most `max`.
pub open spec fn spec_uint_upto(s: Seq<char>, max: int) -> Option<nat> {
    match spec_uint(s) {
        Some(v) => if v <= max {
            Some(v)
        } else {
            None
        },
        None => None,
    }
}

/// The value of a signed integer as `from_str` reads it: an optional sign then
/// at least one decimal digit, within `min ..= max`.
pub open spec fn spec_int_within(s: Seq<char>, min: int, max: int) -> Option<int> {
    if s.len() > 0 && s[0] == '-' {
        let d = s.skip(1);
        if d.len() > 0 && all_digits(d) && -(digits_value(d) as int) >= min {
            Some(-(digits_value(d) as int))
        } else {
            None
        }
    } else {
        match spec_uint(s) {
            Some(v) => if v <= max {
                Some(v as int)
            } else {
                None
            },
            None => None,
        }
    }
}

proof fn lemma_digits_value_grows(s: Seq<char>, i: int)
    requires
        0 <= i <= s.len(),
    ensures
        digits_value(s.subrange(0, i)) <= digits_value(s),
    decreases s.len() - i,
{
    if i < s.len() {
        lemma_digits_value_grows(s, i + 1);
        assert(s.subrange(0, i + 1).drop_last() =~= s.subrange(0, i));
    } else {
        assert(s.subrange(0, i) =~= s);
    }
}

/// Reads the digits `cs[from..]` as a number of at most `max`.
fn digits_upto(cs: &Vec<char>, from: usize, max: u64) -> (r: Option<u64>)
    requires
        from <= cs@.len(),
    ensures
        ({
            let d = cs@.skip(from as int);
            match r {
                Some(v) => d.len() > 0 && all_digits(d) && v == digits_value(d) && v <= max,
                None => !(d.len() > 0 && all_digits(d) && digits_value(d) <= max),
            }
        }),
{
    let ghost d = cs@.skip(from as int);
    let n = cs.len();
    if from == n {
        return None;
    }
    let mut acc: u64 = 0;
    let mut i: usize = from;
    while i < n
        invariant
            from <= i <= n == cs@.len(),
            d == cs@.skip(from as int),
            all_digits(d.subrange(0, i - from)),
            acc == digits_value(d.subrange(0, i - from)),
            acc <= max,
        decreases n - i,
    {
        let c = cs[i];
        if !('0' <= c && c <= '9') {
            assert(d[i - from] == c);
            return None;
        }
        let dig = (c as u32 - '0' as u32) as u64;
        assert(d.subrange(0, i - from + 1).drop_last() =~= d.subrange(0, i - from));
        assert(d.subrange(0, i - from + 1).last() == c);
        if dig > max || acc > (max - dig) / 10 {
            proof {
                assert(acc * 10 + dig > max) by (nonlinear_arith)
                    requires
                        dig > max || acc > (max - dig) / 10,
                        0 <= dig <= 9,
                        0 <= acc,
                ;
                lemma_digits_value_grows(d, i - from + 1);
            }
            return None;
        }
        proof {
            assert(acc * 10 + dig <= max) by (nonlinear_arith)
                requires
                    acc <= (max - dig) / 10,
                    dig <= max,
                    0 <= dig,
            ;
        }
        acc = acc * 10 + dig;
        i = i + 1;
        assert(all_digits(d.subrange(0, i - from)));
    }
    assert(d.subrange(0, i - from) =~= d);
    Some(acc)
}

/// Reads an unsigned integer of at most `max`, as `from_str` of the unsigned
/// integer types does.
pub fn parse_uint(s: &str, max: u64) -> (r: Option<u64>)
    ensures
        match r {
            Some(v) => spec_uint_upto(s@, max as int) == Some(v as nat),
            None => spec_uint_upto(s@, max as int) is None,
        },
{
    let cs = chars_of(s);
    let from: usize = if cs.len() > 0 && cs[0] == '+' {
        1
    } else {
        0
    };
    assert(cs@.skip(0) =~= cs@);
    digits_upto(&cs, from, max)
}

/// Reads an `i32`, as `i32::from_str` does.
pub fn parse_i32(s: &str) -> (r: Option<i32>)
    ensures
        match r {
            Some(v) => spec_int_within(s@, i32::MIN as int, i32::MAX as int) == Some(v as int),
            None => spec_int_within(s@, i32::MIN as int, i32::MAX as int) is None,
        },
{
    let cs = chars_of(s);
    if cs.len() > 0 && cs[0] == '-' {
        match digits_upto(&cs, 1, 0x8000_0000) {
            Some(v) => Some((0 - (v as i64)) as i32),
            None => None,
        }
    } else {
        let from: usize = if cs.len() > 0 && cs[0] == '+' {
            1
        } else {
            0
        };
        assert(cs@.skip(0) =~= cs@);
        match digits_upto(&cs, from, 0x7fff_ffff) {
            Some(v) => Some(v as i32),
            None => None,
        }
    }
}

/// `true` or `false`, as `bool::from_str` reads them.
pub open spec fn spec_bool(s: Seq<char>) -> Option<bool> {
    if s == seq!['t', 'r', 'u', 'e'] {
        Some(true)
    } else if s == seq!['f', 'a', 'l', 's', 'e'] {
        Some(false)
    } else {
        None
    }
}

pub fn parse_bool(s: &str) -> (r: Option<bool>)
    ensures
        r == spec_bool(s@),
{
    let cs = chars_of(s);
    if cs.len() == 4 && cs[0] == 't' && cs[1] == 'r' && cs[2] == 'u' && cs[3] == 'e' {
        assert(cs@ =~= seq!['t', 'r', 'u', 'e']);
        Some(true)
    } else if cs.len() == 5 && cs[0] == 'f' && cs[1] == 'a' && cs[2] == 'l' && cs[3] == 's'
        && cs[4] == 'e' {
        assert(cs@ =~= seq!['f', 'a', 'l', 's', 'e']);
        Some(false)
    } else {
        proof {
            if cs@ == seq!['t', 'r', 'u', 'e'] {
                assert(cs@[0] == 't' && cs@[3] == 'e');
            }
            if cs@ == seq!['f', 'a', 'l', 's', 'e'] {
                assert(cs@[0] == 'f' && cs@[4] == 'e');
            }
        }
        None
    }
}

// ---------------------------------------------------------------------------
// Float literals
// ---------------------------------------------------------------------------

pub open spec fn lower(c: char) -> char {
    if 'A' <= c <= 'Z' {
        ((c as u32) + 32) as char
    } else {
        c
    }
}

/// Number of characters before the first `e` of `s` (all of them when there
/// is none).
pub open spec fn before_e(s: Seq<char>) -> nat
    decreases s.len(),
{
    if s.len() > 0 && s[0] != 'e' {
        1 + before_e(s.skip(1))
    } else {
        0
    }
}

/// Digits with at most one `.` among them, and at least one digit.
pub open spec fn mantissa_ok(m: Seq<char>) -> bool {
    &&& forall|i: int| 0 <= i < m.len() ==> is_digit(#[trigger] m[i]) || m[i] == '.'
    &&& forall|i: int, j: int|
        0 <= i < m.len() && 0 <= j < m.len() && m[i] == '.' && m[j] == '.' ==> i == j
    &&& exists|i: int| 0 <= i < m.len() && is_digit(#[trigger] m[i])
}

/// An optional sign, then at least one digit.
pub open spec fn signed_digits(x: Seq<char>) -> bool {
    let d = if x.len() > 0 && (x[0] == '+' || x[0] == '-') {
        x.skip(1)
    } else {
        x
    };
    d.len() > 0 && all_digits(d)
}

/// The text of a float that `f32::from_str` accepts: lowercased, it follows
/// `Sign? ('inf' | 'infinity' | 'nan' | Number)` where
/// `Number ::= (Digit+ | Digit+ '.' Digit* | Digit* '.' Digit+) ('e' Sign? Digit+)?`.
pub open spec fn float_literal(s: Seq<char>) -> bool {
    let t = if s.len() > 0 && (s[0] == '+' || s[0] == '-') {
        s.skip(1)
    } else {
        s
    };
    let l = t.map_values(|c: char| lower(c));
    let k = before_e(l) as int;
    ||| l == seq!['i', 'n', 'f']
    ||| l == seq!['i', 'n', 'f', 'i', 'n', 'i', 't', 'y']
    ||| l == seq!['n', 'a', 'n']
    ||| mantissa_ok(l.take(k)) && (k == l.len() || signed_digits(l.skip(k + 1)))
}

fn lower_char(c: char) -> (r: char)
    ensures
        r == lower(c),
{
    if 'A' <= c && c <= 'Z' {
        let b = (c as u32) as u8;
        (b + 32) as char
    } else {
        c
    }
}

proof fn lemma_before_e(s: Seq<char>, k: int)
    requires
        0 <= k <= s.len(),
        forall|i: int| 0 <= i < k ==> #[trigger] s[i] != 'e',
        k == s.len() || s[k] == 'e',
    ensures
        before_e(s) == k,
    decreases k,
{
    if k > 0 {
        lemma_before_e(s.skip(1), k - 1);
    }
}

fn same_chars(v: &Vec<char>, lit: &[char]) -> (b: bool)
    ensures
        b == (v@ == lit@),
{
    if v.len() != lit.len() {
        return false;
    }
    let mut i: usize = 0;
    while i < lit.len()
        invariant
            v@.len() == lit@.len(),
            i <= lit@.len(),
            forall|k: int| 0 <= k < i ==> v@[k] == lit@[k],
        decreases lit@.len() - i,
    {
        if v[i] != lit[i] {
            return false;
        }
        i = i + 1;
    }
    assert(v@ =~= lit@);
    true
}

fn lower_all(cs: &Vec<char>, from: usize) -> (l: Vec<char>)
    requires
        from <= cs@.len(),
    ensures
        l@ == cs@.skip(from as int).map_values(|c: char| lower(c)),
{
    let ghost t = cs@.skip(from as int);
    let mut l: Vec<char> = Vec::new();
    let mut i: usize = from;
    while i < cs.len()
        invariant
            from <= i <= cs@.len(),
            t == cs@.skip(from as int),
            l@ =~= t.take(i - from).map_values(|c: char| lower(c)),
        decreases cs@.len() - i,
    {
        l.push(lower_char(cs[i]));
        i = i + 1;
        assert(l@ =~= t.take(i - from).map_values(|c: char| lower(c)));
    }
    assert(t.take(i - from) =~= t);
    l
}

fn special_float(l: &Vec<char>) -> (b: bool)
    ensures
        b == (l@ == seq!['i', 'n', 'f'] || l@ == seq!['i', 'n', 'f', 'i', 'n', 'i', 't', 'y'] || l@
            == seq!['n', 'a', 'n']),
{
    let b1 = same_chars(l, &['i', 'n', 'f']);
    let b2 = same_chars(l, &['i', 'n', 'f', 'i', 'n', 'i', 't', 'y']);
    let b3 = same_chars(l, &['n', 'a', 'n']);
    b1 || b2 || b3
}

/// All of `v[from..]` are digits, and there is at least one.
fn digits_from(v: &Vec<char>, from: usize) -> (b: bool)
    requires
        from <= v@.len(),
    ensures
        b == (v@.skip(from as int).len() > 0 && all_digits(v@.skip(from as int))),
{
    if from == v.len() {
        return false;
    }
    let mut i: usize = from;
    while i < v.len()
        invariant
            from <= i <= v@.len(),
            forall|k: int| from <= k < i ==> is_digit(#[trigger] v@[k]),
        decreases v@.len() - i,
    {
        if !('0' <= v[i] && v[i] <= '9') {
            assert(v@.skip(from as int)[i - from] == v@[i as int]);
            return false;
        }
        i = i + 1;
    }
    assert forall|k: int| 0 <= k < v@.skip(from as int).len() implies is_digit(
        #[trigger] v@.skip(from as int)[k],
    ) by {
        assert(v@.skip(from as int)[k] == v@[from + k]);
    }
    true
}

/// Tells whether `s` is the text of a float, as `f32::from_str` decides.
pub fn is_float_literal(s: &str) -> (b: bool)
    ensures
        b == float_literal(s@),
{
    let cs = chars_of(s);
    let from: usize = if cs.len() > 0 && (cs[0] == '+' || cs[0] == '-') {
        1
    } else {
        0
    };
    let ghost t = if s@.len() > 0 && (s@[0] == '+' || s@[0] == '-') {
        s@.skip(1)
    } else {
        s@
    };
    assert(t =~= cs@.skip(from as int));
    let l = lower_all(&cs, from);
    if special_float(&l) {
        return true;
    }
    // the mantissa, up to the first `e`
    let mut k: usize = 0;
    while k < l.len() && l[k] != 'e'
        invariant
            k <= l@.len(),
            forall|j: int| 0 <= j < k ==> #[trigger] l@[j] != 'e',
        decreases l@.len() - k,
    {
        k = k + 1;
    }
    proof {
        lemma_before_e(l@, k as int);
    }
    if !mantissa_check(&l, k) {
        return false;
    }
    if k == l.len() {
        return true;
    }
    let ghost x = l@.skip(k + 1);
    let from2: usize = if k + 1 < l.len() && (l[k + 1] == '+' || l[k + 1] == '-') {
        k + 2
    } else {
        k + 1
    };
    assert(l@.skip(from2 as int) =~= (if x.len() > 0 && (x[0] == '+' || x[0] == '-') {
        x.skip(1)
    } else {
        x
    }));
    digits_from(&l, from2)
}

fn mantissa_check(v: &Vec<char>, k: usize) -> (b: bool)
    requires
        k <= v@.len(),
    ensures
        b == mantissa_ok(v@.take(k as int)),
{
    let ghost m = v@.take(k as int);
    let mut i: usize = 0;
    let mut dots: usize = 0;
    let mut dot_at: usize = 0;
    let mut digit_seen = false;
    while i < k
        invariant
            i <= k <= v@.len(),
            m == v@.take(k as int),
            forall|j: int| 0 <= j < i ==> is_digit(#[trigger] m[j]) || m[j] == '.',
            dots <= 1,
            dots == 0 ==> forall|j: int| 0 <= j < i ==> #[trigger] m[j] != '.',
            dots == 1 ==> dot_at < i && m[dot_at as int] == '.' && forall|j: int|
                0 <= j < i && #[trigger] m[j] == '.' ==> j == dot_at,
            digit_seen ==> exists|j: int| 0 <= j < i && is_digit(#[trigger] m[j]),
            !digit_seen ==> forall|j: int| 0 <= j < i ==> !is_digit(#[trigger] m[j]),
        decreases k - i,
    {
        let c = v[i];
        assert(m[i as int] == c);
        if c == '.' {
            if dots == 1 {
                assert(m[dot_at as int] == '.' && m[i as int] == '.' && dot_at != i);
                return false;
            }
            dots = 1;
            dot_at = i;
        } else if '0' <= c && c <= '9' {
            digit_seen = true;
        } else {
            return false;
        }
        i = i + 1;
    }
    digit_seen
}

// ---------------------------------------------------------------------------
// Splitting at spaces
// ---------------------------------------------------------------------------

/// The parts of `s` between its spaces, as `str::split(' ')` gives them:
/// one more part than there are spaces, empty parts included.
pub open spec fn split_spaces(s: Seq<char>) -> Seq<Seq<char>>
    decreases s.len(),
{
    if s.len() == 0 {
        seq![Seq::empty()]
    } else {
        let p = split_spaces(s.drop_last());
        if s.last() == ' ' {
            p.push(Seq::empty())
        } else {
            p.update(p.len() - 1, p.last().push(s.last()))
        }
    }
}

pub open spec fn nonempty(w: Seq<char>) -> bool {
    w.len() > 0
}

/// The words of a value: its text trimmed, split at each space, without the
/// empty parts, as `StArray::from_str` reads them.
pub open spec fn st_words(s: Seq<char>) -> Seq<Seq<char>> {
    split_spaces(trimmed(s)).filter(|w: Seq<char>| nonempty(w))
}

proof fn lemma_split_len(s: Seq<char>)
    ensures
        split_spaces(s).len() >= 1,
    decreases s.len(),
{
    if s.len() > 0 {
        lemma_split_len(s.drop_last());
    }
}

/// The bounds in `cs` of the parts of `cs[lo..hi]` between its spaces.
fn split_bounds(cs: &Vec<char>, lo: usize, hi: usize) -> (r: Vec<(usize, usize)>)
    requires
        lo <= hi <= cs@.len(),
    ensures
        r@.len() == split_spaces(cs@.subrange(lo as int, hi as int)).len(),
        forall|k: int|
            0 <= k < r@.len() ==> lo <= (#[trigger] r@[k]).0 <= r@[k].1 <= hi && cs@.subrange(
                r@[k].0 as int,
                r@[k].1 as int,
            ) == split_spaces(cs@.subrange(lo as int, hi as int))[k],
{
    let ghost t = cs@.subrange(lo as int, hi as int);
    let mut done: Vec<(usize, usize)> = Vec::new();
    let mut st: usize = lo;
    let mut i: usize = lo;
    assert(t.take(0) =~= Seq::<char>::empty());
    assert(cs@.subrange(lo as int, lo as int) =~= Seq::<char>::empty());
    while i < hi
        invariant
            lo <= st <= i <= hi <= cs@.len(),
            t == cs@.subrange(lo as int, hi as int),
            split_spaces(t.take(i - lo)).len() == done@.len() + 1,
            split_spaces(t.take(i - lo)).last() == cs@.subrange(st as int, i as int),
            forall|k: int|
                0 <= k < done@.len() ==> lo <= (#[trigger] done@[k]).0 <= done@[k].1 <= i
                    && cs@.subrange(done@[k].0 as int, done@[k].1 as int) == split_spaces(
                    t.take(i - lo),
                )[k],
        decreases hi - i,
    {
        let ghost before = split_spaces(t.take(i - lo));
        let c = cs[i];
        assert(t.take(i + 1 - lo).drop_last() =~= t.take(i - lo));
        assert(t.take(i + 1 - lo).last() == c);
        if c == ' ' {
            done.push((st, i));
            st = i + 1;
            assert(cs@.subrange(st as int, (i + 1) as int) =~= Seq::<char>::empty());
        } else {
            assert(cs@.subrange(st as int, (i + 1) as int) =~= cs@.subrange(st as int, i as int).push(c));
        }
        i = i + 1;
    }
    assert(t.take(hi - lo) =~= t);
    done.push((st, hi));
    done
}

/// The bounds in `cs` of the words of `cs[lo..hi]`: its parts between spaces
/// that are not empty.
fn word_bounds(cs: &Vec<char>, lo: usize, hi: usize) -> (r: Vec<(usize, usize)>)
    requires
        lo <= hi <= cs@.len(),
    ensures
        r@.len() == split_spaces(cs@.subrange(lo as int, hi as int)).filter(
            |w: Seq<char>| nonempty(w),
        ).len(),
        forall|k: int|
            0 <= k < r@.len() ==> lo <= (#[trigger] r@[k]).0 <= r@[k].1 <= hi && cs@.subrange(
                r@[k].0 as int,
                r@[k].1 as int,
            ) == split_spaces(cs@.subrange(lo as int, hi as int)).filter(
                |w: Seq<char>| nonempty(w),
            )[k],
{
    let ghost parts = split_spaces(cs@.subrange(lo as int, hi as int));
    let ghost f = |w: Seq<char>| nonempty(w);
    let bounds = split_bounds(cs, lo, hi);
    let mut out: Vec<(usize, usize)> = Vec::new();
    let mut j: usize = 0;
    proof {
        reveal(Seq::filter);
        assert(parts.take(0) =~= Seq::<Seq<char>>::empty());
    }
    while j < bounds.len()
        invariant
            lo <= hi <= cs@.len(),
            j <= bounds@.len() == parts.len(),
            parts == split_spaces(cs@.subrange(lo as int, hi as int)),
            f == (|w: Seq<char>| nonempty(w)),
            forall|k: int|
                0 <= k < bounds@.len() ==> lo <= (#[trigger] bounds@[k]).0 <= bounds@[k].1 <= hi
                    && cs@.subrange(bounds@[k].0 as int, bounds@[k].1 as int) == parts[k],
            out@.len() == parts.take(j as int).filter(f).len(),
            forall|k: int|
                0 <= k < out@.len() ==> lo <= (#[trigger] out@[k]).0 <= out@[k].1 <= hi
                    && cs@.subrange(out@[k].0 as int, out@[k].1 as int) == parts.take(
                    j as int,
                ).filter(f)[k],
        decreases bounds@.len() - j,
    {
        let (a, b) = bounds[j];
        proof {
            reveal(Seq::filter);
            assert(parts.take(j + 1).drop_last() =~= parts.take(j as int));
            assert(parts.take(j + 1).last() == parts[j as int]);
        }
        if a < b {
            out.push((a, b));
        }
        j = j + 1;
    }
    assert(parts.take(j as int) =~= parts);
    out
}

/// The `String` that holds the characters of `v`, as collecting them does.
#[verifier::external_body]
pub(crate) fn string_from_chars(v: &[char]) -> (r: String)
    ensures
        r@ == v@,
{
    v.iter().collect()
}

// ---------------------------------------------------------------------------
// Arrays of values
// ---------------------------------------------------------------------------

/// A space separated array of values, such as `0 0 210 297`.
#[derive(Debug, PartialEq, Clone)]
pub struct StArray<T>(pub Vec<T>);

/// The words of `s`, each read as an unsigned integer of at most `max`.
pub open spec fn uint_words(s: Seq<char>, max: int) -> Option<Seq<nat>> {
    let ws = st_words(s);
    if forall|i: int| 0 <= i < ws.len() ==> (#[trigger] spec_uint_upto(ws[i], max)) is Some {
        Some(ws.map_values(|w: Seq<char>| spec_uint_upto(w, max).unwrap()))
    } else {
        None
    }
}

/// The words of `s`, all of them float literals.
pub open spec fn float_words(s: Seq<char>) -> Option<Seq<Seq<char>>> {
    let ws = st_words(s);
    if forall|i: int| 0 <= i < ws.len() ==> float_literal(#[trigger] ws[i]) {
        Some(ws)
    } else {
        None
    }
}

/// The character bounds in `s` of the words of `s`.
fn st_word_bounds(s: &str) -> (r: Vec<(usize, usize)>)
    ensures
        r@.len() == st_words(s@).len(),
        forall|k: int|
            0 <= k < r@.len() ==> (#[trigger] r@[k]).0 <= r@[k].1 <= s@.len() && s@.subrange(
                r@[k].0 as int,
                r@[k].1 as int,
            ) == st_words(s@)[k],
{
    let cs = chars_of(s);
    let (lo, hi) = trim_bounds(&cs);
    word_bounds(&cs, lo, hi)
}

/// Reads the words of `s` as unsigned integers of at most `max`.
fn uint_words_exec(s: &str, max: u64) -> (r: Option<Vec<u64>>)
    ensures
        match uint_words(s@, max as int) {
            Some(vs) => r matches Some(v) && v@.len() == vs.len() && forall|i: int|
                0 <= i < vs.len() ==> v@[i] == vs[i],
            None => r is None,
        },
        r matches Some(v) ==> forall|i: int| 0 <= i < v@.len() ==> v@[i] <= max,
{
    let ghost ws = st_words(s@);
    let bounds = st_word_bounds(s);
    let mut out: Vec<u64> = Vec::new();
    let mut k: usize = 0;
    while k < bounds.len()
        invariant
            k <= bounds@.len() == ws.len(),
            ws == st_words(s@),
            forall|j: int|
                0 <= j < bounds@.len() ==> (#[trigger] bounds@[j]).0 <= bounds@[j].1 <= s@.len()
                    && s@.subrange(bounds@[j].0 as int, bounds@[j].1 as int) == ws[j],
            out@.len() == k,
            forall|j: int|
                0 <= j < k ==> spec_uint_upto(ws[j], max as int) == Some(#[trigger] out@[j] as nat),
            forall|j: int| 0 <= j < k ==> #[trigger] out@[j] <= max,
        decreases bounds@.len() - k,
    {
        let (a, b) = bounds[k];
        let w = s.substring_char(a, b);
        match parse_uint(w, max) {
            Some(v) => {
                out.push(v);
            },
            None => {
                assert(spec_uint_upto(ws[k as int], max as int) is None);
                return None;
            },
        }
        k = k + 1;
    }
    assert forall|i: int| 0 <= i < ws.len() implies (#[trigger] spec_uint_upto(ws[i], max as int))
        is Some by {
        assert(spec_uint_upto(ws[i], max as int) == Some(out@[i] as nat));
    }
    Some(out)
}

/// Tells whether every word of `s` is a float literal.
fn float_words_exec(s: &str) -> (r: Option<Vec<String>>)
    ensures
        match float_words(s@) {
            Some(ws) => r matches Some(v) && v@.len() == ws.len() && forall|i: int|
                0 <= i < ws.len() ==> (#[trigger] v@[i])@ == ws[i],
            None => r is None,
        },
{
    let ghost ws = st_words(s@);
    let bounds = st_word_bounds(s);
    let mut out: Vec<String> = Vec::new();
    let mut k: usize = 0;
    while k < bounds.len()
        invariant
            k <= bounds@.len() == ws.len(),
            ws == st_words(s@),
            forall|j: int|
                0 <= j < bounds@.len() ==> (#[trigger] bounds@[j]).0 <= bounds@[j].1 <= s@.len()
                    && s@.subrange(bounds@[j].0 as int, bounds@[j].1 as int) == ws[j],
            out@.len() == k,
            forall|j: int| 0 <= j < k ==> (#[trigger] out@[j])@ == ws[j] && float_literal(ws[j]),
        decreases bounds@.len() - k,
    {
        let (a, b) = bounds[k];
        let w = s.substring_char(a, b);
        if !is_float_literal(w) {
            return None;
        }
        out.push(w.to_owned());
        k = k + 1;
    }
    assert forall|i: int| 0 <= i < ws.len() implies float_literal(#[trigger] ws[i]) by {
        assert(out@[i]@ == ws[i]);
    }
    Some(out)
}

/// The words of `s`, as they stand.
fn string_words_exec(s: &str) -> (r: Vec<String>)
    ensures
        r@.len() == st_words(s@).len(),
        forall|i: int| 0 <= i < r@.len() ==> (#[trigger] r@[i])@ == st_words(s@)[i],
{
    let ghost ws = st_words(s@);
    let bounds = st_word_bounds(s);
    let mut out: Vec<String> = Vec::new();
    let mut k: usize = 0;
    while k < bounds.len()
        invariant
            k <= bounds@.len() == ws.len(),
            ws == st_words(s@),
            forall|j: int|
                0 <= j < bounds@.len() ==> (#[trigger] bounds@[j]).0 <= bounds@[j].1 <= s@.len()
                    && s@.subrange(bounds@[j].0 as int, bounds@[j].1 as int) == ws[j],
            out@.len() == k,
            forall|j: int| 0 <= j < k ==> (#[trigger] out@[j])@ == ws[j],
        decreases bounds@.len() - k,
    {
        let (a, b) = bounds[k];
        out.push(s.substring_char(a, b).to_owned());
        k = k + 1;
    }
    out
}

impl StArray<u32> {
    /// Reads space separated `u32` values.
    pub fn from_str(s: &str) -> (r: Result<Self, ValueError>)
        ensures
            match uint_words(s@, u32::MAX as int) {
                Some(vs) => r matches Ok(a) && a.0@.len() == vs.len() && forall|i: int|
                    0 <= i < vs.len() ==> a.0@[i] == vs[i],
                None => r == Err::<Self, ValueError>(ValueError::ParseInt),
            },
    {
        let v = match uint_words_exec(s, u32::MAX as u64) {
            Some(v) => v,
            None => {
                return Err(ValueError::ParseInt);
            },
        };
        let mut out: Vec<u32> = Vec::new();
        let mut i: usize = 0;
        while i < v.len()
            invariant
                i <= v@.len(),
                forall|j: int| 0 <= j < v@.len() ==> v@[j] <= u32::MAX,
                out@.len() == i,
                forall|j: int| 0 <= j < i ==> out@[j] == v@[j],
            decreases v@.len() - i,
        {
            out.push(v[i] as u32);
            i = i + 1;
        }
        Ok(StArray(out))
    }
}

impl StArray<u16> {
    /// Reads space separated `u16` values.
    pub fn from_str(s: &str) -> (r: Result<Self, ValueError>)
        ensures
            match uint_words(s@, u16::MAX as int) {
                Some(vs) => r matches Ok(a) && a.0@.len() == vs.len() && forall|i: int|
                    0 <= i < vs.len() ==> a.0@[i] == vs[i],
                None => r == Err::<Self, ValueError>(ValueError::ParseInt),
            },
    {
        let v = match uint_words_exec(s, u16::MAX as u64) {
            Some(v) => v,
            None => {
                return Err(ValueError::ParseInt);
            },
        };
        let mut out: Vec<u16> = Vec::new();
        let mut i: usize = 0;
        while i < v.len()
            invariant
                i <= v@.len(),
                forall|j: int| 0 <= j < v@.len() ==> v@[j] <= u16::MAX,
                out@.len() == i,
                forall|j: int| 0 <= j < i ==> out@[j] == v@[j],
            decreases v@.len() - i,
        {
            out.push(v[i] as u16);
            i = i + 1;
        }
        Ok(StArray(out))
    }
}

impl StArray<String> {
    /// Reads space separated words, which cannot fail.
    pub fn from_str(s: &str) -> (r: Self)
        ensures
            r.0@.len() == st_words(s@).len(),
            forall|i: int| 0 <= i < r.0@.len() ==> (#[trigger] r.0@[i])@ == st_words(s@)[i],
    {
        StArray(string_words_exec(s))
    }

    /// Reads space separated floats, each kept as the literal that `s` writes.
    pub fn floats_from_str(s: &str) -> (r: Result<Self, ValueError>)
        ensures
            match float_words(s@) {
                Some(ws) => r matches Ok(a) && a.0@.len() == ws.len() && forall|i: int|
                    0 <= i < ws.len() ==> (#[trigger] a.0@[i])@ == ws[i],
                None => r == Err::<Self, ValueError>(ValueError::ParseFloat),
            },
    {
        match float_words_exec(s) {
            Some(v) => Ok(StArray(v)),
            None => Err(ValueError::ParseFloat),
        }
    }
}

// ---------------------------------------------------------------------------
// Boxes
// ---------------------------------------------------------------------------

#[derive(Debug, PartialEq, Eq, Structural, Clone, Copy)]
pub enum ParseStBoxError {
    /// Element parts must be 4.
    ElementFormat,
}

/// A box: its left, top, width and height, each a float kept as the literal
/// that the document writes.
#[derive(Debug, Clone)]
pub struct StBox {
    pub x: String,
    pub y: String,
    pub w: String,
    pub h: String,
}

/// The four parts of a box: its text trimmed and split at each space into
/// exactly four parts, each a float literal.
pub open spec fn box_parts(s: Seq<char>) -> Option<Seq<Seq<char>>> {
    let p = split_spaces(trimmed(s));
    if p.len() == 4 && forall|i: int| 0 <= i < 4 ==> float_literal(#[trigger] p[i]) {
        Some(p)
    } else {
        None
    }
}

impl StBox {
    pub open spec fn parts(self) -> Seq<Seq<char>> {
        seq![self.x@, self.y@, self.w@, self.h@]
    }

    pub fn from_str(s: &str) -> (r: Result<StBox, ParseStBoxError>)
        ensures
            match box_parts(s@) {
                Some(p) => r matches Ok(b) && b.parts() == p,
                None => r == Err::<StBox, ParseStBoxError>(ParseStBoxError::ElementFormat),
            },
    {
        let cs = chars_of(s);
        let (lo, hi) = trim_bounds(&cs);
        let ghost p = split_spaces(trimmed(s@));
        let parts = split_bounds(&cs, lo, hi);
        if parts.len() != 4 {
            return Err(ParseStBoxError::ElementFormat);
        }
        let x = s.substring_char(parts[0].0, parts[0].1);
        let y = s.substring_char(parts[1].0, parts[1].1);
        let w = s.substring_char(parts[2].0, parts[2].1);
        let h = s.substring_char(parts[3].0, parts[3].1);
        assert(parts@[0].0 <= parts@[0].1 && parts@[3].0 <= parts@[3].1);
        if !(is_float_literal(x) && is_float_literal(y) && is_float_literal(w) && is_float_literal(
            h,
        )) {
            proof {
                if box_parts(s@) is Some {
                    assert(float_literal(p[0]) && float_literal(p[1]) && float_literal(p[2])
                        && float_literal(p[3]));
                }
            }
            return Err(ParseStBoxError::ElementFormat);
        }
        let b = StBox { x: x.to_owned(), y: y.to_owned(), w: w.to_owned(), h: h.to_owned() };
        assert(b.parts() =~= p);
        Ok(b)
    }

    /// The empty box at the origin.
    pub fn zero() -> (b: StBox)
        ensures
            b.parts() == seq![seq!['0'], seq!['0'], seq!['0'], seq!['0']],
    {
        let z = ['0'];
        let b = StBox {
            x: string_from_chars(&z),
            y: string_from_chars(&z),
            w: string_from_chars(&z),
            h: string_from_chars(&z),
        };
        assert(z@ =~= seq!['0']);
        assert(b.parts() =~= seq![seq!['0'], seq!['0'], seq!['0'], seq!['0']]);
        b
    }
}

// ---------------------------------------------------------------------------
// Writing arrays back
// ---------------------------------------------------------------------------

pub open spec fn digit_char(d: nat) -> char {
    (('0' as u32) + d) as char
}

/// The decimal digits of `n`, without leading zeros.
pub open spec fn spec_decimal(n: nat) -> Seq<char>
    decreases n,
{
    if n < 10 {
        seq![digit_char(n)]
    } else {
        spec_decimal(n / 10).push(digit_char(n % 10))
    }
}

/// The words of `ws` joined by single spaces.
pub open spec fn join_words(ws: Seq<Seq<char>>) -> Seq<char>
    decreases ws.len(),
{
    if ws.len() == 0 {
        Seq::empty()
    } else if ws.len() == 1 {
        ws[0]
    } else {
        join_words(ws.drop_last()) + seq![' '] + ws.last()
    }
}

/// The decimal words of the values of `a`.
pub open spec fn decimal_words(a: Seq<nat>) -> Seq<Seq<char>> {
    a.map_values(|v: nat| spec_decimal(v))
}

fn push_decimal(out: &mut Vec<char>, n: u64)
    ensures
        final(out)@ == old(out)@ + spec_decimal(n as nat),
    decreases n,
{
    if n >= 10 {
        push_decimal(out, n / 10);
    }
    let d = (n % 10) as u8;
    let c = (48u8 + d) as char;
    assert(c == digit_char((n % 10) as nat)) by {
        assert((48u8 + d) as char == ((48 + d) as u32) as char);
    }
    out.push(c);
    proof {
        if n >= 10 {
            assert(spec_decimal(n as nat) == spec_decimal((n / 10) as nat).push(digit_char((n % 10) as nat)));
        }
    }
    assert(final(out)@ =~= old(out)@ + spec_decimal(n as nat)) by {
        if n < 10 {
            assert(spec_decimal(n as nat) =~= seq![digit_char(n as nat)]);
        }
    };
}

/// Joins the decimal writing of `vals` with single spaces.
fn join_decimals(vals: &Vec<u64>) -> (r: String)
    ensures
        r@ == join_words(decimal_words(vals@.map_values(|v: u64| v as nat))),
{
    let ghost ws = decimal_words(vals@.map_values(|v: u64| v as nat));
    let mut out: Vec<char> = Vec::new();
    let mut i: usize = 0;
    while i < vals.len()
        invariant
            i <= vals@.len() == ws.len(),
            ws == decimal_words(vals@.map_values(|v: u64| v as nat)),
            out@ == join_words(ws.take(i as int)),
        decreases vals@.len() - i,
    {
        assert(ws.take(i + 1).drop_last() =~= ws.take(i as int));
        assert(ws[i as int] == spec_decimal(vals@[i as int] as nat));
        if i > 0 {
            out.push(' ');
        }
        push_decimal(&mut out, vals[i]);
        proof {
            if i == 0 {
                assert(out@ =~= ws.take(1)[0]);
            } else {
                assert(out@ =~= join_words(ws.take(i as int)) + seq![' '] + ws[i as int]);
            }
        }
        i = i + 1;
    }
    assert(ws.take(i as int) =~= ws);
    string_from_chars(out.as_slice())
}

impl StArray<u32> {
    /// Writes the values in decimal, separated by single spaces.
    pub fn to_string(&self) -> (r: String)
        ensures
            r@ == join_words(decimal_words(self.0@.map_values(|v: u32| v as nat))),
    {
        let mut vals: Vec<u64> = Vec::new();
        let mut i: usize = 0;
        while i < self.0.len()
            invariant
                i <= self.0@.len(),
                vals@.len() == i,
                forall|j: int| 0 <= j < i ==> vals@[j] == self.0@[j],
            decreases self.0@.len() - i,
        {
            vals.push(self.0[i] as u64);
            i = i + 1;
        }
        assert(vals@.map_values(|v: u64| v as nat) =~= self.0@.map_values(|v: u32| v as nat));
        join_decimals(&vals)
    }
}

impl StArray<u16> {
    /// Writes the values in decimal, separated by single spaces.
    pub fn to_string(&self) -> (r: String)
        ensures
            r@ == join_words(decimal_words(self.0@.map_values(|v: u16| v as nat))),
    {
        let mut vals: Vec<u64> = Vec::new();
        let mut i: usize = 0;
        while i < self.0.len()
            invariant
                i <= self.0@.len(),
                vals@.len() == i,
                forall|j: int| 0 <= j < i ==> vals@[j] == self.0@[j],
            decreases self.0@.len() - i,
        {
            vals.push(self.0[i] as u64);
            i = i + 1;
        }
        assert(vals@.map_values(|v: u64| v as nat) =~= self.0@.map_values(|v: u16| v as nat));
        join_decimals(&vals)
    }
}

impl StArray<String> {
    /// Writes the words separated by single spaces.
    pub fn to_string(&self) -> (r: String)
        ensures
            r@ == join_words(self.0@.map_values(|w: String| w@)),
    {
        let ghost ws = self.0@.map_values(|w: String| w@);
        let mut out: Vec<char> = Vec::new();
        let mut i: usize = 0;
        while i < self.0.len()
            invariant
                i <= self.0@.len() == ws.len(),
                ws == self.0@.map_values(|w: String| w@),
                out@ == join_words(ws.take(i as int)),
            decreases self.0@.len() - i,
        {
            assert(ws.take(i + 1).drop_last() =~= ws.take(i as int));
            if i > 0 {
                out.push(' ');
            }
            let cs = chars_of(self.0[i].as_str());
            let mut k: usize = 0;
            let ghost start = out@;
            while k < cs.len()
                invariant
                    k <= cs@.len(),
                    out@ == start + cs@.take(k as int),
                decreases cs@.len() - k,
            {
                out.push(cs[k]);
                k = k + 1;
                assert(out@ =~= start + cs@.take(k as int));
            }
            assert(cs@.take(k as int) =~= ws[i as int]);
            proof {
                if i == 0 {
                    assert(out@ =~= ws.take(1)[0]);
                } else {
                    assert(out@ =~= join_words(ws.take(i as int)) + seq![' '] + ws[i as int]);
                }
            }
            i = i + 1;
        }
        assert(ws.take(i as int) =~= ws);
        string_from_chars(out.as_slice())
    }
}

// ---------------------------------------------------------------------------
// Reading back what was written
// ---------------------------------------------------------------------------

proof fn lemma_decimal(n: nat)
    ensures
        spec_decimal(n).len() > 0,
        all_digits(spec_decimal(n)),
        digits_value(spec_decimal(n)) == n,
    decreases n,
{
    let d = spec_decimal(n);
    let c = digit_char(n % 10);
    assert((c as u32 - '0' as u32) as nat == n % 10);
    assert(n == (n / 10) * 10 + n % 10);
    if n >= 10 {
        lemma_decimal(n / 10);
        assert(d.drop_last() =~= spec_decimal(n / 10));
        assert(d.last() == c);
        assert(digits_value(d) == digits_value(d.drop_last()) * 10 + (d.last() as u32 - '0' as u32) as nat);
        assert forall|i: int| 0 <= i < d.len() implies is_digit(#[trigger] d[i]) by {
            if i < d.len() - 1 {
                assert(d[i] == spec_decimal(n / 10)[i]);
            }
        }
    } else {
        assert(d.drop_last() =~= Seq::<char>::empty());
        assert(d.last() == c);
        assert(n % 10 == n);
        assert(digits_value(d) == digits_value(d.drop_last()) * 10 + (d.last() as u32 - '0' as u32) as nat);
    }
}

proof fn lemma_split_append(p: Seq<char>, w: Seq<char>)
    requires
        forall|i: int| 0 <= i < w.len() ==> #[trigger] w[i] != ' ',
    ensures
        split_spaces(p + w) == split_spaces(p).update(
            split_spaces(p).len() - 1,
            split_spaces(p).last() + w,
        ),
    decreases w.len(),
{
    lemma_split_len(p);
    let sp = split_spaces(p);
    if w.len() == 0 {
        assert(p + w =~= p);
        assert(sp.last() + w =~= sp.last());
        assert(sp.update(sp.len() - 1, sp.last()) =~= sp);
    } else {
        let w0 = w.drop_last();
        lemma_split_append(p, w0);
        assert((p + w).drop_last() =~= p + w0);
        assert((p + w).last() == w.last());
        assert(w.last() == w[w.len() - 1]);
        let s1 = split_spaces(p + w0);
        assert(s1.len() == sp.len());
        assert(s1.last() == sp.last() + w0);
        assert(split_spaces(p + w) == s1.update(s1.len() - 1, s1.last().push(w.last())));
        assert(s1.last().push(w.last()) =~= sp.last() + w);
        assert(split_spaces(p + w) =~= sp.update(sp.len() - 1, sp.last() + w));
    }
}

proof fn lemma_split_join(ws: Seq<Seq<char>>)
    requires
        ws.len() >= 1,
        forall|i: int, j: int| 0 <= i < ws.len() && 0 <= j < ws[i].len() ==> #[trigger] ws[i][j] != ' ',
    ensures
        split_spaces(join_words(ws)) == ws,
    decreases ws.len(),
{
    let w = ws.last();
    assert forall|j: int| 0 <= j < w.len() implies #[trigger] w[j] != ' ' by {
        assert(ws[ws.len() - 1][j] != ' ');
    }
    if ws.len() == 1 {
        lemma_split_append(Seq::empty(), ws[0]);
        assert(Seq::<char>::empty() + ws[0] =~= ws[0]);
        assert(split_spaces(Seq::<char>::empty()) =~= seq![Seq::<char>::empty()]);
        assert(Seq::<char>::empty() + ws[0] =~= ws[0]);
        assert(seq![Seq::<char>::empty()].update(0, Seq::<char>::empty() + ws[0]) =~= ws);
    } else {
        let wp = ws.drop_last();
        lemma_split_join(wp);
        let x = join_words(wp) + seq![' '];
        assert(x.drop_last() =~= join_words(wp));
        assert(split_spaces(x) == wp.push(Seq::empty()));
        lemma_split_append(x, w);
        assert(Seq::<char>::empty() + w =~= w);
        assert(wp.push(Seq::empty()).update(wp.len() as int, Seq::<char>::empty() + w) =~= ws);
    }
}

proof fn lemma_filter_all(ws: Seq<Seq<char>>)
    requires
        forall|i: int| 0 <= i < ws.len() ==> nonempty(#[trigger] ws[i]),
    ensures
        ws.filter(|w: Seq<char>| nonempty(w)) == ws,
    decreases ws.len(),
{
    reveal(Seq::filter);
    if ws.len() > 0 {
        lemma_filter_all(ws.drop_last());
        assert(ws.drop_last().push(ws.last()) =~= ws);
    }
}

proof fn lemma_join_ends(ws: Seq<Seq<char>>)
    requires
        ws.len() >= 1,
        forall|i: int| 0 <= i < ws.len() ==> nonempty(#[trigger] ws[i]),
    ensures
        join_words(ws).len() > 0,
        join_words(ws)[0] == ws[0][0],
        join_words(ws).last() == ws.last().last(),
    decreases ws.len(),
{
    if ws.len() > 1 {
        lemma_join_ends(ws.drop_last());
        assert(nonempty(ws[ws.len() - 1]));
    }
}

proof fn lemma_trim_none(s: Seq<char>)
    requires
        s.len() > 0 ==> !is_white(s[0]) && !is_white(s.last()),
    ensures
        trimmed(s) == s,
{
    assert(s.subrange(0, s.len() as int) =~= s);
    assert(trimmed(Seq::<char>::empty()) =~= Seq::<char>::empty());
}

/// Words that hold no space, none empty, and that do not begin or end the
/// text with white space, are read back from their joined text as they were.
pub proof fn lemma_words_roundtrip(ws: Seq<Seq<char>>)
    requires
        forall|i: int| 0 <= i < ws.len() ==> nonempty(#[trigger] ws[i]),
        forall|i: int, j: int| 0 <= i < ws.len() && 0 <= j < ws[i].len() ==> #[trigger] ws[i][j] != ' ',
        ws.len() > 0 ==> !is_white(ws[0][0]) && !is_white(ws.last().last()),
    ensures
        st_words(join_words(ws)) == ws,
{
    reveal_with_fuel(Seq::filter, 2);
    if ws.len() == 0 {
        lemma_trim_none(join_words(ws));
        assert(split_spaces(Seq::<char>::empty()) =~= seq![Seq::<char>::empty()]);
        assert(seq![Seq::<char>::empty()].drop_last() =~= Seq::<Seq<char>>::empty());
        assert(seq![Seq::<char>::empty()].filter(|w: Seq<char>| nonempty(w)) =~= ws);
    } else {
        lemma_join_ends(ws);
        lemma_trim_none(join_words(ws));
        lemma_split_join(ws);
        lemma_filter_all(ws);
    }
}

/// Reading back the decimal text that `to_string` writes of an array of
/// unsigned values gives the values again.
pub proof fn lemma_uint_array_roundtrip(a: Seq<nat>, max: int)
    requires
        forall|i: int| 0 <= i < a.len() ==> #[trigger] a[i] <= max,
    ensures
        uint_words(join_words(decimal_words(a)), max) == Some(a),
{
    let ws = decimal_words(a);
    assert forall|i: int| 0 <= i < ws.len() implies nonempty(#[trigger] ws[i]) && all_digits(ws[i])
        && digits_value(ws[i]) == a[i] by {
        lemma_decimal(a[i]);
    }
    assert forall|i: int, j: int| 0 <= i < ws.len() && 0 <= j < ws[i].len() implies #[trigger] ws[i][j]
        != ' ' by {
        assert(all_digits(ws[i]));
        assert(is_digit(ws[i][j]));
    }
    if ws.len() > 0 {
        assert(all_digits(ws[0]) && is_digit(ws[0][0]));
        assert(all_digits(ws.last()) && is_digit(ws.last()[ws.last().len() - 1]));
    }
    lemma_words_roundtrip(ws);
    assert forall|i: int| 0 <= i < ws.len() implies (#[trigger] spec_uint_upto(ws[i], max)) == Some(
        a[i],
    ) by {
        assert(nonempty(ws[i]) && all_digits(ws[i]));
        assert(is_digit(ws[i][0]));
    }
    assert(ws.map_values(|w: Seq<char>| spec_uint_upto(w, max).unwrap()) =~= a);
}

} // verus!
