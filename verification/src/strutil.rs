//! Small verified text helpers: character extraction, trimming,
//! ASCII-case-insensitive comparison and number parsing.

use vstd::prelude::*;

verus! {

/// Relies on str::chars: iterating a string yields exactly the characters of
/// its view, in order.
#[verifier::external_body]
pub fn chars_of(s: &str) -> (r: Vec<char>)
    ensures
        r@ == s@,
{
    s.chars().collect()
}

/// Relies on String: collecting characters builds the string whose view is
/// exactly that character sequence.
#[verifier::external_body]
pub fn string_from_chars(v: &Vec<char>) -> (r: String)
    ensures
        r@ == v@,
{
    v.iter().collect()
}

/// The view of an optional string.
pub open spec fn opt_view(o: Option<String>) -> Option<Seq<char>> {
    match o {
        Some(s) => Some(s@),
        None => None,
    }
}

pub open spec fn is_space(c: char) -> bool {
    c == ' ' || c == '\t' || c == '\r' || c == '\n'
}

/// The Unicode White_Space property, the set `str::trim` trims: the ASCII
/// whitespace controls and space, next line, no-break space, ogham space
/// mark, the en-quad..hair-space range, the line and paragraph separators,
/// the narrow and medium mathematical spaces, and the ideographic space.
pub open spec fn is_unicode_space(c: char) -> bool {
    let u = c as u32;
    (9 <= u && u <= 13) || u == 32 || u == 0x85 || u == 0xA0 || u == 0x1680 || (0x2000 <= u && u
        <= 0x200A) || u == 0x2028 || u == 0x2029 || u == 0x202F || u == 0x205F || u == 0x3000
}

pub open spec fn spec_trim_front(s: Seq<char>) -> Seq<char>
    decreases s.len(),
{
    if s.len() > 0 && is_unicode_space(s[0]) {
        spec_trim_front(s.drop_first())
    } else {
        s
    }
}

pub open spec fn spec_trim_back(s: Seq<char>) -> Seq<char>
    decreases s.len(),
{
    if s.len() > 0 && is_unicode_space(s.last()) {
        spec_trim_back(s.drop_last())
    } else {
        s
    }
}

/// The string with leading and trailing whitespace removed.
pub open spec fn spec_trim(s: Seq<char>) -> Seq<char> {
    spec_trim_back(spec_trim_front(s))
}

proof fn lemma_trim_front_skip(s: Seq<char>, i: int)
    requires
        0 <= i <= s.len(),
        forall|j: int| 0 <= j < i ==> is_unicode_space(s[j]),
        i < s.len() ==> !is_unicode_space(s[i]),
    ensures
        spec_trim_front(s) == s.skip(i),
    decreases i,
{
    if i == 0 {
        assert(s.skip(0) =~= s);
    } else {
        assert(is_unicode_space(s[0]));
        lemma_trim_front_skip(s.drop_first(), i - 1);
        assert(s.drop_first().skip(i - 1) =~= s.skip(i));
    }
}

proof fn lemma_trim_back_take(s: Seq<char>, i: int)
    requires
        0 <= i <= s.len(),
        forall|j: int| i <= j < s.len() ==> is_unicode_space(s[j]),
        i > 0 ==> !is_unicode_space(s[i - 1]),
    ensures
        spec_trim_back(s) == s.take(i),
    decreases s.len() - i,
{
    if i == s.len() {
        assert(s.take(i) =~= s);
        if s.len() > 0 && is_unicode_space(s.last()) {
            lemma_trim_back_take(s.drop_last(), i - 1);
            assert(s.drop_last().take(i - 1) =~= s.take(i - 1));
            assert(false);
        }
    } else {
        assert(is_unicode_space(s.last()));
        lemma_trim_back_take(s.drop_last(), i);
        assert(s.drop_last().take(i) =~= s.take(i));
    }
}

fn exec_is_unicode_space(c: char) -> (r: bool)
    ensures
        r == is_unicode_space(c),
{
    let u = c as u32;
    (9 <= u && u <= 13) || u == 32 || u == 0x85 || u == 0xA0 || u == 0x1680 || (0x2000 <= u && u
        <= 0x200A) || u == 0x2028 || u == 0x2029 || u == 0x202F || u == 0x205F || u == 0x3000
}

/// The characters of `v` with leading and trailing whitespace removed.
pub fn trim_chars(v: &Vec<char>) -> (r: Vec<char>)
    ensures
        r@ == spec_trim(v@),
{
    let n = v.len();
    let mut start: usize = 0;
    while start < n && exec_is_unicode_space(v[start])
        invariant
            start <= n,
            n == v@.len(),
            forall|j: int| 0 <= j < start ==> is_unicode_space(v@[j]),
        decreases n - start,
    {
        start += 1;
    }
    proof {
        lemma_trim_front_skip(v@, start as int);
    }
    let mut end: usize = n;
    while end > start && exec_is_unicode_space(v[end - 1])
        invariant
            start <= end <= n,
            n == v@.len(),
            forall|j: int| 0 <= j < start ==> is_unicode_space(v@[j]),
            start < n ==> !is_unicode_space(v@[start as int]),
            forall|j: int| end <= j < n ==> is_unicode_space(v@[j]),
        decreases end,
    {
        end -= 1;
    }
    let ghost front = v@.skip(start as int);
    proof {
        assert(forall|j: int|
            end - start <= j < front.len() ==> is_unicode_space(#[trigger] front[j]));
        assert(end - start > 0 ==> !is_unicode_space(front[end - start - 1]));
        lemma_trim_back_take(front, end - start);
    }
    let mut r: Vec<char> = Vec::new();
    let mut i: usize = start;
    while i < end
        invariant
            start <= i <= end <= n,
            n == v@.len(),
            r@ == v@.subrange(start as int, i as int),
        decreases end - i,
    {
        r.push(v[i]);
        proof {
            assert(r@ =~= v@.subrange(start as int, i + 1));
        }
        i += 1;
    }
    proof {
        assert(v@.subrange(start as int, end as int) =~= front.take(end - start));
    }
    r
}

/// The string with leading and trailing whitespace removed.
pub fn trim_string(s: &String) -> (r: String)
    ensures
        r@ == spec_trim(s@),
{
    let v = chars_of(s.as_str());
    let t = trim_chars(&v);
    string_from_chars(&t)
}

/// An upper-case ASCII letter mapped to lower case; anything else unchanged.
pub open spec fn spec_lower_char(c: char) -> char {
    if 65 <= c as u32 && c as u32 <= 90 {
        ((c as u8) + 32) as char
    } else {
        c
    }
}

pub open spec fn spec_lower(s: Seq<char>) -> Seq<char> {
    s.map_values(|c: char| spec_lower_char(c))
}

fn lower_char(c: char) -> (r: char)
    ensures
        r == spec_lower_char(c),
{
    let u = c as u32;
    if 65 <= u && u <= 90 {
        ((c as u8) + 32) as char
    } else {
        c
    }
}

/// Whether the characters, lower-cased, spell the same word as `w`.
pub fn eq_ignore_ascii_case(v: &Vec<char>, w: &str) -> (r: bool)
    ensures
        r == (spec_lower(v@) == w@),
{
    let wc = chars_of(w);
    if v.len() != wc.len() {
        proof {
            assert(spec_lower(v@).len() == v@.len());
        }
        return false;
    }
    let n = v.len();
    let mut i: usize = 0;
    while i < n
        invariant
            i <= n,
            n == v@.len(),
            n == wc@.len(),
            wc@ == w@,
            forall|j: int| 0 <= j < i ==> spec_lower(v@)[j] == w@[j],
        decreases n - i,
    {
        if lower_char(v[i]) != wc[i] {
            proof {
                assert(spec_lower(v@)[i as int] == spec_lower_char(v@[i as int]));
            }
            return false;
        }
        i += 1;
    }
    proof {
        assert(spec_lower(v@) =~= w@);
    }
    true
}

pub open spec fn is_digit(c: char) -> bool {
    48 <= c as u32 && c as u32 <= 57
}

pub open spec fn digit_val(c: char) -> int {
    c as u32 - 48
}

pub open spec fn all_digits(s: Seq<char>) -> bool {
    forall|i: int| 0 <= i < s.len() ==> is_digit(s[i])
}

/// The number a digit string denotes.
pub open spec fn digits_val(s: Seq<char>) -> int
    decreases s.len(),
{
    if s.len() == 0 {
        0
    } else {
        digits_val(s.drop_last()) * 10 + digit_val(s.last())
    }
}

/// What `str::parse::<u16>` accepts: an optional leading `+`, then one or
/// more ASCII digits denoting a value that fits in 16 bits.
pub open spec fn spec_parse_u16(s: Seq<char>) -> Option<u16> {
    let t = if s.len() > 0 && s[0] == '+' {
        s.drop_first()
    } else {
        s
    };
    if t.len() > 0 && all_digits(t) && digits_val(t) <= 65535 {
        Some(digits_val(t) as u16)
    } else {
        None
    }
}

proof fn lemma_digits_val_nonneg(s: Seq<char>)
    requires
        all_digits(s),
    ensures
        digits_val(s) >= 0,
    decreases s.len(),
{
    if s.len() > 0 {
        assert(all_digits(s.drop_last()));
        lemma_digits_val_nonneg(s.drop_last());
    }
}

proof fn lemma_digits_val_monotone(s: Seq<char>, i: int)
    requires
        0 <= i <= s.len(),
        all_digits(s),
    ensures
        digits_val(s.take(i)) <= digits_val(s),
    decreases s.len(),
{
    if i == s.len() {
        assert(s.take(i) =~= s);
    } else {
        assert(all_digits(s.drop_last()));
        assert(s.take(i) =~= s.drop_last().take(i));
        lemma_digits_val_monotone(s.drop_last(), i);
        lemma_digits_val_nonneg(s.drop_last());
        assert(digits_val(s) == digits_val(s.drop_last()) * 10 + digit_val(s.last()));
        assert(digit_val(s.last()) >= 0);
    }
}

fn parse_digits_u16(v: &Vec<char>, start: usize) -> (r: Option<u16>)
    requires
        start <= v@.len(),
    ensures
        ({
            let t = v@.skip(start as int);
            match r {
                Some(x) => t.len() > 0 && all_digits(t) && digits_val(t) == x && x <= 65535,
                None => !(t.len() > 0 && all_digits(t) && digits_val(t) <= 65535),
            }
        }),
{
    let ghost t = v@.skip(start as int);
    let n = v.len();
    if start >= n {
        return None;
    }
    let mut acc: u32 = 0;
    let mut i: usize = start;
    while i < n
        invariant
            start <= i <= n,
            n == v@.len(),
            t == v@.skip(start as int),
            all_digits(t.take(i - start)),
            acc == digits_val(t.take(i - start)),
            acc <= 65535,
        decreases n - i,
    {
        let c = v[i];
        let u = c as u32;
        if u < 48 || u > 57 {
            proof {
                assert(t[i - start] == v@[i as int]);
                assert(!is_digit(t[i - start]));
            }
            return None;
        }
        let d = u - 48;
        let next: u32 = acc * 10 + d;
        proof {
            let p = t.take(i - start + 1);
            assert(p.drop_last() =~= t.take(i - start));
            assert(p.last() == v@[i as int]);
        }
        if next > 65535 {
            proof {
                if all_digits(t) {
                    lemma_digits_val_monotone(t, i - start + 1);
                }
            }
            return None;
        }
        acc = next;
        i += 1;
    }
    proof {
        assert(t.take(i - start) =~= t);
    }
    Some(acc as u16)
}

/// Parse a 16-bit number the way `str::parse::<u16>` does.
pub fn parse_u16(s: &String) -> (r: Option<u16>)
    ensures
        r == spec_parse_u16(s@),
{
    let v = chars_of(s.as_str());
    if v.len() > 0 && v[0] == '+' {
        proof {
            assert(v@.skip(1) =~= s@.drop_first());
        }
        parse_digits_u16(&v, 1)
    } else {
        proof {
            assert(v@.skip(0) =~= s@);
        }
        parse_digits_u16(&v, 0)
    }
}

} // verus!
