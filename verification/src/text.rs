//! Character-level helpers on strings, proved against `Seq<char>` views:
//! prefixes, decimal and hexadecimal text, integer parsing, trimming and
//! the file-name and extension rules of Unix paths.
use vstd::prelude::*;

verus! {

// ---------------------------------------------------------------------
// Specifications
// ---------------------------------------------------------------------

/// `s` begins with `p`.
pub open spec fn starts_with(s: Seq<char>, p: Seq<char>) -> bool {
    p.len() <= s.len() && s.take(p.len() as int) == p
}

/// `s` ends with `p`.
pub open spec fn ends_with(s: Seq<char>, p: Seq<char>) -> bool {
    p.len() <= s.len() && s.skip(s.len() - p.len()) == p
}

/// `needle` occurs somewhere inside `hay`.
pub open spec fn occurs_in(hay: Seq<char>, needle: Seq<char>) -> bool {
    exists|i: int| 0 <= i <= hay.len() - needle.len() && #[trigger] hay.subrange(i, i + needle.len()) == needle
}

/// ASCII decimal digit.
pub open spec fn is_digit(c: char) -> bool {
    48 <= (c as u32) <= 57
}

/// Every character of `s` is a decimal digit.
pub open spec fn all_digits(s: Seq<char>) -> bool {
    forall|i: int| 0 <= i < s.len() ==> is_digit(#[trigger] s[i])
}

/// The number written by the digit characters `s`, most significant first.
pub open spec fn digits_value(s: Seq<char>) -> nat
    decreases s.len(),
{
    if s.len() == 0 {
        0
    } else {
        digits_value(s.drop_last()) * 10 + ((s.last() as u32) - 48) as nat
    }
}

/// What `str::parse::<u32>` gives: an optional `+`, then at least one digit,
/// and a value that fits in 32 bits.
pub open spec fn parsed_u32(s: Seq<char>) -> Option<u32> {
    let d = if s.len() > 0 && s[0] == '+' {
        s.drop_first()
    } else {
        s
    };
    if d.len() > 0 && all_digits(d) && digits_value(d) <= u32::MAX {
        Some(digits_value(d) as u32)
    } else {
        None
    }
}

/// The character of a decimal digit.
pub open spec fn digit_char(d: nat) -> char {
    ((48 + d) as u8) as char
}

/// The decimal text of `n`, without leading zeros.
pub open spec fn decimal(n: nat) -> Seq<char>
    decreases n,
{
    if n < 10 {
        seq![digit_char(n)]
    } else {
        decimal(n / 10).push(digit_char(n % 10))
    }
}

/// The lower-case hexadecimal character of a nibble.
pub open spec fn hex_char(d: nat) -> char {
    if d < 10 {
        ((48 + d) as u8) as char
    } else {
        ((87 + d) as u8) as char
    }
}

/// Lower-case hexadecimal text of a byte string, two characters per byte.
pub open spec fn hex_lower(bytes: Seq<u8>) -> Seq<char>
    decreases bytes.len(),
{
    if bytes.len() == 0 {
        Seq::empty()
    } else {
        hex_lower(bytes.drop_last()).push(hex_char((bytes.last() / 16) as nat)).push(
            hex_char((bytes.last() % 16) as nat),
        )
    }
}

/// Unicode White_Space, the set `char::is_whitespace` and `str::trim` use.
pub open spec fn is_white_space(c: char) -> bool {
    let u = c as u32;
    (9 <= u <= 13) || u == 32 || u == 0x85 || u == 0xA0 || u == 0x1680 || (0x2000 <= u <= 0x200A)
        || u == 0x2028 || u == 0x2029 || u == 0x202F || u == 0x205F || u == 0x3000
}

/// `s` without its leading white space.
pub open spec fn trim_start(s: Seq<char>) -> Seq<char>
    decreases s.len(),
{
    if s.len() > 0 && is_white_space(s[0]) {
        trim_start(s.drop_first())
    } else {
        s
    }
}

/// `s` without its trailing white space.
pub open spec fn trim_end(s: Seq<char>) -> Seq<char>
    decreases s.len(),
{
    if s.len() > 0 && is_white_space(s.last()) {
        trim_end(s.drop_last())
    } else {
        s
    }
}

/// `s` without leading and trailing white space, as `str::trim` gives it.
pub open spec fn trimmed(s: Seq<char>) -> Seq<char> {
    trim_end(trim_start(s))
}

/// `s` without trailing `c` characters, as `str::trim_end_matches(c)` gives it.
pub open spec fn trim_end_char(s: Seq<char>, c: char) -> Seq<char>
    decreases s.len(),
{
    if s.len() > 0 && s.last() == c {
        trim_end_char(s.drop_last(), c)
    } else {
        s
    }
}

/// `s` with every `c` removed.
pub open spec fn without_char(s: Seq<char>, c: char) -> Seq<char> {
    s.filter(|x: char| x != c)
}

/// Index of the last `c` in `s`, or -1.
pub open spec fn last_index_of_char(s: Seq<char>, c: char) -> int
    decreases s.len(),
{
    if s.len() == 0 {
        -1
    } else if s.last() == c {
        s.len() - 1
    } else {
        last_index_of_char(s.drop_last(), c)
    }
}

/// Index of the first `c` in `s`, or -1.
pub open spec fn first_index_of_char(s: Seq<char>, c: char) -> int
    decreases s.len(),
{
    if s.len() == 0 {
        -1
    } else if s[0] == c {
        0
    } else if first_index_of_char(s.drop_first(), c) < 0 {
        -1
    } else {
        first_index_of_char(s.drop_first(), c) + 1
    }
}

/// The final normal component of a Unix path, as `Path::file_name` gives it:
/// empty and `.` components are skipped, and a final `..` has no name.
pub open spec fn file_name_of(p: Seq<char>) -> Option<Seq<char>>
    decreases p.len(),
{
    let slash = last_index_of_char(p, '/');
    let piece = p.skip(slash + 1);
    if piece.len() == 0 || piece == seq!['.'] {
        if slash < 0 {
            None
        } else {
            proof {
                lemma_last_index_of_char(p, '/');
            }
            file_name_of(p.take(slash))
        }
    } else if piece == seq!['.', '.'] {
        None
    } else {
        Some(piece)
    }
}

/// The extension of a Unix path, as `Path::extension` gives it: the text
/// after the last `.` of the file name, unless that dot opens the name.
pub open spec fn extension_of(p: Seq<char>) -> Option<Seq<char>> {
    match file_name_of(p) {
        None => None,
        Some(name) => {
            let dot = last_index_of_char(name, '.');
            if dot <= 0 {
                None
            } else {
                Some(name.skip(dot + 1))
            }
        },
    }
}

/// `base` joined with the relative path `part`, as `Path::join` gives it.
pub open spec fn joined(base: Seq<char>, part: Seq<char>) -> Seq<char> {
    if base.len() == 0 || base.last() == '/' {
        base + part
    } else {
        base + seq!['/'] + part
    }
}

// ---------------------------------------------------------------------
// Lemmas
// ---------------------------------------------------------------------

pub proof fn lemma_last_index_of_char(s: Seq<char>, c: char)
    ensures
        -1 <= last_index_of_char(s, c) < s.len(),
        last_index_of_char(s, c) >= 0 ==> s[last_index_of_char(s, c)] == c,
        forall|j: int| last_index_of_char(s, c) < j < s.len() ==> s[j] != c,
    decreases s.len(),
{
    if s.len() > 0 {
        lemma_last_index_of_char(s.drop_last(), c);
        if s.last() != c {
            assert forall|j: int| last_index_of_char(s, c) < j < s.len() implies s[j] != c by {
                if j < s.len() - 1 {
                    assert(s.drop_last()[j] == s[j]);
                }
            }
        }
    }
}

pub proof fn lemma_first_index_of_char(s: Seq<char>, c: char)
    ensures
        -1 <= first_index_of_char(s, c) < s.len(),
        first_index_of_char(s, c) >= 0 ==> s[first_index_of_char(s, c)] == c,
        forall|j: int|
            0 <= j < s.len() && (first_index_of_char(s, c) < 0 || j < first_index_of_char(s, c))
                ==> s[j] != c,
    decreases s.len(),
{
    if s.len() > 0 {
        lemma_first_index_of_char(s.drop_first(), c);
        if s[0] != c {
            assert forall|j: int|
                0 <= j < s.len() && (first_index_of_char(s, c) < 0 || j < first_index_of_char(
                    s,
                    c,
                )) implies s[j] != c by {
                if j > 0 {
                    assert(s.drop_first()[j - 1] == s[j]);
                }
            }
        }
    }
}

/// A digit string only grows in value as digits are appended.
proof fn lemma_digits_value_prefix(s: Seq<char>, i: int)
    requires
        0 <= i <= s.len(),
    ensures
        digits_value(s.take(i)) <= digits_value(s),
    decreases s.len() - i,
{
    if i < s.len() {
        lemma_digits_value_prefix(s, i + 1);
        assert(s.take(i + 1).drop_last() =~= s.take(i));
    } else {
        assert(s.take(i) =~= s);
    }
}

proof fn lemma_trim_start_is_suffix(s: Seq<char>)
    ensures
        trim_start(s).len() <= s.len(),
        trim_start(s) == s.skip(s.len() - trim_start(s).len()),
    decreases s.len(),
{
    if s.len() > 0 && is_white_space(s[0]) {
        lemma_trim_start_is_suffix(s.drop_first());
        assert(s.drop_first().skip(s.drop_first().len() - trim_start(s).len()) =~= s.skip(
            s.len() - trim_start(s).len(),
        ));
    } else {
        assert(s.skip(0) =~= s);
    }
}

// ---------------------------------------------------------------------
// Trusted helpers over std
// ---------------------------------------------------------------------

/// `String::push`: appends one character.
#[verifier::external_body]
pub(crate) fn push_char(s: &mut String, c: char)
    ensures
        final(s)@ == old(s)@.push(c),
{
    s.push(c);
}

/// `<str as PartialEq>::eq`: whether two slices hold the same characters.
#[verifier::external_body]
pub(crate) fn same_text(a: &str, b: &str) -> (r: bool)
    ensures
        r == (a@ == b@),
{
    a == b
}

// ---------------------------------------------------------------------
// Executable functions
// ---------------------------------------------------------------------

/// The characters of a string slice, in order.
pub fn chars_of(s: &str) -> (v: Vec<char>)
    ensures
        v@ == s@,
{
    let mut v: Vec<char> = Vec::new();
    for c in it: s.chars()
        invariant
            v@ == it.seq().take(it.index() as int),
    {
        v.push(c);
    }
    v
}

/// A string holding the given characters.
pub fn string_of(cs: &[char]) -> (s: String)
    ensures
        s@ == cs@,
{
    let mut s = String::new();
    let mut i: usize = 0;
    while i < cs.len()
        invariant
            i <= cs.len(),
            s@ == cs@.take(i as int),
        decreases cs.len() - i,
    {
        push_char(&mut s, cs[i]);
        i += 1;
        assert(cs@.take(i as int) == cs@.take(i - 1).push(cs@[i - 1]));
    }
    assert(cs@.take(cs.len() as int) == cs@);
    s
}

/// A copy of a slice as an owned string.
pub fn owned(s: &str) -> (r: String)
    ensures
        r@ == s@,
{
    s.to_owned()
}

/// The concatenation of two slices.
pub fn concat(a: &str, b: &str) -> (r: String)
    ensures
        r@ == a@ + b@,
{
    let mut r = a.to_owned();
    r.append(b);
    r
}

/// The characters of `cs[from..to]` as a string.
pub fn substring(cs: &[char], from: usize, to: usize) -> (s: String)
    requires
        from <= to <= cs@.len(),
    ensures
        s@ == cs@.subrange(from as int, to as int),
{
    let mut s = String::new();
    let mut i = from;
    while i < to
        invariant
            from <= i <= to <= cs@.len(),
            s@ == cs@.subrange(from as int, i as int),
        decreases to - i,
    {
        push_char(&mut s, cs[i]);
        i += 1;
        assert(cs@.subrange(from as int, i as int) =~= cs@.subrange(from as int, i - 1).push(
            cs@[i - 1],
        ));
    }
    s
}

/// Whether `s` begins with `p`.
pub fn has_prefix(s: &str, p: &str) -> (b: bool)
    ensures
        b == starts_with(s@, p@),
{
    let sv = chars_of(s);
    let pv = chars_of(p);
    if pv.len() > sv.len() {
        return false;
    }
    let mut i: usize = 0;
    while i < pv.len()
        invariant
            sv@ == s@,
            pv@ == p@,
            pv.len() <= sv.len(),
            i <= pv.len(),
            forall|j: int| 0 <= j < i ==> sv@[j] == pv@[j],
        decreases pv.len() - i,
    {
        if sv[i] != pv[i] {
            assert(sv@.take(pv.len() as int)[i as int] != pv@[i as int]);
            return false;
        }
        i += 1;
    }
    assert(sv@.take(pv.len() as int) =~= pv@);
    true
}

/// Whether `s` ends with `p`.
pub fn has_suffix(s: &str, p: &str) -> (b: bool)
    ensures
        b == ends_with(s@, p@),
{
    let sv = chars_of(s);
    let pv = chars_of(p);
    if pv.len() > sv.len() {
        return false;
    }
    let off = sv.len() - pv.len();
    let mut i: usize = 0;
    while i < pv.len()
        invariant
            sv@ == s@,
            pv@ == p@,
            pv.len() <= sv.len(),
            off == sv.len() - pv.len(),
            i <= pv.len(),
            forall|j: int| 0 <= j < i ==> sv@[off + j] == pv@[j],
        decreases pv.len() - i,
    {
        if sv[off + i] != pv[i] {
            assert(sv@.skip(off as int)[i as int] != pv@[i as int]);
            return false;
        }
        i += 1;
    }
    assert(sv@.skip(off as int) =~= pv@);
    true
}

/// `s` without the prefix `p`, or `None` when `s` does not begin with `p`.
pub fn strip_prefix(s: &str, p: &str) -> (r: Option<String>)
    ensures
        match r {
            Some(t) => starts_with(s@, p@) && t@ == s@.skip(p@.len() as int),
            None => !starts_with(s@, p@),
        },
{
    if has_prefix(s, p) {
        let sv = chars_of(s);
        let n = chars_of(p).len();
        Some(substring(&sv, n, sv.len()))
    } else {
        None
    }
}

/// Whether `needle` occurs in `hay`.
pub fn contains_text(hay: &str, needle: &str) -> (b: bool)
    ensures
        b == occurs_in(hay@, needle@),
{
    let h = chars_of(hay);
    let n = chars_of(needle);
    if n.len() > h.len() {
        return false;
    }
    let last = h.len() - n.len();
    let mut i: usize = 0;
    loop
        invariant
            n.len() <= h.len(),
            last == h.len() - n.len(),
            h@ == hay@,
            n@ == needle@,
            i <= last,
            forall|k: int| 0 <= k < i ==> #[trigger] h@.subrange(k, k + n@.len()) != n@,
        decreases last - i,
    {
        let mut j: usize = 0;
        let mut ok = true;
        while j < n.len()
            invariant
                n.len() <= h.len(),
                i <= h.len() - n.len(),
                j <= n.len(),
                ok ==> forall|m: int| 0 <= m < j ==> h@[i + m] == n@[m],
                !ok ==> h@.subrange(i as int, i + n@.len()) != n@,
            decreases n.len() - j,
        {
            if h[i + j] != n[j] {
                assert(h@.subrange(i as int, i + n@.len())[j as int] != n@[j as int]);
                ok = false;
            }
            j += 1;
        }
        if ok {
            assert(h@.subrange(i as int, i + n@.len()) =~= n@);
            return true;
        }
        if i == last {
            assert forall|k: int| 0 <= k <= hay@.len() - needle@.len() implies #[trigger] hay@.subrange(
                k,
                k + needle@.len(),
            ) != needle@ by {
                if k < i {
                    assert(h@.subrange(k, k + n@.len()) != n@);
                }
            }
            return false;
        }
        i += 1;
    }
}

/// The decimal text of `n`.
pub fn decimal_text(n: u64) -> (s: String)
    ensures
        s@ == decimal(n as nat),
{
    let v = decimal_chars(n);
    string_of(&v)
}

fn decimal_chars(n: u64) -> (v: Vec<char>)
    ensures
        v@ == decimal(n as nat),
    decreases n,
{
    let d = ((48 + n % 10) as u8) as char;
    if n < 10 {
        let mut v = Vec::new();
        v.push(d);
        assert(v@ =~= seq![digit_char(n as nat)]);
        v
    } else {
        let mut v = decimal_chars(n / 10);
        v.push(d);
        v
    }
}

/// Parses unsigned decimal text the way `str::parse::<u32>` does.
pub fn parse_u32(s: &str) -> (r: Option<u32>)
    ensures
        r == parsed_u32(s@),
{
    let cs = chars_of(s);
    let start: usize = if cs.len() > 0 && cs[0] == '+' {
        1
    } else {
        0
    };
    let ghost d = if s@.len() > 0 && s@[0] == '+' {
        s@.drop_first()
    } else {
        s@
    };
    assert(d =~= cs@.skip(start as int));
    if start >= cs.len() {
        return None;
    }
    let mut val: u64 = 0;
    let mut i = start;
    while i < cs.len()
        invariant
            start <= i <= cs.len(),
            cs@ == s@,
            d == cs@.skip(start as int),
            d == (if s@.len() > 0 && s@[0] == '+' {
                s@.drop_first()
            } else {
                s@
            }),
            all_digits(cs@.subrange(start as int, i as int)),
            val == digits_value(cs@.subrange(start as int, i as int)),
            val <= u32::MAX,
        decreases cs.len() - i,
    {
        let u = cs[i] as u32;
        if !(48 <= u && u <= 57) {
            assert(d[i - start] == cs@[i as int]);
            assert(!is_digit(d[i - start]));
            return None;
        }
        let ghost before = cs@.subrange(start as int, i as int);
        let digit = (u - 48) as u64;
        val = val * 10 + digit;
        i += 1;
        assert(cs@.subrange(start as int, i as int).drop_last() =~= before);
        if val > 0xffff_ffff {
            proof {
                if all_digits(d) {
                    assert(cs@.subrange(start as int, i as int) =~= d.take(i - start));
                    lemma_digits_value_prefix(d, i - start);
                }
            }
            return None;
        }
    }
    assert(cs@.subrange(start as int, cs.len() as int) =~= d);
    Some(val as u32)
}

/// Lower-case hexadecimal text of a byte string.
pub fn hex_text(bytes: &[u8]) -> (s: String)
    ensures
        s@ == hex_lower(bytes@),
{
    let mut s = String::new();
    let mut i: usize = 0;
    while i < bytes.len()
        invariant
            i <= bytes.len(),
            s@ == hex_lower(bytes@.take(i as int)),
        decreases bytes.len() - i,
    {
        let b = bytes[i];
        let hi = b / 16;
        let lo = b % 16;
        let chi = if hi < 10 {
            ((48 + hi) as u8) as char
        } else {
            ((87 + hi) as u8) as char
        };
        let clo = if lo < 10 {
            ((48 + lo) as u8) as char
        } else {
            ((87 + lo) as u8) as char
        };
        push_char(&mut s, chi);
        push_char(&mut s, clo);
        i += 1;
        assert(bytes@.take(i as int).drop_last() =~= bytes@.take(i - 1));
    }
    assert(bytes@.take(bytes.len() as int) =~= bytes@);
    s
}

/// `s` without leading and trailing white space.
pub fn trim_text(s: &str) -> (r: String)
    ensures
        r@ == trimmed(s@),
{
    let cs = chars_of(s);
    let mut a: usize = 0;
    assert(cs@.skip(0) =~= cs@);
    while a < cs.len() && is_white_space_char(cs[a])
        invariant
            a <= cs.len(),
            trim_start(cs@) == trim_start(cs@.skip(a as int)),
        decreases cs.len() - a,
    {
        assert(cs@.skip(a as int).drop_first() =~= cs@.skip(a + 1));
        a += 1;
    }
    assert(trim_start(cs@.skip(a as int)) == cs@.skip(a as int));
    let mut b: usize = cs.len();
    while b > a && is_white_space_char(cs[b - 1])
        invariant
            a <= b <= cs.len(),
            trim_end(cs@.skip(a as int)) == trim_end(cs@.subrange(a as int, b as int)),
        decreases b,
    {
        assert(cs@.subrange(a as int, b as int).drop_last() =~= cs@.subrange(a as int, b - 1));
        b -= 1;
    }
    assert(cs@.skip(a as int) =~= cs@.subrange(a as int, cs.len() as int));
    substring(&cs, a, b)
}

/// Whether `c` is Unicode white space.
pub fn is_white_space_char(c: char) -> (b: bool)
    ensures
        b == is_white_space(c),
{
    let u = c as u32;
    (9 <= u && u <= 13) || u == 32 || u == 0x85 || u == 0xA0 || u == 0x1680 || (0x2000 <= u && u
        <= 0x200A) || u == 0x2028 || u == 0x2029 || u == 0x202F || u == 0x205F || u == 0x3000
}

/// `s` without trailing `c` characters.
pub fn trim_end_matching(s: &str, c: char) -> (r: String)
    ensures
        r@ == trim_end_char(s@, c),
{
    let cs = chars_of(s);
    let mut b: usize = cs.len();
    assert(cs@.take(b as int) =~= cs@);
    while b > 0 && cs[b - 1] == c
        invariant
            b <= cs.len(),
            trim_end_char(cs@, c) == trim_end_char(cs@.take(b as int), c),
        decreases b,
    {
        assert(cs@.take(b as int).drop_last() =~= cs@.take(b - 1));
        b -= 1;
    }
    assert(cs@.take(b as int) =~= cs@.subrange(0, b as int));
    substring(&cs, 0, b)
}

/// `s` with every `c` removed.
pub fn remove_char(s: &str, c: char) -> (r: String)
    ensures
        r@ == without_char(s@, c),
{
    let cs = chars_of(s);
    let mut out = String::new();
    let mut i: usize = 0;
    while i < cs.len()
        invariant
            i <= cs.len(),
            out@ == without_char(cs@.take(i as int), c),
        decreases cs.len() - i,
    {
        proof {
            reveal_with_fuel(Seq::filter, 1);
        }
        assert(cs@.take(i + 1).drop_last() =~= cs@.take(i as int));
        if cs[i] != c {
            push_char(&mut out, cs[i]);
        }
        i += 1;
    }
    assert(cs@.take(cs.len() as int) =~= cs@);
    out
}

/// Position of the last `c` among `cs[..end]`.
pub fn last_char_index(cs: &[char], end: usize, c: char) -> (r: Option<usize>)
    requires
        end <= cs@.len(),
    ensures
        match r {
            Some(i) => i < end && cs@[i as int] == c && (forall|j: int| i < j < end ==> cs@[j] != c)
                && i == last_index_of_char(cs@.take(end as int), c),
            None => (forall|j: int| 0 <= j < end ==> cs@[j] != c) && last_index_of_char(
                cs@.take(end as int),
                c,
            ) == -1,
        },
{
    let ghost p = cs@.take(end as int);
    proof {
        lemma_last_index_of_char(p, c);
    }
    let mut i = end;
    while i > 0
        invariant
            i <= end <= cs@.len(),
            p == cs@.take(end as int),
            forall|j: int| i <= j < end ==> cs@[j] != c,
        decreases i,
    {
        i -= 1;
        if cs[i] == c {
            proof {
                lemma_last_index_of_char(p, c);
                let li = last_index_of_char(p, c);
                if li > i {
                    assert(p[li] == cs@[li]);
                } else if li < i {
                    assert(p[i as int] == cs@[i as int]);
                }
            }
            return Some(i);
        }
    }
    proof {
        let li = last_index_of_char(p, c);
        if li >= 0 {
            assert(p[li] == cs@[li]);
        }
    }
    None
}

/// Position of the first `c` in `cs`.
pub fn first_char_index(cs: &[char], c: char) -> (r: Option<usize>)
    ensures
        match r {
            Some(i) => i < cs@.len() && cs@[i as int] == c && i == first_index_of_char(cs@, c),
            None => first_index_of_char(cs@, c) == -1,
        },
{
    proof {
        lemma_first_index_of_char(cs@, c);
    }
    let mut i: usize = 0;
    while i < cs.len()
        invariant
            i <= cs@.len(),
            forall|j: int| 0 <= j < i ==> cs@[j] != c,
            -1 <= first_index_of_char(cs@, c) < cs@.len(),
            first_index_of_char(cs@, c) >= 0 ==> cs@[first_index_of_char(cs@, c)] == c,
            forall|j: int|
                0 <= j < cs@.len() && (first_index_of_char(cs@, c) < 0 || j < first_index_of_char(
                    cs@,
                    c,
                )) ==> cs@[j] != c,
        decreases cs.len() - i,
    {
        if cs[i] == c {
            return Some(i);
        }
        i += 1;
    }
    None
}

/// The file name of a Unix path, as `Path::file_name` gives it.
pub fn file_name(path: &str) -> (r: Option<String>)
    ensures
        match r {
            Some(n) => file_name_of(path@) == Some(n@),
            None => file_name_of(path@) is None,
        },
{
    let cs = chars_of(path);
    assert(cs@.take(cs@.len() as int) =~= path@);
    match file_name_range(&cs, cs.len()) {
        Some((a, b)) => Some(substring(&cs, a, b)),
        None => None,
    }
}

fn file_name_range(cs: &[char], end: usize) -> (r: Option<(usize, usize)>)
    requires
        end <= cs@.len(),
    ensures
        match r {
            Some((a, b)) => a <= b <= end && file_name_of(cs@.take(end as int)) == Some(
                cs@.subrange(a as int, b as int),
            ),
            None => file_name_of(cs@.take(end as int)) is None,
        },
    decreases end,
{
    let ghost p = cs@.take(end as int);
    let slash = last_char_index(cs, end, '/');
    let start: usize = match slash {
        Some(i) => i + 1,
        None => 0,
    };
    assert(p.skip(last_index_of_char(p, '/') + 1) =~= cs@.subrange(start as int, end as int));
    let len = end - start;
    let is_dot = len == 1 && cs[start] == '.';
    if len == 0 || is_dot {
        proof {
            if is_dot {
                assert(cs@.subrange(start as int, end as int) =~= seq!['.']);
            } else {
                assert(cs@.subrange(start as int, end as int).len() == 0);
            }
        }
        match slash {
            None => None,
            Some(i) => {
                assert(p.take(i as int) =~= cs@.take(i as int));
                file_name_range(cs, i)
            },
        }
    } else if len == 2 && cs[start] == '.' && cs[start + 1] == '.' {
        assert(cs@.subrange(start as int, end as int) =~= seq!['.', '.']);
        None
    } else {
        proof {
            if len == 1 {
                assert(cs@.subrange(start as int, end as int) != seq!['.']) by {
                    assert(cs@.subrange(start as int, end as int)[0] != '.');
                }
            }
            if len == 2 {
                let piece = cs@.subrange(start as int, end as int);
                assert(piece != seq!['.', '.']) by {
                    if piece == seq!['.', '.'] {
                        assert(piece[0] == '.' && piece[1] == '.');
                    }
                }
            }
        }
        Some((start, end))
    }
}

/// The extension of a Unix path, as `Path::extension` gives it.
pub fn extension(path: &str) -> (r: Option<String>)
    ensures
        match r {
            Some(e) => extension_of(path@) == Some(e@),
            None => extension_of(path@) is None,
        },
{
    let cs = chars_of(path);
    assert(cs@.take(cs@.len() as int) =~= path@);
    match file_name_range(&cs, cs.len()) {
        None => None,
        Some((a, b)) => {
            let name: Vec<char> = slice_chars(&cs, a, b);
            assert(name@ == cs@.subrange(a as int, b as int));
            match last_char_index(&name, name.len(), '.') {
                None => {
                    assert(name@.take(name@.len() as int) =~= name@);
                    None
                },
                Some(dot) => {
                    assert(name@.take(name@.len() as int) =~= name@);
                    assert(dot < name.len());
                    if dot == 0 {
                        None
                    } else {
                        assert(name@.skip(dot + 1) =~= name@.subrange(
                            dot + 1,
                            name@.len() as int,
                        ));
                        Some(substring(&name, dot + 1, name.len()))
                    }
                },
            }
        },
    }
}

/// A copy of `cs[from..to]`.
pub fn slice_chars(cs: &[char], from: usize, to: usize) -> (v: Vec<char>)
    requires
        from <= to <= cs@.len(),
    ensures
        v@ == cs@.subrange(from as int, to as int),
{
    let mut v: Vec<char> = Vec::new();
    let mut i = from;
    while i < to
        invariant
            from <= i <= to <= cs@.len(),
            v@ == cs@.subrange(from as int, i as int),
        decreases to - i,
    {
        v.push(cs[i]);
        i += 1;
        assert(cs@.subrange(from as int, i as int) =~= cs@.subrange(from as int, i - 1).push(
            cs@[i - 1],
        ));
    }
    v
}

/// `base` joined with the relative path `part`.
pub fn join_path(base: &str, part: &str) -> (r: String)
    ensures
        r@ == joined(base@, part@),
{
    let bs = chars_of(base);
    if bs.len() == 0 || bs[bs.len() - 1] == '/' {
        concat(base, part)
    } else {
        let with_sep = concat(base, "/");
        proof {
            reveal_strlit("/");
        }
        concat(with_sep.as_str(), part)
    }
}

} // verus!
