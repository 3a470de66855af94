//! Text: the operations on strings that the rest of the library is stated over.
//!
//! A string is its sequence of characters. Order is by code point, which is also the
//! order of the UTF-8 bytes.

use vstd::prelude::*;
use vstd::std_specs::iter::IteratorSpec;
use vstd::string::*;

verus! {

/// `String::push`: appends one character.
pub assume_specification[ String::push ](string: &mut String, ch: char)
    ensures
        final(string)@ == old(string)@.push(ch),
;

/// The texts of a list of strings.
pub open spec fn texts(list: Seq<String>) -> Seq<Seq<char>> {
    list.map_values(|s: String| s@)
}

/// Whether two texts are the same.
pub fn same(a: &str, b: &str) -> (r: bool)
    ensures
        r == (a@ == b@),
{
    let left = chars_of(a);
    let right = chars_of(b);
    let n: usize = left.len();
    if n != right.len() {
        return false;
    }
    let mut i: usize = 0;
    while i < n
        invariant
            left@ == a@,
            right@ == b@,
            n == left.len(),
            n == right.len(),
            i <= n,
            forall|j: int| 0 <= j < i ==> left@[j] == right@[j],
        decreases n - i,
    {
        if left[i] != right[i] {
            return false;
        }
        i = i + 1;
    }
    proof {
        assert(a@ =~= b@);
    }
    true
}

/// The characters of a text.
pub fn chars_of(text: &str) -> (r: Vec<char>)
    ensures
        r@ == text@,
{
    broadcast use vstd::string::group_string_axioms;
    let mut out: Vec<char> = Vec::new();
    let mut rest = text.chars();
    proof {
        assert(rest.remaining() == text@);
        assert(out@ + rest.remaining() =~= text@);
    }
    loop
        invariant
            rest.obeys_prophetic_iter_laws(),
            rest.decrease() is Some,
            out@ + rest.remaining() == text@,
        ensures
            out@ == text@,
        decreases rest.decrease()->0,
    {
        let ghost before = rest.remaining();
        match rest.next() {
            Some(c) => {
                out.push(c);
                proof {
                    assert(before =~= seq![c] + rest.remaining());
                    assert(out@ + rest.remaining() =~= text@);
                }
            },
            None => {
                proof {
                    assert(out@ + before =~= out@);
                }
                break;
            },
        }
    }
    out
}

/// The text of a run of characters.
pub fn text_of(chars: &Vec<char>, from: usize, to: usize) -> (r: String)
    requires
        from <= to <= chars@.len(),
    ensures
        r@ == chars@.subrange(from as int, to as int),
{
    let mut out = String::new();
    let mut i: usize = from;
    while i < to
        invariant
            from <= i <= to <= chars@.len(),
            out@ == chars@.subrange(from as int, i as int),
        decreases to - i,
    {
        out.push(chars[i]);
        proof {
            assert(chars@.subrange(from as int, i as int).push(chars@[i as int])
                =~= chars@.subrange(from as int, i + 1));
        }
        i = i + 1;
    }
    out
}

/// Whether a character is an ASCII capital letter.
pub open spec fn is_upper(c: char) -> bool {
    'A' <= c && c <= 'Z'
}

/// A character with an ASCII capital made small.
pub open spec fn lower_char(c: char) -> char {
    if is_upper(c) {
        ((c as u8 + 32) as u8) as char
    } else {
        c
    }
}

pub fn to_lower_char(c: char) -> (r: char)
    ensures
        r == lower_char(c),
{
    if 'A' <= c && c <= 'Z' {
        (c as u8 + 32) as char
    } else {
        c
    }
}

/// A text with its ASCII capitals made small.
pub open spec fn lower(s: Seq<char>) -> Seq<char> {
    s.map_values(|c: char| lower_char(c))
}

pub fn to_lower(text: &str) -> (r: String)
    ensures
        r@ == lower(text@),
{
    let chars = chars_of(text);
    let n: usize = chars.len();
    let mut out = String::new();
    let mut i: usize = 0;
    while i < n
        invariant
            chars@ == text@,
            n == chars.len(),
            i <= n,
            out@ == lower(text@.subrange(0, i as int)),
        decreases n - i,
    {
        out.push(to_lower_char(chars[i]));
        proof {
            assert(lower(text@.subrange(0, i + 1)) =~= lower(text@.subrange(0, i as int)).push(
                lower_char(text@[i as int]),
            ));
        }
        i = i + 1;
    }
    proof {
        assert(text@.subrange(0, n as int) =~= text@);
    }
    out
}

/// Whether two texts differ in nothing but the case of ASCII letters.
pub fn same_ignoring_case(a: &str, b: &str) -> (r: bool)
    ensures
        r == (lower(a@) == lower(b@)),
{
    let left = to_lower(a);
    let right = to_lower(b);
    left == right
}

/// Making a text small twice is making it small once.
pub proof fn lower_idempotent(s: Seq<char>)
    ensures
        lower(lower(s)) == lower(s),
{
    assert forall|i: int| 0 <= i < s.len() implies lower(lower(s))[i] == lower(s)[i] by {
        lower_char_small(s[i]);
    }
    assert(lower(lower(s)) =~= lower(s));
}

pub proof fn lower_char_small(c: char)
    ensures
        !is_upper(lower_char(c)),
        lower_char(lower_char(c)) == lower_char(c),
{
}

/// Whether a character is a hexadecimal digit.
pub open spec fn is_hex_digit(c: char) -> bool {
    ('0' <= c && c <= '9') || ('a' <= c && c <= 'f') || ('A' <= c && c <= 'F')
}

/// Whether every character of a text is a hexadecimal digit.
pub open spec fn all_hex(s: Seq<char>) -> bool {
    forall|i: int| 0 <= i < s.len() ==> is_hex_digit(#[trigger] s[i])
}

pub fn is_all_hex(text: &str) -> (r: bool)
    ensures
        r == all_hex(text@),
{
    let chars = chars_of(text);
    let n: usize = chars.len();
    let mut i: usize = 0;
    while i < n
        invariant
            chars@ == text@,
            n == chars.len(),
            i <= n,
            forall|j: int| 0 <= j < i ==> is_hex_digit(#[trigger] text@[j]),
        decreases n - i,
    {
        let c = chars[i];
        if !(('0' <= c && c <= '9') || ('a' <= c && c <= 'f') || ('A' <= c && c <= 'F')) {
            proof {
                assert(!is_hex_digit(text@[i as int]));
            }
            return false;
        }
        i = i + 1;
    }
    true
}

/// Whether a character is Unicode white space.
pub open spec fn is_space(c: char) -> bool {
    ||| ('\u{9}' <= c && c <= '\u{d}')
    ||| c == '\u{20}'
    ||| c == '\u{85}'
    ||| c == '\u{a0}'
    ||| c == '\u{1680}'
    ||| ('\u{2000}' <= c && c <= '\u{200a}')
    ||| c == '\u{2028}'
    ||| c == '\u{2029}'
    ||| c == '\u{202f}'
    ||| c == '\u{205f}'
    ||| c == '\u{3000}'
}

fn space(c: char) -> (r: bool)
    ensures
        r == is_space(c),
{
    ('\u{9}' <= c && c <= '\u{d}') || c == '\u{20}' || c == '\u{85}' || c == '\u{a0}' || c
        == '\u{1680}' || ('\u{2000}' <= c && c <= '\u{200a}') || c == '\u{2028}' || c == '\u{2029}'
        || c == '\u{202f}' || c == '\u{205f}' || c == '\u{3000}'
}

/// A text without the white space it begins with.
pub open spec fn trim_start(s: Seq<char>) -> Seq<char>
    decreases s.len(),
{
    if s.len() > 0 && is_space(s[0]) {
        trim_start(s.subrange(1, s.len() as int))
    } else {
        s
    }
}

/// A text without the white space it ends with.
pub open spec fn trim_end(s: Seq<char>) -> Seq<char>
    decreases s.len(),
{
    if s.len() > 0 && is_space(s[s.len() - 1]) {
        trim_end(s.subrange(0, s.len() - 1))
    } else {
        s
    }
}

/// A text without the white space around it.
pub open spec fn trimmed(s: Seq<char>) -> Seq<char> {
    trim_end(trim_start(s))
}

pub fn trim(text: &str) -> (r: String)
    ensures
        r@ == trimmed(text@),
{
    let chars = chars_of(text);
    let n: usize = chars.len();
    let mut from: usize = 0;
    proof {
        assert(text@.subrange(0, n as int) =~= text@);
    }
    while from < n && space(chars[from])
        invariant
            chars@ == text@,
            n == chars.len(),
            from <= n,
            trim_start(text@) == trim_start(text@.subrange(from as int, n as int)),
        decreases n - from,
    {
        proof {
            let here = text@.subrange(from as int, n as int);
            assert(here.subrange(1, here.len() as int) =~= text@.subrange(from + 1, n as int));
        }
        from = from + 1;
    }
    let ghost started = text@.subrange(from as int, n as int);
    proof {
        if started.len() > 0 {
            assert(started[0] == text@[from as int]);
        }
        assert(trim_start(text@) == started);
    }
    let mut to: usize = n;
    while from < to && space(chars[to - 1])
        invariant
            chars@ == text@,
            n == chars.len(),
            from <= to <= n,
            trim_end(started) == trim_end(text@.subrange(from as int, to as int)),
        decreases to,
    {
        proof {
            let here = text@.subrange(from as int, to as int);
            assert(here.subrange(0, here.len() - 1) =~= text@.subrange(from as int, to - 1));
        }
        to = to - 1;
    }
    proof {
        let rest = text@.subrange(from as int, to as int);
        if rest.len() > 0 {
            assert(rest[rest.len() - 1] == text@[to - 1]);
        }
    }
    text_of(&chars, from, to)
}

/// Whether one text begins with another.
pub open spec fn begins(s: Seq<char>, prefix: Seq<char>) -> bool {
    prefix.len() <= s.len() && s.subrange(0, prefix.len() as int) == prefix
}

/// Whether one text ends with another.
pub open spec fn ends(s: Seq<char>, suffix: Seq<char>) -> bool {
    suffix.len() <= s.len() && s.subrange(s.len() - suffix.len(), s.len() as int) == suffix
}

/// The text after a prefix, where it begins with it.
pub open spec fn after(s: Seq<char>, prefix: Seq<char>) -> Option<Seq<char>> {
    if begins(s, prefix) {
        Some(s.subrange(prefix.len() as int, s.len() as int))
    } else {
        None
    }
}

/// The text before a suffix, where it ends with it.
pub open spec fn without_suffix(s: Seq<char>, suffix: Seq<char>) -> Option<Seq<char>> {
    if ends(s, suffix) {
        Some(s.subrange(0, s.len() - suffix.len()))
    } else {
        None
    }
}

/// The view of an optional string.
pub open spec fn opt(s: Option<String>) -> Option<Seq<char>> {
    match s {
        Some(s) => Some(s@),
        None => None,
    }
}

/// Whether the characters from `at` on begin with `part`.
fn holds_at(chars: &Vec<char>, at: usize, part: &Vec<char>) -> (r: bool)
    requires
        at + part@.len() <= chars@.len(),
    ensures
        r == (chars@.subrange(at as int, at + part@.len()) == part@),
{
    let n: usize = part.len();
    let total: usize = chars.len();
    let mut i: usize = 0;
    while i < n
        invariant
            n == part.len(),
            i <= n,
            at + n <= total == chars@.len(),
            forall|j: int| 0 <= j < i ==> chars@[at + j] == part@[j],
        decreases n - i,
    {
        if chars[at + i] != part[i] {
            proof {
                assert(chars@.subrange(at as int, at + n)[i as int] != part@[i as int]);
            }
            return false;
        }
        i = i + 1;
    }
    proof {
        assert(chars@.subrange(at as int, at + n) =~= part@);
    }
    true
}

pub fn strip_prefix(text: &str, prefix: &str) -> (r: Option<String>)
    ensures
        opt(r) == after(text@, prefix@),
{
    let chars = chars_of(text);
    let head = chars_of(prefix);
    if head.len() <= chars.len() && holds_at(&chars, 0, &head) {
        Some(text_of(&chars, head.len(), chars.len()))
    } else {
        None
    }
}

pub fn strip_suffix(text: &str, suffix: &str) -> (r: Option<String>)
    ensures
        opt(r) == without_suffix(text@, suffix@),
{
    let chars = chars_of(text);
    let tail = chars_of(suffix);
    if tail.len() <= chars.len() && holds_at(&chars, chars.len() - tail.len(), &tail) {
        Some(text_of(&chars, 0, chars.len() - tail.len()))
    } else {
        None
    }
}

pub fn starts_with(text: &str, prefix: &str) -> (r: bool)
    ensures
        r == begins(text@, prefix@),
{
    let chars = chars_of(text);
    let head = chars_of(prefix);
    head.len() <= chars.len() && holds_at(&chars, 0, &head)
}

pub fn ends_with(text: &str, suffix: &str) -> (r: bool)
    ensures
        r == ends(text@, suffix@),
{
    let chars = chars_of(text);
    let tail = chars_of(suffix);
    tail.len() <= chars.len() && holds_at(&chars, chars.len() - tail.len(), &tail)
}

/// Whether a text occurs in another.
pub open spec fn occurs(s: Seq<char>, part: Seq<char>) -> bool {
    exists|at: int|
        0 <= at && at + part.len() <= s.len() && #[trigger] s.subrange(at, at + part.len()) == part
}

pub fn contains(text: &str, part: &str) -> (r: bool)
    ensures
        r == occurs(text@, part@),
{
    let chars = chars_of(text);
    let sought = chars_of(part);
    let n: usize = chars.len();
    let m: usize = sought.len();
    if m > n {
        return false;
    }
    let last: usize = n - m;
    let mut at: usize = 0;
    loop
        invariant
            chars@ == text@,
            sought@ == part@,
            n == chars.len(),
            m == sought.len(),
            m <= n,
            last == n - m,
            at <= last,
            forall|j: int| 0 <= j < at ==> #[trigger] text@.subrange(j, j + m) != part@,
        decreases n - at,
    {
        if holds_at(&chars, at, &sought) {
            proof {
                assert(text@.subrange(at as int, at + m) == part@);
            }
            return true;
        }
        if at == last {
            return false;
        }
        at = at + 1;
    }
}

/// Where a character first occurs at or after `from`; the length where it does not.
pub open spec fn find(s: Seq<char>, c: char, from: int) -> int
    decreases s.len() - from,
{
    if from < 0 || from >= s.len() {
        s.len() as int
    } else if s[from] == c {
        from
    } else {
        find(s, c, from + 1)
    }
}

pub proof fn find_bounds(s: Seq<char>, c: char, from: int)
    requires
        0 <= from <= s.len(),
    ensures
        from <= find(s, c, from) <= s.len(),
        find(s, c, from) < s.len() ==> s[find(s, c, from)] == c,
        forall|j: int| from <= j < find(s, c, from) ==> s[j] != c,
    decreases s.len() - from,
{
    if from < s.len() && s[from] != c {
        find_bounds(s, c, from + 1);
    }
}

/// The pieces of a text from `from` on, cut at each `sep`: always at least one.
pub open spec fn pieces_from(s: Seq<char>, sep: char, from: int) -> Seq<Seq<char>>
    decreases s.len() - from,
    when 0 <= from <= s.len()
    via pieces_decreases
{
    let cut = find(s, sep, from);
    if cut >= s.len() {
        seq![s.subrange(from, s.len() as int)]
    } else {
        seq![s.subrange(from, cut)] + pieces_from(s, sep, cut + 1)
    }
}

#[via_fn]
proof fn pieces_decreases(s: Seq<char>, sep: char, from: int) {
    find_bounds(s, sep, from);
}

/// The pieces of a text cut at each `sep`.
pub open spec fn pieces(s: Seq<char>, sep: char) -> Seq<Seq<char>> {
    pieces_from(s, sep, 0)
}

pub fn split(text: &str, sep: char) -> (r: Vec<String>)
    ensures
        texts(r@) == pieces(text@, sep),
{
    let chars = chars_of(text);
    let n: usize = chars.len();
    let mut out: Vec<String> = Vec::new();
    let mut from: usize = 0;
    let mut i: usize = 0;
    proof {
        assert(texts(out@) + pieces_from(text@, sep, 0) =~= pieces(text@, sep));
    }
    while i < n
        invariant
            chars@ == text@,
            n == chars.len(),
            from <= i <= n,
            find(text@, sep, from as int) == find(text@, sep, i as int),
            texts(out@) + pieces_from(text@, sep, from as int) == pieces(text@, sep),
        decreases n - i,
    {
        if chars[i] == sep {
            let piece = text_of(&chars, from, i);
            let ghost done = texts(out@);
            out.push(piece);
            proof {
                let rest = pieces_from(text@, sep, i + 1);
                assert(texts(out@) =~= done.push(text@.subrange(from as int, i as int)));
                assert(texts(out@) + rest =~= done + (seq![text@.subrange(from as int, i as int)]
                    + rest));
            }
            from = i + 1;
        }
        i = i + 1;
    }
    let piece = text_of(&chars, from, n);
    let ghost done = texts(out@);
    out.push(piece);
    proof {
        assert(texts(out@) =~= done + seq![text@.subrange(from as int, n as int)]);
    }
    out
}

/// The texts of a list one after the other, with `sep` between two of them.
pub open spec fn joined(parts: Seq<Seq<char>>, sep: Seq<char>) -> Seq<char>
    decreases parts.len(),
{
    if parts.len() == 0 {
        Seq::empty()
    } else if parts.len() == 1 {
        parts[0]
    } else {
        joined(parts.drop_last(), sep) + sep + parts.last()
    }
}

pub fn join(parts: &Vec<String>, sep: &str) -> (r: String)
    ensures
        r@ == joined(texts(parts@), sep@),
{
    let n: usize = parts.len();
    let mut out = String::new();
    let mut i: usize = 0;
    while i < n
        invariant
            n == parts.len(),
            i <= n,
            out@ == joined(texts(parts@).subrange(0, i as int), sep@),
        decreases n - i,
    {
        proof {
            let here = texts(parts@).subrange(0, i + 1);
            assert(here.drop_last() =~= texts(parts@).subrange(0, i as int));
            assert(here.last() == parts@[i as int]@);
            if i == 0 {
                assert(out@ + parts@[0]@ =~= parts@[0]@);
            }
        }
        if i > 0 {
            out.append(sep);
        }
        out.append(parts[i].as_str());
        i = i + 1;
    }
    proof {
        assert(texts(parts@).subrange(0, n as int) =~= texts(parts@));
    }
    out
}

/// A text with each occurrence of a character replaced by another text.
pub open spec fn replaced(s: Seq<char>, c: char, with: Seq<char>) -> Seq<char>
    decreases s.len(),
{
    if s.len() == 0 {
        Seq::empty()
    } else {
        let done = replaced(s.drop_last(), c, with);
        if s.last() == c {
            done + with
        } else {
            done.push(s.last())
        }
    }
}

pub fn replace(text: &str, c: char, with: &str) -> (r: String)
    ensures
        r@ == replaced(text@, c, with@),
{
    let chars = chars_of(text);
    let n: usize = chars.len();
    let mut out = String::new();
    let mut i: usize = 0;
    while i < n
        invariant
            chars@ == text@,
            n == chars.len(),
            i <= n,
            out@ == replaced(text@.subrange(0, i as int), c, with@),
        decreases n - i,
    {
        proof {
            let here = text@.subrange(0, i + 1);
            assert(here.drop_last() =~= text@.subrange(0, i as int));
            assert(here.last() == text@[i as int]);
        }
        if chars[i] == c {
            out.append(with);
        } else {
            out.push(chars[i]);
        }
        i = i + 1;
    }
    proof {
        assert(text@.subrange(0, n as int) =~= text@);
    }
    out
}

/// A decimal digit as a character.
pub open spec fn digit_char(d: int) -> char {
    (('0' as u8 + d) as u8) as char
}

/// A number in decimal, without leading zeros.
pub open spec fn decimal(n: nat) -> Seq<char>
    decreases n,
{
    if n < 10 {
        seq![digit_char(n as int)]
    } else {
        decimal(n / 10).push(digit_char((n % 10) as int))
    }
}

pub fn number(n: u64) -> (r: String)
    ensures
        r@ == decimal(n as nat),
    decreases n,
{
    if n < 10 {
        let mut out = String::new();
        out.push((48u8 + n as u8) as char);
        proof {
            assert(out@ =~= seq![digit_char(n as int)]);
        }
        out
    } else {
        let mut out = number(n / 10);
        out.push((48u8 + (n % 10) as u8) as char);
        out
    }
}

/// A signed number in decimal.
pub open spec fn signed_decimal(n: int) -> Seq<char> {
    if n < 0 {
        "-"@ + decimal((-n) as nat)
    } else {
        decimal(n as nat)
    }
}

/// A half byte as a small hexadecimal digit.
pub open spec fn nibble(d: int) -> char {
    if d < 10 {
        (('0' as u8 + d) as u8) as char
    } else {
        (('a' as u8 + (d - 10)) as u8) as char
    }
}

fn nibble_of(d: u8) -> (r: char)
    requires
        d < 16,
    ensures
        r == nibble(d as int),
{
    if d < 10 {
        (48u8 + d) as char
    } else {
        (97u8 + (d - 10)) as char
    }
}

/// Bytes in small hexadecimal, two digits each.
pub open spec fn hex(bytes: Seq<u8>) -> Seq<char> {
    Seq::new(
        2 * bytes.len(),
        |i: int|
            if i % 2 == 0 {
                nibble(bytes[i / 2] as int / 16)
            } else {
                nibble(bytes[i / 2] as int % 16)
            },
    )
}

pub fn to_hex(bytes: &Vec<u8>) -> (r: String)
    ensures
        r@ == hex(bytes@),
{
    let n: usize = bytes.len();
    let mut out = String::new();
    let mut i: usize = 0;
    proof {
        assert(hex(bytes@.subrange(0, 0)) =~= Seq::<char>::empty());
    }
    while i < n
        invariant
            n == bytes.len(),
            i <= n,
            out@ == hex(bytes@.subrange(0, i as int)),
        decreases n - i,
    {
        let byte: u8 = bytes[i];
        out.push(nibble_of(byte / 16));
        out.push(nibble_of(byte % 16));
        proof {
            let before = bytes@.subrange(0, i as int);
            let here = bytes@.subrange(0, i + 1);
            assert(out@ == hex(before).push(nibble(byte as int / 16)).push(nibble(byte as int % 16)));
            assert forall|k: int| 0 <= k < 2 * (i + 1) implies hex(here)[k] == out@[k] by {
                if k < 2 * i {
                    assert(here[k / 2] == before[k / 2]);
                } else {
                    assert(k / 2 == i);
                    assert(here[k / 2] == byte);
                }
            }
            assert(hex(here) =~= out@);
        }
        i = i + 1;
    }
    proof {
        assert(bytes@.subrange(0, n as int) =~= bytes@);
    }
    out
}

/// Hexadecimal of bytes is hexadecimal digits in small letters, two for each byte.
pub proof fn hex_digits(bytes: Seq<u8>)
    ensures
        hex(bytes).len() == 2 * bytes.len(),
        all_hex(hex(bytes)),
        lower(hex(bytes)) == hex(bytes),
{
    assert(lower(hex(bytes)) =~= hex(bytes));
}

} // verus!
