//! What holds of texts: cutting, joining, folding, and writing numbers.

use crate::names::before;
use crate::path::under;
use crate::text::{
    after, decimal, digit_char, find_bounds, hex, is_space, joined, lower, lower_char, nibble,
    pieces, pieces_from, replaced, trim_end, trim_start, trimmed, without_suffix,
};
use vstd::prelude::*;
use vstd::string::*;

verus! {

/// What follows a prefix is what has to be written behind it to give the text again, and a text
/// that does not begin with it has nothing behind it.
pub proof fn what_follows_a_prefix(s: Seq<char>, prefix: Seq<char>, rest: Seq<char>)
    ensures
        after(s, prefix) == Some(rest) <==> s == prefix + rest,
{
    let n = prefix.len() as int;
    if after(s, prefix) == Some(rest) {
        assert(s =~= s.subrange(0, n) + s.subrange(n, s.len() as int));
    }
    if s == prefix + rest {
        assert(s.subrange(0, n) =~= prefix);
        assert(s.subrange(n, s.len() as int) =~= rest);
    }
}

/// What stands before a suffix is what has to be written before it to give the text again.
pub proof fn what_stands_before_a_suffix(s: Seq<char>, suffix: Seq<char>, rest: Seq<char>)
    ensures
        without_suffix(s, suffix) == Some(rest) <==> s == rest + suffix,
{
    let n = s.len() - suffix.len();
    if without_suffix(s, suffix) == Some(rest) {
        assert(s =~= s.subrange(0, n) + s.subrange(n, s.len() as int));
    }
    if s == rest + suffix {
        assert(s.subrange(0, n) =~= rest);
        assert(s.subrange(n, s.len() as int) =~= suffix);
    }
}

/// Whether one text is another without white space around it: it neither begins nor ends with any,
/// and there is nothing but white space around it.
pub open spec fn is_core_of(core: Seq<char>, s: Seq<char>, from: int, to: int) -> bool {
    &&& 0 <= from <= to <= s.len()
    &&& core == s.subrange(from, to)
    &&& forall|i: int| 0 <= i < from ==> is_space(#[trigger] s[i])
    &&& forall|i: int| to <= i < s.len() ==> is_space(#[trigger] s[i])
    &&& core.len() > 0 ==> !is_space(core[0]) && !is_space(core[core.len() - 1])
}

proof fn cut_in_front(s: Seq<char>) -> (from: int)
    ensures
        0 <= from <= s.len(),
        trim_start(s) == s.subrange(from, s.len() as int),
        forall|i: int| 0 <= i < from ==> is_space(#[trigger] s[i]),
        from < s.len() ==> !is_space(s[from]),
    decreases s.len(),
{
    if s.len() > 0 && is_space(s[0]) {
        let rest = s.subrange(1, s.len() as int);
        let less = cut_in_front(rest);
        assert(rest.subrange(less, rest.len() as int) =~= s.subrange(less + 1, s.len() as int));
        assert forall|i: int| 0 <= i < less + 1 implies is_space(#[trigger] s[i]) by {
            if i > 0 {
                assert(is_space(rest[i - 1]));
            }
        }
        less + 1
    } else {
        assert(s.subrange(0, s.len() as int) =~= s);
        0
    }
}

proof fn cut_behind(s: Seq<char>) -> (to: int)
    ensures
        0 <= to <= s.len(),
        trim_end(s) == s.subrange(0, to),
        forall|i: int| to <= i < s.len() ==> is_space(#[trigger] s[i]),
        to > 0 ==> !is_space(s[to - 1]),
    decreases s.len(),
{
    if s.len() > 0 && is_space(s[s.len() - 1]) {
        let rest = s.subrange(0, s.len() - 1);
        let to = cut_behind(rest);
        assert(rest.subrange(0, to) =~= s.subrange(0, to));
        assert forall|i: int| to <= i < s.len() implies is_space(#[trigger] s[i]) by {
            if i < s.len() - 1 {
                assert(is_space(rest[i]));
            }
        }
        to
    } else {
        assert(s.subrange(0, s.len() as int) =~= s);
        s.len() as int
    }
}

/// Trimming cuts the white space around a text, and nothing else.
pub proof fn trimming_cuts_only_space(s: Seq<char>)
    ensures
        exists|from: int, to: int| is_core_of(trimmed(s), s, from, to),
{
    let from = cut_in_front(s);
    let front = s.subrange(from, s.len() as int);
    let n = cut_behind(front);
    let to = from + n;
    assert(front.subrange(0, n) =~= s.subrange(from, to));
    assert forall|i: int| to <= i < s.len() implies is_space(#[trigger] s[i]) by {
        assert(is_space(front[i - from]));
    }
    assert(is_core_of(trimmed(s), s, from, to));
}

/// Folding the case of a text changes its ASCII capitals to their small letters, in place, and no
/// other character.
pub proof fn folding_changes_only_capitals(s: Seq<char>)
    ensures
        lower(s).len() == s.len(),
        forall|i: int|
            0 <= i < s.len() ==> if 'A' <= #[trigger] s[i] && s[i] <= 'Z' {
                lower(s)[i] as u32 == s[i] as u32 + 32
            } else {
                lower(s)[i] == s[i]
            },
{
    assert forall|c: char| 'A' <= c && c <= 'Z' implies #[trigger] lower_char(c) as u32 == c as u32
        + 32 by {
        assert(65 <= c as u32 <= 90);
    }
}

proof fn cut_at(s: Seq<char>, sep: char, from: int)
    requires
        0 <= from <= s.len(),
    ensures
        pieces_from(s, sep, from).len() > 0,
        joined(pieces_from(s, sep, from), seq![sep]) == s.subrange(from, s.len() as int),
        forall|k: int|
            0 <= k < pieces_from(s, sep, from).len() ==> !(#[trigger] pieces_from(
                s,
                sep,
                from,
            )[k]).contains(sep),
    decreases s.len() - from,
{
    find_bounds(s, sep, from);
    let cut = crate::text::find(s, sep, from);
    if cut >= s.len() {
        let only = s.subrange(from, s.len() as int);
        assert(!only.contains(sep));
    } else {
        let first = s.subrange(from, cut);
        assert(!first.contains(sep));
        cut_at(s, sep, cut + 1);
        let rest = pieces_from(s, sep, cut + 1);
        joined_in_front(first, rest, seq![sep]);
        assert(first + seq![sep] + s.subrange(cut + 1, s.len() as int) =~= s.subrange(
            from,
            s.len() as int,
        ));
    }
}

/// Joining puts the first text in front of the others joined, with the separator between.
pub proof fn joined_in_front(first: Seq<char>, rest: Seq<Seq<char>>, sep: Seq<char>)
    requires
        rest.len() > 0,
    ensures
        joined(seq![first] + rest, sep) == first + sep + joined(rest, sep),
    decreases rest.len(),
{
    let all = seq![first] + rest;
    assert(all.drop_last() =~= seq![first] + rest.drop_last());
    assert(all.last() == rest.last());
    if rest.len() == 1 {
        assert(rest.drop_last() =~= Seq::<Seq<char>>::empty());
        assert(all.drop_last() =~= seq![first]);
        assert(joined(seq![first], sep) == first);
    } else {
        joined_in_front(first, rest.drop_last(), sep);
        assert(first + sep + joined(rest.drop_last(), sep) + sep + rest.last() =~= first + sep + (
        joined(rest.drop_last(), sep) + sep + rest.last()));
    }
}

/// Cutting a text at a character loses nothing but that character: the pieces joined by it are the
/// text again, and none holds it.
pub proof fn pieces_join_to_the_whole(s: Seq<char>, sep: char)
    ensures
        joined(pieces(s, sep), seq![sep]) == s,
        forall|k: int| 0 <= k < pieces(s, sep).len() ==> !(#[trigger] pieces(s, sep)[k]).contains(
            sep,
        ),
{
    cut_at(s, sep, 0);
    assert(s.subrange(0, s.len() as int) =~= s);
}

/// Replacing goes through a text part by part: the character becomes what it is replaced with, and
/// any other stays.
pub proof fn replacing_goes_through(a: Seq<char>, b: Seq<char>, c: char, with: Seq<char>)
    ensures
        replaced(a + b, c, with) == replaced(a, c, with) + replaced(b, c, with),
        replaced(seq![c], c, with) == with,
        forall|other: char|
            other != c ==> #[trigger] replaced(seq![other], c, with) == seq![other],
    decreases b.len(),
{
    let none = Seq::<char>::empty();
    assert(replaced(none, c, with) == none);
    assert(seq![c].drop_last() =~= none);
    assert(none + with =~= with);
    assert forall|other: char| other != c implies #[trigger] replaced(seq![other], c, with)
        == seq![other] by {
        assert(seq![other].drop_last() =~= none);
        assert(none.push(other) =~= seq![other]);
    }
    if b.len() == 0 {
        assert(a + b =~= a);
        assert(replaced(a, c, with) + none =~= replaced(a, c, with));
    } else {
        replacing_goes_through(a, b.drop_last(), c, with);
        assert((a + b).drop_last() =~= a + b.drop_last());
        let x = replaced(a, c, with);
        let y = replaced(b.drop_last(), c, with);
        assert(x + y + with =~= x + (y + with));
        assert((x + y).push(b.last()) =~= x + y.push(b.last()));
    }
}

/// The number that decimal digits write.
pub open spec fn number_in(digits: Seq<char>) -> int
    decreases digits.len(),
{
    if digits.len() == 0 {
        0
    } else {
        10 * number_in(digits.drop_last()) + (digits.last() as int - '0' as int)
    }
}

/// A written number reads as itself, has no digit in front that could be left out, and holds digits
/// only.
pub proof fn written_numbers_read_back(n: nat)
    ensures
        number_in(decimal(n)) == n,
        decimal(n).len() > 0,
        decimal(n)[0] == '0' ==> n == 0,
        forall|i: int| 0 <= i < decimal(n).len() ==> '0' <= #[trigger] decimal(n)[i] && decimal(n)[i]
            <= '9',
    decreases n,
{
    let last = (n % 10) as int;
    assert(0 <= last < 10);
    assert(digit_char(last) as int == '0' as int + last);
    if n < 10 {
        assert(digit_char(n as int) as int == '0' as int + n);
        assert(seq![digit_char(n as int)].drop_last() =~= Seq::<char>::empty());
        assert(number_in(Seq::<char>::empty()) == 0);
    } else {
        written_numbers_read_back(n / 10);
        let front = decimal(n / 10);
        assert(front.push(digit_char(last)).drop_last() =~= front);
        assert(decimal(n)[0] == front[0]);
    }
}

/// Different bytes are written in different digits, two for each byte, the high half first.
pub proof fn hexadecimal_tells_bytes_apart(a: Seq<u8>, b: Seq<u8>)
    ensures
        hex(a).len() == 2 * a.len(),
        hex(a) == hex(b) ==> a == b,
        forall|i: int|
            0 <= i < a.len() ==> hex(a)[2 * i] == nibble(#[trigger] a[i] as int / 16) && hex(a)[2 * i
                + 1] == nibble(a[i] as int % 16),
{
    assert forall|i: int| 0 <= i < a.len() implies hex(a)[2 * i] == nibble(
        #[trigger] a[i] as int / 16,
    ) && hex(a)[2 * i + 1] == nibble(a[i] as int % 16) by {
        assert((2 * i) / 2 == i && (2 * i) % 2 == 0);
        assert((2 * i + 1) / 2 == i && (2 * i + 1) % 2 == 1);
    }
    if hex(a) == hex(b) {
        assert(hex(b).len() == 2 * b.len());
        assert forall|i: int| 0 <= i < a.len() implies a[i] == b[i] by {
            assert((2 * i) / 2 == i && (2 * i) % 2 == 0);
            assert((2 * i + 1) / 2 == i && (2 * i + 1) % 2 == 1);
            let x = a[i] as int;
            let y = b[i] as int;
            assert(hex(a)[2 * i] == hex(b)[2 * i]);
            assert(hex(a)[2 * i + 1] == hex(b)[2 * i + 1]);
            assert(hex(b)[2 * i] == nibble(y / 16));
            assert(hex(b)[2 * i + 1] == nibble(y % 16));
            half_bytes_differ(x / 16, y / 16);
            half_bytes_differ(x % 16, y % 16);
            assert(x == 16 * (x / 16) + x % 16);
            assert(y == 16 * (y / 16) + y % 16);
        }
        assert(a =~= b);
    }
}

/// Half a byte is written `0` to `9`, and from ten on `a` to `f`.
pub proof fn half_bytes_differ(a: int, b: int)
    requires
        0 <= a < 16,
        0 <= b < 16,
    ensures
        nibble(a) as int == if a < 10 {
            '0' as int + a
        } else {
            'a' as int + a - 10
        },
        nibble(a) == nibble(b) ==> a == b,
{
    assert(nibble(a) as int == if a < 10 {
        '0' as int + a
    } else {
        'a' as int + a - 10
    });
    assert(nibble(b) as int == if b < 10 {
        '0' as int + b
    } else {
        'a' as int + b - 10
    });
}

/// Names are ordered by the first character in which they differ, and one that continues another
/// comes after it.
pub proof fn names_are_in_dictionary_order(a: Seq<char>, b: Seq<char>, k: int)
    requires
        0 <= k <= a.len(),
        k <= b.len(),
        forall|i: int| 0 <= i < k ==> #[trigger] a[i] == b[i],
        k < a.len() && k < b.len() ==> a[k] != b[k],
    ensures
        before(a, b) <==> k < b.len() && (k == a.len() || a[k] < b[k]),
    decreases k,
{
    if k > 0 {
        let x = a.drop_first();
        let y = b.drop_first();
        assert(a[0] == b[0]);
        assert forall|i: int| 0 <= i < k - 1 implies #[trigger] x[i] == y[i] by {
            assert(a[i + 1] == b[i + 1]);
        }
        names_are_in_dictionary_order(x, y, k - 1);
    }
}

/// A relative path under a directory is written behind it, with one slash between at least; an
/// absolute one stands alone.
pub proof fn a_path_goes_under_its_directory(dir: Seq<char>, path: Seq<char>)
    ensures
        path.len() > 0 && path[0] == '/' ==> under(dir, path) == path,
        dir.len() == 0 ==> under(dir, path) == path,
        !(path.len() > 0 && path[0] == '/') && dir.len() > 0 && dir.last() == '/' ==> under(dir, path)
            == dir + path,
        !(path.len() > 0 && path[0] == '/') && dir.len() > 0 && dir.last() != '/' ==> under(dir, path)
            == dir + seq!['/'] + path,
{
    reveal_strlit("/");
    assert("/"@ =~= seq!['/']);
}

} // verus!
