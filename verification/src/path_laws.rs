//! What holds of paths: how they are put together, and by what path a file of a directory is known.

use crate::modules::{candidate, key_steps, relative_to, step_text};
use crate::package_laws::is_a_name;
use crate::path::{path_steps, piece_steps, under, Step};
use crate::text::{find, find_bounds, pieces, pieces_from, replaced};
use crate::text_laws::{pieces_join_to_the_whole, replacing_goes_through};
use vstd::prelude::*;
use vstd::string::*;

verus! {

proof fn found_earlier(a: Seq<char>, b: Seq<char>, sep: char, from: int)
    requires
        0 <= from <= a.len(),
    ensures
        find(a, sep, from) < a.len() ==> find(a + b, sep, from) == find(a, sep, from),
        find(a, sep, from) == a.len() ==> find(a + b, sep, from) == find(a + b, sep, a.len() as int),
    decreases a.len() - from,
{
    find_bounds(a, sep, from);
    if from < a.len() {
        assert((a + b)[from] == a[from]);
        if a[from] != sep {
            found_earlier(a, b, sep, from + 1);
        }
    }
}

proof fn found_behind(a: Seq<char>, b: Seq<char>, sep: char, from: int)
    requires
        0 <= from <= b.len(),
    ensures
        find(a + b, sep, a.len() + from) == a.len() + find(b, sep, from),
    decreases b.len() - from,
{
    if from < b.len() {
        assert((a + b)[a.len() + from] == b[from]);
        if b[from] != sep {
            found_behind(a, b, sep, from + 1);
        }
    }
}

proof fn pieces_behind(a: Seq<char>, b: Seq<char>, sep: char, from: int)
    requires
        0 <= from <= b.len(),
    ensures
        pieces_from(a + b, sep, a.len() + from) == pieces_from(b, sep, from),
    decreases b.len() - from,
{
    found_behind(a, b, sep, from);
    find_bounds(b, sep, from);
    let cut = find(b, sep, from);
    let whole = a + b;
    if cut >= b.len() {
        assert(whole.subrange(a.len() + from, whole.len() as int) =~= b.subrange(
            from,
            b.len() as int,
        ));
    } else {
        assert(whole.subrange(a.len() + from, a.len() + cut) =~= b.subrange(from, cut));
        pieces_behind(a, b, sep, cut + 1);
    }
}

proof fn pieces_meet(a: Seq<char>, b: Seq<char>, sep: char, from: int)
    requires
        0 <= from <= a.len(),
    ensures
        pieces_from(a + seq![sep] + b, sep, from) == pieces_from(a, sep, from) + pieces(b, sep),
    decreases a.len() - from,
{
    let whole = a + seq![sep] + b;
    let rest = seq![sep] + b;
    assert(whole =~= a + rest);
    found_earlier(a, rest, sep, from);
    find_bounds(a, sep, from);
    let cut = find(a, sep, from);
    if cut < a.len() {
        pieces_meet(a, b, sep, cut + 1);
        assert(whole.subrange(from, cut) =~= a.subrange(from, cut));
        assert(seq![a.subrange(from, cut)] + (pieces_from(a, sep, cut + 1) + pieces(b, sep))
            =~= seq![a.subrange(from, cut)] + pieces_from(a, sep, cut + 1) + pieces(b, sep));
    } else {
        assert(whole[a.len() as int] == sep);
        assert(find(whole, sep, a.len() as int) == a.len());
        assert(whole.subrange(from, a.len() as int) =~= a.subrange(from, a.len() as int));
        let front = a + seq![sep];
        pieces_behind(front, b, sep, 0);
        assert(front.len() + 0 == a.len() + 1);
    }
}

/// Two texts with a separator between are cut into the pieces of the one and those of the other.
pub proof fn pieces_of_a_whole(a: Seq<char>, b: Seq<char>, sep: char)
    ensures
        pieces(a + seq![sep] + b, sep) == pieces(a, sep) + pieces(b, sep),
{
    pieces_meet(a, b, sep, 0);
}

proof fn steps_meet(a: Seq<Seq<char>>, b: Seq<Seq<char>>, n: int)
    requires
        0 <= n <= b.len(),
        a.len() > 0,
        forall|i: int| 0 <= i < b.len() ==> is_a_name(#[trigger] b[i]),
    ensures
        piece_steps(a + b, a.len() + n) == piece_steps(a, a.len() as int) + Seq::new(
            n as nat,
            |i: int| Step::Name(b[i]),
        ),
    decreases n,
{
    let whole = a + b;
    if n > 0 {
        steps_meet(a, b, n - 1);
        assert(whole[a.len() + n - 1] == b[n - 1]);
        assert(is_a_name(b[n - 1]));
        assert(piece_steps(whole, a.len() + n) == piece_steps(whole, a.len() + n - 1).push(
            Step::Name(b[n - 1]),
        ));
        assert((piece_steps(a, a.len() as int) + Seq::new(
            (n - 1) as nat,
            |i: int| Step::Name(b[i]),
        )).push(Step::Name(b[n - 1])) =~= piece_steps(a, a.len() as int) + Seq::new(
            n as nat,
            |i: int| Step::Name(b[i]),
        ));
    } else {
        steps_so_far(a, b, a.len() as int);
        assert(piece_steps(a, a.len() as int) + Seq::new(0nat, |i: int| Step::Name(b[i]))
            =~= piece_steps(a, a.len() as int));
    }
}

proof fn steps_so_far(a: Seq<Seq<char>>, b: Seq<Seq<char>>, n: int)
    requires
        0 <= n <= a.len(),
    ensures
        piece_steps(a + b, n) == piece_steps(a, n),
    decreases n,
{
    if n > 0 {
        steps_so_far(a, b, n - 1);
        assert((a + b)[n - 1] == a[n - 1]);
    }
}

/// A file of a directory is known by its own path: under a directory that is named, a path of plain
/// names is found again as it was.
pub proof fn a_file_is_known_by_its_path(dir: Seq<char>, path: Seq<char>)
    requires
        dir.len() > 0,
        dir.last() != '/',
        path.len() > 0,
        path[0] != '/',
        forall|i: int| 0 <= i < pieces(path, '/').len() ==> is_a_name(#[trigger] pieces(path, '/')[i]),
    ensures
        relative_to(dir, under(dir, path)) == Some(path),
{
    reveal_strlit("/");
    assert("/"@ =~= seq!['/']);
    let file = under(dir, path);
    assert(file == dir + seq!['/'] + path);
    assert(file[0] == dir[0]);
    pieces_of_a_whole(dir, path, '/');
    let a = pieces(dir, '/');
    let b = pieces(path, '/');
    pieces_join_to_the_whole(dir, '/');
    pieces_join_to_the_whole(path, '/');
    find_bounds(dir, '/', 0);
    assert(a.len() > 0);
    steps_meet(a, b, b.len() as int);
    let named = Seq::new(b.len(), |i: int| Step::Name(b[i]));
    let base = path_steps(dir);
    let steps = path_steps(file);
    assert(steps =~= base + named);
    assert(steps.subrange(0, base.len() as int) =~= base);
    let rest = steps.subrange(base.len() as int, steps.len() as int);
    assert(rest =~= named);
    assert(key_steps(rest) == rest) by {
        if rest.len() > 0 {
            assert(rest[0] is Name);
        }
    }
    assert(rest.map_values(|s: Step| step_text(s)) =~= b);
}

/// A name without the character is not changed by replacing it.
pub proof fn replacing_nothing_changes_nothing(s: Seq<char>, c: char, with: Seq<char>)
    requires
        !s.contains(c),
    ensures
        replaced(s, c, with) == s,
    decreases s.len(),
{
    if s.len() > 0 {
        let less = s.drop_last();
        assert(s[s.len() - 1] == s.last());
        assert(s.last() != c) by {
            assert(s.contains(s[s.len() - 1]));
        }
        assert(!less.contains(c)) by {
            if less.contains(c) {
                let i = choose|i: int| 0 <= i < less.len() && less[i] == c;
                assert(s[i] == c);
            }
        }
        replacing_nothing_changes_nothing(less, c, with);
        assert(less.push(s.last()) =~= s);
    }
}

/// A module is looked for where its template puts it: the name stands in the place of the question
/// mark, and each of its dots becomes a slash.
pub proof fn a_template_puts_the_name(
    front: Seq<char>,
    behind: Seq<char>,
    first: Seq<char>,
    rest: Seq<char>,
)
    requires
        !front.contains('?'),
        !behind.contains('?'),
        !first.contains('.'),
        !rest.contains('.'),
    ensures
        candidate(front + seq!['?'] + behind, first) == front + first + behind,
        candidate(front + seq!['?'] + behind, first + seq!['.'] + rest) == front + (first + seq!['/']
            + rest) + behind,
{
    reveal_strlit("/");
    assert("/"@ =~= seq!['/']);
    let template = front + seq!['?'] + behind;
    let slash = "/"@;
    replacing_nothing_changes_nothing(first, '.', slash);
    replacing_nothing_changes_nothing(rest, '.', slash);
    let name = first + seq!['.'] + rest;
    replacing_goes_through(first + seq!['.'], rest, '.', slash);
    replacing_goes_through(first, seq!['.'], '.', slash);
    assert(replaced(name, '.', slash) == first + seq!['/'] + rest);
    let long = first + seq!['/'] + rest;
    replacing_nothing_changes_nothing(front, '?', first);
    replacing_nothing_changes_nothing(behind, '?', first);
    replacing_goes_through(front + seq!['?'], behind, '?', first);
    replacing_goes_through(front, seq!['?'], '?', first);
    replacing_nothing_changes_nothing(front, '?', long);
    replacing_nothing_changes_nothing(behind, '?', long);
    replacing_goes_through(front + seq!['?'], behind, '?', long);
    replacing_goes_through(front, seq!['?'], '?', long);
}

} // verus!
