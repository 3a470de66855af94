//! Paths: slash-separated texts, read as a Unix system reads them.

use crate::text;
use vstd::prelude::*;
use vstd::string::*;

verus! {

/// One step of a path.
#[derive(Debug, PartialEq, Eq)]
pub enum Component {
    /// The leading `/` of an absolute path.
    Root,
    /// A leading `.`.
    Here,
    /// `..`, anywhere.
    Up,
    /// A name.
    Name(String),
}

/// What a step of a path is, apart from how it is stored.
pub enum Step {
    Root,
    Here,
    Up,
    Name(Seq<char>),
}

impl Component {
    pub open spec fn step(self) -> Step {
        match self {
            Component::Root => Step::Root,
            Component::Here => Step::Here,
            Component::Up => Step::Up,
            Component::Name(name) => Step::Name(name@),
        }
    }
}

pub open spec fn steps(list: Seq<Component>) -> Seq<Step> {
    list.map_values(|c: Component| c.step())
}

/// Whether a path is absolute.
pub open spec fn absolute(path: Seq<char>) -> bool {
    path.len() > 0 && path[0] == '/'
}

/// The steps that the first `n` pieces of a path stand for: an empty piece stands for
/// none, nor does a `.` but at the start of a relative path.
pub open spec fn piece_steps(parts: Seq<Seq<char>>, n: int) -> Seq<Step>
    decreases n,
{
    if n <= 0 {
        Seq::empty()
    } else {
        let piece = parts[n - 1];
        let done = piece_steps(parts, n - 1);
        if piece.len() == 0 {
            done
        } else if piece == "."@ {
            if n == 1 {
                done.push(Step::Here)
            } else {
                done
            }
        } else if piece == ".."@ {
            done.push(Step::Up)
        } else {
            done.push(Step::Name(piece))
        }
    }
}

/// The steps of a path.
pub open spec fn path_steps(path: Seq<char>) -> Seq<Step> {
    let parts = text::pieces(path, '/');
    let rest = piece_steps(parts, parts.len() as int);
    if absolute(path) {
        seq![Step::Root] + rest
    } else {
        rest
    }
}

pub fn is_absolute(path: &str) -> (r: bool)
    ensures
        r == absolute(path@),
{
    let chars = text::chars_of(path);
    chars.len() > 0 && chars[0] == '/'
}

/// The steps of a path.
pub fn components(path: &str) -> (r: Vec<Component>)
    ensures
        steps(r@) == path_steps(path@),
{
    let parts = text::split(path, '/');
    let n: usize = parts.len();
    let mut out: Vec<Component> = Vec::new();
    let ghost mut head = Seq::<Step>::empty();
    if is_absolute(path) {
        out.push(Component::Root);
        proof {
            head = seq![Step::Root];
        }
    }
    proof {
        assert(steps(out@) =~= head);
        assert(head + piece_steps(text::texts(parts@), 0) =~= head);
    }
    let mut i: usize = 0;
    while i < n
        invariant
            n == parts.len(),
            i <= n,
            steps(out@) == head + piece_steps(text::texts(parts@), i as int),
        decreases n - i,
    {
        let piece = &parts[i];
        let ghost was = steps(out@);
        let ghost done = piece_steps(text::texts(parts@), i as int);
        proof {
            assert(text::texts(parts@)[i as int] == piece@);
        }
        if piece.as_str().is_empty() {
        } else if text::same(piece.as_str(), ".") {
            if i == 0 {
                out.push(Component::Here);
                proof {
                    assert(steps(out@) =~= was.push(Step::Here));
                    assert((head + done).push(Step::Here) =~= head + done.push(Step::Here));
                }
            }
        } else if text::same(piece.as_str(), "..") {
            out.push(Component::Up);
            proof {
                assert(steps(out@) =~= was.push(Step::Up));
                assert((head + done).push(Step::Up) =~= head + done.push(Step::Up));
            }
        } else {
            out.push(Component::Name(piece.clone()));
            proof {
                assert(steps(out@) =~= was.push(Step::Name(piece@)));
                assert((head + done).push(Step::Name(piece@)) =~= head + done.push(
                    Step::Name(piece@),
                ));
            }
        }
        i = i + 1;
    }
    proof {
        if !absolute(path@) {
            assert(head + piece_steps(text::texts(parts@), n as int) =~= piece_steps(
                text::texts(parts@),
                n as int,
            ));
        }
    }
    out
}

/// A path under a directory: an absolute one stands for itself.
pub open spec fn under(dir: Seq<char>, path: Seq<char>) -> Seq<char> {
    if absolute(path) || dir.len() == 0 {
        path
    } else if dir.last() == '/' {
        dir + path
    } else {
        dir + "/"@ + path
    }
}

/// A path under a directory.
pub fn join(dir: &str, path: &str) -> (r: String)
    ensures
        r@ == under(dir@, path@),
{
    if is_absolute(path) || dir.is_empty() {
        path.to_owned()
    } else {
        let chars = text::chars_of(dir);
        let mut out = dir.to_owned();
        if chars[chars.len() - 1] != '/' {
            out.append("/");
        }
        out.append(path);
        out
    }
}

} // verus!
