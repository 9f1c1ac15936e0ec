//! Paths held as strings, read the way `std::path::Path` reads them on Unix.
use vstd::prelude::*;

use crate::text::{
    chars_equal, chars_of, lemma_split_nonempty, pieces_view, split_chars, split_on,
    string_from_chars,
};

verus! {

broadcast use vstd::string::group_string_axioms;

/// The pieces that name something: neither empty nor `"."` (`".."` is kept).
pub open spec fn named_pieces(pieces: Seq<Seq<char>>) -> Seq<Seq<char>>
    decreases pieces.len(),
{
    if pieces.len() == 0 {
        Seq::<Seq<char>>::empty()
    } else {
        let kept = named_pieces(pieces.drop_last());
        let p = pieces.last();
        if p.len() > 0 && p != seq!['.'] {
            kept.push(p)
        } else {
            kept
        }
    }
}

/// The named components of a path (`Normal` and `ParentDir`), in order.
pub open spec fn path_names(s: Seq<char>) -> Seq<Seq<char>> {
    named_pieces(split_on(s, '/'))
}

/// Whether the path starts at the root directory.
pub open spec fn path_is_rooted(s: Seq<char>) -> bool {
    s.len() > 0 && s[0] == '/'
}

/// Whether the path keeps a leading `CurDir` component: it is `"."` or
/// starts with `"./"`.
pub open spec fn path_starts_at_cur_dir(s: Seq<char>) -> bool {
    !path_is_rooted(s) && split_on(s, '/')[0] == seq!['.']
}

/// Whether two paths are equal as `Path`s: the same components, which ignores
/// repeated separators, a trailing separator and inner `"."` parts.
pub open spec fn same_path(a: Seq<char>, b: Seq<char>) -> bool {
    &&& path_is_rooted(a) == path_is_rooted(b)
    &&& path_starts_at_cur_dir(a) == path_starts_at_cur_dir(b)
    &&& path_names(a) == path_names(b)
}

/// The final component of the path when it is a name, as `Path::file_name`
/// gives it: `None` for a path that has no name component or ends in `".."`.
pub open spec fn path_file_name(s: Seq<char>) -> Option<Seq<char>> {
    let names = path_names(s);
    if names.len() == 0 || names.last() == seq!['.', '.'] {
        None
    } else {
        Some(names.last())
    }
}

/// The name of an application bundle: the file name without its `".app"`
/// extension, when the path has a file name whose extension is `app`.
/// (`Path::extension` is `app` exactly when the file name ends in `".app"`
/// with at least one character before the dot; `Path::file_stem` is then the
/// part before it.)
pub open spec fn bundle_name(s: Seq<char>) -> Option<Seq<char>> {
    match path_file_name(s) {
        Some(f) => if f.len() > 4 && f.skip(f.len() - 4) == seq!['.', 'a', 'p', 'p'] {
            Some(f.take(f.len() - 4))
        } else {
            None
        },
        None => None,
    }
}

/// The named pieces among `pieces`.
fn keep_named(pieces: &Vec<Vec<char>>) -> (r: Vec<Vec<char>>)
    ensures
        pieces_view(r@) == named_pieces(pieces_view(pieces@)),
{
    let mut out: Vec<Vec<char>> = Vec::new();
    let n = pieces.len();
    for k in 0..n
        invariant
            n == pieces.len(),
            pieces_view(out@) == named_pieces(pieces_view(pieces@).take(k as int)),
    {
        let ghost pv = pieces_view(pieces@);
        assert(pv.take(k + 1).drop_last() =~= pv.take(k as int));
        assert(pv.take(k + 1).last() == pieces@[k as int]@);
        let p = &pieces[k];
        let is_dot = p.len() == 1 && p[0] == '.';
        assert(is_dot == (p@ == seq!['.'])) by {
            if p@.len() == 1 && p@[0] == '.' {
                assert(p@ =~= seq!['.']);
            }
        }
        if p.len() > 0 && !is_dot {
            let ghost prev = pieces_view(out@);
            out.push(p.clone());
            assert(pieces_view(out@) =~= prev.push(p@));
        }
    }
    assert(pieces_view(pieces@).take(n as int) =~= pieces_view(pieces@));
    out
}

/// Whether two vectors of pieces hold the same pieces.
fn pieces_equal(a: &Vec<Vec<char>>, b: &Vec<Vec<char>>) -> (r: bool)
    ensures
        r == (pieces_view(a@) == pieces_view(b@)),
{
    if a.len() != b.len() {
        assert(pieces_view(a@).len() != pieces_view(b@).len());
        return false;
    }
    let mut i: usize = 0;
    while i < a.len()
        invariant
            a.len() == b.len(),
            i <= a.len(),
            forall|k: int| 0 <= k < i ==> (#[trigger] a@[k])@ == b@[k]@,
        decreases a.len() - i,
    {
        if !chars_equal(a[i].as_slice(), b[i].as_slice()) {
            assert(pieces_view(a@)[i as int] != pieces_view(b@)[i as int]);
            return false;
        }
        i += 1;
    }
    assert(pieces_view(a@) =~= pieces_view(b@)) by {
        assert forall|k: int| 0 <= k < a.len() implies pieces_view(a@)[k] == pieces_view(b@)[k] by {
            assert(a@[k]@ == b@[k]@);
        }
    }
    true
}

/// What a path reads as: whether it is rooted, whether it starts at the
/// current directory, and its named components.
fn read_path(path: &str) -> (r: (bool, bool, Vec<Vec<char>>))
    ensures
        r.0 == path_is_rooted(path@),
        r.1 == path_starts_at_cur_dir(path@),
        pieces_view(r.2@) == path_names(path@),
{
    let chars = chars_of(path);
    let rooted = chars.len() > 0 && chars[0] == '/';
    let pieces = split_chars(&chars, '/');
    assert(pieces_view(pieces@).len() > 0) by {
        lemma_split_nonempty(path@, '/');
    }
    let first = &pieces[0];
    assert(pieces_view(pieces@)[0] == first@);
    let first_is_dot = first.len() == 1 && first[0] == '.';
    assert(first_is_dot == (first@ == seq!['.'])) by {
        if first@.len() == 1 && first@[0] == '.' {
            assert(first@ =~= seq!['.']);
        }
    }
    let cur = !rooted && first_is_dot;
    let names = keep_named(&pieces);
    (rooted, cur, names)
}


/// Whether `a` and `b` name the same path.
pub fn paths_equal(a: &str, b: &str) -> (r: bool)
    ensures
        r == same_path(a@, b@),
{
    let (ra, ca, na) = read_path(a);
    let (rb, cb, nb) = read_path(b);
    ra == rb && ca == cb && pieces_equal(&na, &nb)
}

/// The final component of `path` when it is a name.
pub fn file_name(path: &str) -> (r: Option<String>)
    ensures
        match r {
            Some(f) => path_file_name(path@) == Some(f@),
            None => path_file_name(path@) is None,
        },
{
    let (_, _, names) = read_path(path);
    if names.len() == 0 {
        return None;
    }
    let last = &names[names.len() - 1];
    assert(pieces_view(names@).last() == last@);
    let is_parent = last.len() == 2 && last[0] == '.' && last[1] == '.';
    assert(is_parent == (last@ == seq!['.', '.'])) by {
        if last@.len() == 2 && last@[0] == '.' && last@[1] == '.' {
            assert(last@ =~= seq!['.', '.']);
        }
    }
    if is_parent {
        None
    } else {
        let f = string_from_chars(last, 0, last.len());
        assert(last@.subrange(0, last@.len() as int) =~= last@);
        Some(f)
    }
}

/// The name of the application bundle at `path`, if it is one.
pub fn app_bundle_name(path: &str) -> (r: Option<String>)
    ensures
        match r {
            Some(name) => bundle_name(path@) == Some(name@),
            None => bundle_name(path@) is None,
        },
{
    match file_name(path) {
        None => None,
        Some(f) => {
            let chars = chars_of(f.as_str());
            let n = chars.len();
            if n > 4 && chars[n - 4] == '.' && chars[n - 3] == 'a' && chars[n - 2] == 'p'
                && chars[n - 1] == 'p' {
                assert(chars@.skip(n - 4) =~= seq!['.', 'a', 'p', 'p']);
                let name = string_from_chars(&chars, 0, n - 4);
                assert(chars@.subrange(0, n - 4) =~= chars@.take(n - 4));
                Some(name)
            } else {
                assert(n > 4 ==> chars@.skip(n - 4) != seq!['.', 'a', 'p', 'p']) by {
                    if n > 4 && chars@.skip(n - 4) == seq!['.', 'a', 'p', 'p'] {
                        assert(chars@.skip(n - 4)[0] == chars@[n - 4]);
                        assert(chars@.skip(n - 4)[1] == chars@[n - 3]);
                        assert(chars@.skip(n - 4)[2] == chars@[n - 2]);
                        assert(chars@.skip(n - 4)[3] == chars@[n - 1]);
                    }
                }
                None
            }
        },
    }
}

} // verus!
