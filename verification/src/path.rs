//! Verified logic on path strings.
//!
//! Paths are plain strings with `/` separating components. The functions here
//! pick a path apart — final component, extension, stem, parent — with exact
//! contracts; nothing touches the filesystem.

use vstd::prelude::*;
use crate::text::rfind_char;

verus! {

/// The final component of `p`: everything after the last `/`, or all of `p`
/// when it has no separator.
pub open spec fn file_name_of(p: Seq<char>) -> Seq<char> {
    match p.index_of_last('/') {
        Some(i) => p.subrange(i + 1, p.len() as int),
        None => p,
    }
}

/// The extension of the final component of `p`: everything after its last
/// `.`, or nothing when the component has no `.` past its first character.
pub open spec fn extension_of(p: Seq<char>) -> Option<Seq<char>> {
    let name = file_name_of(p);
    match name.index_of_last('.') {
        Some(i) => if i > 0 {
            Some(name.subrange(i + 1, name.len() as int))
        } else {
            None
        },
        None => None,
    }
}

/// The stem of the final component of `p`: the component without its
/// extension.
pub open spec fn file_stem_of(p: Seq<char>) -> Seq<char> {
    let name = file_name_of(p);
    match name.index_of_last('.') {
        Some(i) => if i > 0 {
            name.subrange(0, i)
        } else {
            name
        },
        None => name,
    }
}

/// The directory part of `p`: everything before the last `/`, or nothing when
/// `p` has no separator.
pub open spec fn parent_of(p: Seq<char>) -> Seq<char> {
    match p.index_of_last('/') {
        Some(i) => p.subrange(0, i),
        None => Seq::empty(),
    }
}

/// `root` with every segment appended behind a `/`.
pub open spec fn join_of(root: Seq<char>, segs: Seq<Seq<char>>) -> Seq<char>
    decreases segs.len(),
{
    if segs.len() == 0 {
        root
    } else {
        join_of(root, segs.drop_last()) + seq!['/'] + segs.last()
    }
}

/// The views of a vector of string slices.
pub open spec fn strs_view(v: Seq<&str>) -> Seq<Seq<char>> {
    v.map_values(|s: &str| s@)
}

/// The final component of `p`.
pub fn file_name(p: &str) -> (r: String)
    ensures
        r@ == file_name_of(p@),
{
    proof {
        p@.index_of_last_ensures('/');
    }
    let len = p.unicode_len();
    match rfind_char(p, '/') {
        Some(i) => {
            let w = p.substring_char(i + 1, len);
            String::from_str(w)
        },
        None => String::from_str(p),
    }
}

/// The extension of the final component of `p`.
pub fn extension(p: &str) -> (r: Option<String>)
    ensures
        match r {
            Some(e) => extension_of(p@) == Some(e@),
            None => extension_of(p@) is None,
        },
{
    let name = file_name(p);
    let n = name.as_str();
    proof {
        n@.index_of_last_ensures('.');
    }
    let len = n.unicode_len();
    match rfind_char(n, '.') {
        Some(i) => {
            if i > 0 {
                let w = n.substring_char(i + 1, len);
                Some(String::from_str(w))
            } else {
                None
            }
        },
        None => None,
    }
}

/// The stem of the final component of `p`.
pub fn file_stem(p: &str) -> (r: String)
    ensures
        r@ == file_stem_of(p@),
{
    let name = file_name(p);
    let n = name.as_str();
    proof {
        n@.index_of_last_ensures('.');
    }
    match rfind_char(n, '.') {
        Some(i) => {
            if i > 0 {
                let w = n.substring_char(0, i);
                String::from_str(w)
            } else {
                name
            }
        },
        None => name,
    }
}

/// The directory part of `p`.
pub fn parent(p: &str) -> (r: String)
    ensures
        r@ == parent_of(p@),
{
    proof {
        p@.index_of_last_ensures('/');
    }
    match rfind_char(p, '/') {
        Some(i) => {
            let w = p.substring_char(0, i);
            String::from_str(w)
        },
        None => String::new(),
    }
}

/// `root` with the given segments appended, one `/` before each.
pub fn join_segments(root: &str, paths: &Vec<&str>) -> (r: String)
    ensures
        r@ == join_of(root@, strs_view(paths@)),
{
    let ghost views = strs_view(paths@);
    let mut acc = String::from_str(root);
    let mut i: usize = 0;
    proof {
        assert(views.take(0) =~= Seq::<Seq<char>>::empty());
    }
    while i < paths.len()
        invariant
            i <= paths@.len(),
            views == strs_view(paths@),
            acc@ == join_of(root@, views.take(i as int)),
        decreases paths@.len() - i,
    {
        acc.append("/");
        acc.append(paths[i]);
        proof {
            reveal_strlit("/");
            assert("/"@ =~= seq!['/']);
            assert(views.take(i + 1).drop_last() =~= views.take(i as int));
            assert(views.take(i + 1).last() == views[i as int]);
        }
        i = i + 1;
    }
    proof {
        assert(views.take(paths@.len() as int) =~= views);
    }
    acc
}

} // verus!
