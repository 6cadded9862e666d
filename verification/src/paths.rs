use vstd::prelude::*;
use vstd::string::StrSliceExecFns;

use crate::text::str_eq;

verus! {

/// The index right after the last path separator of `p`, or `0` when `p`
/// holds none: the position where the file name of `p` starts.
pub open spec fn base_ix(p: Seq<char>) -> int
    decreases p.len(),
{
    if p.len() == 0 {
        0
    } else if p[p.len() - 1] == '/' {
        p.len() as int
    } else {
        base_ix(p.drop_last())
    }
}

/// The file name of `p`: everything after its last path separator.
pub open spec fn file_name_of(p: Seq<char>) -> Seq<char> {
    p.skip(base_ix(p))
}

/// `base_ix` lies in bounds, follows a separator unless it is `0`, and no
/// separator comes at or after it.
pub proof fn lemma_base_ix_bounds(p: Seq<char>)
    ensures
        0 <= base_ix(p) <= p.len(),
        base_ix(p) > 0 ==> p[base_ix(p) - 1] == '/',
        forall|j: int| base_ix(p) <= j < p.len() ==> p[j] != '/',
    decreases p.len(),
{
    if p.len() != 0 && p[p.len() - 1] != '/' {
        let d = p.drop_last();
        lemma_base_ix_bounds(d);
        assert forall|j: int| base_ix(p) <= j < p.len() implies p[j] != '/' by {
            if j < p.len() - 1 {
                assert(d[j] == p[j]);
            }
        }
    }
}

/// Any position that follows a separator (or is `0`) with no separator
/// after it is exactly `base_ix`.
pub proof fn lemma_base_ix_at(p: Seq<char>, i: int)
    requires
        0 <= i <= p.len(),
        i > 0 ==> p[i - 1] == '/',
        forall|j: int| i <= j < p.len() ==> p[j] != '/',
    ensures
        base_ix(p) == i,
    decreases p.len(),
{
    if p.len() == 0 {
    } else if p[p.len() - 1] == '/' {
        assert(i == p.len());
    } else {
        assert(i < p.len());
        lemma_base_ix_at(p.drop_last(), i);
    }
}

/// Finds where the file name of `s` starts: right after the last `/`, or
/// `0` when the path holds none.
pub fn basename_start(s: &str) -> (i: usize)
    ensures
        i == base_ix(s@),
{
    let n = s.unicode_len();
    let mut i: usize = n;
    while i > 0
        invariant
            i <= n,
            n == s@.len(),
            forall|j: int| i <= j < s@.len() ==> s@[j] != '/',
        decreases i,
    {
        if s.get_char(i - 1) == '/' {
            proof {
                lemma_base_ix_at(s@, i as int);
            }
            return i;
        }
        i -= 1;
    }
    proof {
        lemma_base_ix_at(s@, 0);
    }
    0
}

/// Whether the file name of `p` starts with a dot or an underscore, which
/// marks it as hidden from the walk.
pub open spec fn ignored_spec(p: Seq<char>) -> bool {
    file_name_of(p).len() > 0 && (file_name_of(p)[0] == '.' || file_name_of(p)[0] == '_')
}

/// Reports whether the path's file name starts with `.` or `_`.
pub fn is_ignored(path: &str) -> (r: bool)
    ensures
        r == ignored_spec(path@),
{
    let n = path.unicode_len();
    let b = basename_start(path);
    proof {
        lemma_base_ix_bounds(path@);
    }
    if b >= n {
        return false;
    }
    let c = path.get_char(b);
    c == '.' || c == '_'
}

/// Whether the path `abs` lies at or under the directory `root`, going by
/// the text of the two paths: either they are equal, or `abs` continues
/// `root` past a separator.
pub open spec fn under_root(abs: Seq<char>, root: Seq<char>) -> bool {
    if abs == root {
        true
    } else if root.len() > 0 && root[root.len() - 1] == '/' {
        abs.len() > root.len() && abs.take(root.len() as int) == root
    } else {
        abs.len() > root.len() && abs.take(root.len() as int) == root && abs[root.len() as int]
            == '/'
    }
}

/// The part of `abs` below `root`, with no leading separator; meaningful
/// only when `under_root` holds.
pub open spec fn rel_under(abs: Seq<char>, root: Seq<char>) -> Seq<char> {
    if abs == root {
        Seq::<char>::empty()
    } else if root.len() > 0 && root[root.len() - 1] == '/' {
        abs.skip(root.len() as int)
    } else {
        abs.skip(root.len() as int + 1)
    }
}

/// Strips the directory prefix `root` from the path `abs`, yielding the
/// root-relative remainder, or `None` when `abs` does not lie under
/// `root`.
pub fn relative_to_root(abs: &str, root: &str) -> (r: Option<String>)
    ensures
        match r {
            Some(rel) => under_root(abs@, root@) && rel@ == rel_under(abs@, root@),
            None => !under_root(abs@, root@),
        },
{
    if str_eq(abs, root) {
        return Some(String::new());
    }
    let la = abs.unicode_len();
    let lr = root.unicode_len();
    if lr >= la {
        return None;
    }
    let mut i: usize = 0;
    while i < lr
        invariant
            i <= lr,
            lr == root@.len(),
            la == abs@.len(),
            lr < la,
            forall|j: int| 0 <= j < i ==> abs@[j] == root@[j],
        decreases lr - i,
    {
        if abs.get_char(i) != root.get_char(i) {
            proof {
                assert(abs@.take(lr as int)[i as int] == abs@[i as int]);
            }
            return None;
        }
        i += 1;
    }
    proof {
        assert(abs@.take(lr as int) =~= root@);
    }
    if lr > 0 && root.get_char(lr - 1) == '/' {
        Some(abs.substring_char(lr, la).to_owned())
    } else if abs.get_char(lr) == '/' {
        Some(abs.substring_char(lr + 1, la).to_owned())
    } else {
        None
    }
}

/// The directory part of `p`: what comes before its file name, with the
/// trailing separator dropped, kept as `/` when the file name hangs right
/// off the filesystem root.
pub open spec fn parent_of(p: Seq<char>) -> Seq<char> {
    if base_ix(p) == 0 {
        Seq::<char>::empty()
    } else if base_ix(p) == 1 {
        seq!['/']
    } else {
        p.take(base_ix(p) - 1)
    }
}

/// Returns the directory that holds the path: the path up to its last
/// separator. The filesystem root and the empty path have no parent.
/// Paths are expected without a trailing separator.
pub fn parent_dir(path: &str) -> (r: Option<String>)
    ensures
        match r {
            Some(par) => path@.len() > 0 && path@ != seq!['/'] && par@ == parent_of(path@),
            None => path@.len() == 0 || path@ == seq!['/'],
        },
{
    if path.is_empty() {
        return None;
    }
    if str_eq(path, "/") {
        proof {
            reveal_strlit("/");
            assert(path@ =~= seq!['/']);
        }
        return None;
    }
    proof {
        reveal_strlit("/");
        assert(seq!['/'] =~= "/"@);
    }
    let b = basename_start(path);
    if b == 0 {
        Some(String::new())
    } else if b == 1 {
        let r = "/".to_owned();
        proof {
            assert(r@ =~= parent_of(path@));
        }
        Some(r)
    } else {
        proof {
            lemma_base_ix_bounds(path@);
        }
        Some(path.substring_char(0, b - 1).to_owned())
    }
}

/// The page address that a path under the site root gets: the
/// root-relative path itself, except that an `index.html` page is
/// addressed by its directory.
pub fn get_relative_link(path: &str, root: &str) -> (r: Option<String>)
    ensures
        match r {
            Some(link) => {
                &&& under_root(path@, root@)
                &&& file_name_of(rel_under(path@, root@)).len() > 0
                &&& if file_name_of(rel_under(path@, root@)) == "index.html"@ {
                    link@ == parent_of(rel_under(path@, root@))
                } else {
                    link@ == rel_under(path@, root@)
                }
            },
            None => !under_root(path@, root@) || file_name_of(rel_under(path@, root@)).len() == 0,
        },
{
    let rel = match relative_to_root(path, root) {
        Some(rel) => rel,
        None => {
            return None;
        },
    };
    let n = rel.as_str().unicode_len();
    let b = basename_start(rel.as_str());
    proof {
        lemma_base_ix_bounds(rel@);
    }
    if b >= n {
        return None;
    }
    let name = rel.as_str().substring_char(b, n);
    if str_eq(name, "index.html") {
        if b == 0 {
            Some(String::new())
        } else if b == 1 {
            let r = "/".to_owned();
            proof {
                reveal_strlit("/");
                assert(r@ =~= parent_of(rel@));
            }
            Some(r)
        } else {
            let parent = rel.as_str().substring_char(0, b - 1).to_owned();
            Some(parent)
        }
    } else {
        proof {
            assert(file_name_of(rel@) =~= name@);
        }
        Some(rel)
    }
}

} // verus!
