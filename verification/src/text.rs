use vstd::prelude::*;
use vstd::string::StrSliceExecFns;

verus! {

/// The number of characters of `m` that come before its first line break,
/// or the length of `m` when no line break occurs in it.
pub open spec fn line_break(m: Seq<char>) -> int
    decreases m.len(),
{
    if m.len() == 0 {
        0
    } else if m[0] == '\n' {
        0
    } else {
        1 + line_break(m.drop_first())
    }
}

/// The text of `m` that comes before its first line break.
pub open spec fn first_line_spec(m: Seq<char>) -> Seq<char> {
    m.take(line_break(m))
}

/// A position with no line break before it, and a line break (or the end)
/// at it, is exactly where `line_break` stops.
pub proof fn lemma_line_break_at(m: Seq<char>, i: int)
    requires
        0 <= i <= m.len(),
        forall|j: int| 0 <= j < i ==> m[j] != '\n',
        i < m.len() ==> m[i] == '\n',
    ensures
        line_break(m) == i,
    decreases m.len(),
{
    if m.len() == 0 {
    } else if m[0] == '\n' {
        assert(i == 0);
    } else {
        assert(i > 0);
        let d = m.drop_first();
        assert forall|j: int| 0 <= j < i - 1 implies d[j] != '\n' by {
            assert(d[j] == m[j + 1]);
        }
        assert(i - 1 < d.len() ==> d[i - 1] == '\n');
        lemma_line_break_at(d, i - 1);
    }
}

/// Whether the front-matter separator — a line holding `---` alone, that
/// is the characters `\n` `-` `-` `-` `\n` — starts at position `i` of
/// `s`.
pub open spec fn is_sep_at(s: Seq<char>, i: int) -> bool {
    &&& 0 <= i
    &&& i + 5 <= s.len()
    &&& s[i] == '\n'
    &&& s[i + 1] == '-'
    &&& s[i + 2] == '-'
    &&& s[i + 3] == '-'
    &&& s[i + 4] == '\n'
}

/// Splits a page into front matter and template at the first separator
/// line: what comes before it and what comes after it. `None` when the
/// page has no separator.
pub fn split_front_matter(content: &str) -> (r: Option<(String, String)>)
    ensures
        match r {
            Some(parts) => exists|i: int|
                {
                    &&& #[trigger] is_sep_at(content@, i)
                    &&& forall|j: int| 0 <= j < i ==> !is_sep_at(content@, j)
                    &&& parts.0@ == content@.take(i)
                    &&& parts.1@ == content@.skip(i + 5)
                },
            None => forall|i: int| !is_sep_at(content@, i),
        },
{
    let n = content.unicode_len();
    if n >= 5 {
        let mut i: usize = 0;
        while i <= n - 5
            invariant
                n == content@.len(),
                n >= 5,
                i <= n - 4,
                forall|j: int| 0 <= j < i ==> !is_sep_at(content@, j),
            decreases n - i,
        {
            if content.get_char(i) == '\n' && content.get_char(i + 1) == '-' && content.get_char(
                i + 2,
            ) == '-' && content.get_char(i + 3) == '-' && content.get_char(i + 4) == '\n' {
                let meta = content.substring_char(0, i).to_owned();
                let template = content.substring_char(i + 5, n).to_owned();
                proof {
                    assert(is_sep_at(content@, i as int));
                    assert(meta@ =~= content@.take(i as int));
                    assert(template@ =~= content@.skip(i as int + 5));
                }
                return Some((meta, template));
            }
            i += 1;
        }
    }
    proof {
        assert forall|i: int| !is_sep_at(content@, i) by {
            if 0 <= i && i + 5 <= content@.len() {
                assert(!is_sep_at(content@, i));
            }
        }
    }
    None
}

/// Compares two strings character by character.
pub fn str_eq(a: &str, b: &str) -> (r: bool)
    ensures
        r == (a@ == b@),
{
    let la = a.unicode_len();
    let lb = b.unicode_len();
    if la != lb {
        return false;
    }
    let mut i: usize = 0;
    while i < la
        invariant
            i <= la,
            la == a@.len(),
            la == b@.len(),
            forall|j: int| 0 <= j < i ==> a@[j] == b@[j],
        decreases la - i,
    {
        if a.get_char(i) != b.get_char(i) {
            return false;
        }
        i += 1;
    }
    proof {
        assert(a@ =~= b@);
    }
    true
}

/// Returns the first line of a message: everything before the first line
/// break, or the whole message when it has none.
pub fn first_line(s: &str) -> (r: String)
    ensures
        r@ == first_line_spec(s@),
{
    let n = s.unicode_len();
    let mut i: usize = 0;
    while i < n
        invariant
            i <= n,
            n == s@.len(),
            forall|j: int| 0 <= j < i ==> s@[j] != '\n',
        decreases n - i,
    {
        if s.get_char(i) == '\n' {
            proof {
                lemma_line_break_at(s@, i as int);
            }
            let r = s.substring_char(0, i).to_owned();
            proof {
                assert(r@ =~= first_line_spec(s@));
            }
            return r;
        }
        i += 1;
    }
    proof {
        lemma_line_break_at(s@, n as int);
        assert(s@.take(n as int) =~= s@);
    }
    s.to_owned()
}

} // verus!
