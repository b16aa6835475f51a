//! Paths as character strings with `/` as separator: well-formedness,
//! joining a child name onto a directory path, and taking the parent of a
//! path. A path with no parent (a filesystem root, or a bare relative
//! component) is where ascending stops.

use vstd::prelude::*;
use vstd::string::{StrSliceExecFns, StringExecFns};

verus! {

/// A well-formed entry name: non-empty and free of the separator.
pub open spec fn name_wf(n: Seq<char>) -> bool {
    &&& n.len() > 0
    &&& forall|i: int| 0 <= i < n.len() ==> n[i] != '/'
}

/// The one-character root path `/`.
pub open spec fn root_path() -> Seq<char> {
    seq!['/']
}

/// A well-formed path: non-empty, ends with `/` only if it is the root
/// itself, and holds no empty components (no `//`).
pub open spec fn path_wf(p: Seq<char>) -> bool {
    &&& p.len() > 0
    &&& (p == root_path() || p[p.len() - 1] != '/')
    &&& forall|i: int| 0 <= i < p.len() - 1 ==> !(p[i] == '/' && #[trigger] p[i + 1] == '/')
}

/// Index of the last separator in `p`, or -1 if there is none.
pub open spec fn last_slash_at(p: Seq<char>) -> int
    decreases p.len(),
{
    if p.len() == 0 {
        -1
    } else if p[p.len() - 1] == '/' {
        p.len() - 1
    } else {
        last_slash_at(p.drop_last())
    }
}

/// A path has a parent unless it is the root or a single relative component.
pub open spec fn has_parent(p: Seq<char>) -> bool {
    p != root_path() && last_slash_at(p) >= 0
}

/// The parent of `p`: everything before the last separator, or the root if
/// the last separator is the leading one.
pub open spec fn parent_of(p: Seq<char>) -> Seq<char>
    recommends
        has_parent(p),
{
    if last_slash_at(p) == 0 {
        root_path()
    } else {
        p.subrange(0, last_slash_at(p))
    }
}

/// `p` extended with the child `n`: a separator is added unless `p` is the
/// root, which already ends with one.
pub open spec fn join_of(p: Seq<char>, n: Seq<char>) -> Seq<char> {
    if p == root_path() {
        p + n
    } else {
        p + seq!['/'] + n
    }
}

proof fn lemma_last_slash_at_bounds(p: Seq<char>)
    ensures
        -1 <= last_slash_at(p) < p.len(),
    decreases p.len(),
{
    if p.len() > 0 && p[p.len() - 1] != '/' {
        lemma_last_slash_at_bounds(p.drop_last());
    }
}

/// If `p[j]` is a separator and none follows it, then `j` is the last one.
proof fn lemma_last_slash_at_known(p: Seq<char>, j: int)
    requires
        0 <= j < p.len(),
        p[j] == '/',
        forall|k: int| j < k < p.len() ==> p[k] != '/',
    ensures
        last_slash_at(p) == j,
    decreases p.len(),
{
    if j < p.len() - 1 {
        assert(p.drop_last()[j] == p[j]);
        lemma_last_slash_at_known(p.drop_last(), j);
    }
}

/// A path without any separator has `last_slash_at` equal to -1.
proof fn lemma_last_slash_at_none(p: Seq<char>)
    requires
        forall|k: int| 0 <= k < p.len() ==> p[k] != '/',
    ensures
        last_slash_at(p) == -1,
    decreases p.len(),
{
    if p.len() > 0 {
        lemma_last_slash_at_none(p.drop_last());
    }
}

/// The parent of a well-formed path is itself well-formed.
pub proof fn lemma_parent_of_wf(p: Seq<char>)
    requires
        path_wf(p),
        has_parent(p),
    ensures
        path_wf(parent_of(p)),
{
    let j = last_slash_at(p);
    lemma_last_slash_at_bounds(p);
    lemma_last_slash_at_is_slash(p);
    if j > 0 {
        let q = p.subrange(0, j);
        assert(q[q.len() - 1] == p[j - 1]);
        assert(!(p[j - 1] == '/' && p[j - 1 + 1] == '/'));
        assert(q[q.len() - 1] != '/');
    }
}

/// The character at `last_slash_at` is indeed a separator.
proof fn lemma_last_slash_at_is_slash(p: Seq<char>)
    requires
        last_slash_at(p) >= 0,
    ensures
        last_slash_at(p) < p.len(),
        p[last_slash_at(p)] == '/',
    decreases p.len(),
{
    if p.len() > 0 && p[p.len() - 1] != '/' {
        lemma_last_slash_at_is_slash(p.drop_last());
        assert(p.drop_last()[last_slash_at(p)] == p[last_slash_at(p)]);
    }
}

/// Joining a well-formed name onto a well-formed path gives a well-formed
/// path again, and taking the parent of the joined path gives the original
/// path back: descending into a child and ascending again is a round trip.
pub proof fn lemma_parent_of_join(p: Seq<char>, n: Seq<char>)
    requires
        path_wf(p),
        name_wf(n),
    ensures
        path_wf(join_of(p, n)),
        has_parent(join_of(p, n)),
        parent_of(join_of(p, n)) == p,
{
    let q = join_of(p, n);
    if p == root_path() {
        assert(q.len() == 1 + n.len());
        assert(q[0] == '/');
        assert(forall|k: int| 0 < k < q.len() ==> q[k] == n[k - 1] && q[k] != '/');
        lemma_last_slash_at_known(q, 0);
        assert(q != root_path()) by {
            assert(q.len() > 1);
        }
        assert(parent_of(q) == p);
        assert(q[q.len() - 1] == n[n.len() - 1]);
        assert(path_wf(q));
    } else {
        let m = p.len() as int;
        assert(q.len() == m + 1 + n.len());
        assert(forall|k: int| 0 <= k < m ==> q[k] == p[k]);
        assert(q[m] == '/');
        assert(forall|k: int| m < k < q.len() ==> q[k] == n[k - m - 1] && q[k] != '/');
        lemma_last_slash_at_known(q, m);
        assert(q != root_path()) by {
            assert(q.len() > 1);
        }
        assert(m > 0);
        assert(parent_of(q) == q.subrange(0, m));
        assert(q.subrange(0, m) =~= p);
        // Well-formedness of q: it ends with the last character of n, and no
        // two separators are adjacent across the three pieces.
        assert(q[q.len() - 1] == n[n.len() - 1]);
        assert(p[m - 1] != '/') by {
            if p.len() == 1 {
                if p[0] == '/' {
                    assert(p =~= root_path());
                }
            }
        }
        assert forall|i: int| 0 <= i < q.len() - 1 implies !(q[i] == '/' && #[trigger] q[i + 1]
            == '/') by {
            if i < m - 1 {
                assert(!(p[i] == '/' && p[i + 1] == '/'));
            }
        }
        assert(path_wf(q));
    }
}

/// Whether `n` is a well-formed entry name.
#[verifier::loop_isolation(false)]
pub fn name_is_wf(n: &str) -> (b: bool)
    ensures
        b == name_wf(n@),
{
    let len = n.unicode_len();
    if len == 0 {
        return false;
    }
    let mut i: usize = 0;
    while i < len
        invariant
            len == n@.len(),
            0 <= i <= len,
            forall|k: int| 0 <= k < i ==> n@[k] != '/',
        decreases len - i,
    {
        if n.get_char(i) == '/' {
            return false;
        }
        i += 1;
    }
    true
}

/// Whether `p` is a well-formed path.
#[verifier::loop_isolation(false)]
pub fn path_is_wf(p: &str) -> (b: bool)
    ensures
        b == path_wf(p@),
{
    let len = p.unicode_len();
    if len == 0 {
        return false;
    }
    if len == 1 {
        proof {
            if p@[0] == '/' {
                assert(p@ =~= root_path());
            }
        }
        return true;
    }
    if p.get_char(len - 1) == '/' {
        proof {
            assert(p@ != root_path()) by {
                assert(p@.len() > 1);
            }
        }
        return false;
    }
    let mut i: usize = 0;
    while i < len - 1
        invariant
            len == p@.len(),
            0 <= i <= len,
            forall|k: int| 0 <= k < i ==> !(p@[k] == '/' && #[trigger] p@[k + 1] == '/'),
        decreases len - i,
    {
        if p.get_char(i) == '/' && p.get_char(i + 1) == '/' {
            return false;
        }
        i += 1;
    }
    true
}

/// The path for the child `name` of directory `p`.
pub fn join_path(p: &str, name: &str) -> (r: String)
    requires
        path_wf(p@),
        name_wf(name@),
    ensures
        r@ == join_of(p@, name@),
        path_wf(r@),
{
    proof {
        lemma_parent_of_join(p@, name@);
        reveal_strlit("/");
        assert("/"@ =~= root_path());
    }
    let len = p.unicode_len();
    let at_root = len == 1 && p.get_char(0) == '/';
    proof {
        if at_root {
            assert(p@ =~= root_path());
        }
    }
    let mut r = p.to_owned();
    if !at_root {
        r.append("/");
        proof {
            assert(p@ + "/"@ =~= p@ + seq!['/']);
        }
    }
    r.append(name);
    r
}

/// The parent directory of `p`, or `None` where `p` has no parent (it is a
/// filesystem root or a bare relative component).
#[verifier::loop_isolation(false)]
pub fn parent_path(p: &str) -> (r: Option<String>)
    requires
        path_wf(p@),
    ensures
        match r {
            Some(q) => has_parent(p@) && q@ == parent_of(p@) && path_wf(q@),
            None => !has_parent(p@),
        },
{
    let len = p.unicode_len();
    if len == 1 {
        proof {
            if p@[0] == '/' {
                assert(p@ =~= root_path());
            } else {
                assert(forall|k: int| 0 <= k < p@.len() ==> p@[k] != '/');
                lemma_last_slash_at_none(p@);
            }
        }
        return None;
    }
    // Scan backwards for the last separator.
    let mut i: usize = len;
    while i > 0
        invariant
            len == p@.len(),
            0 <= i <= len,
            forall|k: int| i <= k < len ==> p@[k] != '/',
        decreases i,
    {
        if p.get_char(i - 1) == '/' {
            let j = i - 1;
            proof {
                lemma_last_slash_at_known(p@, j as int);
                assert(p@ != root_path()) by {
                    assert(p@.len() > 1);
                }
                lemma_parent_of_wf(p@);
            }
            if j == 0 {
                let r = "/".to_owned();
                proof {
                    reveal_strlit("/");
                    assert(r@ =~= root_path());
                }
                return Some(r);
            }
            let q = p.substring_char(0, j);
            let r = q.to_owned();
            return Some(r);
        }
        i -= 1;
    }
    proof {
        lemma_last_slash_at_none(p@);
    }
    None
}

} // verus!
