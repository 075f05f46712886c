//! A minimal model of `/`-separated paths: the file name of a path, its
//! parent directory, and joining a directory with a relative path.

use vstd::prelude::*;

verus! {

/// Index just past the last `/` of `p`: where the file name begins.
pub open spec fn file_name_start(p: Seq<char>) -> int
    decreases p.len(),
{
    if p.len() == 0 {
        0
    } else if p.last() == '/' {
        p.len() as int
    } else {
        file_name_start(p.drop_last())
    }
}

/// `file_name_start` is the unique index with no separator at or after it
/// and a separator (or the string's start) just before it.
pub proof fn lemma_file_name_start_char(p: Seq<char>, k: int)
    requires
        0 <= k <= p.len(),
        forall|j: int| k <= j < p.len() ==> p[j] != '/',
        k == 0 || p[k - 1] == '/',
    ensures
        k == file_name_start(p),
    decreases p.len(),
{
    if p.len() == 0 {
    } else if p.last() == '/' {
        assert(k == p.len());
    } else {
        assert(k < p.len());
        lemma_file_name_start_char(p.drop_last(), k);
    }
}

/// The file name: everything after the last separator.
pub open spec fn file_name_spec(p: Seq<char>) -> Seq<char> {
    p.subrange(file_name_start(p), p.len() as int)
}

/// The parent directory: everything before the last separator. The parent of
/// a bare name is empty; the parent of `/name` keeps the lone `/`.
pub open spec fn parent_dir_spec(p: Seq<char>) -> Seq<char> {
    let k = file_name_start(p);
    if k <= 0 {
        Seq::<char>::empty()
    } else if k == 1 {
        p.subrange(0, 1)
    } else {
        p.subrange(0, k - 1)
    }
}

/// Joining a directory with a relative path: an absolute right side wins, an
/// empty directory adds no separator, and a directory already ending in `/`
/// gets none either.
pub open spec fn join_path_spec(dir: Seq<char>, rel: Seq<char>) -> Seq<char> {
    if rel.len() > 0 && rel[0] == '/' {
        rel
    } else if dir.len() == 0 {
        rel
    } else if dir.last() == '/' {
        dir + rel
    } else {
        dir + seq!['/'] + rel
    }
}

/// Where the file name of `path` begins.
fn find_name_start(path: &str) -> (k: usize)
    ensures
        k as int == file_name_start(path@),
        k <= path@.len(),
{
    let n = path.unicode_len();
    let mut k: usize = 0;
    let mut i: usize = 0;
    while i < n
        invariant
            n == path@.len(),
            i <= n,
            k <= i,
            forall|j: int| k <= j < i ==> path@[j] != '/',
            k == 0 || path@[k - 1] == '/',
        decreases n - i,
    {
        if path.get_char(i) == '/' {
            k = i + 1;
        }
        i += 1;
    }
    proof {
        lemma_file_name_start_char(path@, k as int);
    }
    k
}

/// The file name of `path`: everything after the last `/`.
pub fn file_name_of(path: &str) -> (r: String)
    ensures
        r@ == file_name_spec(path@),
{
    let n = path.unicode_len();
    let k = find_name_start(path);
    let s = path.substring_char(k, n);
    String::from_str(s)
}

/// The parent directory of `path`: everything before the last `/`.
pub fn parent_dir_of(path: &str) -> (r: String)
    ensures
        r@ == parent_dir_spec(path@),
{
    let k = find_name_start(path);
    if k == 0 {
        let r = String::new();
        proof {
            assert(r@ =~= parent_dir_spec(path@));
        }
        r
    } else if k == 1 {
        String::from_str(path.substring_char(0, 1))
    } else {
        String::from_str(path.substring_char(0, k - 1))
    }
}

/// Join a directory and a relative path with a single `/`.
pub fn join_path(dir: &str, rel: &str) -> (r: String)
    ensures
        r@ == join_path_spec(dir@, rel@),
{
    let rn = rel.unicode_len();
    if rn > 0 && rel.get_char(0) == '/' {
        return String::from_str(rel);
    }
    let dn = dir.unicode_len();
    if dn == 0 {
        return String::from_str(rel);
    }
    let mut out = String::from_str(dir);
    if dir.get_char(dn - 1) != '/' {
        let sep = "/";
        proof {
            reveal_strlit("/");
            assert(sep@ =~= seq!['/']);
        }
        out.append(sep);
    }
    out.append(rel);
    proof {
        assert(out@ =~= join_path_spec(dir@, rel@));
    }
    out
}

} // verus!
