use vstd::prelude::*;

verus! {

/// `rel` under `base`, as `Path::join` forms it: an absolute `rel` stands
/// alone, an empty `base` adds nothing, and one `/` separates the two.
pub open spec fn join_path_spec(base: Seq<char>, rel: Seq<char>) -> Seq<char> {
    if rel.len() > 0 && rel[0] == '/' {
        rel
    } else if base.len() == 0 {
        rel
    } else if base.last() == '/' {
        base + rel
    } else {
        base + seq!['/'] + rel
    }
}

pub fn join_path(base: &str, rel: &str) -> (r: String)
    ensures
        r@ == join_path_spec(base@, rel@),
{
    let bl = base.unicode_len();
    let rl = rel.unicode_len();
    if rl > 0 && rel.get_char(0) == '/' {
        return rel.to_string();
    }
    if bl == 0 {
        return rel.to_string();
    }
    let mut r = base.to_string();
    if base.get_char(bl - 1) != '/' {
        r.append("/");
    }
    r.append(rel);
    proof {
        reveal_strlit("/");
    }
    r
}

/// Length of `s` once the `/` characters at its end are dropped.
pub open spec fn strip_slashes_len(s: Seq<char>) -> nat
    decreases s.len(),
{
    if s.len() > 0 && s.last() == '/' {
        strip_slashes_len(s.drop_last())
    } else {
        s.len()
    }
}

/// Index of the last `/` in `s`, or -1.
pub open spec fn last_slash(s: Seq<char>) -> int
    decreases s.len(),
{
    if s.len() == 0 {
        -1
    } else if s.last() == '/' {
        s.len() - 1
    } else {
        last_slash(s.drop_last())
    }
}

/// The directory that holds `path`, as `Path::parent` gives it (with `.` where
/// the path has no parent): trailing slashes are ignored, the last component
/// is dropped, and a path without `/` has the empty parent.
pub open spec fn parent_dir_spec(path: Seq<char>) -> Seq<char> {
    let p = path.subrange(0, strip_slashes_len(path) as int);
    if p.len() == 0 {
        seq!['.']
    } else {
        let k = last_slash(p);
        if k < 0 {
            Seq::<char>::empty()
        } else {
            let q = p.subrange(0, strip_slashes_len(p.subrange(0, k)) as int);
            if q.len() == 0 {
                seq!['/']
            } else {
                q
            }
        }
    }
}

pub proof fn lemma_strip_slashes(s: Seq<char>, k: int)
    requires
        0 <= k <= s.len(),
        forall|j: int| k <= j < s.len() ==> #[trigger] s[j] == '/',
        k == 0 || s[k - 1] != '/',
    ensures
        strip_slashes_len(s) == k,
    decreases s.len() - k,
{
    if k < s.len() {
        let t = s.drop_last();
        assert forall|j: int| k <= j < t.len() implies #[trigger] t[j] == '/' by {
            assert(t[j] == s[j]);
        }
        lemma_strip_slashes(t, k);
    }
}

proof fn lemma_last_slash(s: Seq<char>, k: int)
    requires
        -1 <= k < s.len(),
        forall|j: int| k < j < s.len() ==> #[trigger] s[j] != '/',
        k >= 0 ==> s[k] == '/',
    ensures
        last_slash(s) == k,
    decreases s.len() - k,
{
    if k < s.len() - 1 {
        let t = s.drop_last();
        assert forall|j: int| k < j < t.len() implies #[trigger] t[j] != '/' by {
            assert(t[j] == s[j]);
        }
        lemma_last_slash(t, k);
    }
}

/// Length of `cs[0..n]` without its trailing slashes.
fn strip_slashes(cs: &Vec<char>, n: usize) -> (k: usize)
    requires
        n <= cs.len(),
    ensures
        k <= n,
        k == strip_slashes_len(cs@.subrange(0, n as int)),
{
    let mut k = n;
    while k > 0 && cs[k - 1] == '/'
        invariant
            k <= n <= cs.len(),
            forall|j: int| k <= j < n ==> #[trigger] cs@[j] == '/',
        decreases k,
    {
        k = k - 1;
    }
    proof {
        let s = cs@.subrange(0, n as int);
        assert forall|j: int| k <= j < s.len() implies #[trigger] s[j] == '/' by {
            assert(s[j] == cs@[j]);
        }
        lemma_strip_slashes(s, k as int);
    }
    k
}

/// The directory that holds `path`.
pub fn parent_dir(path: &str) -> (r: String)
    ensures
        r@ == parent_dir_spec(path@),
{
    let cs = crate::text::chars_of(path);
    let n = strip_slashes(&cs, cs.len());
    proof {
        assert(cs@.subrange(0, cs.len() as int) =~= path@);
        reveal_strlit(".");
        reveal_strlit("/");
    }
    let ghost p = cs@.subrange(0, n as int);
    if n == 0 {
        return String::from_str(".");
    }
    let mut k: usize = n;
    while k > 0 && cs[k - 1] != '/'
        invariant
            k <= n <= cs.len(),
            forall|j: int| k <= j < n ==> #[trigger] cs@[j] != '/',
        decreases k,
    {
        k = k - 1;
    }
    proof {
        assert forall|j: int| k - 1 < j < p.len() implies #[trigger] p[j] != '/' by {
            assert(p[j] == cs@[j]);
        }
        lemma_last_slash(p, k - 1);
    }
    if k == 0 {
        return String::new();
    }
    let q = strip_slashes(&cs, k - 1);
    proof {
        assert(p.subrange(0, k - 1) =~= cs@.subrange(0, k - 1));
        assert(p.subrange(0, q as int) =~= cs@.subrange(0, q as int));
    }
    if q == 0 {
        return String::from_str("/");
    }
    path.substring_char(0, q).to_string()
}

} // verus!
