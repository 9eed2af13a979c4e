use vstd::prelude::*;
use vstd::string::StrSliceExecFns;
use vstd::string::StringExecFns;

verus! {

/// A path is absolute when it starts with the separator.
pub open spec fn is_abs(p: Seq<char>) -> bool {
    p.len() > 0 && p[0] == '/'
}

/// What joining `rel` onto `root` yields: `rel` itself when absolute,
/// otherwise `root`, a separator, and `rel`. The project root is given
/// without a trailing separator.
pub open spec fn join_path(root: Seq<char>, rel: Seq<char>) -> Seq<char> {
    if is_abs(rel) {
        rel
    } else {
        root + "/"@ + rel
    }
}

/// True when `p` starts with the separator.
pub fn path_is_absolute(p: &str) -> (r: bool)
    ensures
        r == is_abs(p@),
{
    let n = p.unicode_len();
    if n == 0 {
        false
    } else {
        p.get_char(0) == '/'
    }
}

/// Joins `rel` onto `root`: `rel` itself when absolute, otherwise
/// `root` + "/" + `rel`.
pub fn join_paths(root: &str, rel: &str) -> (r: String)
    ensures
        r@ == join_path(root@, rel@),
{
    if path_is_absolute(rel) {
        rel.to_owned()
    } else {
        String::from_str(root).concat("/").concat(rel)
    }
}

/// The suffix of `p` after its last separator; `p` itself when it has
/// none; empty when `p` ends with a separator.
pub open spec fn after_last_slash(p: Seq<char>) -> Seq<char>
    decreases p.len(),
{
    if p.len() == 0 {
        Seq::empty()
    } else if p.last() == '/' {
        Seq::empty()
    } else {
        after_last_slash(p.drop_last()).push(p.last())
    }
}

pub proof fn lemma_after_last_slash_no_slash(p: Seq<char>)
    requires
        forall|m: int| 0 <= m < p.len() ==> p[m] != '/',
    ensures
        after_last_slash(p) == p,
    decreases p.len(),
{
    if p.len() == 0 {
        assert(after_last_slash(p) =~= p);
    } else {
        lemma_after_last_slash_no_slash(p.drop_last());
        assert(after_last_slash(p) =~= p);
    }
}

pub proof fn lemma_after_last_slash_at(p: Seq<char>, k: int)
    requires
        0 <= k < p.len(),
        p[k] == '/',
        forall|m: int| k < m < p.len() ==> p[m] != '/',
    ensures
        after_last_slash(p) == p.skip(k + 1),
    decreases p.len(),
{
    if k == p.len() - 1 {
        assert(p.last() == '/');
        assert(after_last_slash(p) =~= p.skip(k + 1));
    } else {
        assert(p.last() != '/');
        lemma_after_last_slash_at(p.drop_last(), k);
        assert(after_last_slash(p) =~= p.skip(k + 1));
    }
}

/// The characters of `p` after its last '/', as an owned string.
pub fn tail_after_last_slash(p: &str) -> (r: String)
    ensures
        r@ == after_last_slash(p@),
{
    let n = p.unicode_len();
    let mut j = n;
    while j > 0
        invariant
            j <= n,
            n == p@.len(),
            forall|m: int| j <= m < n ==> p@[m] != '/',
        decreases j,
    {
        if p.get_char(j - 1) == '/' {
            let r = p.substring_char(j, n).to_owned();
            proof {
                lemma_after_last_slash_at(p@, j - 1);
                assert(r@ =~= p@.skip(j as int));
            }
            return r;
        }
        j = j - 1;
    }
    let r = p.to_owned();
    proof {
        lemma_after_last_slash_no_slash(p@);
    }
    r
}

/// Splits `p` on '/' and keeps the nonempty segments: `cur` is the
/// segment accumulated so far.
pub open spec fn split_acc(p: Seq<char>, cur: Seq<char>) -> Seq<Seq<char>>
    decreases p.len(),
{
    if p.len() == 0 {
        if cur.len() == 0 {
            Seq::empty()
        } else {
            seq![cur]
        }
    } else if p[0] == '/' {
        if cur.len() == 0 {
            split_acc(p.drop_first(), Seq::empty())
        } else {
            seq![cur] + split_acc(p.drop_first(), Seq::empty())
        }
    } else {
        split_acc(p.drop_first(), cur.push(p[0]))
    }
}

/// The nonempty '/'-separated segments of `p`, in order.
pub open spec fn segments_of(p: Seq<char>) -> Seq<Seq<char>> {
    split_acc(p, Seq::empty())
}

/// Splits `p` on '/' and returns the nonempty segments.
pub fn split_segments(p: &str) -> (r: Vec<String>)
    ensures
        r.deep_view() == segments_of(p@),
{
    let n = p.unicode_len();
    let mut out: Vec<String> = Vec::new();
    let mut cur: String = String::new();
    let mut i: usize = 0;
    proof {
        assert(p@.skip(0) =~= p@);
        assert(out.deep_view() =~= Seq::<Seq<char>>::empty());
        assert(Seq::<Seq<char>>::empty() + split_acc(p@, Seq::empty()) =~= split_acc(
            p@,
            Seq::empty(),
        ));
        assert(cur@ =~= Seq::<char>::empty());
    }
    while i < n
        invariant
            i <= n,
            n == p@.len(),
            segments_of(p@) == out.deep_view() + split_acc(p@.skip(i as int), cur@),
        decreases n - i,
    {
        let ghost rest = p@.skip(i as int);
        let ghost cur0 = cur@;
        let ghost out0 = out.deep_view();
        let c = p.get_char(i);
        proof {
            assert(rest[0] == c);
            assert(rest.len() > 0);
            assert(rest.drop_first() =~= p@.skip(i + 1));
        }
        if c == '/' {
            if cur.as_str().unicode_len() > 0 {
                out.push(cur);
                cur = String::new();
                proof {
                    assert(split_acc(rest, cur0) == seq![cur0] + split_acc(
                        p@.skip(i + 1),
                        Seq::empty(),
                    ));
                    assert(out.deep_view() =~= out0.push(cur0));
                    assert(cur@ =~= Seq::<char>::empty());
                    assert(out0.push(cur0) + split_acc(p@.skip(i + 1), Seq::empty()) =~= out0 + (
                    seq![cur0] + split_acc(p@.skip(i + 1), Seq::empty())));
                }
            } else {
                proof {
                    assert(cur0 =~= Seq::<char>::empty());
                    assert(split_acc(rest, cur0) == split_acc(p@.skip(i + 1), Seq::empty()));
                    assert(cur@ =~= Seq::<char>::empty());
                }
            }
        } else {
            let piece = p.substring_char(i, i + 1);
            proof {
                assert(piece@ =~= seq![c]);
            }
            cur.append(piece);
            proof {
                assert(cur@ =~= cur0.push(c));
                assert(split_acc(rest, cur0) == split_acc(p@.skip(i + 1), cur0.push(c)));
            }
        }
        i = i + 1;
    }
    proof {
        assert(p@.skip(n as int) =~= Seq::<char>::empty());
    }
    let ghost out1 = out.deep_view();
    let ghost cur1 = cur@;
    if cur.as_str().unicode_len() > 0 {
        out.push(cur);
        proof {
            assert(out.deep_view() =~= out1.push(cur1));
            assert(split_acc(Seq::<char>::empty(), cur1) == seq![cur1]);
            assert(out1 + seq![cur1] =~= out1.push(cur1));
        }
    } else {
        proof {
            assert(cur1 =~= Seq::<char>::empty());
            assert(split_acc(Seq::<char>::empty(), cur1) =~= Seq::<Seq<char>>::empty());
            assert(out1 + Seq::<Seq<char>>::empty() =~= out1);
        }
    }
    out
}

/// Compares two string slices by their characters.
pub fn str_eq(a: &str, b: &str) -> (r: bool)
    ensures
        r == (a@ == b@),
{
    let na = a.unicode_len();
    let nb = b.unicode_len();
    if na != nb {
        return false;
    }
    let mut i: usize = 0;
    while i < na
        invariant
            i <= na,
            na == a@.len(),
            na == b@.len(),
            forall|m: int| 0 <= m < i ==> a@[m] == b@[m],
        decreases na - i,
    {
        if a.get_char(i) != b.get_char(i) {
            return false;
        }
        i = i + 1;
    }
    proof {
        assert(a@ =~= b@);
    }
    true
}

/// A shared prefix cancels: equal concatenations have equal tails.
pub proof fn lemma_concat_cancel_left(a: Seq<char>, x: Seq<char>, y: Seq<char>)
    requires
        a + x == a + y,
    ensures
        x == y,
{
    assert((a + x).skip(a.len() as int) =~= x);
    assert((a + y).skip(a.len() as int) =~= y);
}

/// True when `p` starts with the characters of `prefix`.
pub fn str_starts_with(p: &str, prefix: &str) -> (r: bool)
    ensures
        r == (p@.len() >= prefix@.len() && p@.subrange(0, prefix@.len() as int) == prefix@),
{
    let n = p.unicode_len();
    let k = prefix.unicode_len();
    if n < k {
        return false;
    }
    let head = p.substring_char(0, k);
    str_eq(head, prefix)
}

} // verus!
