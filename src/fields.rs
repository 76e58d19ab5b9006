//! The `/`-separated fields of a path held as bytes.
use vstd::prelude::*;

verus! {

pub open spec fn is_slash(b: u8) -> bool {
    b == 0x2f
}

/// The bytes of `s` before its first `/` (all of `s` if it has none).
pub open spec fn before_slash(s: Seq<u8>) -> Seq<u8>
    decreases s.len(),
{
    if s.len() == 0 || is_slash(s[0]) {
        Seq::empty()
    } else {
        seq![s[0]] + before_slash(s.skip(1))
    }
}

/// The bytes of `s` after its first `/`, if it has one.
pub open spec fn after_slash(s: Seq<u8>) -> Option<Seq<u8>>
    decreases s.len(),
{
    if s.len() == 0 {
        None
    } else if is_slash(s[0]) {
        Some(s.skip(1))
    } else {
        after_slash(s.skip(1))
    }
}

proof fn lemma_after_slash_shorter(s: Seq<u8>)
    ensures
        after_slash(s) matches Some(r) ==> r.len() < s.len(),
    decreases s.len(),
{
    if s.len() > 0 && !is_slash(s[0]) {
        lemma_after_slash_shorter(s.skip(1));
    }
}

/// Field `k` (counting from 0) of `s` split at every `/`, if `s` has that
/// many fields: field 0 of `/proc/12/fd/3` is empty, field 2 is `12`.
pub open spec fn field(s: Seq<u8>, k: nat) -> Option<Seq<u8>>
    decreases s.len(),
{
    if k == 0 {
        Some(before_slash(s))
    } else {
        match after_slash(s) {
            Some(r) => if r.len() < s.len() {
                field(r, (k - 1) as nat)
            } else {
                None
            },
            None => None,
        }
    }
}

/// Where `t[i]` is the first `/` of `t` (or `i` its end), the two sides of it.
proof fn lemma_split_at_first_slash(t: Seq<u8>, i: int)
    requires
        0 <= i <= t.len(),
        forall|m: int| 0 <= m < i ==> !is_slash(#[trigger] t[m]),
        i < t.len() ==> is_slash(t[i]),
    ensures
        before_slash(t) == t.take(i),
        after_slash(t) == (if i < t.len() {
            Some(t.skip(i + 1))
        } else {
            None::<Seq<u8>>
        }),
    decreases i,
{
    if i == 0 {
        assert(t.take(0) =~= Seq::<u8>::empty());
        assert(t.skip(1) =~= t.skip(i + 1));
    } else {
        let u = t.skip(1);
        assert forall|m: int| 0 <= m < i - 1 implies !is_slash(#[trigger] u[m]) by {
            assert(u[m] == t[m + 1]);
        }
        lemma_split_at_first_slash(u, i - 1);
        assert(t.take(i) =~= seq![t[0]] + u.take(i - 1));
        if i < t.len() {
            assert(u.skip(i) =~= t.skip(i + 1));
        }
    }
}

/// The index of the first `/` of `s` at or after `from`, or the length of
/// `s` if there is none.
fn next_slash(s: &[u8], from: usize) -> (j: usize)
    requires
        from <= s.len(),
    ensures
        from <= j <= s.len(),
        forall|m: int| from <= m < j ==> !is_slash(#[trigger] s@[m]),
        j < s.len() ==> is_slash(s@[j as int]),
{
    let mut j: usize = from;
    while j < s.len() && s[j] != 0x2f
        invariant
            from <= j <= s.len(),
            forall|m: int| from <= m < j ==> !is_slash(#[trigger] s@[m]),
        decreases s.len() - j,
    {
        j = j + 1;
    }
    j
}

proof fn lemma_first_slash_of_suffix(s: Seq<u8>, from: int, j: int)
    requires
        0 <= from <= j <= s.len(),
        forall|m: int| from <= m < j ==> !is_slash(#[trigger] s[m]),
        j < s.len() ==> is_slash(s[j]),
    ensures
        before_slash(s.skip(from)) == s.subrange(from, j),
        after_slash(s.skip(from)) == (if j < s.len() {
            Some(s.skip(j + 1))
        } else {
            None::<Seq<u8>>
        }),
{
    let t = s.skip(from);
    assert forall|m: int| 0 <= m < j - from implies !is_slash(#[trigger] t[m]) by {
        assert(t[m] == s[m + from]);
    }
    lemma_split_at_first_slash(t, j - from);
    assert(t.take(j - from) =~= s.subrange(from, j));
    if j < s.len() {
        assert(t.skip(j - from + 1) =~= s.skip(j + 1));
    }
}

/// Field `k` of `s` split at every `/`, if `s` has that many fields.
pub fn nth_field(s: &[u8], k: usize) -> (r: Option<Vec<u8>>)
    ensures
        r matches Some(v) ==> field(s@, k as nat) == Some(v@),
        r is None ==> field(s@, k as nat) is None,
{
    let mut pos: usize = 0;
    let mut left: usize = k;
    assert(s@.skip(0) =~= s@);
    while left > 0
        invariant
            pos <= s.len(),
            left <= k,
            field(s@, k as nat) == field(s@.skip(pos as int), left as nat),
        decreases left,
    {
        let j = next_slash(s, pos);
        proof {
            lemma_first_slash_of_suffix(s@, pos as int, j as int);
            lemma_after_slash_shorter(s@.skip(pos as int));
        }
        if j == s.len() {
            return None;
        }
        pos = j + 1;
        left = left - 1;
    }
    let end = next_slash(s, pos);
    proof {
        lemma_first_slash_of_suffix(s@, pos as int, end as int);
    }
    let mut out: Vec<u8> = Vec::new();
    let mut i: usize = pos;
    while i < end
        invariant
            pos <= i <= end <= s.len(),
            out@ =~= s@.subrange(pos as int, i as int),
        decreases end - i,
    {
        out.push(s[i]);
        i = i + 1;
    }
    Some(out)
}

} // verus!
