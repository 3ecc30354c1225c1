//! Verified character-level string helpers: equality, suffix tests, and
//! splitting a specifier into its `/`-separated components.
use vstd::prelude::*;

verus! {

/// Compares two string slices for equality of their character sequences.
pub fn str_eq(a: &str, b: &str) -> (r: bool)
    ensures
        r == (a@ == b@),
{
    let sa = a.to_owned();
    let sb = b.to_owned();
    sa == sb
}

/// `s` ends with the suffix `suf` and is strictly longer than it.
pub open spec fn has_proper_suffix(s: Seq<char>, suf: Seq<char>) -> bool {
    s.len() > suf.len() && s.subrange(s.len() - suf.len(), s.len() as int) == suf
}

/// Decides whether `s` is strictly longer than `suf` and ends with it.
pub fn ends_with_proper(s: &str, suf: &str) -> (r: bool)
    ensures
        r == has_proper_suffix(s@, suf@),
{
    let n = s.unicode_len();
    let m = suf.unicode_len();
    if n <= m {
        return false;
    }
    let tail = s.substring_char(n - m, n);
    str_eq(tail, suf)
}

/// Splitting `s` on `/`, having already read the partial component `cur`.
/// The result always has at least one component; an empty string splits
/// into one empty component.
pub open spec fn split_rec(s: Seq<char>, cur: Seq<char>) -> Seq<Seq<char>>
    decreases s.len(),
{
    if s.len() == 0 {
        seq![cur]
    } else if s[0] == '/' {
        seq![cur] + split_rec(s.skip(1), Seq::empty())
    } else {
        split_rec(s.skip(1), cur.push(s[0]))
    }
}

/// The `/`-separated components of `s`.
pub open spec fn split_spec(s: Seq<char>) -> Seq<Seq<char>> {
    split_rec(s, Seq::empty())
}

/// Splits `s` into its `/`-separated components.
pub fn split_components(s: &str) -> (r: Vec<String>)
    ensures
        r.deep_view() == split_spec(s@),
        r.len() > 0,
{
    let n = s.unicode_len();
    let mut out: Vec<String> = Vec::new();
    let mut start: usize = 0;
    let mut i: usize = 0;
    proof {
        assert(s@.skip(0) =~= s@);
        assert(s@.subrange(0, 0) =~= Seq::<char>::empty());
        assert(out.deep_view() =~= Seq::<Seq<char>>::empty());
        assert(Seq::<Seq<char>>::empty() + split_rec(s@, Seq::empty()) =~= split_rec(
            s@,
            Seq::empty(),
        ));
    }
    while i < n
        invariant
            start <= i <= n,
            n == s@.len(),
            split_spec(s@) == out.deep_view() + split_rec(
                s@.skip(i as int),
                s@.subrange(start as int, i as int),
            ),
        decreases n - i,
    {
        let c = s.get_char(i);
        proof {
            assert(s@.skip(i as int)[0] == s@[i as int]);
            assert(s@.skip(i as int).skip(1) =~= s@.skip(i + 1));
        }
        if c == '/' {
            let comp = s.substring_char(start, i).to_owned();
            let ghost prev = out.deep_view();
            out.push(comp);
            proof {
                assert(out.deep_view() =~= prev.push(comp@));
                assert(s@.subrange(i + 1, i + 1) =~= Seq::<char>::empty());
                assert(out.deep_view() + split_rec(s@.skip(i + 1), Seq::empty()) =~= prev
                    + (seq![comp@] + split_rec(s@.skip(i + 1), Seq::empty())));
            }
            start = i + 1;
        } else {
            proof {
                assert(s@.subrange(start as int, i + 1) =~= s@.subrange(
                    start as int,
                    i as int,
                ).push(s@[i as int]));
            }
        }
        i = i + 1;
    }
    let comp = s.substring_char(start, n).to_owned();
    let ghost prev = out.deep_view();
    out.push(comp);
    proof {
        assert(s@.skip(n as int) =~= Seq::<char>::empty());
        assert(out.deep_view() =~= prev.push(comp@));
        assert(prev + seq![comp@] =~= prev.push(comp@));
    }
    out
}

} // verus!
