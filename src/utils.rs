use vstd::prelude::*;

use crate::text::{chars_of, make_short};

verus! {

pub open spec fn strings(v: Seq<String>) -> Seq<Seq<char>> {
    v.map_values(|s: String| s@)
}

pub open spec fn is_ascii_letter(c: char) -> bool {
    ('a' <= c && c <= 'z') || ('A' <= c && c <= 'Z')
}

/// `-xyz`: single-letter flags written together after one dash.
pub open spec fn is_short_group(t: Seq<char>) -> bool {
    t.len() >= 3 && t[0] == '-' && forall|i: int| 1 <= i < t.len() ==> is_ascii_letter(#[trigger] t[i])
}

/// `k` is the position of the first `=` in `t`.
pub open spec fn is_first_eq(t: Seq<char>, k: int) -> bool {
    0 <= k < t.len() && t[k] == '=' && forall|j: int| 0 <= j < k ==> #[trigger] t[j] != '='
}

/// What one argument token becomes before matching: `-x=v` and `--name=v`
/// split at the first `=`, `-xyz` becomes `-x`, `-y`, `-z`, and any other
/// token stays as it is.
pub open spec fn split_token(t: Seq<char>) -> Seq<Seq<char>> {
    if t.len() > 0 && t[0] == '-' && exists|k: int| is_first_eq(t, k) {
        let k = choose|k: int| is_first_eq(t, k);
        seq![t.take(k), t.skip(k + 1)]
    } else if is_short_group(t) {
        Seq::new((t.len() - 1) as nat, |i: int| seq!['-', t[i + 1]])
    } else {
        seq![t]
    }
}

/// The argument vector with each token split as `split_token` says.
pub open spec fn normalize(ts: Seq<Seq<char>>) -> Seq<Seq<char>>
    decreases ts.len(),
{
    if ts.len() == 0 {
        Seq::empty()
    } else {
        normalize(ts.drop_last()) + split_token(ts.last())
    }
}

pub(crate) proof fn lemma_first_eq_unique(t: Seq<char>, k: int)
    requires
        is_first_eq(t, k),
    ensures
        (choose|q: int| is_first_eq(t, q)) == k,
{
    let c = choose|q: int| is_first_eq(t, q);
    assert(is_first_eq(t, c));
    if c < k {
        assert(t[c] != '=');
    } else if c > k {
        assert(t[k] != '=');
    }
}

/// Appends the tokens that `t` becomes to `out`.
fn push_split(t: &String, out: &mut Vec<String>)
    ensures
        strings(final(out)@) == strings(old(out)@) + split_token(t@),
{
    let ghost start = strings(out@);
    let cs = chars_of(t.as_str());
    let n = cs.len();
    if n > 0 && cs[0] == '-' {
        let mut k: usize = 0;
        while k < n && cs[k] != '='
            invariant
                k <= n,
                n == cs@.len(),
                cs@ == t@,
                forall|j: int| 0 <= j < k ==> #[trigger] t@[j] != '=',
            decreases n - k,
        {
            k = k + 1;
        }
        if k < n {
            proof {
                lemma_first_eq_unique(t@, k as int);
                assert(is_first_eq(t@, k as int));
            }
            let head = String::from_str(t.as_str().substring_char(0, k));
            let tail = String::from_str(t.as_str().substring_char(k + 1, n));
            out.push(head);
            out.push(tail);
            assert(head@ =~= t@.take(k as int));
            assert(tail@ =~= t@.skip(k + 1));
            assert(strings(out@) =~= start + split_token(t@));
            return ;
        }
        assert(!exists|q: int| is_first_eq(t@, q));
        if n >= 3 {
            let mut i: usize = 1;
            let mut letters = true;
            while i < n && letters
                invariant
                    1 <= i <= n,
                    n == cs@.len(),
                    cs@ == t@,
                    letters ==> forall|j: int| 1 <= j < i ==> is_ascii_letter(#[trigger] t@[j]),
                    !letters ==> !is_short_group(t@),
                decreases n - i,
            {
                let c = cs[i];
                if !(('a' <= c && c <= 'z') || ('A' <= c && c <= 'Z')) {
                    assert(!is_ascii_letter(t@[i as int]));
                    letters = false;
                    i = n;
                } else {
                    i = i + 1;
                }
            }
            if letters {
                let ghost group = split_token(t@);
                assert(is_short_group(t@));
                let mut j: usize = 1;
                while j < n
                    invariant
                        1 <= j <= n,
                        n == t@.len(),
                        is_short_group(t@),
                        t@[0] == '-',
                        !exists|q: int| is_first_eq(t@, q),
                        group == split_token(t@),
                        group == Seq::new((n - 1) as nat, |i: int| seq!['-', t@[i + 1]]),
                        group.len() == n - 1,
                        strings(out@) == start + group.take(j - 1),
                    decreases n - j,
                {
                    let one = make_short(t.as_str().substring_char(j, j + 1));
                    let ghost prev = out@;
                    out.push(one);
                    proof {
                        assert(strings(out@) =~= strings(prev).push(one@));
                        assert(one@ =~= seq!['-', t@[j as int]]);
                        assert(group[j - 1] == seq!['-', t@[j as int]]);
                        assert(group.take(j as int) =~= group.take(j - 1).push(group[j - 1]));
                    }
                    j = j + 1;
                    assert(strings(out@) =~= start + group.take(j - 1));
                }
                assert(group.take(n - 1) =~= group);
                return ;
            }
        }
    }
    proof {
        if n > 0 && t@[0] == '-' {
            assert(!exists|q: int| is_first_eq(t@, q));
        }
    }
    out.push(t.clone());
    assert(strings(out@) =~= start + split_token(t@));
}

/// Splits `--name=value` and `-x=value` tokens into two, and `-xyz` into
/// `-x`, `-y`, `-z`, keeping the order of the tokens.
pub fn normalized_args(raw_args: Vec<String>) -> (r: Vec<String>)
    ensures
        strings(r@) == normalize(strings(raw_args@)),
{
    let mut out: Vec<String> = Vec::new();
    let mut i: usize = 0;
    while i < raw_args.len()
        invariant
            i <= raw_args@.len(),
            strings(out@) == normalize(strings(raw_args@.take(i as int))),
        decreases raw_args@.len() - i,
    {
        push_split(&raw_args[i], &mut out);
        proof {
            let p = strings(raw_args@.take(i + 1));
            assert(p.drop_last() =~= strings(raw_args@.take(i as int)));
            assert(p.last() == raw_args@[i as int]@);
        }
        i = i + 1;
    }
    assert(raw_args@.take(i as int) =~= raw_args@);
    out
}

} // verus!
