//! Character-sequence helpers shared by the policy engine and the codec.

use vstd::prelude::*;

verus! {

use vstd::std_specs::iter::IteratorSpec;

broadcast use vstd::string::group_string_axioms;

/// Collects the characters of a string slice into a vector.
pub fn str_to_chars(s: &str) -> (r: Vec<char>)
    ensures
        r@ == s@,
{
    let mut out: Vec<char> = Vec::new();
    let mut it = s.chars();
    let ghost mut taken: int = 0;
    loop
        invariant
            0 <= taken <= s@.len(),
            it.obeys_prophetic_iter_laws(),
            it.remaining() =~= s@.skip(taken),
            out@ =~= s@.take(taken),
        decreases s@.len() - taken,
    {
        match it.next() {
            Some(c) => {
                out.push(c);
                proof {
                    taken = taken + 1;
                }
            },
            None => {
                assert(s@.skip(taken).len() == 0);
                assert(out@ =~= s@);
                return out;
            },
        }
    }
}

/// Appends the characters of `s` to `out`.
pub fn push_str_chars(out: &mut Vec<char>, s: &str)
    ensures
        final(out)@ == old(out)@ + s@,
{
    let mut it = s.chars();
    let ghost mut taken: int = 0;
    loop
        invariant
            0 <= taken <= s@.len(),
            it.obeys_prophetic_iter_laws(),
            it.remaining() =~= s@.skip(taken),
            out@ =~= old(out)@ + s@.take(taken),
        decreases s@.len() - taken,
    {
        match it.next() {
            Some(c) => {
                out.push(c);
                proof {
                    taken = taken + 1;
                }
            },
            None => {
                assert(s@.skip(taken).len() == 0);
                assert(out@ =~= old(out)@ + s@);
                return ;
            },
        }
    }
}

/// True iff `sub` occurs in `s` starting at position `i`.
pub open spec fn occurs_at(s: Seq<char>, sub: Seq<char>, i: int) -> bool {
    &&& 0 <= i
    &&& i + sub.len() <= s.len()
    &&& s.subrange(i, i + sub.len()) == sub
}

/// True iff `sub` occurs somewhere in `s`.
pub open spec fn contains_seq(s: Seq<char>, sub: Seq<char>) -> bool {
    exists|i: int| occurs_at(s, sub, i)
}

/// True iff `c` occurs in `s`.
pub open spec fn contains_char(s: Seq<char>, c: char) -> bool {
    exists|i: int| 0 <= i < s.len() && s[i] == c
}

/// Scans a string slice for one character.
pub fn str_contains_char(s: &str, c: char) -> (r: bool)
    ensures
        r == contains_char(s@, c),
{
    let chars = str_to_chars(s);
    let mut k: usize = 0;
    while k < chars.len()
        invariant
            chars@ == s@,
            0 <= k <= chars@.len(),
            forall|i: int| 0 <= i < k ==> s@[i] != c,
        decreases chars@.len() - k,
    {
        if chars[k] == c {
            return true;
        }
        k = k + 1;
    }
    false
}

/// Character-by-character string equality.
pub fn str_eq(a: &str, b: &str) -> (r: bool)
    ensures
        r == (a@ == b@),
{
    let ac = str_to_chars(a);
    let bc = str_to_chars(b);
    if ac.len() != bc.len() {
        return false;
    }
    let mut i: usize = 0;
    while i < ac.len()
        invariant
            ac@ == a@,
            bc@ == b@,
            ac@.len() == bc@.len(),
            0 <= i <= ac@.len(),
            forall|j: int| 0 <= j < i ==> a@[j] == b@[j],
        decreases ac@.len() - i,
    {
        if ac[i] != bc[i] {
            return false;
        }
        i = i + 1;
    }
    proof {
        assert(a@ =~= b@);
    }
    true
}

/// Naive substring search over character vectors.
pub fn chars_contain_seq(s: &Vec<char>, sub: &Vec<char>) -> (r: bool)
    ensures
        r == contains_seq(s@, sub@),
{
    let n = s.len();
    let m = sub.len();
    if m > n {
        proof {
            if contains_seq(s@, sub@) {
                let k = choose|k: int| occurs_at(s@, sub@, k);
                assert(k + sub@.len() <= s@.len());
            }
        }
        return false;
    }
    let mut i: usize = 0;
    while i <= n - m
        invariant
            n == s@.len(),
            m == sub@.len(),
            m <= n,
            0 <= i <= n - m + 1,
            forall|k: int| 0 <= k < i ==> !occurs_at(s@, sub@, k),
        decreases n - i,
    {
        let mut j: usize = 0;
        let mut all: bool = true;
        while j < m
            invariant
                n == s@.len(),
                m == sub@.len(),
                m <= n,
                0 <= i <= n - m,
                0 <= j <= m,
                all == forall|k: int| 0 <= k < j ==> s@[i + k] == sub@[k],
            decreases m - j,
        {
            if s[i + j] != sub[j] {
                all = false;
                j = m;
            } else {
                assert(s@[i + j] == sub@[j as int]);
                j = j + 1;
            }
        }
        if all {
            assert(s@.subrange(i as int, i + sub@.len()) =~= sub@);
            assert(occurs_at(s@, sub@, i as int));
            return true;
        }
        proof {
            if occurs_at(s@, sub@, i as int) {
                assert(forall|k: int| 0 <= k < sub@.len()
                    ==> s@[i + k] == #[trigger] s@.subrange(i as int, i + sub@.len())[k]);
                assert(false);
            }
        }
        i = i + 1;
    }
    proof {
        if contains_seq(s@, sub@) {
            let k = choose|k: int| occurs_at(s@, sub@, k);
            assert(k + sub@.len() <= s@.len());
            assert(!occurs_at(s@, sub@, k));
        }
    }
    false
}

/// The argv elements joined by single spaces.
pub open spec fn join_spaces(parts: Seq<Seq<char>>) -> Seq<char>
    decreases parts.len(),
{
    if parts.len() == 0 {
        Seq::empty()
    } else if parts.len() == 1 {
        parts[0]
    } else {
        parts[0] + seq![' '] + join_spaces(parts.drop_first())
    }
}

/// Extending the joined sequence by one element appends a space and the
/// element, except when the sequence was empty.
pub proof fn lemma_join_spaces_push(parts: Seq<Seq<char>>, x: Seq<char>)
    ensures
        parts.len() == 0 ==> join_spaces(parts.push(x)) =~= x,
        parts.len() > 0 ==> join_spaces(parts.push(x)) =~= join_spaces(parts) + seq![' '] + x,
    decreases parts.len(),
{
    if parts.len() == 0 {
        assert(parts.push(x)[0] == x);
    } else if parts.len() == 1 {
        assert(parts.push(x)[0] == parts[0]);
        assert(parts.push(x).drop_first() =~= seq![x]);
        assert(join_spaces(seq![x]) == x);
    } else {
        lemma_join_spaces_push(parts.drop_first(), x);
        assert(parts.push(x)[0] == parts[0]);
        assert(parts.push(x).drop_first() =~= parts.drop_first().push(x));
        assert(join_spaces(parts.push(x)) == parts[0] + seq![' ']
            + join_spaces(parts.drop_first().push(x)));
    }
}

/// Joins string elements with single spaces, as the glob matcher sees argv.
pub fn join_with_spaces(parts: &Vec<String>) -> (r: Vec<char>)
    ensures
        r@ == join_spaces(parts.deep_view()),
{
    let mut out: Vec<char> = Vec::new();
    let mut k: usize = 0;
    while k < parts.len()
        invariant
            0 <= k <= parts@.len(),
            parts.deep_view().len() == parts@.len(),
            forall|i: int| 0 <= i < parts@.len() ==> parts.deep_view()[i] == parts@[i]@,
            out@ =~= join_spaces(parts.deep_view().take(k as int)),
        decreases parts@.len() - k,
    {
        if k > 0 {
            out.push(' ');
        }
        push_str_chars(&mut out, parts[k].as_str());
        proof {
            lemma_join_spaces_push(parts.deep_view().take(k as int), parts.deep_view()[k as int]);
            assert(parts.deep_view().take(k + 1) =~= parts.deep_view().take(k as int).push(
                parts.deep_view()[k as int],
            ));
        }
        k = k + 1;
    }
    proof {
        assert(parts.deep_view().take(parts@.len() as int) =~= parts.deep_view());
    }
    out
}

} // verus!
