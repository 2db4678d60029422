//! Small executable helpers over strings and characters, with exact
//! sequence-level contracts. Everything else in the crate builds its string
//! results through these.

use vstd::prelude::*;
use vstd::string::StrSliceExecFns;

verus! {

/// `s` ends with the suffix `suffix`.
pub open spec fn seq_ends_with(s: Seq<char>, suffix: Seq<char>) -> bool {
    s.len() >= suffix.len() && s.subrange(s.len() - suffix.len(), s.len() as int) == suffix
}

/// `needle` occurs as a contiguous run inside `hay`.
pub open spec fn seq_contains_seq(hay: Seq<char>, needle: Seq<char>) -> bool {
    exists|i: int|
        0 <= i && i + needle.len() <= hay.len() && #[trigger] hay.subrange(i, i + needle.len())
            == needle
}

/// The views of a list of strings, in order.
pub open spec fn string_views(s: Seq<String>) -> Seq<Seq<char>> {
    s.map_values(|x: String| x@)
}

/// Splitting on spaces, carrying the token built so far. Adjacent spaces
/// yield empty tokens, exactly as splitting does.
pub open spec fn split_spaces_acc(s: Seq<char>, cur: Seq<char>) -> Seq<Seq<char>>
    decreases s.len(),
{
    if s.len() == 0 {
        seq![cur]
    } else if s.first() == ' ' {
        seq![cur] + split_spaces_acc(s.drop_first(), Seq::empty())
    } else {
        split_spaces_acc(s.drop_first(), cur.push(s.first()))
    }
}

/// The space-separated tokens of `s`. The empty string yields one empty
/// token.
pub open spec fn split_spaces(s: Seq<char>) -> Seq<Seq<char>> {
    split_spaces_acc(s, Seq::empty())
}

/// Split a string on single spaces.
pub fn split_on_spaces(s: &str) -> (r: Vec<String>)
    ensures
        string_views(r@) == split_spaces(s@),
{
    let n: usize = s.unicode_len();
    let mut out: Vec<String> = Vec::new();
    let mut cur = String::new();
    proof {
        assert(s@.skip(0) =~= s@);
        assert(string_views(out@) =~= Seq::<Seq<char>>::empty());
        assert(Seq::<Seq<char>>::empty() + split_spaces_acc(s@, Seq::empty()) =~= split_spaces(
            s@,
        ));
    }
    let mut i: usize = 0;
    while i < n
        invariant
            0 <= i <= n,
            n == s@.len(),
            split_spaces(s@) == string_views(out@) + split_spaces_acc(s@.skip(i as int), cur@),
        decreases n - i,
    {
        let c = s.get_char(i);
        proof {
            assert(s@.skip(i as int).first() == s@[i as int]);
            assert(s@.skip(i as int).drop_first() =~= s@.skip(i + 1));
        }
        if c == ' ' {
            let ghost prev_out = out@;
            let ghost prev_cur = cur@;
            out.push(cur);
            cur = String::new();
            proof {
                assert(string_views(out@) =~= string_views(prev_out).push(prev_cur));
                assert(split_spaces_acc(s@.skip(i as int), prev_cur) == seq![prev_cur]
                    + split_spaces_acc(s@.skip(i + 1), Seq::empty()));
                assert(string_views(prev_out) + (seq![prev_cur] + split_spaces_acc(
                    s@.skip(i + 1),
                    Seq::empty(),
                )) =~= string_views(prev_out).push(prev_cur) + split_spaces_acc(
                    s@.skip(i + 1),
                    Seq::empty(),
                ));
            }
        } else {
            push_char(&mut cur, c);
        }
        i = i + 1;
    }
    proof {
        assert(s@.skip(n as int).len() == 0);
        assert(split_spaces_acc(s@.skip(n as int), cur@) == seq![cur@]);
    }
    let ghost prev_out = out@;
    let ghost last_cur = cur@;
    out.push(cur);
    proof {
        assert(string_views(out@) =~= string_views(prev_out).push(last_cur));
        assert(string_views(prev_out) + seq![last_cur] =~= string_views(prev_out).push(last_cur));
    }
    out
}

/// Relies on `String::push` of std: it appends exactly the one character.
#[verifier::external_body]
pub fn push_char(s: &mut String, c: char)
    ensures
        final(s)@ == old(s)@.push(c),
{
    s.push(c);
}

/// Append one string to another; the result is the concatenation of the views.
pub fn append_str(s: &mut String, other: &str)
    ensures
        final(s)@ == old(s)@ + other@,
{
    s.append(other);
}

/// Character-for-character equality of two string slices.
pub fn str_eq(a: &str, b: &str) -> (r: bool)
    ensures
        r == (a@ == b@),
{
    let n: usize = a.unicode_len();
    let m: usize = b.unicode_len();
    if n != m {
        return false;
    }
    let mut i: usize = 0;
    while i < n
        invariant
            0 <= i <= n,
            n == a@.len(),
            n == b@.len(),
            forall|j: int| 0 <= j < i ==> a@[j] == b@[j],
        decreases n - i,
    {
        if a.get_char(i) != b.get_char(i) {
            return false;
        }
        i = i + 1;
    }
    assert(a@ =~= b@);
    true
}

/// Character-for-character suffix test.
pub fn str_ends_with(s: &str, suffix: &str) -> (r: bool)
    ensures
        r == seq_ends_with(s@, suffix@),
{
    let n: usize = s.unicode_len();
    let m: usize = suffix.unicode_len();
    if m > n {
        assert(!seq_ends_with(s@, suffix@));
        return false;
    }
    let offset: usize = n - m;
    let mut i: usize = 0;
    while i < m
        invariant
            0 <= i <= m,
            m <= n,
            offset == n - m,
            n == s@.len(),
            m == suffix@.len(),
            forall|j: int| 0 <= j < i ==> s@[offset + j] == suffix@[j],
        decreases m - i,
    {
        if s.get_char(offset + i) != suffix.get_char(i) {
            assert(s@.subrange(n - m, n as int)[i as int] != suffix@[i as int]);
            return false;
        }
        i = i + 1;
    }
    assert(s@.subrange(n - m, n as int) =~= suffix@);
    true
}

} // verus!
