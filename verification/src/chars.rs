//! Characters and strings: whitespace classification, trimming, and a
//! verified character-wise string comparison.

use vstd::prelude::*;
use vstd::string::StrSliceExecFns;

verus! {

broadcast use {vstd::seq::group_seq_axioms, vstd::string::group_string_axioms};

/// A whitespace character, the set that trimming goes by.
pub open spec fn is_space(c: char) -> bool {
    ||| (0x09 <= c as u32 && c as u32 <= 0x0D)
    ||| c as u32 == 0x20
    ||| c as u32 == 0x85
    ||| c as u32 == 0xA0
    ||| c as u32 == 0x1680
    ||| (0x2000 <= c as u32 && c as u32 <= 0x200A)
    ||| c as u32 == 0x2028
    ||| c as u32 == 0x2029
    ||| c as u32 == 0x202F
    ||| c as u32 == 0x205F
    ||| c as u32 == 0x3000
}

/// Whether every character of `s` is whitespace; an empty sequence counts.
pub open spec fn all_space(s: Seq<char>) -> bool {
    forall|i: int| 0 <= i < s.len() ==> is_space(#[trigger] s[i])
}

/// `s` with its leading whitespace removed.
pub open spec fn trim_start_model(s: Seq<char>) -> Seq<char>
    decreases s.len(),
{
    if s.len() > 0 && is_space(s[0]) {
        trim_start_model(s.drop_first())
    } else {
        s
    }
}

/// `s` with its trailing whitespace removed.
pub open spec fn trim_end_model(s: Seq<char>) -> Seq<char>
    decreases s.len(),
{
    if s.len() > 0 && is_space(s.last()) {
        trim_end_model(s.drop_last())
    } else {
        s
    }
}

/// `s` with leading and trailing whitespace removed.
pub open spec fn trimmed(s: Seq<char>) -> Seq<char> {
    trim_end_model(trim_start_model(s))
}

pub fn is_space_char(c: char) -> (r: bool)
    ensures
        r == is_space(c),
{
    let u = c as u32;
    (0x09 <= u && u <= 0x0D) || u == 0x20 || u == 0x85 || u == 0xA0 || u == 0x1680 || (0x2000 <= u
        && u <= 0x200A) || u == 0x2028 || u == 0x2029 || u == 0x202F || u == 0x205F || u == 0x3000
}

/// Whether the whole of `s` is whitespace, i.e. its trimmed content is empty.
pub fn is_blank(s: &str) -> (r: bool)
    ensures
        r == all_space(s@),
{
    let n = s.unicode_len();
    let mut i: usize = 0;
    while i < n
        invariant
            n == s@.len(),
            i <= n,
            forall|j: int| 0 <= j < i ==> is_space(#[trigger] s@[j]),
        decreases n - i,
    {
        if !is_space_char(s.get_char(i)) {
            assert(!is_space(s@[i as int]));
            return false;
        }
        i += 1;
    }
    true
}

/// Character-wise equality of two strings.
pub fn str_eq(a: &str, b: &str) -> (r: bool)
    ensures
        r == (a@ == b@),
{
    let n = a.unicode_len();
    if n != b.unicode_len() {
        return false;
    }
    let mut i: usize = 0;
    while i < n
        invariant
            n == a@.len(),
            n == b@.len(),
            i <= n,
            forall|j: int| 0 <= j < i ==> a@[j] == b@[j],
        decreases n - i,
    {
        if a.get_char(i) != b.get_char(i) {
            assert(a@[i as int] != b@[i as int]);
            return false;
        }
        i += 1;
    }
    assert(a@ =~= b@);
    true
}

proof fn lemma_trim_start_skip(s: Seq<char>, f: int)
    requires
        0 <= f <= s.len(),
        forall|j: int| 0 <= j < f ==> is_space(#[trigger] s[j]),
        f == s.len() || !is_space(s[f]),
    ensures
        trim_start_model(s) == s.skip(f),
    decreases f,
{
    if f == 0 {
        assert(s.skip(0) =~= s);
    } else {
        assert(is_space(s[0]));
        lemma_trim_start_skip(s.drop_first(), f - 1);
        assert(s.drop_first().skip(f - 1) =~= s.skip(f));
    }
}

proof fn lemma_trim_end_take(s: Seq<char>, l: int)
    requires
        0 <= l <= s.len(),
        forall|j: int| l <= j < s.len() ==> is_space(#[trigger] s[j]),
        l == 0 || !is_space(s[l - 1]),
    ensures
        trim_end_model(s) == s.take(l),
    decreases s.len(),
{
    if l == s.len() {
        if s.len() > 0 && is_space(s.last()) {
            assert(false);
        }
        assert(s.take(l) =~= s);
    } else {
        assert(is_space(s.last()));
        lemma_trim_end_take(s.drop_last(), l);
        assert(s.drop_last().take(l) =~= s.take(l));
    }
}

/// `s` with leading and trailing whitespace removed, as `trimmed` states.
pub fn trim_str<'a>(s: &'a str) -> (r: &'a str)
    ensures
        r@ == trimmed(s@),
{
    let n = s.unicode_len();
    let mut f: usize = 0;
    while f < n && is_space_char(s.get_char(f))
        invariant
            n == s@.len(),
            f <= n,
            forall|j: int| 0 <= j < f ==> is_space(#[trigger] s@[j]),
        decreases n - f,
    {
        f += 1;
    }
    if f == n {
        proof {
            lemma_trim_start_skip(s@, f as int);
            assert(s@.skip(n as int) =~= Seq::<char>::empty());
            assert(trim_end_model(Seq::<char>::empty()) =~= Seq::<char>::empty());
        }
        let r = s.substring_char(n, n);
        proof {
            assert(r@ =~= trimmed(s@));
        }
        return r;
    }
    let mut l: usize = n;
    while l > f + 1 && is_space_char(s.get_char(l - 1))
        invariant
            n == s@.len(),
            f < n,
            !is_space(s@[f as int]),
            f + 1 <= l <= n,
            forall|j: int| l <= j < n ==> is_space(#[trigger] s@[j]),
        decreases l,
    {
        l -= 1;
    }
    // Here either l == f + 1, or s@[l - 1] is not whitespace; in the first
    // case s@[f] itself is not whitespace, so both give a non-space last char.
    proof {
        lemma_trim_start_skip(s@, f as int);
        let t = s@.skip(f as int);
        lemma_trim_end_take(t, l - f);
        assert(t.take(l - f) =~= s@.subrange(f as int, l as int));
    }
    s.substring_char(f, l)
}

} // verus!
