//! The canonical order of merge entries: by module name, then by contents,
//! each compared lexicographically.

use vstd::prelude::*;
use vstd::relations::{sorted_by, total_ordering};
use vstd::string::StrSliceExecFns;

verus! {

/// `a` comes before `b`, or equals it, in lexicographic order.
pub open spec fn lex_le(a: Seq<int>, b: Seq<int>) -> bool
    decreases a.len(),
{
    if a.len() == 0 {
        true
    } else if b.len() == 0 {
        false
    } else if a[0] < b[0] {
        true
    } else if a[0] > b[0] {
        false
    } else {
        lex_le(a.drop_first(), b.drop_first())
    }
}

/// A name as a sequence of code points.
pub open spec fn char_key(s: Seq<char>) -> Seq<int> {
    s.map_values(|c: char| c as int)
}

/// Contents as a sequence of numbers.
pub open spec fn word_key(s: Seq<u64>) -> Seq<int> {
    s.map_values(|w: u64| w as int)
}

/// The order of merge entries: by name, and by contents where the names agree.
pub open spec fn entry_le(x: (Seq<char>, Seq<u64>), y: (Seq<char>, Seq<u64>)) -> bool {
    if x.0 == y.0 {
        lex_le(word_key(x.1), word_key(y.1))
    } else {
        lex_le(char_key(x.0), char_key(y.0))
    }
}

/// The entries are in canonical order.
pub open spec fn sorted_entries(s: Seq<(Seq<char>, Seq<u64>)>) -> bool {
    forall|i: int, j: int| 0 <= i < j < s.len() ==> #[trigger] entry_le(s[i], s[j])
}

proof fn lemma_lex_refl(a: Seq<int>)
    ensures
        lex_le(a, a),
    decreases a.len(),
{
    if a.len() > 0 {
        lemma_lex_refl(a.drop_first());
    }
}

proof fn lemma_lex_antisym(a: Seq<int>, b: Seq<int>)
    requires
        lex_le(a, b),
        lex_le(b, a),
    ensures
        a == b,
    decreases a.len(),
{
    if a.len() > 0 && b.len() > 0 {
        lemma_lex_antisym(a.drop_first(), b.drop_first());
        assert(a =~= seq![a[0]] + a.drop_first());
        assert(b =~= seq![b[0]] + b.drop_first());
    }
    assert(a =~= b);
}

proof fn lemma_lex_trans(a: Seq<int>, b: Seq<int>, c: Seq<int>)
    requires
        lex_le(a, b),
        lex_le(b, c),
    ensures
        lex_le(a, c),
    decreases a.len(),
{
    if a.len() > 0 && b.len() > 0 && c.len() > 0 && a[0] == b[0] && b[0] == c[0] {
        lemma_lex_trans(a.drop_first(), b.drop_first(), c.drop_first());
    }
}

proof fn lemma_lex_total(a: Seq<int>, b: Seq<int>)
    ensures
        lex_le(a, b) || lex_le(b, a),
    decreases a.len(),
{
    if a.len() > 0 && b.len() > 0 {
        lemma_lex_total(a.drop_first(), b.drop_first());
    }
}

proof fn lemma_lex_skip(a: Seq<int>, b: Seq<int>, i: int)
    requires
        0 <= i <= a.len(),
        i <= b.len(),
        a.take(i) == b.take(i),
    ensures
        lex_le(a, b) == lex_le(a.skip(i), b.skip(i)),
    decreases i,
{
    if i > 0 {
        assert(a[0] == a.take(i)[0]);
        assert(b[0] == b.take(i)[0]);
        assert(a.drop_first().take(i - 1) =~= a.take(i).drop_first());
        assert(b.drop_first().take(i - 1) =~= b.take(i).drop_first());
        lemma_lex_skip(a.drop_first(), b.drop_first(), i - 1);
        assert(a.drop_first().skip(i - 1) =~= a.skip(i));
        assert(b.drop_first().skip(i - 1) =~= b.skip(i));
    } else {
        assert(a.skip(0) =~= a);
        assert(b.skip(0) =~= b);
    }
}

proof fn lemma_char_key_injective(s: Seq<char>, t: Seq<char>)
    requires
        char_key(s) == char_key(t),
    ensures
        s == t,
{
    assert(s.len() == char_key(s).len());
    assert(t.len() == char_key(t).len());
    assert forall|i: int| 0 <= i < s.len() implies s[i] == t[i] by {
        assert(char_key(s)[i] == char_key(t)[i]);
        assert(char_key(s)[i] == s[i] as int);
        assert(char_key(t)[i] == t[i] as int);
    }
    assert(s =~= t);
}

proof fn lemma_word_key_injective(s: Seq<u64>, t: Seq<u64>)
    requires
        word_key(s) == word_key(t),
    ensures
        s == t,
{
    assert(s.len() == word_key(s).len());
    assert(t.len() == word_key(t).len());
    assert forall|i: int| 0 <= i < s.len() implies s[i] == t[i] by {
        assert(word_key(s)[i] == word_key(t)[i]);
        assert(word_key(s)[i] == s[i] as int);
        assert(word_key(t)[i] == t[i] as int);
    }
    assert(s =~= t);
}

/// The order of merge entries is a total order.
pub proof fn lemma_entry_total_ordering()
    ensures
        total_ordering(|x: (Seq<char>, Seq<u64>), y: (Seq<char>, Seq<u64>)| entry_le(x, y)),
{
    let r = |x: (Seq<char>, Seq<u64>), y: (Seq<char>, Seq<u64>)| entry_le(x, y);
    assert forall|x: (Seq<char>, Seq<u64>)| #[trigger] r(x, x) by {
        lemma_lex_refl(word_key(x.1));
    }
    assert forall|x: (Seq<char>, Seq<u64>), y: (Seq<char>, Seq<u64>)| #[trigger] r(x, y) && #[trigger] r(y, x) implies x
        == y by {
        if x.0 == y.0 {
            lemma_lex_antisym(word_key(x.1), word_key(y.1));
            lemma_word_key_injective(x.1, y.1);
        } else {
            lemma_lex_antisym(char_key(x.0), char_key(y.0));
            lemma_char_key_injective(x.0, y.0);
        }
    }
    assert forall|x: (Seq<char>, Seq<u64>), y: (Seq<char>, Seq<u64>), z: (Seq<char>, Seq<u64>)| #[trigger] r(x, y)
        && #[trigger] r(y, z) implies r(x, z) by {
        lemma_entry_trans(x, y, z);
    }
    assert forall|x: (Seq<char>, Seq<u64>), y: (Seq<char>, Seq<u64>)| #[trigger] r(x, y) || #[trigger] r(y, x) by {
        lemma_lex_total(word_key(x.1), word_key(y.1));
        lemma_lex_total(char_key(x.0), char_key(y.0));
    }
}

pub(crate) proof fn lemma_entry_total(x: (Seq<char>, Seq<u64>), y: (Seq<char>, Seq<u64>))
    ensures
        entry_le(x, y) || entry_le(y, x),
{
    lemma_lex_total(word_key(x.1), word_key(y.1));
    lemma_lex_total(char_key(x.0), char_key(y.0));
}

pub(crate) proof fn lemma_entry_trans(x: (Seq<char>, Seq<u64>), y: (Seq<char>, Seq<u64>), z: (Seq<char>, Seq<u64>))
    requires
        entry_le(x, y),
        entry_le(y, z),
    ensures
        entry_le(x, z),
{
    if x.0 == y.0 && y.0 == z.0 {
        lemma_lex_trans(word_key(x.1), word_key(y.1), word_key(z.1));
    } else if x.0 == y.0 {
    } else if y.0 == z.0 {
    } else {
        lemma_lex_trans(char_key(x.0), char_key(y.0), char_key(z.0));
        if x.0 == z.0 {
            lemma_lex_antisym(char_key(x.0), char_key(y.0));
            lemma_char_key_injective(x.0, y.0);
        }
    }
}

/// Entries in canonical order that hold the same entries are the same sequence.
pub proof fn lemma_sorted_entries_unique(s: Seq<(Seq<char>, Seq<u64>)>, t: Seq<(Seq<char>, Seq<u64>)>)
    requires
        sorted_entries(s),
        sorted_entries(t),
        s.to_multiset() == t.to_multiset(),
    ensures
        s == t,
{
    let r = |x: (Seq<char>, Seq<u64>), y: (Seq<char>, Seq<u64>)| entry_le(x, y);
    lemma_entry_total_ordering();
    assert(sorted_by(s, r));
    assert(sorted_by(t, r));
    vstd::seq_lib::lemma_sorted_unique(s, t, r);
}

/// Compares two names in the order of their code points.
pub fn names_le(a: &str, b: &str) -> (r: bool)
    ensures
        r == lex_le(char_key(a@), char_key(b@)),
{
    let la = a.unicode_len();
    let lb = b.unicode_len();
    let ghost ka = char_key(a@);
    let ghost kb = char_key(b@);
    let mut i: usize = 0;
    while i < la && i < lb
        invariant
            la == a@.len(),
            lb == b@.len(),
            ka == char_key(a@),
            kb == char_key(b@),
            i <= la,
            i <= lb,
            ka.take(i as int) == kb.take(i as int),
        decreases la - i,
    {
        let ca = a.get_char(i) as u32;
        let cb = b.get_char(i) as u32;
        proof {
            lemma_lex_skip(ka, kb, i as int);
            assert(ka.skip(i as int)[0] == ka[i as int]);
            assert(kb.skip(i as int)[0] == kb[i as int]);
        }
        if ca < cb {
            return true;
        }
        if ca > cb {
            return false;
        }
        assert(ka.take(i + 1) =~= ka.take(i as int).push(ka[i as int]));
        assert(kb.take(i + 1) =~= kb.take(i as int).push(kb[i as int]));
        i = i + 1;
    }
    proof {
        lemma_lex_skip(ka, kb, i as int);
    }
    la <= lb
}

/// Compares two module contents lexicographically.
pub fn words_le(a: &Vec<u64>, b: &Vec<u64>) -> (r: bool)
    ensures
        r == lex_le(word_key(a@), word_key(b@)),
{
    let la = a.len();
    let lb = b.len();
    let ghost ka = word_key(a@);
    let ghost kb = word_key(b@);
    let mut i: usize = 0;
    while i < la && i < lb
        invariant
            la == a@.len(),
            lb == b@.len(),
            ka == word_key(a@),
            kb == word_key(b@),
            i <= la,
            i <= lb,
            ka.take(i as int) == kb.take(i as int),
        decreases la - i,
    {
        let ca = a[i];
        let cb = b[i];
        proof {
            lemma_lex_skip(ka, kb, i as int);
            assert(ka.skip(i as int)[0] == ka[i as int]);
            assert(kb.skip(i as int)[0] == kb[i as int]);
        }
        if ca < cb {
            return true;
        }
        if ca > cb {
            return false;
        }
        assert(ka.take(i + 1) =~= ka.take(i as int).push(ka[i as int]));
        assert(kb.take(i + 1) =~= kb.take(i as int).push(kb[i as int]));
        i = i + 1;
    }
    proof {
        lemma_lex_skip(ka, kb, i as int);
    }
    la <= lb
}

/// Compares two merge entries in canonical order.
pub fn entry_le_exec(a_name: &String, a_data: &Vec<u64>, b_name: &String, b_data: &Vec<u64>) -> (r: bool)
    ensures
        r == entry_le((a_name@, a_data@), (b_name@, b_data@)),
{
    if a_name.eq(b_name) {
        words_le(a_data, b_data)
    } else {
        names_le(a_name.as_str(), b_name.as_str())
    }
}

} // verus!
