use vstd::prelude::*;

verus! {

broadcast use vstd::string::group_string_axioms;

/// `s` with every non-overlapping occurrence of `pat`, found from left to
/// right, replaced by the single character `rep`.
pub open spec fn replaced(s: Seq<char>, pat: Seq<char>, rep: char) -> Seq<char>
    decreases s.len(),
{
    if pat.len() == 0 || s.len() < pat.len() {
        s
    } else if s.take(pat.len() as int) == pat {
        seq![rep] + replaced(s.skip(pat.len() as int), pat, rep)
    } else {
        seq![s[0]] + replaced(s.skip(1), pat, rep)
    }
}

/// `s` after the replacements of `table`, applied one after another in order.
pub open spec fn apply_table(s: Seq<char>, table: Seq<(Seq<char>, char)>) -> Seq<char>
    decreases table.len(),
{
    if table.len() == 0 {
        s
    } else {
        replaced(apply_table(s, table.drop_last()), table.last().0, table.last().1)
    }
}

/// Replacing never lengthens a text.
pub proof fn lemma_replaced_len(s: Seq<char>, pat: Seq<char>, rep: char)
    requires
        pat.len() > 0,
    ensures
        replaced(s, pat, rep).len() <= s.len(),
    decreases s.len(),
{
    if s.len() >= pat.len() {
        if s.take(pat.len() as int) == pat {
            lemma_replaced_len(s.skip(pat.len() as int), pat, rep);
        } else {
            lemma_replaced_len(s.skip(1), pat, rep);
        }
    }
}

/// Applying a table of replacements never lengthens a text.
pub proof fn lemma_apply_table_len(s: Seq<char>, table: Seq<(Seq<char>, char)>)
    requires
        forall|k: int| 0 <= k < table.len() ==> (#[trigger] table[k]).0.len() > 0,
    ensures
        apply_table(s, table).len() <= s.len(),
    decreases table.len(),
{
    if table.len() > 0 {
        let rest = table.drop_last();
        assert forall|k: int| 0 <= k < rest.len() implies (#[trigger] rest[k]).0.len() > 0 by {
            assert(rest[k] == table[k]);
        }
        lemma_apply_table_len(s, rest);
        lemma_replaced_len(apply_table(s, rest), table.last().0, table.last().1);
    }
}

/// `s` holds no two consecutive copies of `c`.
pub open spec fn no_double(s: Seq<char>, c: char) -> bool {
    forall|i: int| #![trigger s[i]] 0 <= i < s.len() - 1 ==> !(s[i] == c && s[i + 1] == c)
}

/// A replaced text starts with the replacement or with the text's first
/// character.
pub proof fn lemma_replaced_first(t: Seq<char>, pat: Seq<char>, rep: char)
    requires
        pat.len() > 0,
        t.len() > 0,
    ensures
        replaced(t, pat, rep).len() > 0,
        replaced(t, pat, rep)[0] == rep || replaced(t, pat, rep)[0] == t[0],
{
}

/// Replacing a doubled `l` by a character other than `m` leaves no doubled
/// `m` where there was none, and leaves no doubled `l` at all.
pub proof fn lemma_replaced_no_double(s: Seq<char>, l: char, rep: char, m: char)
    requires
        rep != m,
        m == l || no_double(s, m),
    ensures
        no_double(replaced(s, seq![l, l], rep), m),
    decreases s.len(),
{
    let pat = seq![l, l];
    let out = replaced(s, pat, rep);
    if s.len() < 2 {
    } else if s.take(2) == pat {
        let t = s.skip(2);
        if m != l {
            assert forall|i: int| #![trigger t[i]] 0 <= i < t.len() - 1 implies !(t[i] == m && t[i + 1]
                == m) by {
                assert(t[i] == s[i + 2] && t[i + 1] == s[i + 3]);
            }
        }
        lemma_replaced_no_double(t, l, rep, m);
        let r = replaced(t, pat, rep);
        assert(out == seq![rep] + r);
        assert forall|i: int| #![trigger out[i]] 0 <= i < out.len() - 1 implies !(out[i] == m && out[i
            + 1] == m) by {
            if i > 0 {
                assert(out[i] == r[i - 1] && out[i + 1] == r[i]);
            }
        }
    } else {
        let t = s.skip(1);
        if m != l {
            assert forall|i: int| #![trigger t[i]] 0 <= i < t.len() - 1 implies !(t[i] == m && t[i + 1]
                == m) by {
                assert(t[i] == s[i + 1] && t[i + 1] == s[i + 2]);
            }
        }
        lemma_replaced_no_double(t, l, rep, m);
        let r = replaced(t, pat, rep);
        assert(out == seq![s[0]] + r);
        lemma_replaced_first(t, pat, rep);
        assert forall|i: int| #![trigger out[i]] 0 <= i < out.len() - 1 implies !(out[i] == m && out[i
            + 1] == m) by {
            if i > 0 {
                assert(out[i] == r[i - 1] && out[i + 1] == r[i]);
            } else {
                if out[0] == m && out[1] == m {
                    assert(r[0] == m);
                    assert(r[0] == t[0]);
                    assert(s[0] == m && s[1] == m);
                    if m == l {
                        assert(s.take(2) =~= pat);
                    } else {
                        assert(s[0int] == m && s[0int + 1] == m);
                    }
                }
            }
        }
    }
}

/// Appends one character to a string.
/// Calls `String::push`, which appends the character at the end of the string.
#[verifier::external_body]
fn push_char(s: &mut String, c: char)
    ensures
        final(s)@ == old(s)@.push(c),
{
    s.push(c)
}

/// The characters of `s`, in order.
pub fn chars_of(s: &String) -> (v: Vec<char>)
    ensures
        v@ == s@,
{
    let mut v: Vec<char> = Vec::new();
    for c in it: s.as_str().chars()
        invariant
            it.seq() == s@,
            v@ == it.seq().take(it.index() as int),
    {
        v.push(c);
    }
    v
}

/// The string made of the characters of `v`, in order.
pub fn string_of(v: &Vec<char>) -> (s: String)
    ensures
        s@ == v@,
{
    let mut s = String::new();
    let mut i: usize = 0;
    while i < v.len()
        invariant
            i <= v.len(),
            s@ == v@.take(i as int),
        decreases v.len() - i,
    {
        push_char(&mut s, v[i]);
        assert(v@.take(i + 1) =~= v@.take(i as int).push(v@[i as int]));
        i += 1;
    }
    assert(v@.take(v.len() as int) =~= v@);
    s
}

/// Whether `pat` occurs in `s` at index `i`.
fn matches_at(s: &Vec<char>, pat: &Vec<char>, i: usize) -> (r: bool)
    requires
        i + pat.len() <= s.len(),
    ensures
        r == (s@.skip(i as int).take(pat.len() as int) == pat@),
{
    let mut j: usize = 0;
    while j < pat.len()
        invariant
            j <= pat.len(),
            i + pat.len() <= s.len(),
            forall|k: int| 0 <= k < j ==> s@[i + k] == pat@[k],
        decreases pat.len() - j,
    {
        if s[i + j] != pat[j] {
            assert(s@.skip(i as int).take(pat.len() as int)[j as int] != pat@[j as int]);
            return false;
        }
        j += 1;
    }
    assert(s@.skip(i as int).take(pat.len() as int) =~= pat@);
    true
}

/// Replaces, from left to right, every non-overlapping occurrence of `pat`
/// in `s` by `rep`.
pub fn replace_all(s: &Vec<char>, pat: &Vec<char>, rep: char) -> (r: Vec<char>)
    requires
        pat.len() > 0,
    ensures
        r@ == replaced(s@, pat@, rep),
{
    let n = s.len();
    let plen = pat.len();
    let mut out: Vec<char> = Vec::new();
    let mut i: usize = 0;
    assert(s@.skip(0) =~= s@);
    assert(out@ + replaced(s@, pat@, rep) =~= replaced(s@, pat@, rep));
    while i < n
        invariant
            n == s.len(),
            plen == pat.len(),
            plen > 0,
            i <= n,
            replaced(s@, pat@, rep) == out@ + replaced(s@.skip(i as int), pat@, rep),
        decreases n - i,
    {
        let ghost t = s@.skip(i as int);
        if plen <= n - i && matches_at(s, pat, i) {
            assert(t.skip(plen as int) =~= s@.skip(i + plen));
            out.push(rep);
            assert(out@ + replaced(s@.skip(i + plen), pat@, rep) =~= out@.drop_last() + (seq![rep]
                + replaced(t.skip(plen as int), pat@, rep)));
            i = i + plen;
        } else {
            assert(t.skip(1) =~= s@.skip(i + 1));
            assert(t[0] == s@[i as int]);
            proof {
                if t.len() < plen {
                    assert(replaced(t.skip(1), pat@, rep) == t.skip(1));
                    assert(t =~= seq![t[0]] + t.skip(1));
                }
            }
            out.push(s[i]);
            assert(out@ + replaced(s@.skip(i + 1), pat@, rep) =~= out@.drop_last() + (seq![t[0]]
                + replaced(t.skip(1), pat@, rep)));
            i = i + 1;
        }
    }
    assert(s@.skip(n as int) =~= Seq::<char>::empty());
    assert(out@ + Seq::<char>::empty() =~= out@);
    out
}

} // verus!
