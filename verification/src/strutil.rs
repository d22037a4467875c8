//! String utilities shared by the whole crate: conversion between `String`
//! and `Vec<char>`, decimal formatting, lexicographic order, substring search
//! and replacement, and splitting into lines.

use vstd::prelude::*;

verus! {

/// Relies on std's String::push: appends exactly one character at the end.
#[verifier::external_body]
pub fn push_char(s: &mut String, c: char)
    ensures
        final(s)@ == old(s)@.push(c),
{
    s.push(c);
}

/// The characters of `s`, as an indexable vector.
pub fn str_to_chars(s: &str) -> (r: Vec<char>)
    ensures
        r@ == s@,
{
    let n: usize = s.unicode_len();
    let mut r: Vec<char> = Vec::new();
    let mut i: usize = 0;
    while i < n
        invariant
            i <= n,
            n == s@.len(),
            r@ == s@.subrange(0, i as int),
        decreases n - i,
    {
        r.push(s.get_char(i));
        i = i + 1;
        proof {
            assert(r@ =~= s@.subrange(0, i as int));
        }
    }
    proof {
        assert(r@ =~= s@);
    }
    r
}

/// A `String` holding exactly the characters of `v`.
pub fn chars_to_string(v: &Vec<char>) -> (r: String)
    ensures
        r@ == v@,
{
    let mut r = String::new();
    let mut i: usize = 0;
    while i < v.len()
        invariant
            i <= v.len(),
            r@ == v@.subrange(0, i as int),
        decreases v.len() - i,
    {
        push_char(&mut r, v[i]);
        i = i + 1;
        proof {
            assert(r@ =~= v@.subrange(0, i as int));
        }
    }
    proof {
        assert(r@ =~= v@);
    }
    r
}

/// Exact character-sequence equality, decided executably.
pub fn chars_eq(a: &Vec<char>, b: &Vec<char>) -> (r: bool)
    ensures
        r == (a@ == b@),
{
    if a.len() != b.len() {
        proof {
            assert(a@.len() != b@.len());
        }
        return false;
    }
    let mut i: usize = 0;
    while i < a.len()
        invariant
            i <= a.len(),
            a@.len() == b@.len(),
            forall|j: int| 0 <= j < i ==> a@[j] == b@[j],
        decreases a.len() - i,
    {
        if a[i] != b[i] {
            return false;
        }
        i = i + 1;
    }
    proof {
        assert(a@ =~= b@);
    }
    true
}

/// The decimal digit `d` as a character.
pub open spec fn digit_char(d: nat) -> char {
    if d == 0 {
        '0'
    } else if d == 1 {
        '1'
    } else if d == 2 {
        '2'
    } else if d == 3 {
        '3'
    } else if d == 4 {
        '4'
    } else if d == 5 {
        '5'
    } else if d == 6 {
        '6'
    } else if d == 7 {
        '7'
    } else if d == 8 {
        '8'
    } else {
        '9'
    }
}

/// The usual decimal rendering of `n`, most significant digit first, no sign
/// and no leading zeros (except for `n == 0` itself).
pub open spec fn dec_str(n: nat) -> Seq<char>
    decreases n,
{
    if n < 10 {
        seq![digit_char(n)]
    } else {
        dec_str(n / 10) + seq![digit_char(n % 10)]
    }
}

fn digit_to_char(d: u64) -> (c: char)
    requires
        d < 10,
    ensures
        c == digit_char(d as nat),
{
    match d {
        0 => '0',
        1 => '1',
        2 => '2',
        3 => '3',
        4 => '4',
        5 => '5',
        6 => '6',
        7 => '7',
        8 => '8',
        _ => '9',
    }
}

fn push_dec(s: &mut String, n: u64)
    ensures
        final(s)@ == old(s)@ + dec_str(n as nat),
    decreases n,
{
    if n >= 10 {
        push_dec(s, n / 10);
    }
    push_char(s, digit_to_char(n % 10));
    proof {
        if n >= 10 {
            assert(old(s)@ + dec_str(n as nat) =~= (old(s)@ + dec_str(n as nat / 10)).push(
                digit_char(n as nat % 10),
            ));
        } else {
            assert(old(s)@ + dec_str(n as nat) =~= old(s)@.push(digit_char(n as nat)));
        }
    }
}

/// Decimal rendering of an unsigned number.
pub fn u64_to_string(n: u64) -> (r: String)
    ensures
        r@ == dec_str(n as nat),
{
    let mut r = String::new();
    push_dec(&mut r, n);
    proof {
        assert(Seq::<char>::empty() + dec_str(n as nat) =~= dec_str(n as nat));
    }
    r
}

/// Decimal rendering of a length or index.
pub fn usize_to_string(n: usize) -> (r: String)
    ensures
        r@ == dec_str(n as nat),
{
    u64_to_string(n as u64)
}

/// Strict lexicographic order on character sequences, by code point.
pub open spec fn lex_lt(a: Seq<char>, b: Seq<char>) -> bool
    decreases a.len(),
{
    if b.len() == 0 {
        false
    } else if a.len() == 0 {
        true
    } else if a[0] != b[0] {
        (a[0] as u32) < (b[0] as u32)
    } else {
        lex_lt(a.skip(1), b.skip(1))
    }
}

proof fn lemma_char_cast_injective(a: char, b: char)
    ensures
        a as u32 == b as u32 ==> a == b,
{
}

/// The order is total: two sequences are equal or one is strictly smaller.
pub proof fn lemma_lex_total(a: Seq<char>, b: Seq<char>)
    ensures
        lex_lt(a, b) || lex_lt(b, a) || a == b,
    decreases a.len(),
{
    if b.len() == 0 {
        if a.len() == 0 {
            assert(a =~= b);
        }
    } else if a.len() == 0 {
    } else if a[0] != b[0] {
        lemma_char_cast_injective(a[0], b[0]);
    } else {
        lemma_lex_total(a.skip(1), b.skip(1));
        if a.skip(1) == b.skip(1) {
            assert(a =~= seq![a[0]] + a.skip(1));
            assert(b =~= seq![b[0]] + b.skip(1));
        }
    }
}

/// The strict order is irreflexive and asymmetric.
pub proof fn lemma_lex_asym(a: Seq<char>, b: Seq<char>)
    ensures
        !(lex_lt(a, b) && lex_lt(b, a)),
        !lex_lt(a, a),
    decreases a.len(),
{
    if a.len() > 0 && b.len() > 0 && a[0] == b[0] {
        lemma_lex_asym(a.skip(1), b.skip(1));
    }
    if a.len() > 0 {
        lemma_lex_asym(a.skip(1), a.skip(1));
    }
}

/// The strict order is transitive.
pub proof fn lemma_lex_trans(a: Seq<char>, b: Seq<char>, c: Seq<char>)
    requires
        lex_lt(a, b),
        lex_lt(b, c),
    ensures
        lex_lt(a, c),
    decreases a.len() + b.len() + c.len(),
{
    if c.len() == 0 {
    } else if a.len() == 0 {
    } else if b.len() == 0 {
    } else {
        if a[0] == b[0] && b[0] == c[0] {
            lemma_lex_trans(a.skip(1), b.skip(1), c.skip(1));
        }
    }
}

/// Executable decision of the strict lexicographic order.
pub fn chars_lt(a: &Vec<char>, b: &Vec<char>) -> (r: bool)
    ensures
        r == lex_lt(a@, b@),
{
    let mut i: usize = 0;
    proof {
        assert(a@.skip(0) =~= a@);
        assert(b@.skip(0) =~= b@);
    }
    loop
        invariant
            i <= a.len(),
            i <= b.len(),
            forall|j: int| 0 <= j < i ==> a@[j] == b@[j],
            lex_lt(a@, b@) == lex_lt(a@.skip(i as int), b@.skip(i as int)),
        decreases a.len() - i,
    {
        if i >= b.len() {
            proof {
                assert(b@.skip(i as int).len() == 0);
            }
            return false;
        }
        if i >= a.len() {
            proof {
                assert(a@.skip(i as int).len() == 0);
                assert(b@.skip(i as int).len() > 0);
            }
            return true;
        }
        let ac = a[i];
        let bc = b[i];
        if ac != bc {
            proof {
                assert(a@.skip(i as int)[0] == a@[i as int]);
                assert(b@.skip(i as int)[0] == b@[i as int]);
            }
            return (ac as u32) < (bc as u32);
        }
        proof {
            assert(a@.skip(i as int)[0] == a@[i as int]);
            assert(b@.skip(i as int)[0] == b@[i as int]);
            assert(a@.skip(i as int).skip(1) =~= a@.skip(i + 1));
            assert(b@.skip(i as int).skip(1) =~= b@.skip(i + 1));
        }
        i = i + 1;
    }
}

/// A concatenation contains a character exactly when one part does.
pub proof fn lemma_concat_contains(a: Seq<char>, b: Seq<char>, ch: char)
    ensures
        (a + b).contains(ch) <==> (a.contains(ch) || b.contains(ch)),
{
    let s = a + b;
    if a.contains(ch) {
        let i = choose|i: int| 0 <= i < a.len() && a[i] == ch;
        assert(s[i] == ch);
    }
    if b.contains(ch) {
        let i = choose|i: int| 0 <= i < b.len() && b[i] == ch;
        assert(s[a.len() + i] == ch);
    }
    if s.contains(ch) {
        let i = choose|i: int| 0 <= i < s.len() && s[i] == ch;
        if i < a.len() {
            assert(a[i] == ch);
        } else {
            assert(b[i - a.len()] == ch);
        }
    }
}

/// A subrange contains a character only where the whole sequence does.
pub proof fn lemma_subrange_contains(s: Seq<char>, i: int, j: int, ch: char)
    requires
        0 <= i <= j <= s.len(),
        s.subrange(i, j).contains(ch),
    ensures
        s.contains(ch),
{
    let k = choose|k: int| 0 <= k < (j - i) && s.subrange(i, j)[k] == ch;
    assert(s[i + k] == ch);
}

/// Every line produced by splitting is free of newlines.
pub proof fn lemma_split_lines_no_newline(s: Seq<char>)
    ensures
        forall|i: int|
            0 <= i < split_lines_spec(s).len() ==> !(#[trigger] split_lines_spec(s)[i]).contains(
                '\n',
            ),
    decreases s.len(),
{
    if s.len() == 0 {
    } else if s[0] == '\n' {
        lemma_split_lines_no_newline(s.skip(1));
        let out = split_lines_spec(s);
        let rest = split_lines_spec(s.skip(1));
        assert forall|i: int| 0 <= i < out.len() implies !(#[trigger] out[i]).contains('\n') by {
            if i == 0 {
                if out[0].contains('\n') {
                    let k = choose|k: int| 0 <= k < out[0].len() && out[0][k] == '\n';
                }
            } else {
                assert(out[i] == rest[i - 1]);
            }
        }
    } else {
        lemma_split_lines_no_newline(s.skip(1));
        let out = split_lines_spec(s);
        let rest = split_lines_spec(s.skip(1));
        if rest.len() == 0 {
            assert forall|i: int| 0 <= i < out.len() implies !(#[trigger] out[i]).contains(
                '\n',
            ) by {
                if out[i].contains('\n') {
                    let k = choose|k: int| 0 <= k < out[i].len() && out[i][k] == '\n';
                }
            }
        } else {
            assert forall|i: int| 0 <= i < out.len() implies !(#[trigger] out[i]).contains(
                '\n',
            ) by {
                if i == 0 {
                    lemma_concat_contains(seq![s[0]], rest[0], '\n');
                    assert(!seq![s[0]].contains('\n')) by {
                        if seq![s[0]].contains('\n') {
                            let k = choose|k: int| 0 <= k < 1 && seq![s[0]][k] == '\n';
                        }
                    }
                } else {
                    assert(out[i] == rest.skip(1)[i - 1]);
                    assert(rest.skip(1)[i - 1] == rest[i]);
                }
            }
        }
    }
}

/// `pat` occurs in `s` starting at position `i`.
pub open spec fn occurs_at(s: Seq<char>, pat: Seq<char>, i: int) -> bool {
    0 <= i && i + pat.len() <= s.len() && s.subrange(i, i + pat.len() as int) == pat
}

/// `pat` occurs somewhere in `s`.
pub open spec fn contains_seq(s: Seq<char>, pat: Seq<char>) -> bool {
    exists|i: int| occurs_at(s, pat, i)
}

/// `s` with every left-most, non-overlapping occurrence of `pat` replaced by
/// `rep`, scanning from the start; the semantics of std's `str::replace`.
pub open spec fn replace_spec(s: Seq<char>, pat: Seq<char>, rep: Seq<char>) -> Seq<char>
    decreases s.len(),
    when pat.len() > 0
{
    if s.len() < pat.len() {
        s
    } else if s.subrange(0, pat.len() as int) == pat {
        rep + replace_spec(s.skip(pat.len() as int), pat, rep)
    } else {
        seq![s[0]] + replace_spec(s.skip(1), pat, rep)
    }
}

fn matches_at(s: &Vec<char>, pat: &Vec<char>, i: usize) -> (r: bool)
    requires
        i <= s.len(),
        pat.len() <= s.len() - i,
    ensures
        r == occurs_at(s@, pat@, i as int),
{
    let mut j: usize = 0;
    while j < pat.len()
        invariant
            j <= pat.len(),
            i <= s.len(),
            pat.len() <= s.len() - i,
            forall|k: int| 0 <= k < j ==> s@[i + k] == pat@[k],
        decreases pat.len() - j,
    {
        if s[i + j] != pat[j] {
            proof {
                assert(s@.subrange(i as int, i + pat@.len() as int) == pat@ ==> s@.subrange(
                    i as int,
                    i + pat@.len() as int,
                )[j as int] == pat@[j as int]);
            }
            return false;
        }
        j = j + 1;
    }
    proof {
        assert(s@.subrange(i as int, i + pat@.len() as int) =~= pat@);
    }
    true
}

/// Whether `prefix` is a prefix of `s`.
pub fn chars_starts_with(s: &Vec<char>, prefix: &Vec<char>) -> (r: bool)
    ensures
        r == (prefix@.len() <= s@.len() && s@.subrange(0, prefix@.len() as int) == prefix@),
{
    if prefix.len() > s.len() {
        return false;
    }
    let mut j: usize = 0;
    while j < prefix.len()
        invariant
            j <= prefix.len(),
            prefix@.len() <= s@.len(),
            forall|k: int| 0 <= k < j ==> s@[k] == prefix@[k],
        decreases prefix.len() - j,
    {
        if s[j] != prefix[j] {
            proof {
                assert(s@.subrange(0, prefix@.len() as int) == prefix@ ==> s@.subrange(
                    0,
                    prefix@.len() as int,
                )[j as int] == prefix@[j as int]);
            }
            return false;
        }
        j = j + 1;
    }
    proof {
        assert(s@.subrange(0, prefix@.len() as int) =~= prefix@);
    }
    true
}

/// String equality by characters.
pub fn str_eq(a: &str, b: &str) -> (r: bool)
    ensures
        r == (a@ == b@),
{
    let av = str_to_chars(a);
    let bv = str_to_chars(b);
    chars_eq(&av, &bv)
}

/// Whether `s@` occurs among the views of `v`.
pub fn contains_string(v: &Vec<String>, s: &str) -> (r: bool)
    ensures
        r == v.deep_view().contains(s@),
{
    let mut k: usize = 0;
    while k < v.len()
        invariant
            k <= v@.len(),
            forall|j: int| 0 <= j < k ==> #[trigger] v.deep_view()[j] != s@,
        decreases v@.len() - k,
    {
        if str_eq(v[k].as_str(), s) {
            proof {
                assert(v.deep_view()[k as int] == s@);
            }
            return true;
        }
        k = k + 1;
    }
    false
}

/// The first `n` characters of `v`.
pub fn chars_take(v: &Vec<char>, n: usize) -> (r: Vec<char>)
    requires
        n <= v.len(),
    ensures
        r@ == v@.take(n as int),
{
    let mut r: Vec<char> = Vec::new();
    let mut i: usize = 0;
    while i < n
        invariant
            i <= n <= v@.len(),
            r@ == v@.subrange(0, i as int),
        decreases n - i,
    {
        r.push(v[i]);
        i = i + 1;
        proof {
            assert(r@ =~= v@.subrange(0, i as int));
        }
    }
    r
}

/// The characters of `v` from position `n` on.
pub fn chars_skip(v: &Vec<char>, n: usize) -> (r: Vec<char>)
    requires
        n <= v.len(),
    ensures
        r@ == v@.skip(n as int),
{
    let mut r: Vec<char> = Vec::new();
    let mut i: usize = n;
    while i < v.len()
        invariant
            n <= i <= v@.len(),
            r@ == v@.subrange(n as int, i as int),
        decreases v@.len() - i,
    {
        r.push(v[i]);
        i = i + 1;
        proof {
            assert(r@ =~= v@.subrange(n as int, i as int));
        }
    }
    proof {
        assert(r@ =~= v@.skip(n as int));
    }
    r
}

/// Append a copy of the characters of `xs`.
pub fn append_chars(out: &mut Vec<char>, xs: &Vec<char>)
    ensures
        final(out)@ == old(out)@ + xs@,
{
    let mut k: usize = 0;
    while k < xs.len()
        invariant
            k <= xs.len(),
            out@ == old(out)@ + xs@.subrange(0, k as int),
        decreases xs.len() - k,
    {
        out.push(xs[k]);
        k = k + 1;
        proof {
            assert(old(out)@ + xs@.subrange(0, k as int) =~= (old(out)@ + xs@.subrange(
                0,
                k - 1,
            )).push(xs@[k - 1]));
        }
    }
    proof {
        assert(old(out)@ + xs@.subrange(0, xs@.len() as int) =~= old(out)@ + xs@);
    }
}

/// Whether `pat` occurs anywhere in `s`, decided executably.
pub fn contains_chars(s: &Vec<char>, pat: &Vec<char>) -> (r: bool)
    ensures
        r == contains_seq(s@, pat@),
{
    if pat.len() > s.len() {
        proof {
            assert(forall|i: int| !occurs_at(s@, pat@, i));
        }
        return false;
    }
    if pat.len() == 0 {
        proof {
            assert(s@.subrange(0, 0) =~= pat@);
            assert(occurs_at(s@, pat@, 0));
        }
        return true;
    }
    let mut i: usize = 0;
    while i <= s.len() - pat.len()
        invariant
            1 <= pat.len() <= s.len(),
            i <= s.len() - pat.len() + 1,
            forall|j: int| 0 <= j < i ==> !occurs_at(s@, pat@, j),
        decreases s.len() - i,
    {
        if matches_at(s, pat, i) {
            proof {
                assert(occurs_at(s@, pat@, i as int));
            }
            return true;
        }
        i = i + 1;
    }
    proof {
        assert(forall|j: int| occurs_at(s@, pat@, j) ==> 0 <= j < i);
    }
    false
}

/// `s` with every occurrence of `pat` replaced by `rep`, left to right.
#[verifier::rlimit(60)]
pub fn replace_chars(s: &Vec<char>, pat: &Vec<char>, rep: &Vec<char>) -> (r: Vec<char>)
    requires
        pat.len() > 0,
    ensures
        r@ == replace_spec(s@, pat@, rep@),
{
    let mut out: Vec<char> = Vec::new();
    let mut i: usize = 0;
    proof {
        assert(s@.skip(0) =~= s@);
        assert(Seq::<char>::empty() + replace_spec(s@, pat@, rep@) =~= replace_spec(
            s@,
            pat@,
            rep@,
        ));
    }
    while i <= s.len() && pat.len() <= s.len() - i
        invariant
            i <= s.len(),
            pat.len() > 0,
            replace_spec(s@, pat@, rep@) == out@ + replace_spec(s@.skip(i as int), pat@, rep@),
        decreases s.len() - i,
    {
        let ghost rest = s@.skip(i as int);
        if matches_at(s, pat, i) {
            append_chars(&mut out, rep);
            proof {
                assert(rest.subrange(0, pat@.len() as int) =~= s@.subrange(
                    i as int,
                    i + pat@.len() as int,
                ));
                assert(rest.skip(pat@.len() as int) =~= s@.skip(i + pat@.len() as int));
                assert(replace_spec(rest, pat@, rep@) == rep@ + replace_spec(
                    s@.skip(i + pat@.len() as int),
                    pat@,
                    rep@,
                ));
            }
            i = i + pat.len();
            proof {
                assert(out@ + replace_spec(s@.skip(i as int), pat@, rep@) =~= replace_spec(
                    s@,
                    pat@,
                    rep@,
                ));
            }
        } else {
            out.push(s[i]);
            proof {
                assert(rest.subrange(0, pat@.len() as int) =~= s@.subrange(
                    i as int,
                    i + pat@.len() as int,
                ));
                assert(rest.subrange(0, pat@.len() as int) != pat@);
                assert(rest.skip(1) =~= s@.skip(i + 1));
                assert(replace_spec(rest, pat@, rep@) == seq![rest[0]] + replace_spec(
                    s@.skip(i + 1),
                    pat@,
                    rep@,
                ));
            }
            i = i + 1;
            proof {
                assert(out@ + replace_spec(s@.skip(i as int), pat@, rep@) =~= replace_spec(
                    s@,
                    pat@,
                    rep@,
                ));
            }
        }
    }
    while i < s.len()
        invariant
            i <= s.len(),
            pat.len() > 0,
            s@.skip(i as int).len() < pat@.len(),
            replace_spec(s@, pat@, rep@) == out@ + s@.skip(i as int),
        decreases s.len() - i,
    {
        out.push(s[i]);
        i = i + 1;
        proof {
            assert(out@ + s@.skip(i as int) =~= replace_spec(s@, pat@, rep@));
        }
    }
    proof {
        assert(out@ + s@.skip(i as int) =~= out@);
    }
    out
}

/// Whether `pat` occurs anywhere in the string `s`.
pub fn str_contains(s: &str, pat: &str) -> (r: bool)
    ensures
        r == contains_seq(s@, pat@),
{
    let sv = str_to_chars(s);
    let pv = str_to_chars(pat);
    contains_chars(&sv, &pv)
}

/// `s` with every occurrence of `pat` replaced by `rep`.
pub fn str_replace(s: &str, pat: &str, rep: &str) -> (r: String)
    requires
        pat@.len() > 0,
    ensures
        r@ == replace_spec(s@, pat@, rep@),
{
    let sv = str_to_chars(s);
    let pv = str_to_chars(pat);
    let rv = str_to_chars(rep);
    let out = replace_chars(&sv, &pv, &rv);
    chars_to_string(&out)
}

/// The lines of `s`: maximal '\n'-free runs; a trailing newline adds no
/// final empty line, while a missing trailing newline still yields the
/// final partial line.
pub open spec fn split_lines_spec(s: Seq<char>) -> Seq<Seq<char>>
    decreases s.len(),
{
    if s.len() == 0 {
        Seq::empty()
    } else if s[0] == '\n' {
        seq![Seq::<char>::empty()] + split_lines_spec(s.skip(1))
    } else {
        let rest = split_lines_spec(s.skip(1));
        if rest.len() == 0 {
            seq![seq![s[0]]]
        } else {
            seq![seq![s[0]] + rest[0]] + rest.skip(1)
        }
    }
}

/// The lines joined back into one text, every line newline-terminated.
pub open spec fn join_lines_spec(lines: Seq<Seq<char>>) -> Seq<char>
    decreases lines.len(),
{
    if lines.len() == 0 {
        Seq::empty()
    } else {
        lines[0] + seq!['\n'] + join_lines_spec(lines.skip(1))
    }
}

/// Splitting after a first newline-free line peels that line off.
pub proof fn lemma_split_peel(l: Seq<char>, rest: Seq<char>)
    requires
        !l.contains('\n'),
    ensures
        split_lines_spec(l + seq!['\n'] + rest) == seq![l] + split_lines_spec(rest),
    decreases l.len(),
{
    let s = l + seq!['\n'] + rest;
    if l.len() == 0 {
        assert(s[0] == '\n');
        assert(s.skip(1) =~= rest);
        assert(l =~= Seq::<char>::empty());
        assert(seq![Seq::<char>::empty()] + split_lines_spec(rest) =~= seq![l]
            + split_lines_spec(rest));
    } else {
        assert(s[0] == l[0]);
        assert(l[0] != '\n') by {
            if l[0] == '\n' {
                assert(l.contains('\n'));
            }
        }
        assert(s.skip(1) =~= l.skip(1) + seq!['\n'] + rest);
        assert(!l.skip(1).contains('\n')) by {
            assert(forall|i: int|
                0 <= i < l.skip(1).len() ==> l.skip(1)[i] == l[i + 1] && l[i + 1] != '\n');
        }
        lemma_split_peel(l.skip(1), rest);
        let r = split_lines_spec(s.skip(1));
        assert(r == seq![l.skip(1)] + split_lines_spec(rest));
        assert(r.len() > 0);
        assert(r[0] == l.skip(1));
        assert(seq![s[0]] + r[0] =~= l);
        assert(r.skip(1) =~= split_lines_spec(rest));
        assert(split_lines_spec(s) =~= seq![l] + split_lines_spec(rest));
    }
}

/// Joining and splitting newline-free lines is the identity.
pub proof fn lemma_split_join(lines: Seq<Seq<char>>)
    requires
        forall|i: int| 0 <= i < lines.len() ==> !(#[trigger] lines[i]).contains('\n'),
    ensures
        split_lines_spec(join_lines_spec(lines)) == lines,
    decreases lines.len(),
{
    if lines.len() == 0 {
    } else {
        lemma_split_peel(lines[0], join_lines_spec(lines.skip(1)));
        lemma_split_join(lines.skip(1));
        assert(seq![lines[0]] + lines.skip(1) =~= lines);
    }
}

/// Helper: the lines of a text whose first line is still being gathered.
pub open spec fn prepend_first(p: Seq<char>, ls: Seq<Seq<char>>) -> Seq<Seq<char>> {
    if ls.len() == 0 {
        if p.len() == 0 {
            Seq::empty()
        } else {
            seq![p]
        }
    } else {
        seq![p + ls[0]] + ls.skip(1)
    }
}

/// The lines of `s`, as owned strings.
pub fn split_lines(s: &str) -> (r: Vec<String>)
    ensures
        r.deep_view() == split_lines_spec(s@),
        forall|i: int| 0 <= i < r.deep_view().len() ==> !(#[trigger] r.deep_view()[i]).contains(
            '\n',
        ),
{
    let chars = str_to_chars(s);
    let mut out: Vec<String> = Vec::new();
    let mut cur: Vec<char> = Vec::new();
    let mut i: usize = 0;
    proof {
        assert(chars@.skip(0) =~= s@);
        assert(out.deep_view() + prepend_first(cur@, split_lines_spec(s@)) =~= split_lines_spec(
            s@,
        ));
    }
    while i < chars.len()
        invariant
            i <= chars.len(),
            chars@ == s@,
            !cur@.contains('\n'),
            forall|j: int|
                0 <= j < out.deep_view().len() ==> !(#[trigger] out.deep_view()[j]).contains('\n'),
            split_lines_spec(s@) == out.deep_view() + prepend_first(
                cur@,
                split_lines_spec(s@.skip(i as int)),
            ),
        decreases chars.len() - i,
    {
        let c = chars[i];
        let ghost rest_s = s@.skip(i as int);
        proof {
            assert(rest_s[0] == s@[i as int]);
            assert(rest_s.skip(1) =~= s@.skip(i + 1));
        }
        if c == '\n' {
            let ghost old_out = out.deep_view();
            let ghost old_cur = cur@;
            let line = chars_to_string(&cur);
            out.push(line);
            cur = Vec::new();
            proof {
                assert(out.deep_view() =~= old_out.push(old_cur));
                let rest2 = split_lines_spec(s@.skip(i + 1));
                assert(split_lines_spec(rest_s) == seq![Seq::<char>::empty()] + rest2);
                assert(prepend_first(old_cur, seq![Seq::<char>::empty()] + rest2) =~= seq![old_cur]
                    + rest2) by {
                    assert((seq![Seq::<char>::empty()] + rest2)[0] =~= Seq::<char>::empty());
                    assert(old_cur + Seq::<char>::empty() =~= old_cur);
                    assert((seq![Seq::<char>::empty()] + rest2).skip(1) =~= rest2);
                }
                assert(prepend_first(cur@, rest2) =~= rest2 || (rest2.len() == 0
                    && prepend_first(cur@, rest2) =~= rest2)) by {
                    if rest2.len() > 0 {
                        assert(cur@ + rest2[0] =~= rest2[0]);
                        assert(seq![cur@ + rest2[0]] + rest2.skip(1) =~= rest2);
                    }
                }
                assert(out.deep_view() + prepend_first(cur@, rest2) =~= old_out + (seq![old_cur]
                    + rest2));
                assert(split_lines_spec(s@) == out.deep_view() + prepend_first(
                    cur@,
                    split_lines_spec(s@.skip(i + 1)),
                ));
            }
        } else {
            let ghost old_cur = cur@;
            cur.push(c);
            proof {
                let rest2 = split_lines_spec(s@.skip(i + 1));
                if rest2.len() == 0 {
                    assert(split_lines_spec(rest_s) == seq![seq![rest_s[0]]]);
                    assert(prepend_first(old_cur, seq![seq![rest_s[0]]]) =~= seq![old_cur + seq![
                        rest_s[0],
                    ]]) by {
                        assert(seq![seq![rest_s[0]]].skip(1) =~= Seq::<Seq<char>>::empty());
                        assert(seq![old_cur + seq![rest_s[0]]] + Seq::<Seq<char>>::empty() =~= seq![
                            old_cur + seq![rest_s[0]],
                        ]);
                    }
                    assert(cur@ =~= old_cur + seq![rest_s[0]]);
                    assert(prepend_first(cur@, rest2) =~= seq![cur@]);
                    assert(out.deep_view() + prepend_first(old_cur, split_lines_spec(rest_s)) =~=
                        out.deep_view() + prepend_first(cur@, rest2));
                } else {
                    assert(split_lines_spec(rest_s) == seq![seq![rest_s[0]] + rest2[0]]
                        + rest2.skip(1));
                    assert(prepend_first(old_cur, split_lines_spec(rest_s)) =~= seq![old_cur + (
                    seq![rest_s[0]] + rest2[0])] + rest2.skip(1)) by {
                        assert((seq![seq![rest_s[0]] + rest2[0]] + rest2.skip(1))[0] == seq![
                            rest_s[0],
                        ] + rest2[0]);
                        assert((seq![seq![rest_s[0]] + rest2[0]] + rest2.skip(1)).skip(1) =~=
                            rest2.skip(1));
                    }
                    assert(cur@ + rest2[0] =~= old_cur + (seq![rest_s[0]] + rest2[0]));
                    assert(prepend_first(cur@, rest2) =~= seq![cur@ + rest2[0]] + rest2.skip(1));
                    assert(out.deep_view() + prepend_first(old_cur, split_lines_spec(rest_s)) =~=
                        out.deep_view() + prepend_first(cur@, rest2));
                }
                assert(split_lines_spec(s@) == out.deep_view() + prepend_first(
                    cur@,
                    split_lines_spec(s@.skip(i + 1)),
                ));
            }
        }
        i = i + 1;
    }
    proof {
        assert(s@.skip(i as int).len() == 0);
        assert(split_lines_spec(s@.skip(i as int)) =~= Seq::<Seq<char>>::empty());
    }
    if cur.len() > 0 {
        let line = chars_to_string(&cur);
        let ghost old_out = out.deep_view();
        out.push(line);
        proof {
            assert(out.deep_view() =~= old_out.push(cur@));
            assert(old_out + prepend_first(cur@, Seq::<Seq<char>>::empty()) =~= old_out.push(cur@));
        }
    } else {
        proof {
            assert(out.deep_view() + prepend_first(cur@, Seq::<Seq<char>>::empty()) =~=
                out.deep_view());
        }
    }
    out
}

/// The lines joined back into one newline-terminated text.
pub fn join_lines(lines: &Vec<String>) -> (r: String)
    ensures
        r@ == join_lines_spec(lines.deep_view()),
{
    let mut r = String::new();
    let mut i: usize = 0;
    proof {
        assert(lines.deep_view().skip(0) =~= lines.deep_view());
        assert(Seq::<char>::empty() + join_lines_spec(lines.deep_view()) =~= join_lines_spec(
            lines.deep_view(),
        ));
    }
    while i < lines.len()
        invariant
            i <= lines.len(),
            join_lines_spec(lines.deep_view()) == r@ + join_lines_spec(
                lines.deep_view().skip(i as int),
            ),
        decreases lines.len() - i,
    {
        let ghost rest = lines.deep_view().skip(i as int);
        proof {
            assert(rest[0] == lines.deep_view()[i as int]);
            assert(rest.skip(1) =~= lines.deep_view().skip(i + 1));
        }
        r.append(lines[i].as_str());
        push_char(&mut r, '\n');
        i = i + 1;
        proof {
            assert(r@ + join_lines_spec(lines.deep_view().skip(i as int)) =~= join_lines_spec(
                lines.deep_view(),
            ));
        }
    }
    proof {
        assert(join_lines_spec(lines.deep_view().skip(i as int)) =~= Seq::<char>::empty());
        assert(r@ + Seq::<char>::empty() =~= r@);
    }
    r
}

} // verus!
