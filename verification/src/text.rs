use vstd::prelude::*;

verus! {

/// `pat` occurs in `hay` starting at index `i`.
pub open spec fn matches_at(hay: Seq<char>, pat: Seq<char>, i: int) -> bool {
    &&& 0 <= i
    &&& i + pat.len() <= hay.len()
    &&& forall|k: int| 0 <= k < pat.len() ==> hay[i + k] == pat[k]
}

/// `pat` occurs somewhere in `hay`.
pub open spec fn has_substring(hay: Seq<char>, pat: Seq<char>) -> bool {
    exists|i: int| matches_at(hay, pat, i)
}

/// `s` begins with `pat`.
pub open spec fn starts_with(s: Seq<char>, pat: Seq<char>) -> bool {
    matches_at(s, pat, 0)
}

/// Whether `s` begins with `prefix`.
pub fn str_starts_with(s: &str, prefix: &str) -> (r: bool)
    ensures
        r == starts_with(s@, prefix@),
{
    let n = s.unicode_len();
    let m = prefix.unicode_len();
    if m > n {
        return false;
    }
    let mut j: usize = 0;
    while j < m
        invariant
            j <= m,
            m <= n,
            n == s@.len(),
            m == prefix@.len(),
            forall|k: int| 0 <= k < j ==> s@[k] == prefix@[k],
        decreases m - j,
    {
        if s.get_char(j) != prefix.get_char(j) {
            return false;
        }
        j += 1;
    }
    true
}

/// Whether `pat` occurs in `hay` at index `i`.
fn str_matches_at(hay: &str, pat: &str, i: usize) -> (r: bool)
    requires
        i + pat@.len() <= hay@.len(),
        hay@.len() <= usize::MAX,
    ensures
        r == matches_at(hay@, pat@, i as int),
{
    let m = pat.unicode_len();
    let mut j: usize = 0;
    while j < m
        invariant
            j <= m,
            i + m <= hay@.len(),
            hay@.len() <= usize::MAX,
            m == pat@.len(),
            forall|k: int| 0 <= k < j ==> hay@[i + k] == pat@[k],
        decreases m - j,
    {
        if hay.get_char(i + j) != pat.get_char(j) {
            return false;
        }
        j += 1;
    }
    true
}

/// Whether `pat` occurs anywhere in `hay`.
pub fn str_contains(hay: &str, pat: &str) -> (r: bool)
    ensures
        r == has_substring(hay@, pat@),
{
    let n = hay.unicode_len();
    let m = pat.unicode_len();
    if m > n {
        return false;
    }
    let mut i: usize = 0;
    while i <= n - m
        invariant
            m <= n,
            n == hay@.len(),
            m == pat@.len(),
            i <= n - m + 1,
            forall|i2: int| 0 <= i2 < i ==> !matches_at(hay@, pat@, i2),
        decreases n + 1 - m - i,
    {
        if str_matches_at(hay, pat, i) {
            return true;
        }
        i += 1;
    }
    assert forall|i2: int| !matches_at(hay@, pat@, i2) by {
        if matches_at(hay@, pat@, i2) {
            assert(0 <= i2 < i);
        }
    }
    false
}

/// Whether two string slices hold the same characters.
pub fn str_eq(a: &str, b: &str) -> (r: bool)
    ensures
        r == (a@ == b@),
{
    let n = a.unicode_len();
    let m = b.unicode_len();
    if n != m {
        return false;
    }
    let mut i: usize = 0;
    while i < n
        invariant
            i <= n,
            n == a@.len(),
            n == b@.len(),
            forall|j: int| 0 <= j < i ==> a@[j] == b@[j],
        decreases n - i,
    {
        if a.get_char(i) != b.get_char(i) {
            return false;
        }
        i += 1;
    }
    proof {
        assert(a@ =~= b@);
    }
    true
}

/// The character for one decimal digit.
pub open spec fn dec_digit_char(d: int) -> char {
    if d == 0 {
        '0'
    } else if d == 1 {
        '1'
    } else if d == 2 {
        '2'
    } else if d == 3 {
        '3'
    } else if d == 4 {
        '4'
    } else if d == 5 {
        '5'
    } else if d == 6 {
        '6'
    } else if d == 7 {
        '7'
    } else if d == 8 {
        '8'
    } else {
        '9'
    }
}

/// The decimal representation of `n`, most significant digit first.
pub open spec fn dec_digits(n: nat) -> Seq<char>
    decreases n,
{
    if n < 10 {
        seq![dec_digit_char(n as int)]
    } else {
        dec_digits(n / 10).push(dec_digit_char((n % 10) as int))
    }
}

/// The one-character string for a decimal digit.
fn digit_str(d: u64) -> (r: &'static str)
    requires
        d < 10,
    ensures
        r@ == seq![dec_digit_char(d as int)],
{
    let r: &'static str = match d {
        0 => "0",
        1 => "1",
        2 => "2",
        3 => "3",
        4 => "4",
        5 => "5",
        6 => "6",
        7 => "7",
        8 => "8",
        _ => "9",
    };
    proof {
        reveal_strlit("0");
        reveal_strlit("1");
        reveal_strlit("2");
        reveal_strlit("3");
        reveal_strlit("4");
        reveal_strlit("5");
        reveal_strlit("6");
        reveal_strlit("7");
        reveal_strlit("8");
        reveal_strlit("9");
        assert(r@ =~= seq![dec_digit_char(d as int)]);
    }
    r
}

/// `n` written in decimal.
pub fn u64_to_dec_string(n: u64) -> (r: String)
    ensures
        r@ == dec_digits(n as nat),
    decreases n,
{
    if n < 10 {
        digit_str(n).to_owned()
    } else {
        let mut s = u64_to_dec_string(n / 10);
        s.append(digit_str(n % 10));
        proof {
            assert(s@ =~= dec_digits(n as nat));
        }
        s
    }
}

/// The characters `str::trim` treats as whitespace.
pub open spec fn is_space_char(c: char) -> bool {
    ||| c == ' '
    ||| c == '\t'
    ||| c == '\n'
    ||| c == '\r'
    ||| c == '\u{0B}'
    ||| c == '\u{0C}'
    ||| c == '\u{85}'
    ||| c == '\u{A0}'
    ||| c == '\u{1680}'
    ||| ('\u{2000}' <= c && c <= '\u{200A}')
    ||| c == '\u{2028}'
    ||| c == '\u{2029}'
    ||| c == '\u{202F}'
    ||| c == '\u{205F}'
    ||| c == '\u{3000}'
}

/// `s` is empty or consists only of whitespace.
pub open spec fn is_blank(s: Seq<char>) -> bool {
    forall|i: int| 0 <= i < s.len() ==> is_space_char(#[trigger] s[i])
}

fn char_is_space(c: char) -> (r: bool)
    ensures
        r == is_space_char(c),
{
    c == ' ' || c == '\t' || c == '\n' || c == '\r' || c == '\u{0B}' || c == '\u{0C}'
        || c == '\u{85}' || c == '\u{A0}' || c == '\u{1680}'
        || ('\u{2000}' <= c && c <= '\u{200A}') || c == '\u{2028}' || c == '\u{2029}'
        || c == '\u{202F}' || c == '\u{205F}' || c == '\u{3000}'
}

/// Whether `s` is empty or whitespace-only.
pub fn str_is_blank(s: &str) -> (r: bool)
    ensures
        r == is_blank(s@),
{
    let n = s.unicode_len();
    let mut i: usize = 0;
    while i < n
        invariant
            i <= n,
            n == s@.len(),
            forall|j: int| 0 <= j < i ==> is_space_char(#[trigger] s@[j]),
        decreases n - i,
    {
        if !char_is_space(s.get_char(i)) {
            return false;
        }
        i += 1;
    }
    true
}

/// Whether some element of `v` equals `x`, compared as strings.
pub fn vec_contains_string(v: &Vec<String>, x: &String) -> (r: bool)
    ensures
        r == v.deep_view().contains(x@),
{
    let mut i: usize = 0;
    while i < v.len()
        invariant
            i <= v.len(),
            forall|j: int| 0 <= j < i ==> v.deep_view()[j] != x@,
        decreases v.len() - i,
    {
        if v[i] == *x {
            assert(v.deep_view()[i as int] == x@);
            return true;
        }
        i += 1;
    }
    assert forall|j: int| 0 <= j < v.deep_view().len() implies v.deep_view()[j] != x@ by {}
    false
}

/// Lexicographic order on character sequences: `a` sorts at or before `b`.
pub open spec fn lex_le(a: Seq<char>, b: Seq<char>) -> bool
    decreases a.len(),
{
    if a.len() == 0 {
        true
    } else if b.len() == 0 {
        false
    } else if (a[0] as int) < (b[0] as int) {
        true
    } else if (b[0] as int) < (a[0] as int) {
        false
    } else {
        lex_le(a.drop_first(), b.drop_first())
    }
}

proof fn lemma_lex_le_skip(a: Seq<char>, b: Seq<char>, i: int)
    requires
        0 <= i <= a.len(),
        i <= b.len(),
        forall|j: int| 0 <= j < i ==> a[j] == b[j],
    ensures
        lex_le(a, b) == lex_le(a.skip(i), b.skip(i)),
    decreases i,
{
    if i == 0 {
        assert(a.skip(0) =~= a);
        assert(b.skip(0) =~= b);
    } else {
        let at = a.drop_first();
        let bt = b.drop_first();
        assert(a[0] == b[0]);
        assert(lex_le(a, b) == lex_le(at, bt));
        assert forall|j: int| 0 <= j < i - 1 implies at[j] == bt[j] by {
            assert(at[j] == a[j + 1]);
            assert(bt[j] == b[j + 1]);
        }
        lemma_lex_le_skip(at, bt, i - 1);
        assert(at.skip(i - 1) =~= a.skip(i));
        assert(bt.skip(i - 1) =~= b.skip(i));
    }
}

/// Whether `a` sorts at or before `b`, comparing characters left to right.
pub fn str_le(a: &str, b: &str) -> (r: bool)
    ensures
        r == lex_le(a@, b@),
{
    let n = a.unicode_len();
    let m = b.unicode_len();
    let mut i: usize = 0;
    while i < n && i < m
        invariant
            i <= n,
            i <= m,
            n == a@.len(),
            m == b@.len(),
            forall|j: int| 0 <= j < i ==> a@[j] == b@[j],
        decreases n - i,
    {
        let ca = a.get_char(i);
        let cb = b.get_char(i);
        if ca != cb {
            proof {
                lemma_lex_le_skip(a@, b@, i as int);
                assert(a@.skip(i as int).len() > 0);
                assert(b@.skip(i as int).len() > 0);
                assert(a@.skip(i as int)[0] == a@[i as int]);
                assert(b@.skip(i as int)[0] == b@[i as int]);
            }
            return (ca as u32) < (cb as u32);
        }
        i += 1;
    }
    proof {
        lemma_lex_le_skip(a@, b@, i as int);
        if i < n {
            assert(a@.skip(i as int).len() > 0);
            assert(b@.skip(i as int).len() == 0);
        } else {
            assert(a@.skip(i as int).len() == 0);
        }
    }
    n <= m
}

/// `x` inserted into `s` just after the last element that sorts at or
/// before it; everything else keeps its place.
pub open spec fn insert_ordered(s: Seq<Seq<char>>, x: Seq<char>) -> Seq<Seq<char>>
    decreases s.len(),
{
    if s.len() == 0 {
        seq![x]
    } else if lex_le(s.last(), x) {
        s.push(x)
    } else {
        insert_ordered(s.drop_last(), x).push(s.last())
    }
}

/// `s` sorted lexicographically, by insertion.
pub open spec fn sort_lex(s: Seq<Seq<char>>) -> Seq<Seq<char>>
    decreases s.len(),
{
    if s.len() == 0 {
        Seq::empty()
    } else {
        insert_ordered(sort_lex(s.drop_last()), s.last())
    }
}

proof fn lemma_insert_ordered_at(s: Seq<Seq<char>>, x: Seq<char>, j: int)
    requires
        0 <= j <= s.len(),
        j > 0 ==> lex_le(s[j - 1], x),
        forall|k: int| j <= k < s.len() ==> !lex_le(#[trigger] s[k], x),
    ensures
        insert_ordered(s, x) == s.subrange(0, j).push(x) + s.subrange(j, s.len() as int),
    decreases s.len(),
{
    if s.len() == 0 {
        assert(insert_ordered(s, x) =~= s.subrange(0, 0).push(x) + s.subrange(0, 0));
    } else if j == s.len() {
        assert(lex_le(s.last(), x));
        assert(s.push(x) =~= s.subrange(0, j).push(x) + s.subrange(j, s.len() as int));
    } else {
        assert(!lex_le(s[s.len() - 1], x));
        let dl = s.drop_last();
        assert(forall|k: int| 0 <= k < dl.len() ==> #[trigger] dl[k] == s[k]);
        lemma_insert_ordered_at(dl, x, j);
        assert(insert_ordered(dl, x).push(s.last()) =~= s.subrange(0, j).push(x) + s.subrange(
            j,
            s.len() as int,
        ));
    }
}

proof fn lemma_insert_ordered_multiset(s: Seq<Seq<char>>, x: Seq<char>)
    ensures
        insert_ordered(s, x).to_multiset() == s.to_multiset().insert(x),
    decreases s.len(),
{
    broadcast use vstd::seq_lib::group_to_multiset_ensures;

    if s.len() == 0 {
        assert(seq![x] =~= Seq::<Seq<char>>::empty().push(x));
        assert(insert_ordered(s, x).to_multiset() =~= s.to_multiset().insert(x));
    } else if lex_le(s.last(), x) {
        assert(s.push(x).to_multiset() =~= s.to_multiset().insert(x));
    } else {
        let dl = s.drop_last();
        lemma_insert_ordered_multiset(dl, x);
        assert(dl.push(s.last()) =~= s);
        assert(insert_ordered(s, x).to_multiset() =~= dl.to_multiset().insert(x).insert(
            s.last(),
        ));
        assert(s.to_multiset() =~= dl.to_multiset().insert(s.last()));
        assert(dl.to_multiset().insert(x).insert(s.last()) =~= dl.to_multiset().insert(
            s.last(),
        ).insert(x));
    }
}

proof fn lemma_sort_lex_multiset(s: Seq<Seq<char>>)
    ensures
        sort_lex(s).to_multiset() == s.to_multiset(),
    decreases s.len(),
{
    broadcast use vstd::seq_lib::group_to_multiset_ensures;

    if s.len() > 0 {
        let dl = s.drop_last();
        lemma_sort_lex_multiset(dl);
        lemma_insert_ordered_multiset(sort_lex(dl), s.last());
        assert(dl.push(s.last()) =~= s);
        assert(s.to_multiset() =~= dl.to_multiset().insert(s.last()));
    }
}

/// Sorting keeps a duplicate-free list duplicate-free.
pub proof fn lemma_sort_lex_no_duplicates(s: Seq<Seq<char>>)
    requires
        s.no_duplicates(),
    ensures
        sort_lex(s).no_duplicates(),
{
    lemma_sort_lex_multiset(s);
    s.lemma_multiset_has_no_duplicates();
    sort_lex(s).lemma_multiset_has_no_duplicates_conv();
}

/// The position in the ordered list `out` where `x` belongs: right after
/// the last element that sorts at or before it.
fn insertion_point(out: &Vec<String>, x: &String) -> (j: usize)
    ensures
        j <= out@.len(),
        j > 0 ==> lex_le(out.deep_view()[j - 1], x@),
        forall|k: int| j <= k < out@.len() ==> !lex_le(#[trigger] out.deep_view()[k], x@),
{
    let mut j: usize = out.len();
    while j > 0
        invariant
            j <= out@.len(),
            forall|k: int| j <= k < out@.len() ==> !lex_le(#[trigger] out.deep_view()[k], x@),
        decreases j,
    {
        if str_le(out[j - 1].as_str(), x.as_str()) {
            proof {
                assert(out.deep_view()[j - 1] == out@[j - 1]@);
            }
            return j;
        }
        proof {
            assert(out.deep_view()[j - 1] == out@[j - 1]@);
        }
        j -= 1;
    }
    0
}

/// Insert `x` into the ordered list `out`, keeping the order.
fn insert_ordered_string(out: &mut Vec<String>, x: String)
    ensures
        final(out).deep_view() == insert_ordered(old(out).deep_view(), x@),
{
    let j = insertion_point(out, &x);
    let ghost s = out.deep_view();
    let ghost xv = x@;
    out.insert(j, x);
    proof {
        lemma_insert_ordered_at(s, xv, j as int);
        let target = s.subrange(0, j as int).push(xv) + s.subrange(j as int, s.len() as int);
        assert(out.deep_view().len() == target.len());
        assert forall|k: int| 0 <= k < out.deep_view().len() implies out.deep_view()[k]
            == target[k] by {
            if k < j {
                assert(out@[k] == old(out)@[k]);
            } else if k == j {
                assert(out@[k]@ == xv);
            } else {
                assert(out@[k] == old(out)@[k - 1]);
            }
        }
        assert(out.deep_view() =~= target);
    }
}

/// Sort a list of strings lexicographically by character.
pub fn sort_strings(v: Vec<String>) -> (r: Vec<String>)
    ensures
        r.deep_view() == sort_lex(v.deep_view()),
{
    let ghost vd = v.deep_view();
    let mut out: Vec<String> = Vec::new();
    let mut i: usize = 0;
    proof {
        assert(vd.take(0) =~= Seq::<Seq<char>>::empty());
        assert(out.deep_view() =~= Seq::<Seq<char>>::empty());
        assert(sort_lex(vd.take(0)) == Seq::<Seq<char>>::empty());
    }
    while i < v.len()
        invariant
            i <= vd.len(),
            vd == v.deep_view(),
            out.deep_view() == sort_lex(vd.take(i as int)),
        decreases vd.len() - i,
    {
        let ghost pre = vd.take(i as int);
        let ghost post = vd.take(i + 1);
        proof {
            assert(post.drop_last() =~= pre);
            assert(post.last() == vd[i as int]);
            assert(vd[i as int] == v@[i as int]@);
        }
        insert_ordered_string(&mut out, v[i].clone());
        proof {
            assert(out.deep_view() == insert_ordered(sort_lex(pre), post.last()));
            assert(out.deep_view() == sort_lex(post));
        }
        i += 1;
    }
    proof {
        assert(vd.take(vd.len() as int) =~= vd);
    }
    out
}

/// A list is sorted when every element sorts at or before each later one.
pub open spec fn sorted_lex(s: Seq<Seq<char>>) -> bool {
    forall|k1: int, k2: int| 0 <= k1 < k2 < s.len() ==> lex_le(#[trigger] s[k1], #[trigger] s[k2])
}

/// The order is total: of any two strings, one sorts at or before the
/// other.
pub proof fn lemma_lex_le_total(a: Seq<char>, b: Seq<char>)
    ensures
        lex_le(a, b) || lex_le(b, a),
    decreases a.len(),
{
    if a.len() > 0 && b.len() > 0 && a[0] == b[0] {
        lemma_lex_le_total(a.drop_first(), b.drop_first());
    }
}

/// The order is transitive.
pub proof fn lemma_lex_le_trans(a: Seq<char>, b: Seq<char>, c: Seq<char>)
    requires
        lex_le(a, b),
        lex_le(b, c),
    ensures
        lex_le(a, c),
    decreases a.len(),
{
    if a.len() > 0 {
        assert(b.len() > 0);
        assert(c.len() > 0);
        assert((a[0] as int) <= (b[0] as int));
        assert((b[0] as int) <= (c[0] as int));
        if a[0] == b[0] && b[0] == c[0] {
            lemma_lex_le_trans(a.drop_first(), b.drop_first(), c.drop_first());
        } else {
            assert((a[0] as int) < (c[0] as int));
        }
    }
}

proof fn lemma_insert_ordered_elems(s: Seq<Seq<char>>, x: Seq<char>)
    ensures
        insert_ordered(s, x).len() == s.len() + 1,
        forall|k: int|
            0 <= k < insert_ordered(s, x).len() ==> (#[trigger] insert_ordered(s, x)[k] == x
                || s.contains(insert_ordered(s, x)[k])),
    decreases s.len(),
{
    let r = insert_ordered(s, x);
    if s.len() == 0 {
    } else if lex_le(s.last(), x) {
        assert forall|k: int| 0 <= k < r.len() implies (#[trigger] r[k] == x || s.contains(
            r[k],
        )) by {
            if k < s.len() {
                assert(r[k] == s[k]);
                assert(s.contains(s[k]));
            }
        }
    } else {
        let dl = s.drop_last();
        lemma_insert_ordered_elems(dl, x);
        let rp = insert_ordered(dl, x);
        assert forall|k: int| 0 <= k < r.len() implies (#[trigger] r[k] == x || s.contains(
            r[k],
        )) by {
            if k < r.len() - 1 {
                assert(r[k] == rp[k]);
                if rp[k] != x {
                    assert(dl.contains(rp[k]));
                    let m = choose|m: int| 0 <= m < dl.len() && dl[m] == rp[k];
                    assert(s[m] == rp[k]);
                    assert(s.contains(s[m]));
                }
            } else {
                assert(r[k] == s.last());
                assert(s.contains(s.last()));
            }
        }
    }
}

proof fn lemma_insert_ordered_sorted(s: Seq<Seq<char>>, x: Seq<char>)
    requires
        sorted_lex(s),
    ensures
        sorted_lex(insert_ordered(s, x)),
    decreases s.len(),
{
    let r = insert_ordered(s, x);
    if s.len() == 0 {
    } else if lex_le(s.last(), x) {
        assert forall|k1: int, k2: int| 0 <= k1 < k2 < r.len() implies lex_le(
            #[trigger] r[k1],
            #[trigger] r[k2],
        ) by {
            if k2 < s.len() {
                assert(lex_le(s[k1], s[k2]));
            } else {
                assert(r[k2] == x);
                if k1 == s.len() - 1 {
                    assert(lex_le(s.last(), x));
                } else {
                    assert(lex_le(s[k1], s[s.len() - 1]));
                    lemma_lex_le_trans(s[k1], s[s.len() - 1], x);
                }
            }
        }
    } else {
        let dl = s.drop_last();
        assert(sorted_lex(dl)) by {
            assert forall|k1: int, k2: int| 0 <= k1 < k2 < dl.len() implies lex_le(
                #[trigger] dl[k1],
                #[trigger] dl[k2],
            ) by {
                assert(lex_le(s[k1], s[k2]));
            }
        }
        lemma_insert_ordered_sorted(dl, x);
        lemma_insert_ordered_elems(dl, x);
        lemma_lex_le_total(s.last(), x);
        assert(lex_le(x, s.last()));
        let rp = insert_ordered(dl, x);
        assert forall|k1: int, k2: int| 0 <= k1 < k2 < r.len() implies lex_le(
            #[trigger] r[k1],
            #[trigger] r[k2],
        ) by {
            if k2 < rp.len() {
                assert(r[k1] == rp[k1]);
                assert(r[k2] == rp[k2]);
                assert(lex_le(rp[k1], rp[k2]));
            } else {
                assert(r[k2] == s.last());
                assert(r[k1] == rp[k1]);
                if rp[k1] == x {
                    assert(lex_le(x, s.last()));
                } else {
                    assert(dl.contains(rp[k1]));
                    let m = choose|m: int| 0 <= m < dl.len() && dl[m] == rp[k1];
                    assert(s[m] == rp[k1]);
                    assert(lex_le(s[m], s[s.len() - 1]));
                }
            }
        }
    }
}

/// The sort's result is sorted.
pub proof fn lemma_sort_lex_sorted(s: Seq<Seq<char>>)
    ensures
        sorted_lex(sort_lex(s)),
    decreases s.len(),
{
    if s.len() > 0 {
        lemma_sort_lex_sorted(s.drop_last());
        lemma_insert_ordered_sorted(sort_lex(s.drop_last()), s.last());
    }
}

} // verus!
