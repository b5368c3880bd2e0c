//! String utilities shared by the stores: lexicographic ordering, prefix and
//! substring tests, decimal formatting, path joining and extension splitting.
//!
//! Paths and names are ordinary UTF-8 strings; all specifications are stated
//! over their `Seq<char>` views.

use vstd::prelude::*;
use vstd::string::*;

verus! {

/// Lexicographic "less or equal" on character sequences, ordering characters
/// by their code points.
pub open spec fn lex_le(a: Seq<char>, b: Seq<char>) -> bool
    decreases a.len(),
{
    if a.len() == 0 {
        true
    } else if b.len() == 0 {
        false
    } else if a[0] == b[0] {
        lex_le(a.drop_first(), b.drop_first())
    } else {
        (a[0] as int) < (b[0] as int)
    }
}

pub proof fn lemma_lex_le_total(a: Seq<char>, b: Seq<char>)
    ensures
        lex_le(a, b) || lex_le(b, a),
    decreases a.len(),
{
    if a.len() == 0 {
        assert(lex_le(a, b));
    } else if b.len() == 0 {
        assert(lex_le(b, a));
    } else if a[0] == b[0] {
        lemma_lex_le_total(a.drop_first(), b.drop_first());
        assert(lex_le(a, b) == lex_le(a.drop_first(), b.drop_first()));
        assert(lex_le(b, a) == lex_le(b.drop_first(), a.drop_first()));
    } else {
        assert(a[0] as int != b[0] as int);
    }
}

pub proof fn lemma_lex_le_trans(a: Seq<char>, b: Seq<char>, c: Seq<char>)
    requires
        lex_le(a, b),
        lex_le(b, c),
    ensures
        lex_le(a, c),
    decreases a.len(),
{
    if a.len() != 0 && b.len() != 0 && c.len() != 0 {
        if a[0] == b[0] && b[0] == c[0] {
            lemma_lex_le_trans(a.drop_first(), b.drop_first(), c.drop_first());
        }
    }
}

/// Decides `lex_le` on two string slices.
pub fn str_le(a: &str, b: &str) -> (r: bool)
    ensures
        r == lex_le(a@, b@),
{
    let alen: usize = a.unicode_len();
    let blen: usize = b.unicode_len();
    let mut i: usize = 0;
    proof {
        assert(a@.skip(0) =~= a@);
        assert(b@.skip(0) =~= b@);
    }
    loop
        invariant
            i <= alen,
            i <= blen,
            alen == a@.len(),
            blen == b@.len(),
            lex_le(a@, b@) == lex_le(a@.skip(i as int), b@.skip(i as int)),
        decreases alen - i,
    {
        if i == alen {
            proof {
                assert(a@.skip(i as int) =~= Seq::<char>::empty());
            }
            return true;
        }
        if i == blen {
            proof {
                assert(b@.skip(i as int) =~= Seq::<char>::empty());
            }
            return false;
        }
        let ca = a.get_char(i);
        let cb = b.get_char(i);
        proof {
            assert(a@.skip(i as int)[0] == a@[i as int]);
            assert(b@.skip(i as int)[0] == b@[i as int]);
        }
        if ca == cb {
            proof {
                assert(a@.skip(i as int).drop_first() =~= a@.skip(i as int + 1));
                assert(b@.skip(i as int).drop_first() =~= b@.skip(i as int + 1));
            }
            i = i + 1;
        } else {
            return (ca as u32) < (cb as u32);
        }
    }
}

/// Equality of two string slices, decided character by character.
pub fn str_eq(a: &str, b: &str) -> (r: bool)
    ensures
        r == (a@ == b@),
{
    let alen: usize = a.unicode_len();
    let blen: usize = b.unicode_len();
    if alen != blen {
        return false;
    }
    let mut i: usize = 0;
    while i < alen
        invariant
            i <= alen,
            alen == a@.len(),
            alen == b@.len(),
            forall|k: int| 0 <= k < i ==> a@[k] == b@[k],
        decreases alen - i,
    {
        if a.get_char(i) != b.get_char(i) {
            return false;
        }
        i = i + 1;
    }
    proof {
        assert(a@ =~= b@);
    }
    true
}

/// `p` is a prefix of `s`.
pub open spec fn is_prefix_of(p: Seq<char>, s: Seq<char>) -> bool {
    p.len() <= s.len() && s.subrange(0, p.len() as int) == p
}

/// Decides whether `s` starts with `p`.
pub fn starts_with(s: &str, p: &str) -> (r: bool)
    ensures
        r == is_prefix_of(p@, s@),
{
    let slen: usize = s.unicode_len();
    let plen: usize = p.unicode_len();
    if plen > slen {
        return false;
    }
    let mut i: usize = 0;
    while i < plen
        invariant
            i <= plen,
            plen <= slen,
            slen == s@.len(),
            plen == p@.len(),
            forall|k: int| 0 <= k < i ==> s@[k] == p@[k],
        decreases plen - i,
    {
        if s.get_char(i) != p.get_char(i) {
            proof {
                assert(s@.subrange(0, p@.len() as int)[i as int] == s@[i as int]);
            }
            return false;
        }
        i = i + 1;
    }
    proof {
        assert(s@.subrange(0, p@.len() as int) =~= p@);
    }
    true
}

/// `needle` occurs somewhere in `hay` as a contiguous run.
pub open spec fn contains_seq(hay: Seq<char>, needle: Seq<char>) -> bool {
    exists|i: int|
        0 <= i && i + needle.len() <= hay.len() && #[trigger] hay.subrange(i, i + needle.len())
            == needle
}

/// Decides `contains_seq` by a straightforward scan.
pub fn contains_sub(hay: &str, needle: &str) -> (r: bool)
    ensures
        r == contains_seq(hay@, needle@),
{
    let hlen: usize = hay.unicode_len();
    let nlen: usize = needle.unicode_len();
    if nlen > hlen {
        return false;
    }
    let mut i: usize = 0;
    while i <= hlen - nlen
        invariant
            nlen <= hlen,
            hlen == hay@.len(),
            nlen == needle@.len(),
            i <= hlen - nlen + 1,
            forall|j: int| 0 <= j < i ==> #[trigger] hay@.subrange(j, j + needle@.len())
                != needle@,
        decreases hlen - nlen + 1 - i,
    {
        let mut k: usize = 0;
        let mut matched: bool = true;
        while matched && k < nlen
            invariant
                k <= nlen,
                i + nlen <= hlen,
                hlen == hay@.len(),
                nlen == needle@.len(),
                matched ==> forall|t: int| 0 <= t < k ==> hay@[i + t] == needle@[t],
                !matched ==> hay@.subrange(i as int, i + needle@.len()) != needle@,
            decreases nlen - k,
        {
            if hay.get_char(i + k) != needle.get_char(k) {
                proof {
                    let sub = hay@.subrange(i as int, i + needle@.len());
                    assert(sub[k as int] == hay@[i + k]);
                }
                matched = false;
                k = nlen;
            } else {
                assert(forall|t: int| 0 <= t < k + 1 ==> hay@[i + t] == needle@[t]) by {
                    assert(hay@[i + k] == needle@[k as int]);
                }
                k = k + 1;
            }
        }
        if matched {
            proof {
                assert(hay@.subrange(i as int, i + needle@.len()) =~= needle@);
            }
            return true;
        }
        if i == hlen - nlen {
            return false;
        }
        i = i + 1;
    }
    false
}

/// The character standing for a decimal digit.
pub open spec fn digit_char(d: nat) -> char {
    if d == 0 {
        '0'
    } else if d == 1 {
        '1'
    } else if d == 2 {
        '2'
    } else if d == 3 {
        '3'
    } else if d == 4 {
        '4'
    } else if d == 5 {
        '5'
    } else if d == 6 {
        '6'
    } else if d == 7 {
        '7'
    } else if d == 8 {
        '8'
    } else {
        '9'
    }
}

/// Decimal digit sequence of `n`, most significant digit first, no leading
/// zeros (a single `'0'` for zero).
pub open spec fn dec_seq(n: nat) -> Seq<char>
    decreases n,
{
    if n < 10 {
        seq![digit_char(n)]
    } else {
        dec_seq(n / 10).push(digit_char(n % 10))
    }
}

/// Appends one decimal digit to `s`.
fn push_digit(s: &mut String, d: u8)
    requires
        d < 10,
    ensures
        final(s)@ == old(s)@ + seq![digit_char(d as nat)],
{
    if d == 0 {
        proof {
            reveal_strlit("0");
        }
        s.append("0");
        proof {
            assert(final(s)@ =~= old(s)@ + seq![digit_char(d as nat)]);
        }
    } else if d == 1 {
        proof {
            reveal_strlit("1");
        }
        s.append("1");
        proof {
            assert(final(s)@ =~= old(s)@ + seq![digit_char(d as nat)]);
        }
    } else if d == 2 {
        proof {
            reveal_strlit("2");
        }
        s.append("2");
        proof {
            assert(final(s)@ =~= old(s)@ + seq![digit_char(d as nat)]);
        }
    } else if d == 3 {
        proof {
            reveal_strlit("3");
        }
        s.append("3");
        proof {
            assert(final(s)@ =~= old(s)@ + seq![digit_char(d as nat)]);
        }
    } else if d == 4 {
        proof {
            reveal_strlit("4");
        }
        s.append("4");
        proof {
            assert(final(s)@ =~= old(s)@ + seq![digit_char(d as nat)]);
        }
    } else if d == 5 {
        proof {
            reveal_strlit("5");
        }
        s.append("5");
        proof {
            assert(final(s)@ =~= old(s)@ + seq![digit_char(d as nat)]);
        }
    } else if d == 6 {
        proof {
            reveal_strlit("6");
        }
        s.append("6");
        proof {
            assert(final(s)@ =~= old(s)@ + seq![digit_char(d as nat)]);
        }
    } else if d == 7 {
        proof {
            reveal_strlit("7");
        }
        s.append("7");
        proof {
            assert(final(s)@ =~= old(s)@ + seq![digit_char(d as nat)]);
        }
    } else if d == 8 {
        proof {
            reveal_strlit("8");
        }
        s.append("8");
        proof {
            assert(final(s)@ =~= old(s)@ + seq![digit_char(d as nat)]);
        }
    } else {
        proof {
            reveal_strlit("9");
        }
        s.append("9");
        proof {
            assert(final(s)@ =~= old(s)@ + seq![digit_char(d as nat)]);
        }
    }
}

/// Appends the decimal rendering of `n` to `s`.
pub fn push_decimal(s: &mut String, n: u64)
    ensures
        final(s)@ == old(s)@ + dec_seq(n as nat),
    decreases n,
{
    if n < 10 {
        push_digit(s, n as u8);
    } else {
        push_decimal(s, n / 10);
        push_digit(s, (n % 10) as u8);
        proof {
            assert(final(s)@ =~= old(s)@ + dec_seq(n as nat));
        }
    }
}

/// The decimal rendering of `n`.
pub fn decimal_string(n: u64) -> (r: String)
    ensures
        r@ == dec_seq(n as nat),
{
    let mut s = String::new();
    push_decimal(&mut s, n);
    proof {
        assert(s@ =~= dec_seq(n as nat));
    }
    s
}

pub proof fn lemma_dec_seq_len(n: nat)
    ensures
        dec_seq(n).len() >= 1,
        n < 10 ==> dec_seq(n).len() == 1,
        10 <= n < 100 ==> dec_seq(n).len() == 2,
        100 <= n < 1000 ==> dec_seq(n).len() == 3,
        1000 <= n < 10000 ==> dec_seq(n).len() == 4,
        n >= 10 ==> dec_seq(n).len() >= 2,
        n >= 100 ==> dec_seq(n).len() >= 3,
        n >= 1000 ==> dec_seq(n).len() >= 4,
    decreases n,
{
    if n >= 10 {
        lemma_dec_seq_len(n / 10);
    }
}

/// Decimal rendering of `n` left-padded with zeros to at least `w`
/// characters.
pub open spec fn dec_pad_seq(n: nat, w: nat) -> Seq<char> {
    if dec_seq(n).len() >= w {
        dec_seq(n)
    } else {
        Seq::new((w - dec_seq(n).len()) as nat, |i: int| '0') + dec_seq(n)
    }
}

/// Appends `n` zero-padded to at least `w` characters, for small widths.
pub fn push_decimal_pad(s: &mut String, n: u64, w: u8)
    requires
        w <= 4,
    ensures
        final(s)@ == old(s)@ + dec_pad_seq(n as nat, w as nat),
{
    proof {
        lemma_dec_seq_len(n as nat);
        reveal_strlit("0");
        reveal_strlit("00");
        reveal_strlit("000");
        assert("0"@ =~= seq!['0']);
        assert("00"@ =~= seq!['0', '0']);
        assert("000"@ =~= seq!['0', '0', '0']);
    }
    let ghost pre: Seq<char> = s@;
    let ghost zeros: Seq<char> = Seq::new(
        (dec_pad_seq(n as nat, w as nat).len() - dec_seq(n as nat).len()) as nat,
        |i: int| '0',
    );
    if w >= 2 && n < 10 {
        if w == 2 {
            s.append("0");
        } else if w == 3 {
            s.append("00");
        } else {
            s.append("000");
        }
    } else if w >= 3 && n < 100 {
        if w == 3 {
            s.append("0");
        } else {
            s.append("00");
        }
    } else if w >= 4 && n < 1000 {
        s.append("0");
    }
    proof {
        assert(s@ =~= pre + zeros);
    }
    push_decimal(s, n);
    proof {
        assert(s@ =~= pre + dec_pad_seq(n as nat, w as nat));
    }
}

/// Joining two path fragments with exactly one slash between them; an
/// empty base leaves the other fragment as it is.
pub open spec fn join_seq(a: Seq<char>, b: Seq<char>) -> Seq<char> {
    if a.len() == 0 {
        b
    } else if a.last() == '/' && b.len() > 0 && b[0] == '/' {
        a + b.skip(1)
    } else if a.last() == '/' || (b.len() > 0 && b[0] == '/') {
        a + b
    } else {
        a + seq!['/'] + b
    }
}

/// Joins two path fragments under the `join_seq` rule.
pub fn join_path(a: &str, b: &str) -> (r: String)
    ensures
        r@ == join_seq(a@, b@),
{
    let alen: usize = a.unicode_len();
    if alen == 0 {
        let r = b.to_owned();
        proof {
            assert(r@ =~= join_seq(a@, b@));
        }
        return r;
    }
    let blen: usize = b.unicode_len();
    let a_slash = a.get_char(alen - 1) == '/';
    let b_slash = blen > 0 && b.get_char(0) == '/';
    let mut r = a.to_owned();
    if a_slash && b_slash {
        let tail = b.substring_char(1, blen);
        r.append(tail);
        proof {
            assert(r@ =~= join_seq(a@, b@));
        }
    } else if a_slash || b_slash {
        r.append(b);
        proof {
            assert(r@ =~= join_seq(a@, b@));
        }
    } else {
        proof {
            reveal_strlit("/");
        }
        r.append("/");
        r.append(b);
        proof {
            assert(r@ =~= join_seq(a@, b@));
        }
    }
    r
}

/// `s` with every trailing slash removed.
pub open spec fn trim_trailing_slashes(s: Seq<char>) -> Seq<char>
    decreases s.len(),
{
    if s.len() > 0 && s.last() == '/' {
        trim_trailing_slashes(s.drop_last())
    } else {
        s
    }
}

/// Removes trailing slashes from `s`.
pub fn trim_slashes(s: &str) -> (r: String)
    ensures
        r@ == trim_trailing_slashes(s@),
{
    let len: usize = s.unicode_len();
    let mut end: usize = len;
    proof {
        assert(s@.take(len as int) =~= s@);
    }
    while end > 0 && s.get_char(end - 1) == '/'
        invariant
            end <= len,
            len == s@.len(),
            trim_trailing_slashes(s@) == trim_trailing_slashes(s@.take(end as int)),
        decreases end,
    {
        proof {
            assert(s@.take(end as int).last() == s@[end - 1]);
            assert(s@.take(end as int).drop_last() =~= s@.take(end as int - 1));
        }
        end = end - 1;
    }
    proof {
        if end > 0 {
            assert(s@.take(end as int).last() == s@[end - 1]);
        }
        assert(trim_trailing_slashes(s@.take(end as int)) == s@.take(end as int));
    }
    let r = s.substring_char(0, end);
    proof {
        assert(r@ =~= s@.take(end as int));
    }
    r.to_owned()
}

/// Index of the last occurrence of `c` in `s`, or `-1` if there is none.
pub open spec fn last_pos(s: Seq<char>, c: char) -> int
    decreases s.len(),
{
    if s.len() == 0 {
        -1
    } else if s.last() == c {
        s.len() - 1
    } else {
        last_pos(s.drop_last(), c)
    }
}

pub proof fn lemma_last_pos_bounds(s: Seq<char>, c: char)
    ensures
        -1 <= last_pos(s, c) < s.len(),
        last_pos(s, c) >= 0 ==> s[last_pos(s, c)] == c,
        forall|k: int| last_pos(s, c) < k < s.len() ==> s[k] != c,
    decreases s.len(),
{
    if s.len() > 0 && s.last() != c {
        lemma_last_pos_bounds(s.drop_last(), c);
        assert forall|k: int| last_pos(s, c) < k < s.len() implies s[k] != c by {
            if k < s.len() - 1 {
                assert(s[k] == s.drop_last()[k]);
            }
        }
    }
}

/// Finds the index of the last occurrence of `c`, or `s.len()` standing for
/// "none" (so that the result is a `usize`).
pub fn find_last(s: &str, c: char) -> (r: usize)
    ensures
        r <= s@.len(),
        r < s@.len() ==> r == last_pos(s@, c),
        r == s@.len() ==> last_pos(s@, c) == -1,
{
    let len: usize = s.unicode_len();
    let mut i: usize = len;
    proof {
        assert(s@.take(len as int) =~= s@);
    }
    while i > 0
        invariant
            i <= len,
            len == s@.len(),
            last_pos(s@, c) == last_pos(s@.take(i as int), c),
        decreases i,
    {
        proof {
            assert(s@.take(i as int).last() == s@[i - 1]);
            assert(s@.take(i as int).drop_last() =~= s@.take(i as int - 1));
        }
        if s.get_char(i - 1) == c {
            return i - 1;
        }
        i = i - 1;
    }
    proof {
        assert(s@.take(0) =~= Seq::<char>::empty());
    }
    len
}

/// A storage name built from a stem and an extension: the stem alone when
/// the extension is empty, else the two joined by a dot.
pub open spec fn with_extension(stem: Seq<char>, ext: Seq<char>) -> Seq<char> {
    if ext.len() == 0 {
        stem
    } else {
        stem + seq!['.'] + ext
    }
}

/// Glues a stem and an extension under the `with_extension` rule.
pub fn filename_with_extension(stem: &str, ext: &str) -> (r: String)
    ensures
        r@ == with_extension(stem@, ext@),
{
    if ext.unicode_len() == 0 {
        stem.to_owned()
    } else {
        let mut r = stem.to_owned();
        proof {
            reveal_strlit(".");
        }
        r.append(".");
        r.append(ext);
        proof {
            assert(r@ =~= with_extension(stem@, ext@));
        }
        r
    }
}

/// The extension of a file name: the part after the last `'.'`, empty when
/// the name has no dot, when the last dot opens the final path component
/// (a leading-dot name), or when the dot lies in an earlier component.
pub open spec fn ext_of(name: Seq<char>) -> Seq<char> {
    if last_pos(name, '.') > last_pos(name, '/') + 1 {
        name.skip(last_pos(name, '.') + 1)
    } else {
        Seq::empty()
    }
}

/// Extracts the extension of a file name under the `ext_of` rule.
pub fn extension_of(name: &str) -> (r: String)
    ensures
        r@ == ext_of(name@),
{
    let len: usize = name.unicode_len();
    let dot: usize = find_last(name, '.');
    let slash: usize = find_last(name, '/');
    proof {
        lemma_last_pos_bounds(name@, '.');
        lemma_last_pos_bounds(name@, '/');
    }
    if dot < len && ((slash == len && dot > 0) || (slash < len && dot > slash + 1)) {
        let r = name.substring_char(dot + 1, len);
        proof {
            assert(r@ =~= ext_of(name@));
        }
        r.to_owned()
    } else {
        proof {
            assert(Seq::<char>::empty() =~= ext_of(name@));
        }
        String::new()
    }
}

/// Elements pairwise ordered by `lex_le` on their keys.
pub open spec fn sorted_by_key<A>(s: Seq<A>, key: spec_fn(A) -> Seq<char>) -> bool {
    forall|i: int, j: int| 0 <= i < j < s.len() ==> lex_le(key(#[trigger] s[i]), key(#[trigger] s[j]))
}

/// `x` inserted into `s` in front of the first element whose key exceeds
/// its own.
pub open spec fn sorted_insert<A>(s: Seq<A>, x: A, key: spec_fn(A) -> Seq<char>) -> Seq<A>
    decreases s.len(),
{
    if s.len() == 0 {
        seq![x]
    } else if lex_le(key(s[0]), key(x)) {
        seq![s[0]] + sorted_insert(s.drop_first(), x, key)
    } else {
        seq![x] + s
    }
}

/// Insertion sort of `s` under `lex_le` on keys: a deterministic, stable
/// ordering.
pub open spec fn sort_by_key<A>(s: Seq<A>, key: spec_fn(A) -> Seq<char>) -> Seq<A>
    decreases s.len(),
{
    if s.len() == 0 {
        Seq::empty()
    } else {
        sorted_insert(sort_by_key(s.drop_last(), key), s.last(), key)
    }
}

/// Where the insertion lands: before index `idx`, the first whose key
/// exceeds the new element's key.
pub proof fn lemma_sorted_insert_splice<A>(s: Seq<A>, x: A, key: spec_fn(A) -> Seq<char>, idx: int)
    requires
        0 <= idx <= s.len(),
        forall|k: int| 0 <= k < idx ==> lex_le(key(#[trigger] s[k]), key(x)),
        idx < s.len() ==> !lex_le(key(s[idx]), key(x)),
    ensures
        sorted_insert(s, x, key) == s.take(idx) + seq![x] + s.skip(idx),
    decreases s.len(),
{
    if idx == 0 {
        if s.len() == 0 {
            assert(sorted_insert(s, x, key) =~= s.take(0) + seq![x] + s.skip(0));
        } else {
            assert(!lex_le(key(s[0]), key(x)));
            assert(sorted_insert(s, x, key) =~= s.take(0) + seq![x] + s.skip(0));
        }
    } else {
        assert(lex_le(key(s[0]), key(x)));
        let df = s.drop_first();
        assert(forall|k: int| 0 <= k < idx - 1 ==> #[trigger] df[k] == s[k + 1]);
        lemma_sorted_insert_splice(df, x, key, idx - 1);
        assert(sorted_insert(s, x, key) =~= s.take(idx) + seq![x] + s.skip(idx));
    }
}

/// Every element of a filtered sequence comes from the original one.
pub proof fn lemma_filter_member<A>(s: Seq<A>, pred: spec_fn(A) -> bool)
    ensures
        forall|k: int|
            0 <= k < s.filter(pred).len() ==> exists|j: int|
                0 <= j < s.len() && s[j] == #[trigger] s.filter(pred)[k],
    decreases s.len(),
{
    reveal(Seq::filter);
    if s.len() > 0 {
        let dl = s.drop_last();
        lemma_filter_member(dl, pred);
        assert forall|k: int| 0 <= k < s.filter(pred).len() implies exists|j: int|
            0 <= j < s.len() && s[j] == #[trigger] s.filter(pred)[k] by {
            if pred(s.last()) && k == s.filter(pred).len() - 1 {
                assert(s[s.len() - 1] == s.filter(pred)[k]);
            } else {
                assert(s.filter(pred)[k] == dl.filter(pred)[k]);
                let j = choose|j: int| 0 <= j < dl.len() && dl[j] == dl.filter(pred)[k];
                assert(s[j] == s.filter(pred)[k]);
            }
        }
    }
}

/// Filtering keeps pairwise-distinct keys distinct.
pub proof fn lemma_filter_distinct_by<A>(
    s: Seq<A>,
    pred: spec_fn(A) -> bool,
    key: spec_fn(A) -> Seq<char>,
    i: int,
    j: int,
)
    requires
        0 <= i < j < s.filter(pred).len(),
        forall|a: int, b: int| 0 <= a < b < s.len() ==> key(#[trigger] s[a]) != key(
            #[trigger] s[b],
        ),
    ensures
        key(s.filter(pred)[i]) != key(s.filter(pred)[j]),
    decreases s.len(),
{
    reveal(Seq::filter);
    if s.len() > 0 {
        let dl = s.drop_last();
        if pred(s.last()) && j == s.filter(pred).len() - 1 {
            lemma_filter_member(dl, pred);
            assert(s.filter(pred)[i] == dl.filter(pred)[i]);
            let w = choose|w: int| 0 <= w < dl.len() && dl[w] == dl.filter(pred)[i];
            assert(key(s[w]) != key(s[s.len() - 1]));
        } else {
            lemma_filter_distinct_by(dl, pred, key, i, j);
        }
    }
}

/// Splicing an element at its insertion point keeps the sequence sorted.
pub proof fn lemma_splice_sorted<A>(s: Seq<A>, x: A, key: spec_fn(A) -> Seq<char>, idx: int)
    requires
        sorted_by_key(s, key),
        0 <= idx <= s.len(),
        forall|k: int| 0 <= k < idx ==> lex_le(key(#[trigger] s[k]), key(x)),
        idx < s.len() ==> !lex_le(key(s[idx]), key(x)),
    ensures
        sorted_by_key(s.take(idx) + seq![x] + s.skip(idx), key),
{
    let r = s.take(idx) + seq![x] + s.skip(idx);
    assert forall|a: int, b: int| 0 <= a < b < r.len() implies lex_le(
        key(#[trigger] r[a]),
        key(#[trigger] r[b]),
    ) by {
        if a < idx {
            assert(r[a] == s[a]);
        } else if a == idx {
            assert(r[a] == x);
        } else {
            assert(r[a] == s[a - 1]);
        }
        if b < idx {
            assert(r[b] == s[b]);
        } else if b == idx {
            assert(r[b] == x);
        } else {
            assert(r[b] == s[b - 1]);
        }
        if a == idx && b > idx {
            lemma_lex_le_total(key(s[idx]), key(x));
            if b - 1 > idx {
                lemma_lex_le_trans(key(x), key(s[idx]), key(s[b - 1]));
            }
        }
    }
}

/// Every element of an insertion is the new one or comes from the
/// sequence.
pub proof fn lemma_sorted_insert_member<A>(s: Seq<A>, x: A, key: spec_fn(A) -> Seq<char>)
    ensures
        forall|k: int|
            0 <= k < sorted_insert(s, x, key).len() ==> #[trigger] sorted_insert(s, x, key)[k]
                == x || exists|j: int| 0 <= j < s.len() && s[j] == sorted_insert(s, x, key)[k],
    decreases s.len(),
{
    if s.len() > 0 && lex_le(key(s[0]), key(x)) {
        let df = s.drop_first();
        lemma_sorted_insert_member(df, x, key);
        assert forall|k: int| 0 <= k < sorted_insert(s, x, key).len() implies #[trigger]
        sorted_insert(s, x, key)[k] == x || exists|j: int|
            0 <= j < s.len() && s[j] == sorted_insert(s, x, key)[k] by {
            if k == 0 {
                assert(s[0] == sorted_insert(s, x, key)[0]);
            } else {
                assert(sorted_insert(s, x, key)[k] == sorted_insert(df, x, key)[k - 1]);
                if sorted_insert(df, x, key)[k - 1] != x {
                    let j = choose|j: int|
                        0 <= j < df.len() && df[j] == sorted_insert(df, x, key)[k - 1];
                    assert(s[j + 1] == sorted_insert(s, x, key)[k]);
                }
            }
        }
    }
}

/// Every element of the sorted sequence comes from the original one.
pub proof fn lemma_sort_member<A>(s: Seq<A>, key: spec_fn(A) -> Seq<char>)
    ensures
        forall|k: int|
            0 <= k < sort_by_key(s, key).len() ==> exists|j: int|
                0 <= j < s.len() && s[j] == #[trigger] sort_by_key(s, key)[k],
    decreases s.len(),
{
    if s.len() > 0 {
        let dl = s.drop_last();
        lemma_sort_member(dl, key);
        lemma_sorted_insert_member(sort_by_key(dl, key), s.last(), key);
        assert forall|k: int| 0 <= k < sort_by_key(s, key).len() implies exists|j: int|
            0 <= j < s.len() && s[j] == #[trigger] sort_by_key(s, key)[k] by {
            if sort_by_key(s, key)[k] == s.last() {
                assert(s[s.len() - 1] == sort_by_key(s, key)[k]);
            } else {
                let w = choose|w: int|
                    0 <= w < sort_by_key(dl, key).len() && sort_by_key(dl, key)[w]
                        == sort_by_key(s, key)[k];
                let j = choose|j: int| 0 <= j < dl.len() && dl[j] == sort_by_key(dl, key)[w];
                assert(s[j] == sort_by_key(s, key)[k]);
            }
        }
    }
}

/// Inserting adds exactly one element.
pub proof fn lemma_sorted_insert_len<A>(s: Seq<A>, x: A, key: spec_fn(A) -> Seq<char>)
    ensures
        sorted_insert(s, x, key).len() == s.len() + 1,
    decreases s.len(),
{
    if s.len() > 0 && lex_le(key(s[0]), key(x)) {
        lemma_sorted_insert_len(s.drop_first(), x, key);
    }
}

/// Sorting keeps the element count.
pub proof fn lemma_sort_len<A>(s: Seq<A>, key: spec_fn(A) -> Seq<char>)
    ensures
        sort_by_key(s, key).len() == s.len(),
    decreases s.len(),
{
    if s.len() > 0 {
        lemma_sort_len(s.drop_last(), key);
        lemma_sorted_insert_len(sort_by_key(s.drop_last(), key), s.last(), key);
    }
}

/// An ASCII decimal digit.
pub open spec fn is_digit(c: char) -> bool {
    '0' as int <= c as int && c as int <= '9' as int
}

/// Every character of `s` is a decimal digit.
pub open spec fn all_digits(s: Seq<char>) -> bool {
    forall|i: int| 0 <= i < s.len() ==> is_digit(#[trigger] s[i])
}

/// The year field of a timestamp: four digits, or an explicit sign
/// followed by at least four digits.
pub open spec fn timestamp_year_part(s: Seq<char>) -> bool {
    (s.len() == 4 && all_digits(s)) || (s.len() >= 5 && (s[0] == '+' || s[0] == '-')
        && all_digits(s.skip(1)))
}

/// The fractional-second field of a timestamp: absent, or a dot followed
/// by digits.
pub open spec fn timestamp_frac_part(s: Seq<char>) -> bool {
    s.len() == 0 || (s.len() >= 2 && s[0] == '.' && all_digits(s.skip(1)))
}

/// The fixed skeleton of a stored timestamp, anchored at the `'T'` that
/// stands at position `t`: a year field, a dashed month and day, a
/// colon-separated time, an optional fraction, and a signed colon offset
/// at the end.
pub open spec fn timestamp_point(s: Seq<char>, t: int) -> bool {
    &&& 10 <= t
    &&& t + 15 <= s.len()
    &&& s[t] == 'T'
    &&& timestamp_year_part(s.take(t - 6))
    &&& s[t - 6] == '-'
    &&& is_digit(s[t - 5]) && is_digit(s[t - 4])
    &&& s[t - 3] == '-'
    &&& is_digit(s[t - 2]) && is_digit(s[t - 1])
    &&& is_digit(s[t + 1]) && is_digit(s[t + 2])
    &&& s[t + 3] == ':'
    &&& is_digit(s[t + 4]) && is_digit(s[t + 5])
    &&& s[t + 6] == ':'
    &&& is_digit(s[t + 7]) && is_digit(s[t + 8])
    &&& timestamp_frac_part(s.subrange(t + 9, s.len() - 6))
    &&& (s[s.len() - 6] == '+' || s[s.len() - 6] == '-')
    &&& is_digit(s[s.len() - 5]) && is_digit(s[s.len() - 4])
    &&& s[s.len() - 3] == ':'
    &&& is_digit(s[s.len() - 2]) && is_digit(s[s.len() - 1])
}

/// The store's timestamp encoding: some position carries the skeleton.
pub open spec fn timestamp_shape(s: Seq<char>) -> bool {
    exists|t: int| #[trigger] timestamp_point(s, t)
}

/// Decides whether every character of `s` in `from..to` is a digit.
fn seg_all_digits(s: &str, from: usize, to: usize) -> (r: bool)
    requires
        from <= to <= s@.len(),
    ensures
        r == all_digits(s@.subrange(from as int, to as int)),
{
    let mut i: usize = from;
    while i < to
        invariant
            from <= i <= to <= s@.len(),
            forall|k: int| from <= k < i ==> is_digit(#[trigger] s@[k]),
        decreases to - i,
    {
        let c = s.get_char(i);
        if !(c >= '0' && c <= '9') {
            proof {
                assert(s@.subrange(from as int, to as int)[i - from] == s@[i as int]);
            }
            return false;
        }
        i = i + 1;
    }
    proof {
        assert forall|k: int|
            0 <= k < to - from implies is_digit(
            #[trigger] s@.subrange(from as int, to as int)[k],
        ) by {
            assert(s@.subrange(from as int, to as int)[k] == s@[from + k]);
        }
    }
    true
}

/// Decides whether the skeleton stands at position `t`.
fn timestamp_point_at(s: &str, t: usize) -> (r: bool)
    requires
        t < s@.len(),
    ensures
        r == timestamp_point(s@, t as int),
{
    let n = s.unicode_len();
    if t < 10 || n < 15 || t > n - 15 {
        return false;
    }
    if s.get_char(t) != 'T' {
        return false;
    }
    let year_ok = if t - 6 == 4 {
        seg_all_digits(s, 0, 4)
    } else {
        let sign = s.get_char(0);
        (sign == '+' || sign == '-') && seg_all_digits(s, 1, t - 6)
    };
    proof {
        assert(s@.take(t - 6) =~= s@.subrange(0, t - 6));
        if t - 6 != 4 {
            assert(s@.take(t - 6).skip(1) =~= s@.subrange(1, t - 6));
        } else {
            assert(s@.take(t - 6).len() == 4);
        }
        assert(year_ok == timestamp_year_part(s@.take(t as int - 6)));
    }
    if !year_ok {
        return false;
    }
    let date_ok = s.get_char(t - 6) == '-' && digit_at(s, t - 5) && digit_at(s, t - 4)
        && s.get_char(t - 3) == '-' && digit_at(s, t - 2) && digit_at(s, t - 1);
    if !date_ok {
        return false;
    }
    let time_ok = digit_at(s, t + 1) && digit_at(s, t + 2) && s.get_char(t + 3) == ':'
        && digit_at(s, t + 4) && digit_at(s, t + 5) && s.get_char(t + 6) == ':' && digit_at(
        s,
        t + 7,
    ) && digit_at(s, t + 8);
    if !time_ok {
        return false;
    }
    let frac_ok = if t + 9 == n - 6 {
        true
    } else if t + 9 + 2 <= n - 6 && s.get_char(t + 9) == '.' {
        seg_all_digits(s, t + 10, n - 6)
    } else {
        false
    };
    proof {
        let frac = s@.subrange(t + 9, s@.len() - 6);
        if t + 9 != n - 6 {
            if t + 11 <= n - 6 && s@[t + 9] == '.' {
                assert(frac.skip(1) =~= s@.subrange(t + 10, s@.len() - 6));
                assert(frac[0] == s@[t + 9]);
            } else {
                if frac.len() >= 2 && frac[0] == '.' {
                    assert(s@[t + 9] == '.');
                }
            }
        }
        assert(frac_ok == timestamp_frac_part(frac));
    }
    if !frac_ok {
        return false;
    }
    let off_sign = s.get_char(n - 6);
    (off_sign == '+' || off_sign == '-') && digit_at(s, n - 5) && digit_at(s, n - 4)
        && s.get_char(n - 3) == ':' && digit_at(s, n - 2) && digit_at(s, n - 1)
}

/// Decides whether the character at `i` is a digit.
fn digit_at(s: &str, i: usize) -> (r: bool)
    requires
        i < s@.len(),
    ensures
        r == is_digit(s@[i as int]),
{
    let c = s.get_char(i);
    c >= '0' && c <= '9'
}

/// Decides whether `s` carries the store's timestamp encoding.
pub fn timestamp_text_ok(s: &str) -> (r: bool)
    ensures
        r == timestamp_shape(s@),
{
    let n = s.unicode_len();
    let mut t: usize = 0;
    while t < n
        invariant
            t <= n,
            n == s@.len(),
            forall|k: int| 0 <= k < t ==> !timestamp_point(s@, k),
        decreases n - t,
    {
        if timestamp_point_at(s, t) {
            return true;
        }
        t = t + 1;
    }
    proof {
        assert forall|k: int| !timestamp_point(s@, k) by {
            if 0 <= k < n {
            } else {
                if timestamp_point(s@, k) {
                    assert(10 <= k && k + 15 <= s@.len());
                    assert(false);
                }
            }
        }
    }
    false
}

/// Insertion keeps every element of the sequence, and adds the new one.
pub proof fn lemma_sorted_insert_contains<A>(s: Seq<A>, x: A, key: spec_fn(A) -> Seq<char>)
    ensures
        forall|j: int|
            0 <= j < s.len() ==> exists|k: int|
                0 <= k < sorted_insert(s, x, key).len() && sorted_insert(s, x, key)[k]
                    == #[trigger] s[j],
        exists|k: int|
            0 <= k < sorted_insert(s, x, key).len() && #[trigger] sorted_insert(s, x, key)[k]
                == x,
    decreases s.len(),
{
    if s.len() == 0 {
        assert(sorted_insert(s, x, key)[0] == x);
    } else if lex_le(key(s[0]), key(x)) {
        let df = s.drop_first();
        lemma_sorted_insert_contains(df, x, key);
        assert(sorted_insert(s, x, key)[0] == s[0]);
        assert forall|j: int| 0 <= j < s.len() implies exists|k: int|
            0 <= k < sorted_insert(s, x, key).len() && sorted_insert(s, x, key)[k] == #[trigger] s[
            j
        ] by {
            if j == 0 {
                assert(sorted_insert(s, x, key)[0] == s[0]);
            } else {
                assert(df[j - 1] == s[j]);
                let k = choose|k: int|
                    0 <= k < sorted_insert(df, x, key).len() && sorted_insert(df, x, key)[k] == df[
                    j - 1
                ];
                assert(sorted_insert(s, x, key)[k + 1] == sorted_insert(df, x, key)[k]);
            }
        }
        let kx = choose|k: int|
            0 <= k < sorted_insert(df, x, key).len() && sorted_insert(df, x, key)[k] == x;
        assert(sorted_insert(s, x, key)[kx + 1] == x);
    } else {
        assert(sorted_insert(s, x, key)[0] == x);
        assert forall|j: int| 0 <= j < s.len() implies exists|k: int|
            0 <= k < sorted_insert(s, x, key).len() && sorted_insert(s, x, key)[k] == #[trigger] s[
            j
        ] by {
            assert(sorted_insert(s, x, key)[j + 1] == s[j]);
        }
    }
}

/// Sorting keeps every element of the sequence.
pub proof fn lemma_sort_contains<A>(s: Seq<A>, key: spec_fn(A) -> Seq<char>)
    ensures
        forall|j: int|
            0 <= j < s.len() ==> exists|k: int|
                0 <= k < sort_by_key(s, key).len() && sort_by_key(s, key)[k] == #[trigger] s[j],
    decreases s.len(),
{
    if s.len() > 0 {
        let dl = s.drop_last();
        lemma_sort_contains(dl, key);
        lemma_sorted_insert_contains(sort_by_key(dl, key), s.last(), key);
        assert forall|j: int| 0 <= j < s.len() implies exists|k: int|
            0 <= k < sort_by_key(s, key).len() && sort_by_key(s, key)[k] == #[trigger] s[j] by {
            if j == s.len() - 1 {
                let k = choose|k: int|
                    0 <= k < sort_by_key(s, key).len() && #[trigger] sort_by_key(s, key)[k]
                        == s.last();
            } else {
                assert(dl[j] == s[j]);
                let w = choose|w: int|
                    0 <= w < sort_by_key(dl, key).len() && sort_by_key(dl, key)[w] == dl[j];
                let k = choose|k: int|
                    0 <= k < sort_by_key(s, key).len() && sort_by_key(s, key)[k] == sort_by_key(
                        dl,
                        key,
                    )[w];
            }
        }
    }
}

} // verus!
