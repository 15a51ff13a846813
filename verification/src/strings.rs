use vstd::prelude::*;

verus! {

/// Lexicographic order on character sequences, by code point.
pub open spec fn lex_le(a: Seq<char>, b: Seq<char>) -> bool
    decreases a.len(),
{
    if a.len() == 0 {
        true
    } else if b.len() == 0 {
        false
    } else if (a[0] as u32) == (b[0] as u32) {
        lex_le(a.skip(1), b.skip(1))
    } else {
        (a[0] as u32) < (b[0] as u32)
    }
}

/// Lexicographic comparison of two strings.
pub fn str_lex_le(a: &str, b: &str) -> (r: bool)
    ensures
        r == lex_le(a@, b@),
{
    let a_len = a.unicode_len();
    let b_len = b.unicode_len();
    let mut i: usize = 0;
    proof {
        assert(a@.skip(0) =~= a@);
        assert(b@.skip(0) =~= b@);
    }
    loop
        invariant
            i <= a_len,
            i <= b_len,
            a_len == a@.len(),
            b_len == b@.len(),
            lex_le(a@, b@) == lex_le(a@.skip(i as int), b@.skip(i as int)),
        decreases a_len - i,
    {
        if i == a_len {
            return true;
        }
        if i == b_len {
            return false;
        }
        let ca = a.get_char(i);
        let cb = b.get_char(i);
        if (ca as u32) != (cb as u32) {
            return (ca as u32) < (cb as u32);
        }
        proof {
            assert(a@.skip(i as int).skip(1) =~= a@.skip(i + 1));
            assert(b@.skip(i as int).skip(1) =~= b@.skip(i + 1));
        }
        i = i + 1;
    }
}

/// Does `hay` end with `needle`?
pub fn str_ends_with(hay: &str, needle: &str) -> (r: bool)
    ensures
        r == needle@.is_suffix_of(hay@),
{
    let hay_len = hay.unicode_len();
    let needle_len = needle.unicode_len();
    if needle_len > hay_len {
        return false;
    }
    let offset = hay_len - needle_len;
    let mut i: usize = 0;
    while i < needle_len
        invariant
            i <= needle_len,
            needle_len <= hay_len,
            offset == hay_len - needle_len,
            hay_len == hay@.len(),
            needle_len == needle@.len(),
            forall|j: int| 0 <= j < i ==> needle@[j] == hay@[offset + j],
        decreases needle_len - i,
    {
        if needle.get_char(i) != hay.get_char(offset + i) {
            proof {
                assert(needle@[i as int] != hay@.subrange(
                    hay@.len() - needle@.len(),
                    hay@.len() as int,
                )[i as int]);
            }
            return false;
        }
        i = i + 1;
    }
    proof {
        assert(needle@ =~= hay@.subrange(hay@.len() - needle@.len(), hay@.len() as int));
    }
    true
}

/// `needle` occurs contiguously somewhere inside `hay`.
pub open spec fn contains_seq(hay: Seq<char>, needle: Seq<char>) -> bool {
    exists|k: int|
        0 <= k && k + needle.len() <= hay.len() && #[trigger] hay.subrange(k, k + needle.len())
            == needle
}

/// Substring search, as the snapshot writer needs it to classify the
/// snapshot utility's error text.
pub fn str_contains(hay: &str, needle: &str) -> (r: bool)
    ensures
        r == contains_seq(hay@, needle@),
{
    let hay_len = hay.unicode_len();
    let needle_len = needle.unicode_len();
    if needle_len > hay_len {
        return false;
    }
    if needle_len == 0 {
        proof {
            assert(hay@.subrange(0, 0 + needle@.len() as int) =~= needle@);
        }
        return true;
    }
    let mut k: usize = 0;
    while k <= hay_len - needle_len
        invariant
            1 <= needle_len <= hay_len,
            hay_len == hay@.len(),
            needle_len == needle@.len(),
            k <= hay_len - needle_len + 1,
            forall|k2: int|
                0 <= k2 < k ==> #[trigger] hay@.subrange(k2, k2 + needle@.len()) != needle@,
        decreases hay_len - needle_len + 1 - k,
    {
        let mut i: usize = 0;
        let mut matched = true;
        while i < needle_len
            invariant_except_break
                matched,
                i <= needle_len,
                k + needle_len <= hay_len,
                hay_len == hay@.len(),
                needle_len == needle@.len(),
                forall|j: int| 0 <= j < i ==> hay@[k + j] == needle@[j],
            ensures
                matched ==> (i == needle_len && forall|j: int|
                    0 <= j < i ==> hay@[k + j] == needle@[j]),
                !matched ==> hay@.subrange(k as int, k + needle@.len()) != needle@,
            decreases needle_len - i,
        {
            if hay.get_char(k + i) != needle.get_char(i) {
                proof {
                    assert(hay@.subrange(k as int, k + needle@.len())[i as int] != needle@[i as int]);
                }
                matched = false;
                break;
            }
            i = i + 1;
        }
        if matched {
            proof {
                assert(hay@.subrange(k as int, k + needle@.len()) =~= needle@);
            }
            return true;
        }
        k = k + 1;
    }
    false
}

/// The index of the first occurrence of `c` in `s`, or the length of `s`
/// when none occurs.
pub open spec fn first_index_of(s: Seq<char>, c: char) -> int
    decreases s.len(),
{
    if s.len() == 0 {
        0
    } else if s[0] == c {
        0
    } else {
        1 + first_index_of(s.skip(1), c)
    }
}

pub proof fn lemma_first_index_bounds(s: Seq<char>, c: char)
    ensures
        0 <= first_index_of(s, c) <= s.len(),
        forall|j: int| 0 <= j < first_index_of(s, c) ==> s[j] != c,
        first_index_of(s, c) < s.len() ==> s[first_index_of(s, c)] == c,
    decreases s.len(),
{
    if s.len() == 0 {
    } else if s[0] == c {
    } else {
        lemma_first_index_bounds(s.skip(1), c);
        assert forall|j: int| 0 <= j < first_index_of(s, c) implies s[j] != c by {
            if j > 0 {
                assert(s.skip(1)[j - 1] == s[j]);
            }
        }
        if first_index_of(s, c) < s.len() {
            assert(s.skip(1)[first_index_of(s.skip(1), c)] == s[first_index_of(s, c)]);
        }
    }
}

/// A scan that finds no `c` before `k`, and one at `k` or the end, has
/// found exactly `first_index_of`.
pub proof fn lemma_first_index_is(s: Seq<char>, c: char, k: int)
    requires
        0 <= k <= s.len(),
        forall|j: int| 0 <= j < k ==> s[j] != c,
        k < s.len() ==> s[k] == c,
    ensures
        first_index_of(s, c) == k,
    decreases k,
{
    if s.len() == 0 {
    } else if k == 0 {
    } else {
        assert(s.skip(1).len() == s.len() - 1);
        assert(forall|j: int| 0 <= j < k - 1 ==> #[trigger] s.skip(1)[j] == s[j + 1]);
        assert(k - 1 < s.skip(1).len() ==> s.skip(1)[k - 1] == c);
        lemma_first_index_is(s.skip(1), c, k - 1);
    }
}

/// Find `first_index_of` at run time.
pub fn find_first_index_of(s: &str, c: char) -> (r: usize)
    ensures
        r == first_index_of(s@, c),
{
    let len = s.unicode_len();
    let mut i: usize = 0;
    while i < len
        invariant
            i <= len,
            len == s@.len(),
            forall|j: int| 0 <= j < i ==> s@[j] != c,
        decreases len - i,
    {
        if s.get_char(i) == c {
            proof {
                lemma_first_index_is(s@, c, i as int);
            }
            return i;
        }
        i = i + 1;
    }
    proof {
        lemma_first_index_is(s@, c, len as int);
    }
    len
}

/// The decimal digit character for `d`.
pub open spec fn dec_digit(d: int) -> char {
    if d == 0 {
        '0'
    } else if d == 1 {
        '1'
    } else if d == 2 {
        '2'
    } else if d == 3 {
        '3'
    } else if d == 4 {
        '4'
    } else if d == 5 {
        '5'
    } else if d == 6 {
        '6'
    } else if d == 7 {
        '7'
    } else if d == 8 {
        '8'
    } else {
        '9'
    }
}

/// The decimal rendering of a non-negative integer, most significant digit
/// first, with no leading zeroes (zero itself is "0").
pub open spec fn dec_str(n: int) -> Seq<char>
    decreases n,
{
    if n < 10 {
        seq![dec_digit(n)]
    } else {
        dec_str(n / 10).push(dec_digit(n % 10))
    }
}

/// One decimal digit as a string.
pub fn digit_str(d: u64) -> (r: &'static str)
    requires
        d < 10,
    ensures
        r@ == seq![dec_digit(d as int)],
{
    proof {
        reveal_strlit("0");
        reveal_strlit("1");
        reveal_strlit("2");
        reveal_strlit("3");
        reveal_strlit("4");
        reveal_strlit("5");
        reveal_strlit("6");
        reveal_strlit("7");
        reveal_strlit("8");
        reveal_strlit("9");
    }
    let r = if d == 0 {
        "0"
    } else if d == 1 {
        "1"
    } else if d == 2 {
        "2"
    } else if d == 3 {
        "3"
    } else if d == 4 {
        "4"
    } else if d == 5 {
        "5"
    } else if d == 6 {
        "6"
    } else if d == 7 {
        "7"
    } else if d == 8 {
        "8"
    } else {
        "9"
    };
    proof {
        assert(r@ =~= seq![dec_digit(d as int)]);
    }
    r
}

/// Splitting a character sequence on `/`, accumulating the component under
/// construction: the non-empty maximal runs of non-`/` characters, in order.
pub open spec fn split_slash_acc(s: Seq<char>, cur: Seq<char>) -> Seq<Seq<char>>
    decreases s.len(),
{
    if s.len() == 0 {
        if cur.len() == 0 {
            Seq::empty()
        } else {
            seq![cur]
        }
    } else if s[0] == '/' {
        (if cur.len() == 0 {
            Seq::<Seq<char>>::empty()
        } else {
            seq![cur]
        }) + split_slash_acc(s.skip(1), Seq::empty())
    } else {
        split_slash_acc(s.skip(1), cur.push(s[0]))
    }
}

/// The components of a path written with `/` separators: empty components
/// collapse, so `"/home//alice/"` splits to `["home", "alice"]`.
pub open spec fn split_slash(s: Seq<char>) -> Seq<Seq<char>> {
    split_slash_acc(s, Seq::empty())
}

/// Parse a `/`-separated path string into its components.
pub fn parse_path(s: &str) -> (r: crate::path_rep::FsPath)
    ensures
        r@ == split_slash(s@),
{
    let len = s.unicode_len();
    let mut comps: Vec<String> = Vec::new();
    let mut cur: String = String::new();
    let mut pos: usize = 0;
    proof {
        assert(s@.skip(0) =~= s@);
    }
    while pos < len
        invariant
            pos <= len,
            len == s@.len(),
            comps.deep_view() + split_slash_acc(s@.skip(pos as int), cur@) == split_slash(s@),
        decreases len - pos,
    {
        let c = s.get_char(pos);
        let ghost cur_at_entry = cur@;
        proof {
            assert(s@.skip(pos as int)[0] == s@[pos as int]);
            assert(s@.skip(pos as int).skip(1) =~= s@.skip(pos + 1));
        }
        if c == '/' {
            proof {
                assert(split_slash_acc(s@.skip(pos as int), cur_at_entry) == (if cur_at_entry.len()
                    == 0 {
                    Seq::<Seq<char>>::empty()
                } else {
                    seq![cur_at_entry]
                }) + split_slash_acc(s@.skip(pos + 1), Seq::empty()));
            }
            if cur.unicode_len() > 0 {
                let ghost comps_dv = comps.deep_view();
                comps.push(cur);
                cur = String::new();
                proof {
                    assert(comps.deep_view() =~= comps_dv.push(cur_at_entry));
                    assert(cur@ =~= Seq::<char>::empty());
                    let t = split_slash_acc(s@.skip(pos + 1), Seq::<char>::empty());
                    assert(comps_dv.push(cur_at_entry) + t =~= comps_dv + (seq![cur_at_entry] + t));
                    assert(split_slash_acc(s@.skip(pos + 1), cur@) == t);
                    assert(comps_dv + (seq![cur_at_entry] + t) =~= comps_dv + seq![cur_at_entry]
                        + t);
                    assert(split_slash(s@) == comps_dv + (seq![cur_at_entry] + t));
                    assert(comps.deep_view() + split_slash_acc(s@.skip(pos + 1), cur@)
                        == split_slash(s@));
                }
            } else {
                proof {
                    assert(cur@ =~= Seq::<char>::empty());
                    let t = split_slash_acc(s@.skip(pos + 1), Seq::<char>::empty());
                    assert(Seq::<Seq<char>>::empty() + t =~= t);
                    assert(comps.deep_view() + split_slash_acc(s@.skip(pos + 1), cur@)
                        == split_slash(s@));
                }
            }
        } else {
            let ghost cur0 = cur@;
            let one = s.substring_char(pos, pos + 1);
            cur.append(one);
            proof {
                assert(cur@ =~= cur0.push(s@[pos as int]));
            }
        }
        pos = pos + 1;
    }
    if cur.unicode_len() > 0 {
        comps.push(cur);
        proof {
            assert(comps.deep_view() =~= split_slash(s@));
        }
    } else {
        proof {
            assert(comps.deep_view() =~= split_slash(s@));
        }
    }
    crate::path_rep::FsPath { components: comps }
}

/// The character rendering of a path: `/` for the root, else each
/// component preceded by `/`.
pub open spec fn comps_display(p: Seq<Seq<char>>) -> Seq<char>
    decreases p.len(),
{
    if p.len() == 0 {
        Seq::empty()
    } else {
        comps_display(p.drop_last()) + seq!['/'] + p.last()
    }
}

pub open spec fn path_display(p: Seq<Seq<char>>) -> Seq<char> {
    if p.len() == 0 {
        seq!['/']
    } else {
        comps_display(p)
    }
}

/// Render a path for output.
pub fn path_to_string(p: &crate::path_rep::FsPath) -> (r: String)
    ensures
        r@ == path_display(p@),
{
    proof {
        reveal_strlit("/");
    }
    if p.components.len() == 0 {
        let r = "/".to_owned();
        proof {
            assert(r@ =~= path_display(p@));
        }
        return r;
    }
    let mut out = String::new();
    let mut i: usize = 0;
    proof {
        assert(out@ =~= comps_display(p@.subrange(0, 0)));
    }
    while i < p.components.len()
        invariant
            i <= p.components@.len(),
            out@ == comps_display(p@.subrange(0, i as int)),
        decreases p.components@.len() - i,
    {
        out.append("/");
        out.append(p.components[i].as_str());
        proof {
            reveal_strlit("/");
            assert(p@.subrange(0, i + 1).drop_last() =~= p@.subrange(0, i as int));
            assert(p@.subrange(0, i + 1).last() == p@[i as int]);
            assert(out@ =~= comps_display(p@.subrange(0, i + 1)));
        }
        i = i + 1;
    }
    proof {
        assert(p@.subrange(0, p@.len() as int) =~= p@);
    }
    out
}

/// Render an unsigned integer in decimal.
pub fn u64_to_string(n: u64) -> (r: String)
    ensures
        r@ == dec_str(n as int),
    decreases n,
{
    if n < 10 {
        digit_str(n).to_owned()
    } else {
        let mut s = u64_to_string(n / 10);
        s.append(digit_str(n % 10));
        proof {
            assert(s@ =~= dec_str(n as int));
        }
        s
    }
}


/// The order is total: of two sequences, one precedes the other.
pub proof fn lemma_lex_not_le(a: Seq<char>, b: Seq<char>)
    requires
        !lex_le(a, b),
    ensures
        lex_le(b, a),
{
    lemma_lex_total(a, b);
}

pub proof fn lemma_lex_total(a: Seq<char>, b: Seq<char>)
    ensures
        lex_le(a, b) || lex_le(b, a),
    decreases a.len(),
{
    if a.len() > 0 && b.len() > 0 {
        if (a[0] as u32) == (b[0] as u32) {
            lemma_lex_total(a.skip(1), b.skip(1));
        }
    }
}

pub proof fn lemma_lex_trans(a: Seq<char>, b: Seq<char>, c: Seq<char>)
    requires
        lex_le(a, b),
        lex_le(b, c),
    ensures
        lex_le(a, c),
    decreases a.len(),
{
    if a.len() > 0 && b.len() > 0 && c.len() > 0 {
        if (a[0] as u32) == (b[0] as u32) && (b[0] as u32) == (c[0] as u32) {
            lemma_lex_trans(a.skip(1), b.skip(1), c.skip(1));
        }
    }
}

/// Some name in the listing equals `n`.
pub open spec fn name_listed(names: Seq<String>, n: Seq<char>) -> bool {
    exists|k: int| 0 <= k < names.len() && (#[trigger] names[k])@ == n
}

} // verus!
