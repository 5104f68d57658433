use vstd::prelude::*;

verus! {

pub open spec fn has_prefix(s: Seq<char>, p: Seq<char>) -> bool {
    p.len() <= s.len() && s.subrange(0, p.len() as int) == p
}

pub open spec fn has_suffix(s: Seq<char>, p: Seq<char>) -> bool {
    p.len() <= s.len() && s.subrange(s.len() - p.len(), s.len() as int) == p
}

/// Splitting a character sequence on a separator, defined head first: the
/// result always holds one more segment than there are separators, so it is
/// never empty, and splitting the empty sequence gives one empty segment.
pub open spec fn split_seq(s: Seq<char>, sep: char) -> Seq<Seq<char>>
    decreases s.len(),
{
    if s.len() == 0 {
        seq![Seq::<char>::empty()]
    } else if s[0] == sep {
        seq![Seq::<char>::empty()] + split_seq(s.drop_first(), sep)
    } else {
        let r = split_seq(s.drop_first(), sep);
        seq![seq![s[0]] + r[0]] + r.drop_first()
    }
}

pub proof fn lemma_split_seq_len(s: Seq<char>, sep: char)
    ensures
        split_seq(s, sep).len() >= 1,
    decreases s.len(),
{
    if s.len() != 0 {
        lemma_split_seq_len(s.drop_first(), sep);
    }
}

/// Splitting at the first separator: if the first `k` characters are free of
/// the separator, the first segment is exactly those characters, and the rest
/// of the segments are the split of what follows the separator.
pub proof fn lemma_split_seq_first(s: Seq<char>, sep: char, k: int)
    requires
        0 <= k <= s.len(),
        forall|j: int| 0 <= j < k ==> s[j] != sep,
        k < s.len() ==> s[k] == sep,
    ensures
        k == s.len() ==> split_seq(s, sep) =~= seq![s],
        k < s.len() ==> split_seq(s, sep) =~= seq![s.subrange(0, k)] + split_seq(
            s.subrange(k + 1, s.len() as int),
            sep,
        ),
    decreases s.len(),
{
    lemma_split_seq_len(s, sep);
    if s.len() == 0 {
        assert(s =~= Seq::<char>::empty());
        assert(split_seq(s, sep) =~= seq![s]);
    } else if k == 0 {
        if k < s.len() {
            assert(s.drop_first() =~= s.subrange(1, s.len() as int));
            assert(s.subrange(0, 0) =~= Seq::<char>::empty());
        }
    } else {
        let t = s.drop_first();
        lemma_split_seq_first(t, sep, k - 1);
        lemma_split_seq_len(t, sep);
        if k == s.len() {
            assert(split_seq(t, sep) =~= seq![t]);
            assert(seq![s[0]] + t =~= s);
        } else {
            assert(t.subrange(0, k - 1) =~= s.subrange(1, k));
            assert(t.subrange(k, t.len() as int) =~= s.subrange(k + 1, s.len() as int));
            assert(seq![s[0]] + s.subrange(1, k) =~= s.subrange(0, k));
        }
    }
}

/// The characters of a string, one by one.
pub fn chars_of(s: &str) -> (r: Vec<char>)
    ensures
        r@ == s@,
{
    let len = s.unicode_len();
    let mut r: Vec<char> = Vec::new();
    let mut i: usize = 0;
    while i < len
        invariant
            i <= len == s@.len(),
            r@ == s@.subrange(0, i as int),
        decreases len - i,
    {
        r.push(s.get_char(i));
        i = i + 1;
    }
    assert(r@ =~= s@);
    r
}

/// Relies on std's char::from_u32: a non-surrogate code point at most
/// 0x10FFFF is exactly the character with that value.
#[verifier::external_body]
pub(crate) fn char_from_code(code: u32) -> (r: char)
    requires
        code < 0xD800 || (0xE000 <= code && code <= 0x10FFFF),
    ensures
        r == (code as int) as char,
{
    char::from_u32(code).unwrap_or(' ')
}

/// Relies on std's `FromIterator<char> for String`: collecting characters
/// builds the string made of exactly those characters.
#[verifier::external_body]
pub fn string_from_chars(v: &Vec<char>) -> (r: String)
    ensures
        r@ == v@,
{
    v.iter().collect()
}

/// Appends the characters of `s` to `dst`.
pub fn push_str_chars(dst: &mut Vec<char>, s: &str)
    ensures
        final(dst)@ == old(dst)@ + s@,
{
    let len = s.unicode_len();
    let mut i: usize = 0;
    while i < len
        invariant
            i <= len == s@.len(),
            dst@ == old(dst)@ + s@.subrange(0, i as int),
        decreases len - i,
    {
        dst.push(s.get_char(i));
        assert(dst@ =~= old(dst)@ + s@.subrange(0, i + 1));
        i = i + 1;
    }
    assert(dst@ =~= old(dst)@ + s@);
}

/// Appends a copy of the characters of `src` to `dst`.
pub fn extend_chars(dst: &mut Vec<char>, src: &Vec<char>)
    ensures
        final(dst)@ == old(dst)@ + src@,
{
    let len = src.len();
    let mut i: usize = 0;
    while i < len
        invariant
            i <= len == src@.len(),
            dst@ == old(dst)@ + src@.subrange(0, i as int),
        decreases len - i,
    {
        dst.push(src[i]);
        assert(dst@ =~= old(dst)@ + src@.subrange(0, i + 1));
        i = i + 1;
    }
    assert(dst@ =~= old(dst)@ + src@);
}

/// Whether `v` begins with the characters of `p`.
pub fn starts_with_lit(v: &Vec<char>, p: &str) -> (r: bool)
    ensures
        r == has_prefix(v@, p@),
{
    let plen = p.unicode_len();
    if plen > v.len() {
        return false;
    }
    let mut i: usize = 0;
    while i < plen
        invariant
            i <= plen == p@.len(),
            plen <= v@.len(),
            forall|j: int| 0 <= j < i ==> v@[j] == p@[j],
        decreases plen - i,
    {
        if v[i] != p.get_char(i) {
            assert(v@.subrange(0, p@.len() as int)[i as int] != p@[i as int]);
            return false;
        }
        i = i + 1;
    }
    assert(v@.subrange(0, p@.len() as int) =~= p@);
    true
}

/// Whether `v` ends with the characters of `p`.
pub fn ends_with_lit(v: &Vec<char>, p: &str) -> (r: bool)
    ensures
        r == has_suffix(v@, p@),
{
    let plen = p.unicode_len();
    let len = v.len();
    if plen > len {
        return false;
    }
    let mut i: usize = 0;
    while i < plen
        invariant
            i <= plen == p@.len(),
            plen <= len == v@.len(),
            forall|j: int| 0 <= j < i ==> v@[v@.len() - plen + j] == p@[j],
        decreases plen - i,
    {
        let idx = len - (plen - i);
        if v[idx] != p.get_char(i) {
            assert(v@.subrange(v@.len() - p@.len(), v@.len() as int)[i as int] != p@[i as int]);
            return false;
        }
        i = i + 1;
    }
    assert(v@.subrange(v@.len() - p@.len(), v@.len() as int) =~= p@);
    true
}

/// The view of each element of a vector of character vectors.
pub open spec fn views_of(parts: Seq<Vec<char>>) -> Seq<Seq<char>> {
    parts.map_values(|x: Vec<char>| x@)
}

/// Splits `v` on `sep`, matching `split_seq` exactly.
pub fn split_chars(v: &Vec<char>, sep: char) -> (r: Vec<Vec<char>>)
    ensures
        views_of(r@) == split_seq(v@, sep),
{
    let mut parts: Vec<Vec<char>> = Vec::new();
    let mut start: usize = 0;
    let mut i: usize = 0;
    let len = v.len();
    proof {
        assert(v@.subrange(0, len as int) =~= v@);
    }
    while i < len
        invariant
            start <= i <= len == v@.len(),
            forall|j: int| start <= j < i ==> v@[j] != sep,
            split_seq(v@, sep) =~= views_of(parts@) + split_seq(
                v@.subrange(start as int, len as int),
                sep,
            ),
        decreases len - i,
    {
        if v[i] == sep {
            let ghost seg = v@.subrange(start as int, len as int);
            proof {
                lemma_split_seq_first(seg, sep, i - start);
                assert(seg.subrange(0, i - start) =~= v@.subrange(start as int, i as int));
                assert(seg.subrange(i - start + 1, seg.len() as int) =~= v@.subrange(
                    i + 1,
                    len as int,
                ));
            }
            let mut piece: Vec<char> = Vec::new();
            let mut j: usize = start;
            while j < i
                invariant
                    start <= j <= i <= len == v@.len(),
                    piece@ == v@.subrange(start as int, j as int),
                decreases i - j,
            {
                piece.push(v[j]);
                assert(piece@ =~= v@.subrange(start as int, j + 1));
                j = j + 1;
            }
            parts.push(piece);
            proof {
                assert(views_of(parts@) =~= views_of(parts@.drop_last()) + seq![
                    v@.subrange(start as int, i as int),
                ]);
            }
            start = i + 1;
        }
        i = i + 1;
    }
    let ghost seg = v@.subrange(start as int, len as int);
    proof {
        lemma_split_seq_first(seg, sep, (len - start) as int);
        assert(split_seq(seg, sep) =~= seq![seg]);
    }
    let mut piece: Vec<char> = Vec::new();
    let mut j: usize = start;
    while j < len
        invariant
            start <= j <= len == v@.len(),
            piece@ == v@.subrange(start as int, j as int),
        decreases len - j,
    {
        piece.push(v[j]);
        assert(piece@ =~= v@.subrange(start as int, j + 1));
        j = j + 1;
    }
    parts.push(piece);
    proof {
        assert(views_of(parts@) =~= views_of(parts@.drop_last()) + seq![seg]);
        assert(views_of(parts@) =~= split_seq(v@, sep));
    }
    parts
}

} // verus!
