use vstd::prelude::*;
use vstd::utf8::{char_is_scalar, encode_scalar, encode_utf8};

verus! {

/// Whether `c` has the Unicode `White_Space` property, as `char::is_whitespace` decides.
pub uninterp spec fn is_white_space(c: char) -> bool;

/// Whether `c` is alphabetic or numeric in Unicode's sense, as `char::is_alphanumeric` decides.
pub uninterp spec fn is_alphanumeric(c: char) -> bool;

/// The full Unicode lowercase mapping of a string, as `str::to_lowercase` computes it.
pub uninterp spec fn lowercase(s: Seq<char>) -> Seq<char>;

/// Calls `char::is_whitespace`. Believed without proof: the result is
/// `is_white_space(c)`, a name for the Unicode `White_Space` property, which
/// depends on `c` alone.
#[verifier::external_body]
pub fn char_is_whitespace(c: char) -> (r: bool)
    ensures
        r == is_white_space(c),
{
    c.is_whitespace()
}

/// Calls `char::is_alphanumeric`. Believed without proof: the result is
/// `is_alphanumeric(c)`, a name for Unicode's Alphabetic-or-Numeric test,
/// which depends on `c` alone.
#[verifier::external_body]
pub fn char_is_alphanumeric(c: char) -> (r: bool)
    ensures
        r == is_alphanumeric(c),
{
    c.is_alphanumeric()
}

/// Calls `str::to_lowercase`. Believed without proof: the characters of the
/// result are `lowercase(s@)`, a name for Unicode's full lowercase mapping of
/// the whole string, which depends on the characters of `s` alone.
#[verifier::external_body]
pub fn str_to_lowercase(s: &str) -> (r: String)
    ensures
        r@ == lowercase(s@),
{
    s.to_lowercase()
}

/// Calls `String::push`. Believed without proof: the string afterwards is
/// the string before with `c` appended.
#[verifier::external_body]
pub fn string_push(s: &mut String, c: char)
    ensures
        final(s)@ == old(s)@.push(c),
{
    s.push(c)
}

/// The characters of a string slice, in order.
pub fn chars_of(s: &str) -> (v: Vec<char>)
    ensures
        v@ == s@,
{
    let mut v: Vec<char> = Vec::new();
    for c in it: s.chars()
        invariant
            v@ == it.seq().take(it.index() as int),
            it.seq() == s@,
    {
        v.push(c);
    }
    v
}


/// The characters `v[lo..hi]` collected into a `String`.
pub fn string_from_range(v: &Vec<char>, lo: usize, hi: usize) -> (s: String)
    requires
        lo <= hi <= v.len(),
    ensures
        s@ == v@.subrange(lo as int, hi as int),
{
    let mut s = String::new();
    let mut i = lo;
    while i < hi
        invariant
            lo <= i <= hi <= v.len(),
            s@ == v@.subrange(lo as int, i as int),
        decreases hi - i,
    {
        string_push(&mut s, v[i]);
        i += 1;
        assert(s@ =~= v@.subrange(lo as int, i as int));
    }
    s
}

/// Number of bytes in the UTF-8 encoding of `c`.
pub open spec fn utf8_width(c: char) -> nat {
    if (c as u32) < 0x80 {
        1
    } else if (c as u32) < 0x800 {
        2
    } else if (c as u32) < 0x10000 {
        3
    } else {
        4
    }
}

/// Number of bytes in the UTF-8 encoding of `s` (what `str::len` returns).
pub open spec fn utf8_len(s: Seq<char>) -> nat
    decreases s.len(),
{
    if s.len() == 0 {
        0
    } else {
        utf8_len(s.drop_last()) + utf8_width(s.last())
    }
}

/// `char::len_utf8`.
pub fn char_utf8_width(c: char) -> (w: usize)
    ensures
        w == utf8_width(c),
{
    let u = c as u32;
    if u < 0x80 {
        1
    } else if u < 0x800 {
        2
    } else if u < 0x10000 {
        3
    } else {
        4
    }
}

/// `utf8_len` grows by the width of each character appended.
pub proof fn lemma_utf8_len_take(s: Seq<char>, k: int)
    requires
        0 <= k < s.len(),
    ensures
        utf8_len(s.take(k + 1)) == utf8_len(s.take(k)) + utf8_width(s[k]),
{
    assert(s.take(k + 1).drop_last() =~= s.take(k));
}

/// The encoded length of a prefix is strictly increasing in the prefix length
/// and bounded by four bytes per character.
pub proof fn lemma_utf8_len_prefix_mono(s: Seq<char>, i: int, j: int)
    requires
        0 <= i <= j <= s.len(),
    ensures
        utf8_len(s.take(i)) + (j - i) <= utf8_len(s.take(j)),
        utf8_len(s.take(j)) <= utf8_len(s.take(i)) + 4 * (j - i),
    decreases j - i,
{
    if i < j {
        lemma_utf8_len_prefix_mono(s, i, j - 1);
        lemma_utf8_len_take(s, j - 1);
    }
}

/// Bytes of `s.take(k)`, computed as `u128` (which cannot overflow, since
/// each character takes at most four bytes).
pub fn prefix_utf8_len(s: &Vec<char>, k: usize) -> (n: u128)
    requires
        k <= s.len(),
    ensures
        n == utf8_len(s@.take(k as int)),
        n <= 4 * k,
{
    let mut n: u128 = 0;
    let mut i: usize = 0;
    while i < k
        invariant
            i <= k <= s.len(),
            n == utf8_len(s@.take(i as int)),
            n <= 4 * i,
        decreases k - i,
    {
        proof {
            lemma_utf8_len_take(s@, i as int);
        }
        n = n + char_utf8_width(s[i]) as u128;
        i += 1;
    }
    n
}

/// The character index of `s` at which byte offset `b` falls on a character
/// boundary, if it does (`b` = 0 and `b` = `utf8_len(s)` always do).
pub open spec fn boundary_index(s: Seq<char>, b: int) -> Option<int> {
    if exists|k: int| 0 <= k <= s.len() && utf8_len(#[trigger] s.take(k)) == b {
        Some(choose|k: int| 0 <= k <= s.len() && utf8_len(#[trigger] s.take(k)) == b)
    } else {
        None
    }
}

/// There is at most one character index at a given byte offset.
pub proof fn lemma_boundary_unique(s: Seq<char>, b: int, k: int)
    requires
        0 <= k <= s.len(),
        utf8_len(s.take(k)) == b,
    ensures
        boundary_index(s, b) == Some(k),
{
    let k2 = choose|k: int| 0 <= k <= s.len() && utf8_len(#[trigger] s.take(k)) == b;
    if k2 < k {
        lemma_utf8_len_prefix_mono(s, k2, k);
    } else if k < k2 {
        lemma_utf8_len_prefix_mono(s, k, k2);
    }
}

/// The character index at byte offset `b` of `s`, or `None` when `b` is not a
/// character boundary of `s` (the case where slicing `s` at `b` panics).
pub fn char_index_at_byte(s: &Vec<char>, b: u128) -> (r: Option<usize>)
    ensures
        r matches Some(k) ==> boundary_index(s@, b as int) == Some(k as int),
        r is None ==> boundary_index(s@, b as int) is None,
{
    let mut n: u128 = 0;
    let mut i: usize = 0;
    while i < s.len()
        invariant
            i <= s.len(),
            n == utf8_len(s@.take(i as int)),
            n <= 4 * i,
            n <= b,
        decreases s.len() - i,
    {
        if n == b {
            proof {
                lemma_boundary_unique(s@, b as int, i as int);
            }
            return Some(i);
        }
        proof {
            lemma_utf8_len_take(s@, i as int);
        }
        let w = char_utf8_width(s[i]) as u128;
        if n + w > b {
            proof {
                assert forall|k: int| 0 <= k <= s@.len() implies utf8_len(#[trigger] s@.take(k)) != b by {
                    if k <= i {
                        lemma_utf8_len_prefix_mono(s@, k, i as int);
                    } else {
                        lemma_utf8_len_prefix_mono(s@, i + 1, k);
                    }
                }
            }
            return None;
        }
        n = n + w;
        i += 1;
    }
    if n == b {
        proof {
            lemma_boundary_unique(s@, b as int, i as int);
        }
        Some(i)
    } else {
        proof {
            assert forall|k: int| 0 <= k <= s@.len() implies utf8_len(#[trigger] s@.take(k)) != b by {
                lemma_utf8_len_prefix_mono(s@, k, s@.len() as int);
                assert(s@.take(s@.len() as int) =~= s@);
            }
        }
        None
    }
}


/// `str::trim_end`: `s` without its trailing white space.
pub open spec fn trim_end(s: Seq<char>) -> Seq<char>
    decreases s.len(),
{
    if s.len() > 0 && is_white_space(s.last()) {
        trim_end(s.drop_last())
    } else {
        s
    }
}

/// `str::trim_start`: `s` without its leading white space.
pub open spec fn trim_start(s: Seq<char>) -> Seq<char>
    decreases s.len(),
{
    if s.len() > 0 && is_white_space(s[0]) {
        trim_start(s.drop_first())
    } else {
        s
    }
}

/// `char::is_ascii_punctuation`, as its documentation lists the ranges.
pub open spec fn is_ascii_punctuation(c: char) -> bool {
    ||| '!' <= c <= '/'
    ||| ':' <= c <= '@'
    ||| '[' <= c <= '`'
    ||| '{' <= c <= '~'
}

/// Punctuation that speech recognition appends after a spoken key name:
/// ASCII punctuation other than the apostrophe.
pub open spec fn is_trailing_punctuation(c: char) -> bool {
    is_ascii_punctuation(c) && c != '\''
}

/// `s` without its leading run of `is_trailing_punctuation` characters.
pub open spec fn trim_start_punctuation(s: Seq<char>) -> Seq<char>
    decreases s.len(),
{
    if s.len() > 0 && is_trailing_punctuation(s[0]) {
        trim_start_punctuation(s.drop_first())
    } else {
        s
    }
}

/// `char::is_ascii_punctuation` without the apostrophe.
pub fn char_is_trailing_punctuation(c: char) -> (r: bool)
    ensures
        r == is_trailing_punctuation(c),
{
    (('!' <= c && c <= '/') || (':' <= c && c <= '@') || ('[' <= c && c <= '`') || ('{' <= c
        && c <= '~')) && c != '\''
}

/// The end `e` with `v[lo..e] == trim_end(v[lo..hi])`.
pub fn trim_end_at(v: &Vec<char>, lo: usize, hi: usize) -> (e: usize)
    requires
        lo <= hi <= v.len(),
    ensures
        lo <= e <= hi,
        v@.subrange(lo as int, e as int) == trim_end(v@.subrange(lo as int, hi as int)),
        forall|i: int| e <= i < hi ==> is_white_space(#[trigger] v@[i]),
        e > lo ==> !is_white_space(v@[e - 1]),
{
    let mut e = hi;
    while e > lo && char_is_whitespace(v[e - 1])
        invariant
            lo <= e <= hi <= v.len(),
            trim_end(v@.subrange(lo as int, e as int)) == trim_end(
                v@.subrange(lo as int, hi as int),
            ),
        decreases e,
    {
        assert(v@.subrange(lo as int, e as int).drop_last() =~= v@.subrange(
            lo as int,
            e - 1,
        ));
        e -= 1;
    }
    proof {
        let w = v@.subrange(lo as int, hi as int);
        trim_end_drops_only_trailing_white_space(w);
        assert forall|i: int| e <= i < hi implies is_white_space(#[trigger] v@[i]) by {
            assert(w[i - lo] == v@[i]);
        }
        if e > lo {
            assert(w[e - 1 - lo] == v@[e - 1]);
        }
    }
    e
}

/// `trim_end` removes exactly the trailing white space: what it keeps is a
/// prefix of `s` that is empty or ends in a character that is not white
/// space, and every character it drops is white space.
pub proof fn trim_end_drops_only_trailing_white_space(s: Seq<char>)
    ensures
        trim_end(s).len() <= s.len(),
        trim_end(s) == s.take(trim_end(s).len() as int),
        trim_end(s).len() > 0 ==> !is_white_space(s[trim_end(s).len() - 1]),
        forall|i: int| trim_end(s).len() <= i < s.len() ==> is_white_space(#[trigger] s[i]),
    decreases s.len(),
{
    if s.len() > 0 && is_white_space(s.last()) {
        let d = s.drop_last();
        trim_end_drops_only_trailing_white_space(d);
        let n = trim_end(d).len() as int;
        assert(d.take(n) =~= s.take(n));
        assert forall|i: int| n <= i < s.len() implies is_white_space(#[trigger] s[i]) by {
            if i < s.len() - 1 {
                assert(d[i] == s[i]);
            }
        }
        if n > 0 {
            assert(d[n - 1] == s[n - 1]);
        }
    } else {
        assert(s.take(s.len() as int) =~= s);
    }
}

/// `trim_start` removes exactly the leading white space: what it keeps is a
/// suffix of `s` that is empty or starts with a character that is not white
/// space, and every character it drops is white space.
pub proof fn trim_start_drops_only_leading_white_space(s: Seq<char>)
    ensures
        trim_start(s).len() <= s.len(),
        trim_start(s) == s.skip(s.len() - trim_start(s).len()),
        trim_start(s).len() > 0 ==> !is_white_space(s[s.len() - trim_start(s).len()]),
        forall|i: int| 0 <= i < s.len() - trim_start(s).len() ==> is_white_space(#[trigger] s[i]),
    decreases s.len(),
{
    if s.len() > 0 && is_white_space(s[0]) {
        let d = s.drop_first();
        trim_start_drops_only_leading_white_space(d);
        let n = trim_start(d).len() as int;
        assert(d.skip(d.len() - n) =~= s.skip(s.len() - n));
        assert forall|i: int| 0 <= i < s.len() - n implies is_white_space(#[trigger] s[i]) by {
            if i > 0 {
                assert(d[i - 1] == s[i]);
            }
        }
        if n > 0 {
            assert(d[d.len() - n] == s[s.len() - n]);
        }
    } else {
        assert(s.skip(0) =~= s);
    }
}

/// The start `b` with `v[b..hi] == trim_start(v[lo..hi])`.
pub fn trim_start_at(v: &Vec<char>, lo: usize, hi: usize) -> (b: usize)
    requires
        lo <= hi <= v.len(),
    ensures
        lo <= b <= hi,
        v@.subrange(b as int, hi as int) == trim_start(v@.subrange(lo as int, hi as int)),
{
    let mut b = lo;
    while b < hi && char_is_whitespace(v[b])
        invariant
            lo <= b <= hi <= v.len(),
            trim_start(v@.subrange(b as int, hi as int)) == trim_start(
                v@.subrange(lo as int, hi as int),
            ),
        decreases hi - b,
    {
        assert(v@.subrange(b as int, hi as int).drop_first() =~= v@.subrange(
            b + 1,
            hi as int,
        ));
        b += 1;
    }
    b
}

/// The start `b` with `v[b..hi] == trim_start_punctuation(v[lo..hi])`.
pub fn trim_start_punctuation_at(v: &Vec<char>, lo: usize, hi: usize) -> (b: usize)
    requires
        lo <= hi <= v.len(),
    ensures
        lo <= b <= hi,
        v@.subrange(b as int, hi as int) == trim_start_punctuation(
            v@.subrange(lo as int, hi as int),
        ),
{
    let mut b = lo;
    while b < hi && char_is_trailing_punctuation(v[b])
        invariant
            lo <= b <= hi <= v.len(),
            trim_start_punctuation(v@.subrange(b as int, hi as int)) == trim_start_punctuation(
                v@.subrange(lo as int, hi as int),
            ),
        decreases hi - b,
    {
        assert(v@.subrange(b as int, hi as int).drop_first() =~= v@.subrange(
            b + 1,
            hi as int,
        ));
        b += 1;
    }
    b
}


/// The characters `v[lo..hi]` as a new vector.
pub fn chars_in_range(v: &Vec<char>, lo: usize, hi: usize) -> (r: Vec<char>)
    requires
        lo <= hi <= v.len(),
    ensures
        r@ == v@.subrange(lo as int, hi as int),
{
    let mut r: Vec<char> = Vec::new();
    let mut i = lo;
    while i < hi
        invariant
            lo <= i <= hi <= v.len(),
            r@ == v@.subrange(lo as int, i as int),
        decreases hi - i,
    {
        r.push(v[i]);
        i += 1;
        assert(r@ =~= v@.subrange(lo as int, i as int));
    }
    r
}


/// Trimming the start of a text leaves one of its suffixes.
pub proof fn lemma_trims_shorten(s: Seq<char>)
    ensures
        trim_start(s).len() <= s.len(),
        trim_start(s) == s.skip(s.len() - trim_start(s).len()),
        trim_start_punctuation(s).len() <= s.len(),
        trim_start_punctuation(s) == s.skip(s.len() - trim_start_punctuation(s).len()),
    decreases s.len(),
{
    if s.len() > 0 {
        lemma_trims_shorten(s.drop_first());
        let t = s.drop_first();
        assert(t.skip(t.len() - trim_start(t).len()) =~= s.skip(s.len() - trim_start(t).len()));
        assert(t.skip(t.len() - trim_start_punctuation(t).len()) =~= s.skip(
            s.len() - trim_start_punctuation(t).len(),
        ));
    } else {
        assert(s.skip(0) =~= s);
    }
}

/// A text takes at least one byte per character.
pub proof fn lemma_utf8_len_at_least_len(s: Seq<char>)
    ensures
        s.len() <= utf8_len(s),
{
    lemma_utf8_len_prefix_mono(s, 0, s.len() as int);
    assert(s.take(s.len() as int) =~= s);
}


proof fn lemma_utf8_len_first(s: Seq<char>)
    requires
        s.len() > 0,
    ensures
        utf8_len(s) == utf8_width(s[0]) + utf8_len(s.drop_first()),
    decreases s.len(),
{
    if s.len() > 1 {
        lemma_utf8_len_first(s.drop_last());
        assert(s.drop_last().drop_first() =~= s.drop_first().drop_last());
        assert(s.drop_first().last() == s.last());
        assert(utf8_len(s.drop_first()) == utf8_len(s.drop_first().drop_last()) + utf8_width(
            s.drop_first().last(),
        ));
    } else {
        assert(s.drop_first().len() == 0);
        assert(s.drop_last().len() == 0);
        assert(utf8_len(s) == utf8_len(s.drop_last()) + utf8_width(s.last()));
    }
}

/// `utf8_width` is the length of the encoding that vstd's `encode_scalar` gives.
proof fn lemma_utf8_width_encode(c: char)
    ensures
        utf8_width(c) == encode_scalar(c as u32).len(),
{
    char_is_scalar(c);
}

/// `utf8_len` is the length of vstd's UTF-8 encoding `encode_utf8`, which
/// `str::len` returns for a string slice.
pub proof fn utf8_len_is_encoded_length(s: Seq<char>)
    ensures
        utf8_len(s) == encode_utf8(s).len(),
    decreases s.len(),
{
    if s.len() > 0 {
        lemma_utf8_len_first(s);
        lemma_utf8_width_encode(s[0]);
        utf8_len_is_encoded_length(s.drop_first());
    }
}

} // verus!
