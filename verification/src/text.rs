//! Text helpers shared by the table and model-card readers: whitespace
//! trimming, case folding and comparison against fixed keys.

use vstd::prelude::*;

verus! {

/// The Unicode `White_Space` property (what `char::is_whitespace` tests).
pub open spec fn is_white_space(c: char) -> bool {
    ||| '\u{9}' <= c && c <= '\u{d}'
    ||| c == ' '
    ||| c == '\u{85}'
    ||| c == '\u{a0}'
    ||| c == '\u{1680}'
    ||| '\u{2000}' <= c && c <= '\u{200a}'
    ||| c == '\u{2028}'
    ||| c == '\u{2029}'
    ||| c == '\u{202f}'
    ||| c == '\u{205f}'
    ||| c == '\u{3000}'
}

pub fn white_space(c: char) -> (b: bool)
    ensures
        b == is_white_space(c),
{
    ('\u{9}' <= c && c <= '\u{d}') || c == ' ' || c == '\u{85}' || c == '\u{a0}' || c == '\u{1680}'
        || ('\u{2000}' <= c && c <= '\u{200a}') || c == '\u{2028}' || c == '\u{2029}' || c == '\u{202f}'
        || c == '\u{205f}' || c == '\u{3000}'
}

/// `s` without its leading white space.
pub open spec fn trim_start(s: Seq<char>) -> Seq<char>
    decreases s.len(),
{
    if s.len() > 0 && is_white_space(s[0]) {
        trim_start(s.drop_first())
    } else {
        s
    }
}

/// `s` without its trailing white space.
pub open spec fn trim_end(s: Seq<char>) -> Seq<char>
    decreases s.len(),
{
    if s.len() > 0 && is_white_space(s.last()) {
        trim_end(s.drop_last())
    } else {
        s
    }
}

/// What `str::trim` returns: `s` without leading and trailing white space.
pub open spec fn trim_seq(s: Seq<char>) -> Seq<char> {
    trim_end(trim_start(s))
}

/// `str::trim` on a character slice.
pub fn trim_chars(c: &[char]) -> (r: Vec<char>)
    ensures
        r@ == trim_seq(c@),
{
    let len = c.len();
    let mut i: usize = 0;
    assert(c@.skip(0) =~= c@);
    while i < len && white_space(c[i])
        invariant
            i <= len,
            len == c@.len(),
            trim_start(c@) == trim_start(c@.skip(i as int)),
        decreases len - i,
    {
        assert(c@.skip(i as int).drop_first() =~= c@.skip(i + 1));
        i = i + 1;
    }
    proof {
        if i == len {
            assert(c@.skip(i as int) =~= Seq::<char>::empty());
        }
    }
    assert(trim_start(c@) == c@.subrange(i as int, len as int));
    let mut j: usize = len;
    while j > i && white_space(c[j - 1])
        invariant
            i <= j <= len,
            len == c@.len(),
            trim_end(c@.subrange(i as int, len as int)) == trim_end(c@.subrange(i as int, j as int)),
        decreases j - i,
    {
        assert(c@.subrange(i as int, j as int).drop_last() =~= c@.subrange(i as int, j - 1));
        j = j - 1;
    }
    proof {
        if j == i {
            assert(c@.subrange(i as int, j as int) =~= Seq::<char>::empty());
        }
    }
    let mut v: Vec<char> = Vec::new();
    let mut q: usize = i;
    while q < j
        invariant
            i <= q <= j <= len,
            len == c@.len(),
            v@ == c@.subrange(i as int, q as int),
        decreases j - q,
    {
        v.push(c[q]);
        q = q + 1;
        assert(v@ =~= c@.subrange(i as int, q as int));
    }
    v
}

/// What `str::to_lowercase` returns for `s` (Unicode case mapping).
pub uninterp spec fn lowercased(s: Seq<char>) -> Seq<char>;

/// `str::to_lowercase` on a character slice. The result is named by
/// `lowercased`; nothing more about it is stated here.
#[verifier::external_body]
pub fn lowercase_chars(c: &[char]) -> (r: String)
    ensures
        r@ == lowercased(c@),
{
    let s: String = c.iter().collect();
    s.to_lowercase()
}

/// The characters of a string.
pub fn chars_of(s: &str) -> (v: Vec<char>)
    ensures
        v@ == s@,
{
    let len = s.unicode_len();
    let mut v: Vec<char> = Vec::new();
    let mut i: usize = 0;
    while i < len
        invariant
            len == s@.len(),
            i <= len,
            v@ == s@.take(i as int),
        decreases len - i,
    {
        v.push(s.get_char(i));
        i = i + 1;
    }
    assert(s@.take(len as int) =~= s@);
    v
}

/// The string holding exactly the characters `c` (`String::from_iter`).
#[verifier::external_body]
pub fn string_of(c: &[char]) -> (r: String)
    ensures
        r@ == c@,
{
    c.iter().collect()
}

/// The lower-cased form of a key.
pub fn lowercase_key(key: &str) -> (r: String)
    ensures
        r@ == lowercased(key@),
{
    let c = chars_of(key);
    lowercase_chars(c.as_slice())
}

/// Whether `k` spells the key `lit`.
pub fn is_key(k: &String, lit: &str) -> (b: bool)
    ensures
        b == (k@ == lit@),
{
    *k == String::from_str(lit)
}

} // verus!
