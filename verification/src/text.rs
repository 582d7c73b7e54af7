//! Text helpers: Unicode white-space trimming and the short preview shown
//! for a clipboard entry.

use vstd::prelude::*;
use vstd::string::*;

verus! {

broadcast use vstd::string::group_string_axioms;

/// The Unicode `White_Space` property, the set of characters that
/// `char::is_whitespace` (and so `str::trim`) treats as white space.
pub open spec fn is_white_space(c: char) -> bool {
    ||| ('\u{9}' <= c && c <= '\u{d}')
    ||| c == ' '
    ||| c == '\u{85}'
    ||| c == '\u{a0}'
    ||| c == '\u{1680}'
    ||| ('\u{2000}' <= c && c <= '\u{200a}')
    ||| c == '\u{2028}'
    ||| c == '\u{2029}'
    ||| c == '\u{202f}'
    ||| c == '\u{205f}'
    ||| c == '\u{3000}'
}

/// `s` without its leading white space.
pub open spec fn trim_start(s: Seq<char>) -> Seq<char>
    decreases s.len(),
{
    if s.len() > 0 && is_white_space(s[0]) {
        trim_start(s.drop_first())
    } else {
        s
    }
}

/// `s` without its trailing white space.
pub open spec fn trim_end(s: Seq<char>) -> Seq<char>
    decreases s.len(),
{
    if s.len() > 0 && is_white_space(s.last()) {
        trim_end(s.drop_last())
    } else {
        s
    }
}

/// `s` without leading and trailing white space, as `str::trim` gives it.
pub open spec fn trim(s: Seq<char>) -> Seq<char> {
    trim_end(trim_start(s))
}

/// The three dots that mark a cut preview.
pub open spec fn ellipsis() -> Seq<char> {
    seq!['.', '.', '.']
}

/// The preview of `content`: the trimmed text when it has at most
/// `max_chars` characters, otherwise its first `max_chars` characters
/// followed by three dots.
pub open spec fn preview_of(content: Seq<char>, max_chars: nat) -> Seq<char> {
    let t = trim(content);
    if t.len() <= max_chars {
        t
    } else {
        t.take(max_chars as int) + ellipsis()
    }
}

/// Whether `c` is white space in the sense of `is_white_space`.
pub fn is_white_space_char(c: char) -> (r: bool)
    ensures
        r == is_white_space(c),
{
    ('\u{9}' <= c && c <= '\u{d}') || c == ' ' || c == '\u{85}' || c == '\u{a0}' || c == '\u{1680}'
        || ('\u{2000}' <= c && c <= '\u{200a}') || c == '\u{2028}' || c == '\u{2029}' || c
        == '\u{202f}' || c == '\u{205f}' || c == '\u{3000}'
}

/// Dropping `k` leading white-space characters does not change `trim_start`.
proof fn lemma_trim_start_skip(s: Seq<char>, k: int)
    requires
        0 <= k <= s.len(),
        forall|i: int| 0 <= i < k ==> is_white_space(#[trigger] s[i]),
    ensures
        trim_start(s) == trim_start(s.skip(k)),
    decreases k,
{
    if k > 0 {
        assert(s.drop_first().skip(k - 1) =~= s.skip(k));
        lemma_trim_start_skip(s.drop_first(), k - 1);
    } else {
        assert(s.skip(0) =~= s);
    }
}

/// Dropping `k` trailing white-space characters does not change `trim_end`.
proof fn lemma_trim_end_take(s: Seq<char>, k: int)
    requires
        0 <= k <= s.len(),
        forall|i: int| k <= i < s.len() ==> is_white_space(#[trigger] s[i]),
    ensures
        trim_end(s) == trim_end(s.take(k)),
    decreases s.len() - k,
{
    if k < s.len() {
        assert(s.drop_last().take(k) =~= s.take(k));
        lemma_trim_end_take(s.drop_last(), k);
    } else {
        assert(s.take(k) =~= s);
    }
}

/// The trimmed text is the slice between the first and after the last
/// character that is not white space.
proof fn lemma_trim_slice(s: Seq<char>, lo: int, hi: int)
    requires
        0 <= lo <= hi <= s.len(),
        forall|i: int| 0 <= i < lo ==> is_white_space(#[trigger] s[i]),
        forall|i: int| hi <= i < s.len() ==> is_white_space(#[trigger] s[i]),
        lo < hi ==> !is_white_space(s[lo]) && !is_white_space(s[hi - 1]),
        lo == hi ==> hi == s.len(),
    ensures
        trim(s) == s.subrange(lo, hi),
{
    lemma_trim_start_skip(s, lo);
    let t = s.skip(lo);
    if lo < hi {
        assert(t[0] == s[lo]);
        assert(trim_start(t) == t);
        lemma_trim_end_take(t, hi - lo);
        assert(t.take(hi - lo) =~= s.subrange(lo, hi));
        let u = t.take(hi - lo);
        assert(u.last() == s[hi - 1]);
        assert(trim_end(u) == u);
    } else {
        assert(t =~= Seq::<char>::empty());
        assert(trim_start(t) == t);
        assert(trim_end(t) == t);
        assert(s.subrange(lo, hi) =~= Seq::<char>::empty());
    }
}

/// The characters of `s`, one by one.
fn chars_of(s: &str) -> (v: Vec<char>)
    ensures
        v@ == s@,
{
    let mut v: Vec<char> = Vec::new();
    for c in it: s.chars()
        invariant
            v@ == it.seq().take(it.index()),
            it.seq() == s@,
    {
        v.push(c);
    }
    v
}

/// A one-line preview of `content`: white space trimmed at both ends, and
/// cut to `max_chars` characters followed by `...` when it is longer.
pub fn make_preview(content: &str, max_chars: usize) -> (preview: String)
    ensures
        preview@ == preview_of(content@, max_chars as nat),
{
    let chars = chars_of(content);
    let n = chars.len();
    let mut lo: usize = 0;
    while lo < n && is_white_space_char(chars[lo])
        invariant
            lo <= n,
            n == chars@.len(),
            forall|i: int| 0 <= i < lo ==> is_white_space(#[trigger] chars@[i]),
        decreases n - lo,
    {
        lo = lo + 1;
    }
    let mut hi: usize = n;
    while hi > lo && is_white_space_char(chars[hi - 1])
        invariant
            lo <= hi <= n,
            n == chars@.len(),
            forall|i: int| hi <= i < n ==> is_white_space(#[trigger] chars@[i]),
        decreases hi,
    {
        hi = hi - 1;
    }
    proof {
        lemma_trim_slice(content@, lo as int, hi as int);
    }
    let count = hi - lo;
    if count <= max_chars {
        String::from_str(content.substring_char(lo, hi))
    } else {
        let mut cut = String::from_str(content.substring_char(lo, lo + max_chars));
        let dots = "...";
        proof {
            reveal_strlit("...");
        }
        cut.append(dots);
        assert(content@.subrange(lo as int, lo + max_chars) =~= content@.subrange(
            lo as int,
            hi as int,
        ).take(max_chars as int));
        assert(dots@ =~= ellipsis());
        cut
    }
}

} // verus!
