//! Lexical trimming: stripping leading and trailing ASCII whitespace from a
//! raw token, the only normalization step of the restricted grammar variant.

use vstd::prelude::*;

verus! {

/// The four ASCII whitespace bytes that trimming removes: tab, newline,
/// carriage return, space.
pub open spec fn is_ws_byte(b: u8) -> bool {
    b == 9 || b == 10 || b == 13 || b == 32
}

/// Whitespace characters permitted between path tokens: the same four ASCII
/// codes, as characters.
pub open spec fn is_ws_char(c: char) -> bool {
    c == '\t' || c == '\n' || c == '\r' || c == ' '
}

/// `s` without its leading whitespace bytes.
pub open spec fn trim_front(s: Seq<u8>) -> Seq<u8>
    decreases s.len(),
{
    if s.len() > 0 && is_ws_byte(s[0]) {
        trim_front(s.drop_first())
    } else {
        s
    }
}

/// `s` without its trailing whitespace bytes.
pub open spec fn trim_back(s: Seq<u8>) -> Seq<u8>
    decreases s.len(),
{
    if s.len() > 0 && is_ws_byte(s[s.len() - 1]) {
        trim_back(s.drop_last())
    } else {
        s
    }
}

/// `s` without leading and trailing whitespace bytes: the content between
/// them is unchanged in bytes and order.
pub open spec fn trimmed(s: Seq<u8>) -> Seq<u8> {
    trim_back(trim_front(s))
}

/// When the bytes before `i` are all whitespace and `i` is the end or a
/// non-whitespace byte, trimming the front drops exactly the first `i` bytes.
proof fn lemma_trim_front_at(s: Seq<u8>, i: int)
    requires
        0 <= i <= s.len(),
        forall|k: int| 0 <= k < i ==> is_ws_byte(s[k]),
        i == s.len() || !is_ws_byte(s[i]),
    ensures
        trim_front(s) == s.skip(i),
    decreases i,
{
    if i == 0 {
        assert(trim_front(s) == s || s.len() > 0);
        assert(s.skip(0) =~= s);
    } else {
        lemma_trim_front_at(s.drop_first(), i - 1);
        assert(s.drop_first().skip(i - 1) =~= s.skip(i));
    }
}

/// When the bytes from `j` on are all whitespace and `j` is the start or
/// preceded by a non-whitespace byte, trimming the back keeps the first `j`.
proof fn lemma_trim_back_at(s: Seq<u8>, j: int)
    requires
        0 <= j <= s.len(),
        forall|k: int| j <= k < s.len() ==> is_ws_byte(s[k]),
        j == 0 || !is_ws_byte(s[j - 1]),
    ensures
        trim_back(s) == s.take(j),
    decreases s.len() - j,
{
    if j == s.len() {
        assert(s.take(j) =~= s);
    } else {
        lemma_trim_back_at(s.drop_last(), j);
        assert(s.drop_last().take(j) =~= s.take(j));
    }
}

/// A token without any whitespace bytes trims to itself: in particular,
/// non-ASCII content is never altered by trimming.
pub proof fn lemma_trim_no_ws_identity(s: Seq<u8>)
    requires
        forall|k: int| 0 <= k < s.len() ==> !is_ws_byte(s[k]),
    ensures
        trimmed(s) == s,
{
    lemma_trim_front_at(s, 0);
    assert(s.skip(0) =~= s);
    lemma_trim_back_at(s, s.len() as int);
    assert(s.take(s.len() as int) =~= s);
}

fn is_ws_byte_exec(b: u8) -> (r: bool)
    ensures
        r == is_ws_byte(b),
{
    b == 9 || b == 10 || b == 13 || b == 32
}

/// Strips leading and trailing ASCII whitespace (tab, newline, carriage
/// return, space) from a raw token and returns the remaining span unchanged.
/// Total: an empty or all-whitespace token yields the empty span.
pub fn trim_ascii_whitespace(s: &[u8]) -> (out: &[u8])
    ensures
        out@ == trimmed(s@),
{
    let len = s.len();
    let mut i: usize = 0;
    while i < len && is_ws_byte_exec(s[i])
        invariant
            0 <= i <= len,
            len == s@.len(),
            forall|k: int| 0 <= k < i ==> is_ws_byte(s@[k]),
        decreases len - i,
    {
        i = i + 1;
    }
    let mut j: usize = len;
    while j > i && is_ws_byte_exec(s[j - 1])
        invariant
            i <= j <= len,
            len == s@.len(),
            forall|k: int| j <= k < len ==> is_ws_byte(s@[k]),
        decreases j,
    {
        j = j - 1;
    }
    proof {
        if j == i {
            assert(i == len) by {
                if i < len {
                    assert(is_ws_byte(s@[i as int]));
                }
            }
            lemma_trim_front_at(s@, len as int);
            assert(s@.skip(len as int) =~= Seq::<u8>::empty());
            assert(trim_back(Seq::<u8>::empty()) =~= Seq::<u8>::empty());
            assert(s@.subrange(i as int, j as int) =~= Seq::<u8>::empty());
        } else {
            assert(i < len && !is_ws_byte(s@[i as int]));
            lemma_trim_front_at(s@, i as int);
            lemma_trim_back_at(s@.skip(i as int), j - i);
            assert(s@.skip(i as int).take(j - i) =~= s@.subrange(i as int, j as int));
        }
    }
    vstd::slice::slice_subrange(s, i, j)
}

} // verus!
