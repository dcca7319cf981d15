//! Building strings in verified code.

use vstd::prelude::*;
use vstd::string::StrSliceExecFns;
use vstd::utf8::{encode_scalar, encode_utf8};

verus! {

/// The length in bytes of the UTF-8 encoding of `s`.
pub open spec fn byte_len(s: Seq<char>) -> nat {
    encode_utf8(s).len()
}

/// Appending a character appends its encoding.
pub proof fn lemma_encode_push(s: Seq<char>, c: char)
    ensures
        encode_utf8(s.push(c)) == encode_utf8(s) + encode_scalar(c as u32),
    decreases s.len(),
{
    if s.len() == 0 {
        assert(s.push(c).drop_first() =~= Seq::<char>::empty());
        assert(encode_utf8(Seq::<char>::empty()) =~= Seq::<u8>::empty());
        assert(encode_scalar(c as u32) + Seq::<u8>::empty() =~= encode_scalar(c as u32));
        assert(Seq::<u8>::empty() + encode_scalar(c as u32) =~= encode_scalar(c as u32));
    } else {
        assert(s.push(c).drop_first() =~= s.drop_first().push(c));
        lemma_encode_push(s.drop_first(), c);
        assert(encode_utf8(s.push(c)) =~= encode_scalar(s[0] as u32) + (encode_utf8(s.drop_first()) + encode_scalar(c as u32)));
    }
}

/// The byte length of a prefix grows with the prefix.
pub proof fn lemma_byte_len_prefix(s: Seq<char>, i: int, j: int)
    requires
        0 <= i <= j <= s.len(),
    ensures
        byte_len(s.take(i)) <= byte_len(s.take(j)),
    decreases j - i,
{
    if i < j {
        lemma_byte_len_prefix(s, i, j - 1);
        assert(s.take(j) =~= s.take(j - 1).push(s[j - 1]));
        lemma_encode_push(s.take(j - 1), s[j - 1]);
    }
}

/// The number of bytes in the UTF-8 encoding of `c`.
pub fn char_width(c: char) -> (r: usize)
    ensures
        r == encode_scalar(c as u32).len(),
        1 <= r <= 4,
{
    proof {
        vstd::utf8::char_is_scalar(c);
    }
    let v = c as u32;
    if v <= 0x7F {
        1
    } else if v <= 0x7FF {
        2
    } else if v <= 0xFFFF {
        3
    } else {
        4
    }
}

/// Whether `a` and `b` hold the same text.
pub fn str_eq(a: &str, b: &str) -> (r: bool)
    ensures
        r == (a@ == b@),
{
    let a2 = a.to_owned();
    let b2 = b.to_owned();
    a2 == b2
}

/// Whether `c` occurs in `s`.
pub fn str_contains(s: &str, c: char) -> (r: bool)
    ensures
        r == s@.contains(c),
{
    let n = s.unicode_len();
    let mut i: usize = 0;
    while i < n
        invariant
            i <= n,
            n == s@.len(),
            forall|j: int| 0 <= j < i ==> s@[j] != c,
        decreases n - i,
    {
        if s.get_char(i) == c {
            return true;
        }
        i = i + 1;
    }
    false
}

/// The longest prefix of `s` whose UTF-8 encoding fits in `max` bytes.
pub fn truncate_to_bytes(s: &str, max: usize) -> (r: String)
    ensures
        r@.len() <= s@.len(),
        r@ == s@.take(r@.len() as int),
        byte_len(r@) <= max,
        r@.len() == s@.len() || byte_len(s@.take(r@.len() as int + 1)) > max,
{
    let n = s.unicode_len();
    let mut out = String::new();
    let mut used: usize = 0;
    let mut i: usize = 0;
    proof {
        assert(s@.take(0) =~= Seq::<char>::empty());
        assert(encode_utf8(Seq::<char>::empty()) =~= Seq::<u8>::empty());
    }
    while i < n
        invariant
            i <= n,
            n == s@.len(),
            out@ == s@.take(i as int),
            used == byte_len(out@),
            used <= max,
        decreases n - i,
    {
        let c = s.get_char(i);
        let w = char_width(c);
        proof {
            assert(s@.take(i + 1) =~= out@.push(c));
            lemma_encode_push(out@, c);
        }
        if w > max - used {
            return out;
        }
        out.push(c);
        used = used + w;
        i = i + 1;
    }
    proof {
        assert(s@.take(n as int) =~= s@);
    }
    out
}

/// `s` without the occurrences of `c`.
pub fn without_char(s: &str, c: char) -> (r: String)
    ensures
        r@ == s@.filter(|x: char| x != c),
{
    let n = s.unicode_len();
    let mut out = String::new();
    let mut i: usize = 0;
    proof {
        reveal(Seq::filter);
        assert(s@.take(0) =~= Seq::<char>::empty());
    }
    while i < n
        invariant
            i <= n,
            n == s@.len(),
            out@ == s@.take(i as int).filter(|x: char| x != c),
        decreases n - i,
    {
        let d = s.get_char(i);
        proof {
            reveal(Seq::filter);
            assert(s@.take(i + 1).drop_last() =~= s@.take(i as int));
        }
        if d != c {
            out.push(d);
        }
        i = i + 1;
    }
    proof {
        assert(s@.take(n as int) =~= s@);
    }
    out
}

/// `String::push_str` appends `string` to `s`.
pub assume_specification[ String::push_str ](s: &mut String, string: &str)
    ensures
        final(s)@ == old(s)@ + string@,
;

/// `String::push` appends `ch` to `s`.
pub assume_specification[ String::push ](s: &mut String, ch: char)
    ensures
        final(s)@ == old(s)@.push(ch),
;

/// `prefix`, then `a`, a slash and `b` in parentheses: `prefix (a/b)`.
pub fn pair_message(prefix: &str, a: &str, b: &str) -> (r: String)
    ensures
        r@ == prefix@ + seq![' ', '('] + a@ + seq!['/'] + b@ + seq![')'],
{
    let mut s = prefix.to_owned();
    s.push(' ');
    s.push('(');
    s.push_str(a);
    s.push('/');
    s.push_str(b);
    s.push(')');
    proof {
        assert(s@ =~= prefix@ + seq![' ', '('] + a@ + seq!['/'] + b@ + seq![')']);
    }
    s
}

} // verus!
