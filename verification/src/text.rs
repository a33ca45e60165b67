//! Character-level text model: the whitespace class used for trimming and
//! tokenization, conversions between `&str`/`String` and `Vec<char>`, and
//! whitespace tokenization of a character sequence.

use vstd::prelude::*;
use vstd::string::StrSliceExecFns;

verus! {

/// The Unicode `White_Space` characters: the separator class for record
/// tokens and the class trimmed from the end of a framed line.
pub open spec fn is_ws_char(c: char) -> bool {
    let u = c as u32;
    ||| (0x09 <= u && u <= 0x0D)
    ||| u == 0x20
    ||| u == 0x85
    ||| u == 0xA0
    ||| u == 0x1680
    ||| (0x2000 <= u && u <= 0x200A)
    ||| u == 0x2028
    ||| u == 0x2029
    ||| u == 0x202F
    ||| u == 0x205F
    ||| u == 0x3000
}

/// Decides membership in the whitespace class.
pub fn is_ws(c: char) -> (r: bool)
    ensures
        r == is_ws_char(c),
{
    let u = c as u32;
    (0x09 <= u && u <= 0x0D) || u == 0x20 || u == 0x85 || u == 0xA0 || u == 0x1680
        || (0x2000 <= u && u <= 0x200A) || u == 0x2028 || u == 0x2029 || u == 0x202F
        || u == 0x205F || u == 0x3000
}

/// The characters of a string slice, as a vector.
pub fn str_chars(s: &str) -> (r: Vec<char>)
    ensures
        r@ == s@,
{
    let n = s.unicode_len();
    let mut r: Vec<char> = Vec::new();
    let mut i: usize = 0;
    while i < n
        invariant
            n == s@.len(),
            i <= n,
            r@ == s@.take(i as int),
        decreases n - i,
    {
        r.push(s.get_char(i));
        i = i + 1;
        proof {
            assert(s@.take(i as int) =~= s@.take(i as int - 1).push(s@[i as int - 1]));
        }
    }
    proof {
        assert(s@.take(n as int) =~= s@);
    }
    r
}

/// Relies on `core::iter::Iterator::collect` for `String`: collecting a
/// sequence of characters yields the string of exactly those characters.
#[verifier::external_body]
pub(crate) fn chars_to_string(v: &Vec<char>) -> (r: String)
    ensures
        r@ == v@,
{
    v.iter().collect()
}

/// A sequence with its trailing whitespace removed.
pub open spec fn trim_end_spec(s: Seq<char>) -> Seq<char>
    decreases s.len(),
{
    if s.len() > 0 && is_ws_char(s[s.len() - 1]) {
        trim_end_spec(s.drop_last())
    } else {
        s
    }
}

/// Removes trailing whitespace in place.
pub fn trim_end(s: &mut Vec<char>)
    ensures
        final(s)@ == trim_end_spec(old(s)@),
{
    loop
        invariant
            trim_end_spec(s@) == trim_end_spec(old(s)@),
        ensures
            s@ == trim_end_spec(old(s)@),
        decreases s.len(),
    {
        let n = s.len();
        if n == 0 {
            break;
        }
        if !is_ws(s[n - 1]) {
            break;
        }
        proof {
            assert(s@.subrange(0, s@.len() - 1) =~= s@.drop_last());
        }
        s.pop();
    }
}

/// Tokenization of `s`, continuing a partial token `cur` with finished
/// tokens `out` already emitted.
pub open spec fn tokens_rec(s: Seq<char>, cur: Seq<char>, out: Seq<Seq<char>>) -> Seq<Seq<char>>
    decreases s.len(),
{
    if s.len() == 0 {
        if cur.len() == 0 {
            out
        } else {
            out.push(cur)
        }
    } else if is_ws_char(s[0]) {
        if cur.len() == 0 {
            tokens_rec(s.drop_first(), cur, out)
        } else {
            tokens_rec(s.drop_first(), Seq::empty(), out.push(cur))
        }
    } else {
        tokens_rec(s.drop_first(), cur.push(s[0]), out)
    }
}

/// The whitespace-separated tokens of `s`, in order.
pub open spec fn tokens_of(s: Seq<char>) -> Seq<Seq<char>> {
    tokens_rec(s, Seq::empty(), Seq::empty())
}

/// A run of non-whitespace characters at the front of the input extends the
/// current token and emits nothing.
pub proof fn lemma_tokens_rec_nonws(a: Seq<char>, rest: Seq<char>, cur: Seq<char>, out: Seq<Seq<char>>)
    requires
        forall|i: int| 0 <= i < a.len() ==> !is_ws_char(a[i]),
    ensures
        tokens_rec(a + rest, cur, out) == tokens_rec(rest, cur + a, out),
    decreases a.len(),
{
    if a.len() == 0 {
        assert(a + rest =~= rest);
        assert(cur + a =~= cur);
    } else {
        assert((a + rest)[0] == a[0]);
        assert((a + rest).drop_first() =~= a.drop_first() + rest);
        lemma_tokens_rec_nonws(a.drop_first(), rest, cur.push(a[0]), out);
        assert(cur.push(a[0]) + a.drop_first() =~= cur + a);
    }
}

/// Two non-empty runs of non-whitespace characters joined by a single space
/// are exactly two tokens.
pub proof fn lemma_two_tokens(a: Seq<char>, b: Seq<char>)
    requires
        a.len() > 0,
        b.len() > 0,
        forall|i: int| 0 <= i < a.len() ==> !is_ws_char(a[i]),
        forall|i: int| 0 <= i < b.len() ==> !is_ws_char(b[i]),
    ensures
        tokens_of(a + seq![' '] + b) == seq![a, b],
{
    let mid = seq![' '] + b;
    assert(a + seq![' '] + b =~= a + mid);
    lemma_tokens_rec_nonws(a, mid, Seq::empty(), Seq::empty());
    assert(Seq::<char>::empty() + a =~= a);
    assert(is_ws_char(mid[0]));
    assert(mid.drop_first() =~= b);
    assert(tokens_rec(mid, a, Seq::empty()) == tokens_rec(b, Seq::empty(), seq![a]));
    lemma_tokens_rec_nonws(b, Seq::empty(), Seq::empty(), seq![a]);
    assert(b + Seq::<char>::empty() =~= b);
    assert(Seq::<char>::empty() + b =~= b);
    assert(seq![a].push(b) =~= seq![a, b]);
}

/// Splits a character sequence into its whitespace-separated tokens.
pub fn split_tokens(s: &Vec<char>) -> (r: Vec<Vec<char>>)
    ensures
        r.deep_view() == tokens_of(s@),
{
    let mut out: Vec<Vec<char>> = Vec::new();
    let mut cur: Vec<char> = Vec::new();
    let mut i: usize = 0;
    proof {
        assert(s@.skip(0) =~= s@);
        assert(out.deep_view() =~= Seq::<Seq<char>>::empty());
        assert(cur@ =~= Seq::<char>::empty());
    }
    while i < s.len()
        invariant
            i <= s.len(),
            tokens_rec(s@.skip(i as int), cur@, out.deep_view()) == tokens_of(s@),
        decreases s.len() - i,
    {
        let c = s[i];
        proof {
            assert(s@.skip(i as int)[0] == s@[i as int]);
            assert(s@.skip(i as int).drop_first() =~= s@.skip(i as int + 1));
        }
        if is_ws(c) {
            if cur.len() > 0 {
                let ghost old_out = out.deep_view();
                let ghost old_cur = cur@;
                out.push(cur);
                cur = Vec::new();
                proof {
                    assert(out@.last().deep_view() =~= old_cur);
                    assert(out.deep_view() =~~= old_out.push(old_cur));
                }
            }
        } else {
            cur.push(c);
        }
        i = i + 1;
    }
    proof {
        assert(s@.skip(s@.len() as int) =~= Seq::<char>::empty());
    }
    if cur.len() > 0 {
        let ghost old_out = out.deep_view();
        let ghost old_cur = cur@;
        out.push(cur);
        proof {
            assert(out@.last().deep_view() =~= old_cur);
            assert(out.deep_view() =~~= old_out.push(old_cur));
        }
    }
    out
}

} // verus!
