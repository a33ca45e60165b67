//! Line framing. A framer accumulates decoded text from byte chunks and
//! yields every complete line, where a line is terminated by the two-character
//! delimiter `\r\n` and is trimmed of trailing whitespace. Bytes that arrive
//! split across chunk boundaries are carried over, so framing does not depend
//! on where the stream was cut into chunks.
//!
//! A chunk that is not valid UTF-8 is rejected whole: none of its bytes are
//! retained and the buffer is unchanged.

use vstd::prelude::*;
use vstd::utf8::{decode_utf8, valid_utf8};
use crate::text::{chars_to_string, str_chars, trim_end, trim_end_spec};

verus! {

/// True when the two-character delimiter stands at position `i` of `s`.
pub open spec fn is_delim_at(s: Seq<char>, i: int) -> bool {
    0 <= i && i + 1 < s.len() && s[i] == '\r' && s[i + 1] == '\n'
}

/// True when `s` holds a complete delimiter anywhere.
pub open spec fn has_delim(s: Seq<char>) -> bool {
    exists|i: int| is_delim_at(s, i)
}

/// The position of the first delimiter of `s`, or `s.len()` when there is
/// none.
pub open spec fn delim_pos(s: Seq<char>) -> int
    decreases s.len(),
{
    if s.len() < 2 {
        s.len() as int
    } else if s[0] == '\r' && s[1] == '\n' {
        0
    } else {
        1 + delim_pos(s.drop_first())
    }
}

/// `delim_pos` finds the first delimiter: it is in bounds exactly when a
/// delimiter exists, and nothing before it is one.
pub proof fn lemma_delim_pos(s: Seq<char>)
    ensures
        0 <= delim_pos(s) <= s.len(),
        delim_pos(s) == s.len() ==> !has_delim(s),
        delim_pos(s) < s.len() ==> delim_pos(s) + 2 <= s.len() && is_delim_at(s, delim_pos(s)),
        forall|j: int| 0 <= j < delim_pos(s) ==> !is_delim_at(s, j),
    decreases s.len(),
{
    if s.len() < 2 {
        assert forall|i: int| !is_delim_at(s, i) by {}
    } else if s[0] == '\r' && s[1] == '\n' {
    } else {
        let t = s.drop_first();
        lemma_delim_pos(t);
        assert forall|i: int| 1 <= i < s.len() implies (is_delim_at(s, i) == is_delim_at(
            t,
            i - 1,
        )) by {
            assert(i - 1 + 1 < t.len() <==> i + 1 < s.len());
        }
        if delim_pos(t) == t.len() {
            assert(delim_pos(s) == s.len());
            assert forall|i: int| !is_delim_at(s, i) by {
                if 1 <= i < s.len() {
                    assert(!is_delim_at(t, i - 1));
                }
            }
        }
    }
}

/// Only one position can be the first delimiter.
pub proof fn lemma_delim_pos_unique(s: Seq<char>, p: int)
    requires
        is_delim_at(s, p),
        forall|j: int| 0 <= j < p ==> !is_delim_at(s, j),
    ensures
        delim_pos(s) == p,
{
    lemma_delim_pos(s);
    if delim_pos(s) == s.len() {
        assert(!has_delim(s));
    } else if delim_pos(s) < p {
        assert(!is_delim_at(s, delim_pos(s)));
    } else if delim_pos(s) > p {
        assert(!is_delim_at(s, p));
    }
}

/// Framing of a buffer: every complete line, trimmed of trailing
/// whitespace, together with the text left after the last delimiter.
pub open spec fn frame_lines(s: Seq<char>) -> (Seq<Seq<char>>, Seq<char>)
    decreases s.len(),
    via frame_lines_decreases
{
    let p = delim_pos(s);
    if p == s.len() {
        (Seq::empty(), s)
    } else {
        let rest = frame_lines(s.skip(p + 2));
        (seq![trim_end_spec(s.take(p))] + rest.0, rest.1)
    }
}

#[via_fn]
proof fn frame_lines_decreases(s: Seq<char>) {
    lemma_delim_pos(s);
}

/// A buffer without a delimiter frames to no lines and is retained whole.
pub proof fn lemma_frame_lines_no_delim(s: Seq<char>)
    ensures
        !has_delim(s) ==> frame_lines(s) == (Seq::<Seq<char>>::empty(), s),
{
    lemma_delim_pos(s);
    if !has_delim(s) {
        if delim_pos(s) < s.len() {
            assert(has_delim(s));
        }
    }
}

/// After framing runs to completion, no complete delimiter is left in the
/// buffer.
pub proof fn lemma_frame_lines_remainder(s: Seq<char>)
    ensures
        !has_delim(frame_lines(s).1),
    decreases s.len(),
{
    lemma_delim_pos(s);
    let p = delim_pos(s);
    if p == s.len() {
    } else {
        lemma_frame_lines_remainder(s.skip(p + 2));
    }
}

/// Framing is chunk-boundary-invariant: framing `a + b` yields the lines of
/// `a` followed by the lines of `a`'s remainder extended with `b`, and the
/// remainder of that extension. Feeding a stream chunk by chunk therefore
/// yields the same lines as feeding it whole.
pub proof fn lemma_frame_lines_append(a: Seq<char>, b: Seq<char>)
    ensures
        frame_lines(a + b).0 =~= frame_lines(a).0 + frame_lines(frame_lines(a).1 + b).0,
        frame_lines(a + b).1 == frame_lines(frame_lines(a).1 + b).1,
    decreases a.len(),
{
    lemma_delim_pos(a);
    let p = delim_pos(a);
    if p == a.len() {
        assert(frame_lines(a).0 =~= Seq::<Seq<char>>::empty());
        assert(frame_lines(a).1 + b =~= a + b);
        assert(frame_lines(a).0 + frame_lines(a + b).0 =~= frame_lines(a + b).0);
    } else {
        let ab = a + b;
        assert(is_delim_at(ab, p)) by {
            assert(ab[p] == a[p] && ab[p + 1] == a[p + 1]);
        }
        assert forall|j: int| 0 <= j < p implies !is_delim_at(ab, j) by {
            assert(!is_delim_at(a, j));
            assert(ab[j] == a[j] && ab[j + 1] == a[j + 1]);
        }
        lemma_delim_pos_unique(ab, p);
        assert(ab.skip(p + 2) =~= a.skip(p + 2) + b);
        assert(ab.take(p) =~= a.take(p));
        lemma_frame_lines_append(a.skip(p + 2), b);
    }
}

/// The border between two self-contained valid chunks is a character
/// boundary of their concatenation.
proof fn lemma_boundary_between_chunks(c1: Seq<u8>, c2: Seq<u8>)
    requires
        valid_utf8(c1),
        valid_utf8(c2),
    ensures
        vstd::utf8::is_char_boundary(c1 + c2, c1.len() as int),
    decreases c1.len(),
{
    vstd::utf8::valid_utf8_concat(c1, c2);
    if c1.len() > 0 {
        let whole = c1 + c2;
        let l = vstd::utf8::length_of_first_scalar(c1);
        assert(whole[0] == c1[0]);
        assert(1 <= l <= c1.len());
        assert(vstd::utf8::length_of_first_scalar(whole) == l);
        assert(vstd::utf8::pop_first_scalar(whole) =~= vstd::utf8::pop_first_scalar(c1) + c2);
        assert(vstd::utf8::pop_first_scalar(c1).len() == c1.len() - l);
        lemma_boundary_between_chunks(vstd::utf8::pop_first_scalar(c1), c2);
    }
}

/// Two chunks that are each valid UTF-8 on their own decode independently:
/// the concatenation is valid and decodes to the two decodings in order.
pub proof fn lemma_utf8_chunks(c1: Seq<u8>, c2: Seq<u8>)
    requires
        valid_utf8(c1),
        valid_utf8(c2),
    ensures
        valid_utf8(c1 + c2),
        decode_utf8(c1 + c2) == decode_utf8(c1) + decode_utf8(c2),
{
    vstd::utf8::valid_utf8_concat(c1, c2);
    lemma_boundary_between_chunks(c1, c2);
    vstd::utf8::decode_utf8_split(c1 + c2, c1.len() as int);
    assert((c1 + c2).subrange(0, c1.len() as int) =~= c1);
    assert((c1 + c2).subrange(c1.len() as int, (c1 + c2).len() as int) =~= c2);
}

/// Chunk-boundary invariance at the byte level: feeding two reads that are
/// each valid UTF-8 one after the other yields exactly the lines of the
/// single combined read, with the same carry-over.
pub proof fn lemma_chunked_framing(buf: Seq<char>, c1: Seq<u8>, c2: Seq<u8>)
    requires
        valid_utf8(c1),
        valid_utf8(c2),
    ensures
        valid_utf8(c1 + c2),
        frame_lines(buf + decode_utf8(c1 + c2)).0 =~= frame_lines(buf + decode_utf8(c1)).0
            + frame_lines(frame_lines(buf + decode_utf8(c1)).1 + decode_utf8(c2)).0,
        frame_lines(buf + decode_utf8(c1 + c2)).1 == frame_lines(
            frame_lines(buf + decode_utf8(c1)).1 + decode_utf8(c2),
        ).1,
{
    lemma_utf8_chunks(c1, c2);
    lemma_frame_lines_append(buf + decode_utf8(c1), decode_utf8(c2));
    assert(buf + decode_utf8(c1 + c2) =~= (buf + decode_utf8(c1)) + decode_utf8(c2));
}

/// Relies on `alloc::string::String::from_utf8`: returns the decoded
/// characters exactly when the bytes are valid UTF-8, and rejects all other
/// inputs.
#[verifier::external_body]
pub(crate) fn utf8_to_string(bytes: Vec<u8>) -> (r: Option<String>)
    ensures
        r is Some <==> valid_utf8(bytes@),
        r matches Some(s) ==> s@ == decode_utf8(bytes@),
{
    String::from_utf8(bytes).ok()
}

/// The carry-over buffer of the line framer: all text received that has not
/// yet been resolved into a complete line.
pub struct LineFramer {
    buf: Vec<char>,
}

impl LineFramer {
    /// The buffered text.
    pub closed spec fn view(&self) -> Seq<char> {
        self.buf@
    }

    /// A fresh framer with an empty buffer.
    pub fn new() -> (r: Self)
        ensures
            r@ == Seq::<char>::empty(),
    {
        LineFramer { buf: Vec::new() }
    }

    /// Appends already-decoded text to the buffer.
    pub fn append(&mut self, text: &str)
        ensures
            final(self)@ == old(self)@ + text@,
    {
        let chars = str_chars(text);
        let mut i: usize = 0;
        while i < chars.len()
            invariant
                chars@ == text@,
                i <= chars@.len(),
                self@ == old(self)@ + text@.take(i as int),
            decreases chars@.len() - i,
        {
            self.buf.push(chars[i]);
            i = i + 1;
            proof {
                assert(text@.take(i as int) =~= text@.take(i as int - 1).push(text@[i as int - 1]));
                assert(old(self)@ + text@.take(i as int) =~= (old(self)@ + text@.take(
                    i as int - 1,
                )).push(text@[i as int - 1]));
            }
        }
        proof {
            assert(text@.take(text@.len() as int) =~= text@);
        }
    }

    /// Appends one chunk read from the transport. A chunk that is not valid
    /// UTF-8 is rejected whole: the buffer is unchanged and `false` comes
    /// back.
    pub fn append_chunk(&mut self, chunk: &[u8]) -> (accepted: bool)
        ensures
            accepted <==> valid_utf8(chunk@),
            accepted ==> final(self)@ == old(self)@ + decode_utf8(chunk@),
            !accepted ==> final(self)@ == old(self)@,
    {
        let owned = vstd::slice::slice_to_vec(chunk);
        match utf8_to_string(owned) {
            Some(s) => {
                self.append(s.as_str());
                true
            },
            None => false,
        }
    }

    /// Extracts every complete line of the buffer, trimmed of trailing
    /// whitespace, and keeps only what follows the last delimiter.
    pub fn drain_lines(&mut self) -> (lines: Vec<String>)
        ensures
            lines.deep_view() == frame_lines(old(self)@).0,
            final(self)@ == frame_lines(old(self)@).1,
            !has_delim(final(self)@),
    {
        let mut out: Vec<String> = Vec::new();
        proof {
            assert(out.deep_view() =~= Seq::<Seq<char>>::empty());
        }
        loop
            invariant
                frame_lines(old(self)@).0 =~= out.deep_view() + frame_lines(self@).0,
                frame_lines(old(self)@).1 == frame_lines(self@).1,
            ensures
                out.deep_view() == frame_lines(old(self)@).0,
                self@ == frame_lines(old(self)@).1,
            decreases self@.len(),
        {
            let p = match self.find_delim() {
                Some(p) => p,
                None => {
                    proof {
                        lemma_frame_lines_no_delim(self@);
                        assert(out.deep_view() + Seq::<Seq<char>>::empty() =~= out.deep_view());
                    }
                    break;
                },
            };
            let ghost pre = self@;
            let mut line: Vec<char> = Vec::new();
            let mut i: usize = 0;
            while i < p
                invariant
                    p + 2 <= self@.len(),
                    i <= p,
                    line@ == self@.take(i as int),
                decreases p - i,
            {
                line.push(self.buf[i]);
                i = i + 1;
                proof {
                    assert(self@.take(i as int) =~= self@.take(i as int - 1).push(
                        self@[i as int - 1],
                    ));
                }
            }
            trim_end(&mut line);
            let ghost old_out = out.deep_view();
            out.push(chars_to_string(&line));
            let nb = self.buf.len();
            proof {
                assert(p + 2 <= nb);
            }
            let tail = self.buf.split_off(p + 2);
            self.buf = tail;
            proof {
                assert(self@ =~= pre.skip(p + 2));
                assert(out@.last().deep_view() == trim_end_spec(pre.take(p as int)));
                assert(out.deep_view() =~~= old_out.push(trim_end_spec(pre.take(p as int))));
                assert(out.deep_view() + frame_lines(self@).0 =~= old_out + (seq![
                    trim_end_spec(pre.take(p as int)),
                ] + frame_lines(pre.skip(p + 2)).0));
            }
        }
        proof {
            lemma_frame_lines_remainder(old(self)@);
        }
        out
    }

    /// The position of the first delimiter of the buffer, or `None` when no
    /// complete delimiter is buffered.
    fn find_delim(&self) -> (r: Option<usize>)
        ensures
            r matches Some(p) ==> p as int == delim_pos(self@) && p + 2 <= self@.len(),
            r is None ==> delim_pos(self@) == self@.len() && !has_delim(self@),
    {
        let n = self.buf.len();
        proof {
            lemma_delim_pos(self@);
        }
        if n < 2 {
            return None;
        }
        let mut i: usize = 0;
        while i < n - 1
            invariant
                2 <= n == self@.len(),
                i <= n - 1,
                forall|j: int| 0 <= j < i ==> !is_delim_at(self@, j),
            decreases n - i,
        {
            if self.buf[i] == '\r' && self.buf[i + 1] == '\n' {
                proof {
                    lemma_delim_pos_unique(self@, i as int);
                }
                return Some(i);
            }
            i = i + 1;
        }
        proof {
            assert forall|j: int| !is_delim_at(self@, j) by {
                if 0 <= j < i {
                    assert(!is_delim_at(self@, j));
                }
            }
            if delim_pos(self@) < self@.len() {
                assert(is_delim_at(self@, delim_pos(self@)));
            }
        }
        None
    }
}

} // verus!
