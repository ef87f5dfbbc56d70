//! Character and byte helpers shared by the renderers.
use vstd::prelude::*;
use vstd::string::StringSliceAdditionalSpecFns;
use vstd::utf8::{encode_scalar, encode_utf8};

verus! {

/// The decimal digits of `n`, most significant first, as ASCII bytes.
pub open spec fn decimal(n: nat) -> Seq<u8>
    decreases n,
{
    if n < 10 {
        seq![(48 + n) as u8]
    } else {
        decimal(n / 10).push((48 + n % 10) as u8)
    }
}

/// Appends the decimal digits of `n` to `out`.
pub fn push_decimal(out: &mut Vec<u8>, n: u32)
    ensures
        final(out)@ == old(out)@ + decimal(n as nat),
    decreases n,
{
    if n >= 10 {
        push_decimal(out, n / 10);
    }
    out.push((48 + n % 10) as u8);
    proof {
        if n < 10 {
            assert(old(out)@ + decimal(n as nat) =~= old(out)@.push((48 + n % 10) as u8));
        } else {
            assert(decimal(n as nat) == decimal((n / 10) as nat).push((48 + n % 10) as u8));
            assert(final(out)@ =~= old(out)@ + decimal(n as nat));
        }
    }
}

/// The decimal digits of `n`.
pub open spec fn digits(n: nat) -> Seq<char>
    decreases n,
{
    if n < 10 {
        seq![('0' as u32 + n) as char]
    } else {
        digits(n / 10).push(('0' as u32 + n % 10) as char)
    }
}

/// Appends the decimal digits of `n`.
pub fn push_digits(out: &mut Vec<char>, n: u32)
    ensures
        final(out)@ == old(out)@ + digits(n as nat),
    decreases n,
{
    if n >= 10 {
        push_digits(out, n / 10);
    }
    let d = (n % 10) as u8;
    out.push((48u8 + d) as char);
    proof {
        assert(('0' as u32 + (n % 10) as nat) as char == (48u8 + d) as char);
        if n < 10 {
            assert(old(out)@ + digits(n as nat) =~= final(out)@);
        } else {
            assert(final(out)@ =~= old(out)@ + digits(n as nat));
        }
    }
}

/// Appends all of `bytes` to `out`.
pub fn push_bytes(out: &mut Vec<u8>, bytes: &[u8])
    ensures
        final(out)@ == old(out)@ + bytes@,
{
    let n = bytes.len();
    let mut i: usize = 0;
    while i < n
        invariant
            n == bytes@.len(),
            0 <= i <= n,
            out@ == old(out)@ + bytes@.take(i as int),
        decreases n - i,
    {
        out.push(bytes[i]);
        proof {
            assert(bytes@.take(i + 1) =~= bytes@.take(i as int).push(bytes@[i as int]));
            assert(out@ =~= old(out)@ + bytes@.take(i + 1));
        }
        i = i + 1;
    }
    proof {
        assert(bytes@.take(n as int) =~= bytes@);
    }
}

/// Appends the UTF-8 encoding of `c` to `out`.
pub fn push_char_utf8(out: &mut Vec<u8>, c: char)
    ensures
        final(out)@ == old(out)@ + encode_scalar(c as u32),
{
    let v = c as u32;
    if v <= 0x7f {
        out.push((v & 0x7f) as u8);
    } else if v <= 0x7ff {
        out.push(0xc0 | ((v >> 6) & 0x1f) as u8);
        out.push(0x80 | (v & 0x3f) as u8);
    } else if v <= 0xffff {
        proof {
            vstd::utf8::char_is_scalar(c);
        }
        out.push(0xe0 | ((v >> 12) & 0x0f) as u8);
        out.push(0x80 | ((v >> 6) & 0x3f) as u8);
        out.push(0x80 | (v & 0x3f) as u8);
    } else {
        proof {
            vstd::utf8::char_is_scalar(c);
        }
        out.push(0xf0 | ((v >> 18) & 0x7) as u8);
        out.push(0x80 | ((v >> 12) & 0x3f) as u8);
        out.push(0x80 | ((v >> 6) & 0x3f) as u8);
        out.push(0x80 | (v & 0x3f) as u8);
    }
    proof {
        assert(final(out)@ =~= old(out)@ + encode_scalar(c as u32));
    }
}

/// The characters of `s`, in order.
pub(crate) fn str_chars(s: &str) -> (r: Vec<char>)
    ensures
        r@ == s@,
{
    let mut r: Vec<char> = Vec::new();
    proof {
        broadcast use vstd::string::axiom_spec_iter;
    }
    for c in it: s.chars()
        invariant
            it.seq() == s@,
            r@ == s@.take(it.index() as int),
    {
        proof {
            assert(s@.take(it.index() + 1) =~= s@.take(it.index() as int).push(c));
        }
        r.push(c);
    }
    proof {
        assert(s@.take(s@.len() as int) =~= s@);
    }
    r
}

/// `String::push`: appends `c` to the end of `s`.
#[verifier::external_body]
fn string_push(s: &mut String, c: char)
    ensures
        final(s)@ == old(s)@.push(c),
{
    s.push(c);
}

/// The string made of the characters of `cs`, in order.
pub(crate) fn chars_to_string(cs: &Vec<char>) -> (r: String)
    ensures
        r@ == cs@,
{
    let mut r = String::new();
    let n = cs.len();
    let mut i: usize = 0;
    while i < n
        invariant
            n == cs@.len(),
            0 <= i <= n,
            r@ == cs@.take(i as int),
        decreases n - i,
    {
        string_push(&mut r, cs[i]);
        proof {
            assert(cs@.take(i + 1) =~= cs@.take(i as int).push(cs@[i as int]));
        }
        i = i + 1;
    }
    proof {
        assert(cs@.take(n as int) =~= cs@);
    }
    r
}

/// `n` copies of `c`.
pub open spec fn repeat_char(c: char, n: nat) -> Seq<char> {
    Seq::new(n, |i: int| c)
}

/// Appends `n` copies of `c` to `out`.
pub fn push_repeat(out: &mut Vec<char>, c: char, n: usize)
    ensures
        final(out)@ == old(out)@ + repeat_char(c, n as nat),
{
    let mut i: usize = 0;
    while i < n
        invariant
            0 <= i <= n,
            out@ == old(out)@ + repeat_char(c, i as nat),
        decreases n - i,
    {
        out.push(c);
        proof {
            assert(out@ =~= old(out)@ + repeat_char(c, (i + 1) as nat));
        }
        i = i + 1;
    }
}

/// Appends all of `cs` to `out`.
pub fn push_chars(out: &mut Vec<char>, cs: &[char])
    ensures
        final(out)@ == old(out)@ + cs@,
{
    let n = cs.len();
    let mut i: usize = 0;
    while i < n
        invariant
            n == cs@.len(),
            0 <= i <= n,
            out@ == old(out)@ + cs@.take(i as int),
        decreases n - i,
    {
        out.push(cs[i]);
        proof {
            assert(cs@.take(i + 1) =~= cs@.take(i as int).push(cs@[i as int]));
            assert(out@ =~= old(out)@ + cs@.take(i + 1));
        }
        i = i + 1;
    }
    proof {
        assert(cs@.take(n as int) =~= cs@);
    }
}

/// The first at most `n` characters of `cs`.
pub open spec fn take_chars(cs: Seq<char>, n: nat) -> Seq<char> {
    if n <= cs.len() {
        cs.take(n as int)
    } else {
        cs
    }
}

/// Appends the first at most `n` characters of `cs` to `out`.
pub fn push_prefix(out: &mut Vec<char>, cs: &[char], n: usize)
    ensures
        final(out)@ == old(out)@ + take_chars(cs@, n as nat),
{
    let m = if n < cs.len() {
        n
    } else {
        cs.len()
    };
    let mut i: usize = 0;
    while i < m
        invariant
            m <= cs@.len(),
            m == if n <= cs@.len() { n as int } else { cs@.len() as int },
            0 <= i <= m,
            out@ == old(out)@ + cs@.take(i as int),
        decreases m - i,
    {
        out.push(cs[i]);
        proof {
            assert(cs@.take(i + 1) =~= cs@.take(i as int).push(cs@[i as int]));
            assert(out@ =~= old(out)@ + cs@.take(i + 1));
        }
        i = i + 1;
    }
    proof {
        if n > cs@.len() {
            assert(cs@.take(m as int) =~= cs@);
        }
    }
}

/// `a - b`, or 0 when `b` is larger.
pub open spec fn sat_sub(a: nat, b: nat) -> nat {
    if a >= b {
        (a - b) as nat
    } else {
        0
    }
}

/// The lines joined with newline characters between them.
pub open spec fn join_lines(ls: Seq<Seq<char>>) -> Seq<char>
    decreases ls.len(),
{
    if ls.len() == 0 {
        Seq::empty()
    } else if ls.len() == 1 {
        ls[0]
    } else {
        join_lines(ls.drop_last()) + seq!['\n'] + ls.last()
    }
}

/// Appends `line` as the next line after the lines `ls` already in `out`.
pub fn append_line(out: &mut Vec<char>, line: &[char], first: bool, Ghost(ls): Ghost<Seq<Seq<char>>>)
    requires
        old(out)@ == join_lines(ls),
        first == (ls.len() == 0),
    ensures
        final(out)@ == join_lines(ls.push(line@)),
{
    if !first {
        out.push('\n');
    }
    push_chars(out, line);
    proof {
        assert(ls.push(line@).drop_last() =~= ls);
        if ls.len() == 0 {
            assert(final(out)@ =~= line@);
        } else {
            assert(final(out)@ =~= join_lines(ls) + seq!['\n'] + line@);
        }
    }
}

/// The number of bytes of the UTF-8 encoding of `c`.
pub open spec fn utf8_width(c: char) -> nat {
    encode_scalar(c as u32).len()
}

/// The UTF-8 byte length of `s`, counted from the end.
pub open spec fn utf8_len(s: Seq<char>) -> nat
    decreases s.len(),
{
    if s.len() == 0 {
        0
    } else {
        utf8_len(s.drop_last()) + utf8_width(s.last())
    }
}

/// Each character takes at least one byte.
pub proof fn lemma_utf8_width_pos(c: char)
    ensures
        1 <= utf8_width(c) <= 4,
{
}

/// Extending a prefix by one character adds that character's width.
pub proof fn lemma_utf8_len_take_step(t: Seq<char>, k: int)
    requires
        0 <= k < t.len(),
    ensures
        utf8_len(t.take(k + 1)) == utf8_len(t.take(k)) + utf8_width(t[k]),
{
    assert(t.take(k + 1).drop_last() =~= t.take(k));
}

/// Longer prefixes take strictly more bytes.
pub proof fn lemma_utf8_len_take_mono(t: Seq<char>, i: int, j: int)
    requires
        0 <= i < j <= t.len(),
    ensures
        utf8_len(t.take(i)) < utf8_len(t.take(j)),
    decreases j - i,
{
    lemma_utf8_len_take_step(t, j - 1);
    lemma_utf8_width_pos(t[j - 1]);
    if i < j - 1 {
        lemma_utf8_len_take_mono(t, i, j - 1);
    }
}

/// Encoding a concatenation encodes each part.
pub proof fn lemma_encode_utf8_concat(a: Seq<char>, b: Seq<char>)
    ensures
        encode_utf8(a + b) == encode_utf8(a) + encode_utf8(b),
    decreases a.len(),
{
    if a.len() == 0 {
        assert(a + b =~= b);
        assert(encode_utf8(a) =~= Seq::<u8>::empty());
        assert(encode_utf8(a) + encode_utf8(b) =~= encode_utf8(b));
    } else {
        lemma_encode_utf8_concat(a.drop_first(), b);
        assert((a + b).drop_first() =~= a.drop_first() + b);
        assert((a + b)[0] == a[0]);
        assert(encode_utf8(a + b) =~= encode_utf8(a) + encode_utf8(b));
    }
}

/// `utf8_len` is the length of the UTF-8 encoding.
pub proof fn lemma_utf8_len(s: Seq<char>)
    ensures
        utf8_len(s) == encode_utf8(s).len(),
    decreases s.len(),
{
    if s.len() > 0 {
        lemma_utf8_len(s.drop_last());
        lemma_encode_utf8_concat(s.drop_last(), seq![s.last()]);
        assert(s.drop_last() + seq![s.last()] =~= s);
        assert(seq![s.last()].drop_first() =~= Seq::<char>::empty());
        assert(encode_utf8(seq![s.last()]) =~= encode_scalar(s.last() as u32) + encode_utf8(Seq::<char>::empty()));
    }
}

/// The number of bytes of the UTF-8 encoding of `c`.
pub fn char_utf8_width(c: char) -> (r: usize)
    ensures
        r == utf8_width(c),
{
    let v = c as u32;
    proof {
        vstd::utf8::char_is_scalar(c);
    }
    if v <= 0x7f {
        1
    } else if v <= 0x7ff {
        2
    } else if v <= 0xffff {
        3
    } else {
        4
    }
}

/// A prefix and the rest take the bytes of the whole.
pub proof fn lemma_utf8_len_split(t: Seq<char>, k: int)
    requires
        0 <= k <= t.len(),
    ensures
        utf8_len(t.take(k)) + utf8_len(t.skip(k)) == utf8_len(t),
{
    assert(t.take(k) + t.skip(k) =~= t);
    lemma_encode_utf8_concat(t.take(k), t.skip(k));
    lemma_utf8_len(t.take(k));
    lemma_utf8_len(t.skip(k));
    lemma_utf8_len(t);
}

/// Longer suffixes take strictly more bytes.
pub proof fn lemma_utf8_len_skip_mono(t: Seq<char>, i: int, j: int)
    requires
        0 <= i < j <= t.len(),
    ensures
        utf8_len(t.skip(i)) > utf8_len(t.skip(j)),
{
    lemma_utf8_len_split(t, i);
    lemma_utf8_len_split(t, j);
    lemma_utf8_len_take_mono(t, i, j);
}

/// A piece of text without a carriage return at its end.
pub open spec fn strip_cr(s: Seq<char>) -> Seq<char> {
    if s.len() > 0 && s.last() == '\r' {
        s.drop_last()
    } else {
        s
    }
}

/// The lines ended so far in `s`, and the piece after the last line break.
pub open spec fn line_pieces(s: Seq<char>) -> (Seq<Seq<char>>, Seq<char>)
    decreases s.len(),
{
    if s.len() == 0 {
        (Seq::empty(), Seq::empty())
    } else {
        let (ls, cur) = line_pieces(s.drop_last());
        if s.last() == '\n' {
            (ls.push(strip_cr(cur)), Seq::empty())
        } else {
            (ls, cur.push(s.last()))
        }
    }
}

/// The lines of `s` as `str::lines` gives them: split at each line break
/// (a carriage return before it is dropped), with no empty line after a
/// final break.
pub open spec fn text_lines(s: Seq<char>) -> Seq<Seq<char>> {
    let (ls, cur) = line_pieces(s);
    if cur.len() == 0 {
        ls
    } else {
        ls.push(cur)
    }
}

/// The lines of `s` (see `text_lines`).
pub fn split_lines(s: &[char]) -> (r: Vec<Vec<char>>)
    ensures
        r@.len() == text_lines(s@).len(),
        forall|i: int| 0 <= i < r@.len() ==> #[trigger] r@[i]@ == text_lines(s@)[i],
{
    let mut ls: Vec<Vec<char>> = Vec::new();
    let mut cur: Vec<char> = Vec::new();
    let n = s.len();
    let mut i: usize = 0;
    while i < n
        invariant
            n == s@.len(),
            0 <= i <= n,
            ls@.len() == line_pieces(s@.take(i as int)).0.len(),
            forall|j: int| 0 <= j < ls@.len() ==> #[trigger] ls@[j]@ == line_pieces(s@.take(i as int)).0[j],
            cur@ == line_pieces(s@.take(i as int)).1,
        decreases n - i,
    {
        proof {
            assert(s@.take(i + 1).drop_last() =~= s@.take(i as int));
            assert(s@.take(i + 1).last() == s@[i as int]);
        }
        let c = s[i];
        if c == '\n' {
            let ghost before = cur@;
            if cur.len() > 0 && cur[cur.len() - 1] == '\r' {
                cur.pop();
            }
            proof {
                assert(cur@ =~= strip_cr(before));
            }
            let mut done: Vec<char> = Vec::new();
            std::mem::swap(&mut done, &mut cur);
            ls.push(done);
            proof {
                assert(cur@ =~= Seq::<char>::empty());
            }
        } else {
            cur.push(c);
        }
        i = i + 1;
    }
    proof {
        assert(s@.take(n as int) =~= s@);
    }
    if cur.len() > 0 {
        ls.push(cur);
    }
    ls
}

/// The UTF-8 byte length of `s`.
pub fn str_byte_len(s: &str) -> (r: usize)
    ensures
        r == utf8_len(s@),
{
    let n = s.as_bytes().len();
    proof {
        lemma_utf8_len(s@);
        assert(s.spec_bytes() == encode_utf8(s@));
    }
    n
}

} // verus!
